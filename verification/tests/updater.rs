use std::sync::{Arc, Mutex};

use reclass::updater::{
    current, format_version, install, parse_release, parse_version, Status, Updater, PKG_VERSION,
};

#[test]
fn parses_tag_shapes() {
    assert_eq!(parse_version("v0.3.1"), Some((0, 3, 1)));
    assert_eq!(parse_version("0.3.1"), Some((0, 3, 1)));
    assert_eq!(parse_version("v0.1.0-beta"), Some((0, 1, 0)));
    assert_eq!(parse_version("v1.2"), Some((1, 2, 0)));
    assert_eq!(parse_version("v1.2.3.4"), None);
    assert_eq!(parse_version("nightly"), None);
}

#[test]
fn version_order_drives_the_offer() {
    assert!(parse_version("v0.4.0") > parse_version("v0.3.1"));
    assert!(parse_version("v0.3.2") > parse_version("v0.3.1"));
    assert!(parse_version("v0.3.1") == parse_version("v0.3.1"));
    // a pre-release of the version we run is not an upgrade
    assert!(parse_version("v0.3.1-rc1") <= parse_version("v0.3.1"));
}

#[test]
fn current_version_is_the_crate_version() {
    assert_eq!(current(), parse_version(PKG_VERSION).unwrap());
}

#[test]
fn install_is_inert_until_a_release_is_offered() {
    let mut up = Updater::new();
    assert_eq!(up.status(), Status::Idle);
    assert!(up.install().is_none());
    assert_eq!(up.status(), Status::Idle);
}

#[test]
fn a_version_reads_back_as_written() {
    assert_eq!(format_version((1, 20, 300)), "v1.20.300");
    assert_eq!(parse_version(&format_version((1, 20, 300))), Some((1, 20, 300)));
}

// Three hashes: the body itself contains `"##`, which would close `r##"`.
const SAMPLE: &str = r###"{
    "tag_name": "v0.9.2",
    "body": "## Changes since v0.9.1\n\n* fix: a thing\n",
    "assets": [
        {"name": "reclass-linux-x86_64.tar.gz.sha256",
         "browser_download_url": "https://example.invalid/sha"},
        {"name": "reclass-linux-x86_64.tar.gz",
         "browser_download_url": "https://example.invalid/tar"}
    ]
}"###;

#[test]
fn picks_the_tarball_asset() {
    let rel = parse_release(SAMPLE).unwrap();
    assert_eq!(rel.tag, "v0.9.2");
    assert_eq!(rel.version, (0, 9, 2));
    assert_eq!(
        rel.asset_url.as_deref(),
        Some("https://example.invalid/tar")
    );
    assert!(rel.notes.starts_with("## Changes since v0.9.1"));
}

// An asset-less release must still yield a version, so an older published
// release can answer "up to date" instead of erroring out.
#[test]
fn a_release_without_our_asset_still_parses_but_cannot_install() {
    let json = r#"{"tag_name": "v1.0.0", "assets": []}"#;
    let rel = parse_release(json).unwrap();
    assert_eq!(rel.version, (1, 0, 0));
    assert_eq!(rel.asset_url, None);
    let err = install(&rel).unwrap_err().to_string();
    assert!(err.contains("publishes no"), "{err}");
}

#[test]
fn rejects_an_unparsable_tag() {
    let json = r#"{"tag_name": "nightly", "assets": []}"#;
    assert!(parse_release(json).is_err());
}

#[test]
fn rejects_what_is_no_json() {
    assert!(parse_release("<html>").is_err());
    assert!(parse_release("{}").is_err());
}

#[test]
fn an_offer_is_made_only_for_a_newer_release() {
    let mut up = Updater::new();
    assert!(up.check());
    assert_eq!(up.status(), Status::Checking);
    // a second check while one is in flight starts nothing
    assert!(!up.check());
    let (major, minor, patch) = current();
    let json = format!(
        "{{\"tag_name\": \"v{major}.{minor}.{patch}\", \"assets\": []}}"
    );
    up.checked(parse_release(&json));
    assert_eq!(up.status(), Status::UpToDate);

    assert!(up.check());
    up.checked(parse_release(SAMPLE.replace("v0.9.2", "v999.0.0").as_str()));
    match up.status() {
        Status::Available(rel) => assert_eq!(rel.version, (999, 0, 0)),
        other => panic!("{other:?}"),
    }
    let rel = up.install().unwrap();
    assert_eq!(up.status(), Status::Installing);
    assert_eq!(install(&rel).unwrap(), "https://example.invalid/tar");
    up.installed(rel.version, Ok(()));
    assert_eq!(up.status(), Status::Installed((999, 0, 0)));
    up.reset();
    assert_eq!(up.status(), Status::Idle);
}

#[test]
fn a_failed_check_is_reported() {
    let mut up = Updater::new();
    up.check();
    up.checked(Err("curl: (6) could not resolve host".to_string()));
    match up.status() {
        Status::Failed(e) => assert!(e.contains("could not resolve host"), "{e}"),
        other => panic!("{other:?}"),
    }
}

#[test]
fn what_stands_behind_a_mark_does_not_count() {
    for text in ["v1.2.3", " 1.2", "vv7", "", "x", "1.2.3.4", "2.0-rc"] {
        for suffix in ["-beta", "+build 7 ", "-", "+1.2-3", "-\t"] {
            assert_eq!(parse_version(&format!("{text}{suffix}")), parse_version(text));
        }
    }
    assert_eq!(parse_version("v1.2.3+a-b "), Some((1, 2, 3)));
    assert_eq!(parse_version("1.2.3.4-rc"), None);
}

#[test]
fn clones_of_a_handle_share_one_status() {
    let up = Arc::new(Mutex::new(Updater::new()));
    let clone = up.clone();
    assert!(up.lock().unwrap().check());
    assert_eq!(clone.lock().unwrap().status(), Status::Checking);
    clone.lock().unwrap().checked(Err("offline".to_string()));
    assert_eq!(up.lock().unwrap().status(), Status::Failed("offline".to_string()));
    up.lock().unwrap().reset();
    assert_eq!(up.lock().unwrap().status(), Status::Idle);
    assert_eq!(clone.lock().unwrap().status(), Status::Idle);
    clone.lock().unwrap().reset();
    assert_eq!(up.lock().unwrap().status(), Status::Idle);
}
