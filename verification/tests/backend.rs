//! What the memory backend reports.

use reclass::memory::MemError;
use reclass::processes::{
    list_processes, map_err, process_name, region_from, select_backend, BackendError, Mapping,
    ProcEntry,
};

#[test]
fn processes_are_listed_by_id() {
    let entry = |n: &str, c: Option<&str>| ProcEntry {
        dir: n.to_string(),
        comm: c.map(|s| s.to_string()),
    };
    let v = list_processes(&vec![
        entry("42", Some("game\n")),
        entry("self", Some("x")),
        entry("7", Some("init")),
        entry("9", None),
    ]);
    let got: Vec<(i32, &str)> = v.iter().map(|p| (p.pid, p.name.as_str())).collect();
    assert_eq!(got[0], (7, "init"));
    assert!(got.contains(&(42, "game")));
    assert!(got.iter().all(|p| p.1 != "x"));
    assert_eq!(process_name(Some(" a \n".to_string())).as_deref(), Some("a"));
    assert_eq!(process_name(Some("\n".to_string())), None);
    assert_eq!(process_name(None), None);
    assert_eq!(select_backend(true), "kernel");
    assert_eq!(select_backend(false), "syscall");
}

#[test]
fn errors_are_mapped() {
    assert!(matches!(map_err(BackendError::Permission), MemError::Permission));
    assert!(matches!(
        map_err(BackendError::ProcessNotFound),
        MemError::NoProcess
    ));
    assert!(matches!(
        map_err(BackendError::Partial {
            addr: 0x10,
            wanted: 8
        }),
        MemError::Unmapped { addr: 0x10, len: 8 }
    ));
    match map_err(BackendError::ModuleNotFound {
        module: "m".to_string(),
    }) {
        MemError::Backend(e) => assert_eq!(e, "module 'm' not found"),
        other => panic!("{other:?}"),
    }
}

#[test]
fn a_mapping_becomes_a_region() {
    let r = region_from(Mapping {
        start: 0x1000,
        end: 0x2000,
        readable: true,
        writable: false,
        executable: true,
        perms: "r-xp".to_string(),
        path: Some("/lib/a.so".to_string()),
    });
    assert!(r.perms.read && !r.perms.write && r.perms.execute && !r.perms.shared);
    assert!(r.contains(0x1fff) && !r.contains(0x2000));
    assert_eq!(r.perms.text(), "r-xp");
}

#[test]
fn a_mapping_is_shared_by_its_fourth_byte() {
    let shared = |perms: &str| {
        region_from(Mapping {
            start: 0,
            end: 1,
            readable: false,
            writable: true,
            executable: false,
            perms: perms.to_string(),
            path: None,
        })
        .perms
        .shared
    };
    assert!(shared("rw-s") && shared("---s-"));
    assert!(!shared("rw-p") && !shared("rws") && !shared(""));
    // a wide character takes two of the bytes
    assert!(shared("r\u{e9}s"));
    assert!(!shared("r-\u{e9}s"));
}
