//! The pointer scan's job.

use reclass::gui::Action;
use reclass::scan::{
    results_heading, scanned, use_path, PointerPath, ScanConfig, ScanJob, ScanState, ScanView,
};

fn config() -> ScanConfig {
    ScanConfig {
        max_depth: 4,
        max_offset: 0x400,
        max_results: 64,
        pointer_bytes: 8,
    }
}

fn path() -> PointerPath {
    PointerPath {
        module: "a.so".into(),
        base_offset: 0,
        offsets: Vec::new(),
    }
}

#[test]
fn a_fresh_job_is_idle_and_carries_the_core_defaults() {
    let d = config();
    let j = ScanJob::new(&d);
    assert!(!j.running());
    assert!(!j.open);
    assert_eq!(j.depth, d.max_depth);
    assert_eq!(j.max_offset, d.max_offset);
    assert_eq!(j.max_results, d.max_results);
}

#[test]
fn abandoning_clears_the_result_and_disowns_the_worker() {
    let mut j = ScanJob::new(&config());
    j.state = ScanState::Done(vec![path()]);
    j.abandon();
    assert!(matches!(j.state, ScanState::Idle));
    assert!(j.abandoned);
}

#[test]
fn a_disowned_worker_cannot_overwrite_a_later_state() {
    // A second run started while the first is in flight is not disowned by the
    // first one's abandonment.
    let mut j = ScanJob::new(&config());
    let first = j.start();
    let second = j.start();
    assert!(
        !j.report(first, ScanState::Failed("late".into())),
        "the old worker is disowned"
    );
    assert!(j.running());
    assert!(
        j.report(second, ScanState::Done(Vec::new())),
        "the new worker is not"
    );
    j.abandon();
    assert!(!j.report(second, ScanState::Done(Vec::new())));
}

#[test]
fn a_scan_is_launched_with_the_bounds_set() {
    let mut j = ScanJob::new(&config());
    assert_eq!(
        j.launch(Err("bad address".into()), 8).unwrap_err(),
        "scan target: bad address"
    );
    assert!(!j.running());
    j.set_bounds(20, 0x20000, 0);
    let l = j.launch(Ok(0x7f00), 4).unwrap();
    assert_eq!(l.target, 0x7f00);
    assert_eq!(l.config.max_depth, 8);
    assert_eq!(l.config.max_offset, 0x10000);
    assert_eq!(l.config.max_results, 1);
    assert_eq!(l.config.pointer_bytes, 4);
    assert_eq!(j.shows(), ScanView::Scanning);
    assert!(j.report(l.worker, scanned(Ok(()), Ok(vec![path()]))));
    assert_eq!(j.shows(), ScanView::Paths);
    let l = j.launch(Ok(1), 8).unwrap();
    j.report(l.worker, scanned(Ok(()), Ok(Vec::new())));
    assert_eq!(j.shows(), ScanView::NoPath);
    let l = j.launch(Ok(1), 8).unwrap();
    j.report(l.worker, scanned(Err("denied".into()), Ok(Vec::new())));
    assert_eq!(j.shows(), ScanView::Failed);
    match &j.state {
        ScanState::Failed(e) => assert_eq!(e, "attach: denied"),
        other => panic!("{other:?}"),
    }
    j.abandon();
    assert_eq!(j.shows(), ScanView::NotRun);
}

#[test]
fn a_path_is_taken_for_the_selected_class() {
    assert_eq!(results_heading(3), "3 path(s), shortest first:");
    match use_path(Some(2), "[<a.so>]+0x8") {
        Some(Action::SetExpr(2, e)) => assert_eq!(e, "[<a.so>]+0x8"),
        other => panic!("{other:?}"),
    }
    assert!(use_path(None, "x").is_none());
}
