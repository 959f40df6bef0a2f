//! The access tracker's decisions.

use reclass::tracker::{watch, Access, Ask, Event, Look, Request, Stop, TrackError};

#[test]
fn a_watch_is_checked_before_it_begins() {
    assert_eq!(
        watch(0x1000, 3, Access::Write, 0).unwrap_err(),
        TrackError::Size(3)
    );
    let e = watch(0x1002, 4, Access::Write, 0).unwrap_err();
    assert_eq!(
        e,
        TrackError::Align {
            addr: 0x1002,
            size: 4
        }
    );
    assert_eq!(
        e.message(),
        "watch address 0x1002 is not aligned to size 4"
    );
    assert_eq!(
        TrackError::Size(3).message(),
        "unsupported watch size 3 (must be 1, 2, 4, or 8)"
    );
    // LEN0 in bits 18-19, RW0 in bits 16-17, enable in bit 0
    assert_eq!(watch(8, 8, Access::Write, 0).unwrap().dr7, 0x90001);
    assert_eq!(watch(4, 4, Access::ReadWrite, 0).unwrap().dr7, 0xF0001);
    assert_eq!(watch(1, 1, Access::Write, 0).unwrap().dr7, 0x10001);
}

#[test]
fn a_write_is_captured() {
    let mut w = watch(0x1000, 8, Access::Write, 1).unwrap();
    assert_eq!(w.step(Event::Requested(None)), Ask::PokeAddress(0x1000));
    assert_eq!(w.step(Event::Requested(None)), Ask::PokeControl(0x90001));
    assert_eq!(w.step(Event::Requested(None)), Ask::Resume(0));
    assert_eq!(w.step(Event::Resumed(true)), Ask::Look);
    assert_eq!(w.step(Event::Looked(Look::Running, false)), Ask::Pause);
    // a signal of the target's own is forwarded
    assert_eq!(
        w.step(Event::Looked(Look::Stopped(Stop::Signal(10)), false)),
        Ask::Clock
    );
    assert_eq!(w.step(Event::Clock(false)), Ask::Resume(10));
    assert_eq!(w.step(Event::Resumed(true)), Ask::Look);
    assert_eq!(
        w.step(Event::Looked(Look::Stopped(Stop::Trap), false)),
        Ask::ReadStatus
    );
    assert_eq!(w.step(Event::Status(1)), Ask::ReadRip);
    assert_eq!(
        w.step(Event::Rip(Some(0x401000))),
        Ask::Finish { detach: true }
    );
    let hits = w.outcome().unwrap();
    assert_eq!(hits.len(), 1);
    assert_eq!(hits[0].rip, 0x401000);
}

#[test]
fn a_quiet_address_ends_with_the_time() {
    let mut w = watch(0x1000, 8, Access::Write, 0).unwrap();
    for _ in 0..3 {
        w.step(Event::Requested(None));
    }
    w.step(Event::Resumed(true));
    assert_eq!(w.step(Event::Looked(Look::Running, true)), Ask::Halt);
    assert_eq!(
        w.step(Event::Halted(Some(Stop::Halt))),
        Ask::Finish { detach: true }
    );
    assert!(w.outcome().unwrap().is_empty());
}

#[test]
fn failures_are_reported_and_leave_nothing_attached() {
    let mut w = watch(0x1000, 8, Access::Write, 0).unwrap();
    assert_eq!(
        w.step(Event::Requested(Some(1))),
        Ask::Finish { detach: false }
    );
    let e = w.outcome().unwrap_err();
    assert_eq!(
        e,
        TrackError::Ptrace {
            op: Request::Attach,
            errno: 1
        }
    );
    assert_eq!(e.message(), "ptrace ATTACH failed (errno 1)");

    let mut w = watch(0x1000, 8, Access::Write, 0).unwrap();
    w.step(Event::Requested(None));
    assert_eq!(
        w.step(Event::Requested(Some(5))),
        Ask::Finish { detach: true }
    );
    assert_eq!(
        w.outcome().unwrap_err().message(),
        "ptrace POKEUSER DR0 failed (errno 5)"
    );
}

#[test]
fn a_foreign_trap_is_no_hit() {
    let mut w = watch(0x1000, 8, Access::ReadWrite, 2).unwrap();
    for _ in 0..3 {
        w.step(Event::Requested(None));
    }
    w.step(Event::Resumed(true));
    w.step(Event::Looked(Look::Stopped(Stop::Trap), false));
    assert_eq!(w.step(Event::Status(0)), Ask::Clock);
    assert_eq!(w.step(Event::Clock(true)), Ask::Finish { detach: true });
    assert!(w.outcome().unwrap().is_empty());
}
