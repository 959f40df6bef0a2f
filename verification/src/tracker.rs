//! Hardware-breakpoint access tracking (x86-64 Linux): which instruction writes
//! or accesses an address.
//!
//! A watch attaches to the target, arms debug register DR0 with the address and
//! DR7 with what to trap on, lets the target run, and records the instruction
//! pointer each time it traps. This module decides every step of it; the shell
//! performs the step and reports what came of it.
//!
//! Debug traps are consumed, they are the watch's own. Any other signal is
//! forwarded to the target, so that its behaviour is not altered.

use crate::text;
use vstd::prelude::*;

verus! {

/// Which access to trap on.
#[derive(Clone, Copy, Debug, PartialEq, Eq, Structural)]
pub enum Access {
    /// Trap on writes only.
    Write,
    /// Trap on reads and writes.
    ReadWrite,
}

/// One captured access: the instruction pointer just after the access.
#[derive(Clone, Copy, Debug, PartialEq, Eq, Structural)]
pub struct AccessHit {
    /// RIP reported at the trap (the instruction following the access).
    pub rip: u64,
}

/// Tracker error.
#[derive(Clone, Copy, Debug, PartialEq, Eq, Structural)]
pub enum TrackError {
    /// A `ptrace` request failed.
    Ptrace { op: Request, errno: i32 },
    /// Watch size must be 1, 2, 4, or 8 bytes.
    Size(usize),
    /// Watch address must be aligned to the watch size; otherwise the CPU traps
    /// unpredictably or not at all.
    Align { addr: u64, size: usize },
}

/// A request that can fail a watch.
#[derive(Clone, Copy, Debug, PartialEq, Eq, Structural)]
pub enum Request {
    Attach,
    PokeAddress,
    PokeControl,
}

/// The name of a request.
pub open spec fn request_name(r: Request) -> Seq<char> {
    match r {
        Request::Attach => "ATTACH"@,
        Request::PokeAddress => "POKEUSER DR0"@,
        Request::PokeControl => "POKEUSER DR7"@,
    }
}

impl Request {
    /// The name of the request.
    pub fn name(self) -> (r: &'static str)
        ensures
            r@ == request_name(self),
    {
        match self {
            Request::Attach => "ATTACH",
            Request::PokeAddress => "POKEUSER DR0",
            Request::PokeControl => "POKEUSER DR7",
        }
    }
}

/// How an error is shown.
pub open spec fn track_text(e: TrackError) -> Seq<char> {
    match e {
        TrackError::Ptrace { op, errno } => "ptrace "@ + request_name(op) + " failed (errno "@
            + text::written_signed(errno as int) + ")"@,
        TrackError::Size(n) => "unsupported watch size "@ + text::written(n as nat, 10, false)
            + " (must be 1, 2, 4, or 8)"@,
        TrackError::Align { addr, size } => "watch address 0x"@ + text::written(
            addr as nat,
            16,
            false,
        ) + " is not aligned to size "@ + text::written(size as nat, 10, false),
    }
}

impl TrackError {
    /// The message.
    pub fn message(self) -> (r: String)
        ensures
            r@ == track_text(self),
    {
        match self {
            TrackError::Ptrace { op, errno } => {
                let head = text::join3("ptrace ", op.name(), " failed (errno ");
                text::join3(head.as_str(), text::dec_signed(errno as i64).as_str(), ")")
            },
            TrackError::Size(n) => text::join3(
                "unsupported watch size ",
                text::dec(n as u64).as_str(),
                " (must be 1, 2, 4, or 8)",
            ),
            TrackError::Align { addr, size } => {
                let head = text::join2("watch address 0x", text::hex_lower(addr).as_str());
                text::join3(
                    head.as_str(),
                    " is not aligned to size ",
                    text::dec(size as u64).as_str(),
                )
            },
        }
    }
}

// ---------------------------------------------------------------------------
// Debug registers
// ---------------------------------------------------------------------------

/// The LEN0 field for a watch of `size` bytes.
pub open spec fn len_bits(size: usize) -> Option<u64> {
    if size == 1 {
        Some(0)
    } else if size == 2 {
        Some(1)
    } else if size == 4 {
        Some(3)
    } else if size == 8 {
        Some(2)
    } else {
        None
    }
}

/// The RW0 field.
pub open spec fn rw_bits(access: Access) -> u64 {
    match access {
        Access::Write => 1,
        Access::ReadWrite => 3,
    }
}

/// DR7: local breakpoint 0 enabled (bit 0), RW0 in bits 16-17, LEN0 in bits
/// 18-19.
pub open spec fn dr7_value(len: u64, rw: u64) -> u64 {
    1u64 | (rw << 16u64) | (len << 18u64)
}

/// What DR7 is set to, or why the watch cannot be set up.
pub open spec fn armed_with(addr: u64, size: usize, access: Access) -> Result<u64, TrackError> {
    match len_bits(size) {
        None => Err(TrackError::Size(size)),
        Some(len) => if addr % (size as u64) != 0 {
            Err(TrackError::Align { addr, size })
        } else {
            Ok(dr7_value(len, rw_bits(access)))
        },
    }
}

/// The fields of DR7 are where they belong, and no other bit is set.
pub proof fn law_dr7_fields(len: u64, rw: u64)
    requires
        len < 4,
        rw < 4,
    ensures
        dr7_value(len, rw) & 1 == 1,
        (dr7_value(len, rw) >> 16u64) & 3 == rw,
        (dr7_value(len, rw) >> 18u64) & 3 == len,
        dr7_value(len, rw) & !0xF0001u64 == 0,
{
    assert((1u64 | (rw << 16u64) | (len << 18u64)) & 1 == 1) by (bit_vector)
        requires
            len < 4,
            rw < 4,
    ;
    assert(((1u64 | (rw << 16u64) | (len << 18u64)) >> 16u64) & 3 == rw) by (bit_vector)
        requires
            len < 4,
            rw < 4,
    ;
    assert(((1u64 | (rw << 16u64) | (len << 18u64)) >> 18u64) & 3 == len) by (bit_vector)
        requires
            len < 4,
            rw < 4,
    ;
    assert((1u64 | (rw << 16u64) | (len << 18u64)) & !0xF0001u64 == 0) by (bit_vector)
        requires
            len < 4,
            rw < 4,
    ;
}

// ---------------------------------------------------------------------------
// The watch
// ---------------------------------------------------------------------------

/// How the target stopped.
#[derive(Clone, Copy, Debug, PartialEq, Eq, Structural)]
pub enum Stop {
    /// It exited, or a signal ended it.
    Gone,
    /// A debug trap.
    Trap,
    /// The stop signal.
    Halt,
    /// Another signal, by its number.
    Signal(usize),
    /// Anything else.
    Other,
}

/// What looking at the target shows.
#[derive(Clone, Copy, Debug, PartialEq, Eq, Structural)]
pub enum Look {
    Failed,
    Running,
    Stopped(Stop),
}

/// What the shell is to do.
#[derive(Clone, Copy, Debug, PartialEq, Eq, Structural)]
pub enum Ask {
    /// Attach, and wait for the stop that follows.
    Attach,
    /// Write DR0.
    PokeAddress(u64),
    /// Write DR7.
    PokeControl(u64),
    /// Let the target run, delivering this signal (0 for none).
    Resume(usize),
    /// Look whether the target stopped, without waiting, and at the clock.
    Look,
    /// Sleep for a moment, then look again.
    Pause,
    /// Stop the target and wait for that.
    Halt,
    /// Read DR6.
    ReadStatus,
    /// Read the instruction pointer, then clear DR6.
    ReadRip,
    /// Look at the clock.
    Clock,
    /// The watch is over. Disarm and detach first, if so told.
    Finish { detach: bool },
}

/// What came of it.
#[derive(Clone, Copy, Debug, PartialEq, Eq, Structural)]
pub enum Event {
    /// Outcome of a request that can fail the watch: the error number if it
    /// failed.
    Requested(Option<i32>),
    /// Whether the target runs again.
    Resumed(bool),
    /// What looking at the target showed, and whether the time is up.
    Looked(Look, bool),
    /// How the target was stopped, if it could be.
    Halted(Option<Stop>),
    /// DR6.
    Status(u64),
    /// The instruction pointer, if it could be read.
    Rip(Option<u64>),
    /// Whether the time is up.
    Clock(bool),
}

/// Where a watch stands: what it waits for.
#[derive(Clone, Copy, Debug, PartialEq, Eq, Structural)]
pub enum Phase {
    Attaching,
    ArmingAddress,
    ArmingControl,
    Resuming,
    Looking,
    Halting,
    ReadingStatus,
    ReadingRip,
    Timing,
    Over,
}

/// A running watch.
#[derive(Debug)]
pub struct Watch {
    pub addr: u64,
    pub dr7: u64,
    /// How many hits end it early; 0 for no limit.
    pub max_hits: usize,
    pub phase: Phase,
    /// The signal to deliver when the target runs again.
    pub deliver: usize,
    pub attached: bool,
    pub hits: Vec<AccessHit>,
    pub error: Option<TrackError>,
}

/// What a [`Watch`] says.
pub struct WatchV {
    pub addr: u64,
    pub dr7: u64,
    pub max_hits: usize,
    pub phase: Phase,
    pub deliver: usize,
    pub attached: bool,
    pub hits: Seq<AccessHit>,
    pub error: Option<TrackError>,
}

impl View for Watch {
    type V = WatchV;

    open spec fn view(&self) -> WatchV {
        WatchV {
            addr: self.addr,
            dr7: self.dr7,
            max_hits: self.max_hits,
            phase: self.phase,
            deliver: self.deliver,
            attached: self.attached,
            hits: self.hits@,
            error: self.error,
        }
    }
}

/// A step of a watch: where it stands then, and what it asks for.
pub type Step = (WatchV, Ask);

impl WatchV {
    /// Over.
    pub open spec fn finished(self) -> Step {
        (WatchV { phase: Phase::Over, ..self }, Ask::Finish { detach: self.attached })
    }

    /// Over, because a request failed.
    pub open spec fn failed(self, op: Request, errno: i32) -> Step {
        WatchV { error: Some(TrackError::Ptrace { op, errno }), ..self }.finished()
    }

    /// The target runs on.
    pub open spec fn resumed(self) -> Step {
        (WatchV { phase: Phase::Resuming, deliver: 0, ..self }, Ask::Resume(self.deliver))
    }

    /// The clock decides whether the target runs on.
    pub open spec fn timed(self) -> Step {
        (WatchV { phase: Phase::Timing, ..self }, Ask::Clock)
    }

    /// After a debug trap: over where there are hits enough.
    pub open spec fn trapped(self) -> Step {
        if self.max_hits > 0 && self.hits.len() >= self.max_hits {
            self.finished()
        } else {
            self.timed()
        }
    }

    /// The target stopped.
    pub open spec fn stopped(self, s: Stop) -> Step {
        match s {
            Stop::Gone => self.finished(),
            Stop::Trap => (WatchV { phase: Phase::ReadingStatus, ..self }, Ask::ReadStatus),
            Stop::Halt => self.finished(),
            Stop::Signal(n) => WatchV { deliver: n, ..self }.timed(),
            Stop::Other => self.timed(),
        }
    }
}

/// What a watch does next. An event that it does not wait for ends it.
pub open spec fn stepped(w: WatchV, e: Event) -> Step {
    match (w.phase, e) {
        (Phase::Attaching, Event::Requested(None)) => (
            WatchV { phase: Phase::ArmingAddress, attached: true, ..w },
            Ask::PokeAddress(w.addr),
        ),
        (Phase::Attaching, Event::Requested(Some(errno))) => w.failed(Request::Attach, errno),
        (Phase::ArmingAddress, Event::Requested(None)) => (
            WatchV { phase: Phase::ArmingControl, ..w },
            Ask::PokeControl(w.dr7),
        ),
        (Phase::ArmingAddress, Event::Requested(Some(errno))) => w.failed(
            Request::PokeAddress,
            errno,
        ),
        (Phase::ArmingControl, Event::Requested(None)) => w.resumed(),
        (Phase::ArmingControl, Event::Requested(Some(errno))) => w.failed(
            Request::PokeControl,
            errno,
        ),
        (Phase::Resuming, Event::Resumed(true)) => (
            WatchV { phase: Phase::Looking, ..w },
            Ask::Look,
        ),
        (Phase::Looking, Event::Looked(Look::Stopped(s), _)) => w.stopped(s),
        (Phase::Looking, Event::Looked(Look::Running, true)) => (
            WatchV { phase: Phase::Halting, ..w },
            Ask::Halt,
        ),
        (Phase::Looking, Event::Looked(Look::Running, false)) => (w, Ask::Pause),
        (Phase::Halting, Event::Halted(Some(s))) => w.stopped(s),
        (Phase::ReadingStatus, Event::Status(dr6)) => if dr6 & 0xF != 0 {
            (WatchV { phase: Phase::ReadingRip, ..w }, Ask::ReadRip)
        } else {
            w.trapped()
        },
        (Phase::ReadingRip, Event::Rip(rip)) => match rip {
            Some(rip) => WatchV { hits: w.hits.push(AccessHit { rip }), ..w }.trapped(),
            None => w.trapped(),
        },
        (Phase::Timing, Event::Clock(false)) => w.resumed(),
        _ => w.finished(),
    }
}

/// A watch that has not attached yet.
pub open spec fn begun(addr: u64, dr7: u64, max_hits: usize) -> WatchV {
    WatchV {
        addr,
        dr7,
        max_hits,
        phase: Phase::Attaching,
        deliver: 0,
        attached: false,
        hits: Seq::empty(),
        error: None,
    }
}

/// What a watch comes to: the hits, or why it failed.
pub open spec fn ended(w: WatchV) -> Result<Seq<AccessHit>, TrackError> {
    match w.error {
        Some(e) => Err(e),
        None => Ok(w.hits),
    }
}

/// Set up a watch of `addr` (`size` bytes) for `access`, stopping early
/// after `max_hits` (`0` = no limit). The first thing to do is to attach.
///
/// Fails for a `size` other than 1/2/4/8, and where `addr` is not aligned
/// to it.
pub fn watch(addr: u64, size: usize, access: Access, max_hits: usize) -> (r: Result<
    Watch,
    TrackError,
>)
    ensures
        match armed_with(addr, size, access) {
            Err(e) => r is Err && r->Err_0 == e,
            Ok(dr7) => r is Ok && (r->Ok_0)@ == begun(addr, dr7, max_hits),
        },
{
    let len: u64 = match size {
        1 => 0,
        2 => 1,
        4 => 3,
        8 => 2,
        other => {
            return Err(TrackError::Size(other));
        },
    };
    if addr % (size as u64) != 0 {
        return Err(TrackError::Align { addr, size });
    }
    let rw: u64 = match access {
        Access::Write => 1,
        Access::ReadWrite => 3,
    };
    let dr7: u64 = 1u64 | (rw << 16u64) | (len << 18u64);
    let w = Watch {
        addr,
        dr7,
        max_hits,
        phase: Phase::Attaching,
        deliver: 0,
        attached: false,
        hits: Vec::new(),
        error: None,
    };
    proof {
        assert(w.hits@ =~= Seq::<AccessHit>::empty());
    }
    Ok(w)
}

impl Watch {
    /// Over.
    fn finish(&mut self) -> (r: Ask)
        ensures
            (final(self)@, r) == old(self)@.finished(),
    {
        self.phase = Phase::Over;
        Ask::Finish { detach: self.attached }
    }

    /// Over, because a request failed.
    fn fail(&mut self, op: Request, errno: i32) -> (r: Ask)
        ensures
            (final(self)@, r) == old(self)@.failed(op, errno),
    {
        self.error = Some(TrackError::Ptrace { op, errno });
        self.finish()
    }

    /// The target runs on.
    fn resume(&mut self) -> (r: Ask)
        ensures
            (final(self)@, r) == old(self)@.resumed(),
    {
        let signal: usize = self.deliver;
        self.phase = Phase::Resuming;
        self.deliver = 0;
        Ask::Resume(signal)
    }

    /// The clock decides whether the target runs on.
    fn time(&mut self) -> (r: Ask)
        ensures
            (final(self)@, r) == old(self)@.timed(),
    {
        self.phase = Phase::Timing;
        Ask::Clock
    }

    /// After a debug trap: over where there are hits enough.
    fn trapped(&mut self) -> (r: Ask)
        ensures
            (final(self)@, r) == old(self)@.trapped(),
    {
        if self.max_hits > 0 && self.hits.len() >= self.max_hits {
            self.finish()
        } else {
            self.time()
        }
    }

    /// The target stopped.
    fn stopped(&mut self, s: Stop) -> (r: Ask)
        ensures
            (final(self)@, r) == old(self)@.stopped(s),
    {
        match s {
            Stop::Gone => self.finish(),
            Stop::Trap => {
                self.phase = Phase::ReadingStatus;
                Ask::ReadStatus
            },
            Stop::Halt => self.finish(),
            Stop::Signal(n) => {
                self.deliver = n;
                self.time()
            },
            Stop::Other => self.time(),
        }
    }

    /// Take what came of the last step, and decide on the next.
    pub fn step(&mut self, e: Event) -> (r: Ask)
        ensures
            (final(self)@, r) == stepped(old(self)@, e),
    {
        match (self.phase, e) {
            (Phase::Attaching, Event::Requested(None)) => {
                self.attached = true;
                self.phase = Phase::ArmingAddress;
                Ask::PokeAddress(self.addr)
            },
            (Phase::Attaching, Event::Requested(Some(errno))) => self.fail(Request::Attach, errno),
            (Phase::ArmingAddress, Event::Requested(None)) => {
                self.phase = Phase::ArmingControl;
                Ask::PokeControl(self.dr7)
            },
            (Phase::ArmingAddress, Event::Requested(Some(errno))) => self.fail(
                Request::PokeAddress,
                errno,
            ),
            (Phase::ArmingControl, Event::Requested(None)) => self.resume(),
            (Phase::ArmingControl, Event::Requested(Some(errno))) => self.fail(
                Request::PokeControl,
                errno,
            ),
            (Phase::Resuming, Event::Resumed(true)) => {
                self.phase = Phase::Looking;
                Ask::Look
            },
            (Phase::Looking, Event::Looked(Look::Stopped(s), _)) => self.stopped(s),
            (Phase::Looking, Event::Looked(Look::Running, true)) => {
                self.phase = Phase::Halting;
                Ask::Halt
            },
            (Phase::Looking, Event::Looked(Look::Running, false)) => Ask::Pause,
            (Phase::Halting, Event::Halted(Some(s))) => self.stopped(s),
            (Phase::ReadingStatus, Event::Status(dr6)) => {
                if dr6 & 0xF != 0 {
                    self.phase = Phase::ReadingRip;
                    Ask::ReadRip
                } else {
                    self.trapped()
                }
            },
            (Phase::ReadingRip, Event::Rip(rip)) => {
                match rip {
                    Some(rip) => {
                        self.hits.push(AccessHit { rip });
                    },
                    None => {},
                }
                self.trapped()
            },
            (Phase::Timing, Event::Clock(false)) => self.resume(),
            _ => self.finish(),
        }
    }

    /// The captured instruction pointers, or why the watch failed.
    pub fn outcome(self) -> (r: Result<Vec<AccessHit>, TrackError>)
        ensures
            match ended(self@) {
                Err(e) => r is Err && r->Err_0 == e,
                Ok(hits) => r is Ok && (r->Ok_0)@ == hits,
            },
    {
        match self.error {
            Some(e) => Err(e),
            None => Ok(self.hits),
        }
    }
}

// ---------------------------------------------------------------------------
// Laws
// ---------------------------------------------------------------------------

/// What holds of a watch at every step: it is attached from the moment that
/// attaching succeeded, and has fewer hits than wanted until it is over.
pub open spec fn watch_wf(w: WatchV) -> bool {
    &&& w.phase == Phase::Attaching ==> !w.attached
    &&& w.phase != Phase::Attaching && w.phase != Phase::Over ==> w.attached
    &&& w.max_hits > 0 ==> w.hits.len() <= w.max_hits
    &&& w.max_hits > 0 && w.phase != Phase::Over ==> w.hits.len() < w.max_hits
}

/// The invariant holds at every step; in particular there are never more hits
/// than wanted.
pub proof fn law_watch_keeps_its_invariant(w: WatchV, e: Event)
    requires
        watch_wf(w),
        w.phase != Phase::Over,
    ensures
        watch_wf(stepped(w, e).0),
{
}

/// A watch that ends detaches exactly when it had attached, whatever happened
/// in between.
pub proof fn law_watch_detaches(w: WatchV, e: Event)
    requires
        watch_wf(w),
        w.phase != Phase::Over,
    ensures
        (stepped(w, e).0.phase == Phase::Over) == (stepped(w, e).1 is Finish),
        stepped(w, e).1 is Finish ==> stepped(w, e).1 == (Ask::Finish {
            detach: stepped(w, e).0.attached,
        }),
        w.phase != Phase::Attaching && stepped(w, e).1 is Finish ==> stepped(w, e).1 == (
        Ask::Finish { detach: true }),
{
}

/// A signal that is not the watch's own is delivered when the target runs
/// again, and only then; a trap is not.
pub proof fn law_signals_are_forwarded(w: WatchV, n: usize)
    requires
        w.phase == Phase::Looking,
        w.deliver == 0,
    ensures
        ({
            let seen = stepped(w, Event::Looked(Look::Stopped(Stop::Signal(n)), false)).0;
            let next = stepped(seen, Event::Clock(false));
            &&& next.1 == Ask::Resume(n)
            &&& next.0.deliver == 0
        }),
        ({
            let seen = stepped(w, Event::Looked(Look::Stopped(Stop::Trap), false)).0;
            let status = stepped(seen, Event::Status(0)).0;
            &&& status.phase == Phase::Timing ==> stepped(status, Event::Clock(false)).1
                == Ask::Resume(0)
        }),
{
    assert(0u64 & 0xFu64 == 0) by (bit_vector);
}

/// A watch can be set up for one, two, four or eight bytes at an address that
/// is a multiple of as many, and for nothing else. DR7 then enables breakpoint
/// 0, and says in bits 16-17 whether reads trap as well as writes, and in bits
/// 18-19 how many bytes are watched.
pub proof fn law_watch_is_armed_as_asked(addr: u64, size: usize, access: Access)
    ensures
        armed_with(addr, size, access) is Ok <==> (size == 1 || size == 2 || size == 4 || size == 8)
            && addr as int % size as int == 0,
        armed_with(addr, size, access) matches Err(e) ==> e == (if size == 1 || size == 2 || size
            == 4 || size == 8 {
            TrackError::Align { addr, size }
        } else {
            TrackError::Size(size)
        }),
        armed_with(addr, size, access) matches Ok(dr7) ==> {
            &&& dr7 & 1 == 1
            &&& (dr7 >> 16u64) & 3 == (if access == Access::Write {
                0b01u64
            } else {
                0b11u64
            })
            &&& size == 1 ==> (dr7 >> 18u64) & 3 == 0b00
            &&& size == 2 ==> (dr7 >> 18u64) & 3 == 0b01
            &&& size == 8 ==> (dr7 >> 18u64) & 3 == 0b10
            &&& size == 4 ==> (dr7 >> 18u64) & 3 == 0b11
            &&& dr7 & !0xF0001u64 == 0
        },
{
    match len_bits(size) {
        Some(len) => {
            law_dr7_fields(len, rw_bits(access));
        },
        None => {},
    }
}

/// A watch begins by attaching, then writes the address, then what to trap on,
/// then lets the target run without a signal and looks at it; nothing is hit
/// on the way.
pub proof fn law_watch_is_set_up_in_order(w: WatchV)
    requires
        w.phase == Phase::Attaching,
        w.deliver == 0,
    ensures
        ({
            let one = stepped(w, Event::Requested(None));
            let two = stepped(one.0, Event::Requested(None));
            let three = stepped(two.0, Event::Requested(None));
            let four = stepped(three.0, Event::Resumed(true));
            &&& one.1 == Ask::PokeAddress(w.addr)
            &&& one.0.attached
            &&& two.1 == Ask::PokeControl(w.dr7)
            &&& three.1 == Ask::Resume(0)
            &&& four.1 == Ask::Look
            &&& four.0.phase == Phase::Looking
            &&& four.0.hits == w.hits
            &&& four.0.error == w.error
            &&& four.0.max_hits == w.max_hits
            &&& four.0.attached
        }),
{
}

/// A request that fails while the watch is set up ends it with that request and
/// its error number; the target is detached if it was attached.
pub proof fn law_failed_request_is_reported(w: WatchV, errno: i32)
    ensures
        w.phase == Phase::Attaching ==> ({
            let s = stepped(w, Event::Requested(Some(errno)));
            &&& s.0.error == Some(TrackError::Ptrace { op: Request::Attach, errno })
            &&& s.1 == (Ask::Finish { detach: w.attached })
        }),
        w.phase == Phase::ArmingAddress ==> ({
            let s = stepped(w, Event::Requested(Some(errno)));
            &&& s.0.error == Some(TrackError::Ptrace { op: Request::PokeAddress, errno })
            &&& s.1 == (Ask::Finish { detach: w.attached })
        }),
        w.phase == Phase::ArmingControl ==> ({
            let s = stepped(w, Event::Requested(Some(errno)));
            &&& s.0.error == Some(TrackError::Ptrace { op: Request::PokeControl, errno })
            &&& s.1 == (Ask::Finish { detach: w.attached })
        }),
{
}

/// Every instruction pointer that is read at a trap is recorded behind those
/// recorded before, however many there are. Nothing else adds, removes or
/// changes a hit.
pub proof fn law_every_trap_is_recorded(w: WatchV, x: u64, e: Event)
    ensures
        w.phase == Phase::ReadingRip ==> stepped(w, Event::Rip(Some(x))).0.hits == w.hits.push(
            AccessHit { rip: x },
        ),
        !(w.phase == Phase::ReadingRip && (e matches Event::Rip(Some(y)))) ==> stepped(w, e).0.hits
            == w.hits,
{
}

/// No event changes what is watched, or how many hits are wanted.
pub proof fn law_watch_stays_the_same(w: WatchV, e: Event)
    ensures
        stepped(w, e).0.addr == w.addr,
        stepped(w, e).0.dr7 == w.dr7,
        stepped(w, e).0.max_hits == w.max_hits,
        w.attached ==> stepped(w, e).0.attached,
        !(e is Requested) ==> stepped(w, e).0.error == w.error,
{
}

/// A debug trap is the watch's own exactly when one of the four low bits of DR6
/// is set; then the instruction pointer is read, else nothing is recorded.
pub proof fn law_status_tells_own_traps(w: WatchV, late: bool, dr6: u64)
    requires
        w.phase == Phase::Looking,
    ensures
        ({
            let seen = stepped(w, Event::Looked(Look::Stopped(Stop::Trap), late));
            let next = stepped(seen.0, Event::Status(dr6));
            &&& seen.1 == Ask::ReadStatus
            &&& dr6 % 16 != 0 ==> next.1 == Ask::ReadRip && next.0.phase == Phase::ReadingRip
            &&& dr6 % 16 == 0 ==> next.1 != Ask::ReadRip
            &&& next.0.hits == w.hits
        }),
{
    assert(dr6 & 0xF == dr6 % 16) by (bit_vector);
}

/// As long as hits are wanted and there is time, the target runs on after a
/// trap; once there are as many as wanted the watch is over.
pub proof fn law_enough_hits_end_the_watch(w: WatchV, x: u64)
    requires
        w.phase == Phase::ReadingRip,
    ensures
        ({
            let next = stepped(w, Event::Rip(Some(x)));
            &&& w.max_hits > 0 && w.hits.len() + 1 >= w.max_hits ==> next.1 == (Ask::Finish {
                detach: w.attached,
            })
            &&& w.max_hits == 0 || w.hits.len() + 1 < w.max_hits ==> {
                &&& next.1 == Ask::Clock
                &&& stepped(next.0, Event::Clock(false)).1 == Ask::Resume(w.deliver)
                &&& stepped(next.0, Event::Clock(true)).1 == (Ask::Finish { detach: w.attached })
            }
        }),
{
}

/// A target that runs is looked at again after a pause, until the time is up:
/// then it is stopped, and the watch is over once it has stopped for that. A
/// target that is gone ends the watch at once.
pub proof fn law_time_ends_the_watch(w: WatchV, late: bool)
    requires
        w.phase == Phase::Looking,
    ensures
        stepped(w, Event::Looked(Look::Running, false)) == (w, Ask::Pause),
        stepped(w, Event::Looked(Look::Running, true)).1 == Ask::Halt,
        stepped(
            stepped(w, Event::Looked(Look::Running, true)).0,
            Event::Halted(Some(Stop::Halt)),
        ).1 == (Ask::Finish { detach: w.attached }),
        stepped(w, Event::Looked(Look::Stopped(Stop::Gone), late)).1 == (Ask::Finish {
            detach: w.attached,
        }),
        stepped(w, Event::Looked(Look::Failed, late)).1 == (Ask::Finish { detach: w.attached }),
{
}

/// A watch after a list of events, one after the other.
pub open spec fn watched(w: WatchV, es: Seq<Event>) -> WatchV
    decreases es.len(),
{
    if es.len() == 0 {
        w
    } else {
        stepped(watched(w, es.drop_last()), es.last()).0
    }
}

/// What happens around one trap at instruction pointer `rip`, until the target
/// is looked at again.
pub open spec fn around_trap(rip: u64) -> Seq<Event> {
    seq![
        Event::Looked(Look::Stopped(Stop::Trap), false),
        Event::Status(1),
        Event::Rip(Some(rip)),
        Event::Clock(false),
        Event::Resumed(true),
    ]
}

/// What happens around the first `n` of the traps at `rips`.
pub open spec fn around_traps(rips: Seq<u64>, n: nat) -> Seq<Event>
    decreases n,
{
    if n == 0 {
        Seq::empty()
    } else {
        around_traps(rips, (n - 1) as nat) + around_trap(rips[n - 1])
    }
}

/// The hits at the instruction pointers `rips`.
pub open spec fn hits_at(rips: Seq<u64>) -> Seq<AccessHit> {
    Seq::new(rips.len(), |i: int| AccessHit { rip: rips[i] })
}

proof fn lemma_watched_more(w: WatchV, es: Seq<Event>, fs: Seq<Event>)
    ensures
        watched(w, es + fs) == watched(watched(w, es), fs),
    decreases fs.len(),
{
    if fs.len() == 0 {
        assert(es + fs =~= es);
    } else {
        assert((es + fs).drop_last() =~= es + fs.drop_last());
        lemma_watched_more(w, es, fs.drop_last());
    }
}

/// The first three of the events around a trap record it.
proof fn lemma_one_trap(w: WatchV, rip: u64)
    requires
        w.phase == Phase::Looking,
        w.deliver == 0,
    ensures
        watched(w, around_trap(rip).take(2)) == (WatchV { phase: Phase::ReadingRip, ..w }),
        w.max_hits == 0 || w.hits.len() + 1 < w.max_hits ==> watched(w, around_trap(rip)) == (
        WatchV { hits: w.hits.push(AccessHit { rip }), ..w }),
{
    reveal_with_fuel(watched, 6);
    assert(1u64 & 0xFu64 != 0) by (bit_vector);
    let es = around_trap(rip);
    assert(es.take(2).drop_last() =~= es.take(1));
    assert(es.take(1).drop_last() =~= Seq::<Event>::empty());
    assert(es.drop_last() =~= es.take(4));
    assert(es.take(4).drop_last() =~= es.take(3));
    assert(es.take(3).drop_last() =~= es.take(2));
}

/// Over any number of traps the hits are the instruction pointers, all of them
/// and in the order in which they came: as long as more are wanted the target
/// runs on, and the trap that makes them as many as wanted ends the watch.
pub proof fn law_hits_are_the_traps_in_order(w: WatchV, rips: Seq<u64>, n: nat)
    requires
        w.phase == Phase::Looking,
        w.deliver == 0,
        w.hits.len() == 0,
        n <= rips.len(),
    ensures
        w.max_hits == 0 || n < w.max_hits ==> ({
            let after = watched(w, around_traps(rips, n));
            &&& after.hits == hits_at(rips.take(n as int))
            &&& after.phase == Phase::Looking
            &&& after.attached == w.attached
        }),
        0 < n && n == w.max_hits ==> ({
            let before = watched(
                w,
                around_traps(rips, (n - 1) as nat) + around_trap(rips[n - 1]).take(2),
            );
            let last = stepped(before, Event::Rip(Some(rips[n - 1])));
            &&& last.0.hits == hits_at(rips.take(n as int))
            &&& last.1 == (Ask::Finish { detach: w.attached })
        }),
{
    if n > 0 && (w.max_hits == 0 || n <= w.max_hits) {
        lemma_traps(w, rips, (n - 1) as nat);
        let before = watched(w, around_traps(rips, (n - 1) as nat));
        lemma_one_trap(before, rips[n - 1]);
        lemma_watched_more(w, around_traps(rips, (n - 1) as nat), around_trap(rips[n - 1]));
        lemma_watched_more(
            w,
            around_traps(rips, (n - 1) as nat),
            around_trap(rips[n - 1]).take(2),
        );
        assert(hits_at(rips.take(n as int)) =~= hits_at(rips.take(n - 1)).push(
            AccessHit { rip: rips[n - 1] },
        ));
    } else if n == 0 {
        assert(hits_at(rips.take(0)) =~= Seq::<AccessHit>::empty());
        assert(w.hits =~= Seq::<AccessHit>::empty());
    }
}

proof fn lemma_traps(w: WatchV, rips: Seq<u64>, n: nat)
    requires
        w.phase == Phase::Looking,
        w.deliver == 0,
        w.hits.len() == 0,
        n <= rips.len(),
        w.max_hits == 0 || n < w.max_hits,
    ensures
        watched(w, around_traps(rips, n)) == (WatchV { hits: hits_at(rips.take(n as int)), ..w }),
    decreases n,
{
    if n == 0 {
        assert(hits_at(rips.take(0)) =~= w.hits);
    } else {
        lemma_traps(w, rips, (n - 1) as nat);
        let before = watched(w, around_traps(rips, (n - 1) as nat));
        lemma_one_trap(before, rips[n - 1]);
        lemma_watched_more(w, around_traps(rips, (n - 1) as nat), around_trap(rips[n - 1]));
        assert(hits_at(rips.take(n as int)) =~= hits_at(rips.take(n - 1)).push(
            AccessHit { rip: rips[n - 1] },
        ));
    }
}

/// From the start to the end: a watch that is set up without a failure and then
/// sees as many traps as it wants ends, detaches, and comes to their instruction
/// pointers in the order in which they came.
pub proof fn law_watch_comes_to_its_traps(addr: u64, dr7: u64, rips: Seq<u64>)
    requires
        0 < rips.len() <= usize::MAX,
    ensures
        ({
            let n = rips.len();
            let up = watched(begun(addr, dr7, n as usize), set_up());
            let before = watched(
                up,
                around_traps(rips, (n - 1) as nat) + around_trap(rips[n - 1]).take(2),
            );
            let last = stepped(before, Event::Rip(Some(rips[n - 1])));
            &&& last.1 == (Ask::Finish { detach: true })
            &&& ended(last.0) == Ok::<Seq<AccessHit>, TrackError>(hits_at(rips))
        }),
{
    let n = rips.len();
    let w = begun(addr, dr7, n as usize);
    lemma_set_up(w);
    let up = watched(w, set_up());
    law_hits_are_the_traps_in_order(up, rips, n);
    assert(rips.take(n as int) =~= rips);
    let a = around_traps(rips, (n - 1) as nat);
    let b = around_trap(rips[n - 1]).take(2);
    lemma_no_request_around_traps(rips, (n - 1) as nat);
    lemma_no_error_on_the_way(up, a + b);
    assert forall|k: int| 0 <= k < (a + b).len() implies !(#[trigger] (a + b)[k] is Requested) by {
        if k >= a.len() {
            assert((a + b)[k] == b[k - a.len()]);
        } else {
            assert((a + b)[k] == a[k]);
        }
    }
    law_watch_stays_the_same(watched(up, a + b), Event::Rip(Some(rips[n - 1])));
}

/// What happens while a watch is set up without a failure.
pub open spec fn set_up() -> Seq<Event> {
    seq![
        Event::Requested(None),
        Event::Requested(None),
        Event::Requested(None),
        Event::Resumed(true),
    ]
}

proof fn lemma_set_up(w: WatchV)
    requires
        w.phase == Phase::Attaching,
        w.deliver == 0,
    ensures
        watched(w, set_up()) == (WatchV { phase: Phase::Looking, attached: true, ..w }),
{
    let es = set_up();
    reveal_with_fuel(watched, 5);
    assert(es.drop_last() =~= es.take(3));
    assert(es.take(3).drop_last() =~= es.take(2));
    assert(es.take(2).drop_last() =~= es.take(1));
    assert(es.take(1).drop_last() =~= Seq::<Event>::empty());
}

proof fn lemma_no_request_around_traps(rips: Seq<u64>, n: nat)
    ensures
        forall|k: int|
            0 <= k < around_traps(rips, n).len() ==> !(#[trigger] around_traps(rips, n)[k]
                is Requested),
    decreases n,
{
    if n > 0 {
        lemma_no_request_around_traps(rips, (n - 1) as nat);
        let a = around_traps(rips, (n - 1) as nat);
        let b = around_traps(rips, n);
        assert forall|k: int| 0 <= k < b.len() implies !(#[trigger] b[k] is Requested) by {
            if k < a.len() {
                assert(b[k] == a[k]);
            } else {
                assert(b[k] == around_trap(rips[n - 1])[k - a.len()]);
            }
        }
    }
}

proof fn lemma_no_error_on_the_way(w: WatchV, es: Seq<Event>)
    ensures
        (forall|k: int| 0 <= k < es.len() ==> !(#[trigger] es[k] is Requested)) ==> watched(
            w,
            es,
        ).error == w.error,
    decreases es.len(),
{
    if es.len() > 0 {
        lemma_no_error_on_the_way(w, es.drop_last());
        if forall|k: int| 0 <= k < es.len() ==> !(#[trigger] es[k] is Requested) {
            assert forall|k: int| 0 <= k < es.drop_last().len() implies !(#[trigger]
                es.drop_last()[k] is Requested) by {
                assert(es.drop_last()[k] == es[k]);
            }
            law_watch_stays_the_same(watched(w, es.drop_last()), es.last());
            assert(es.last() == es[es.len() - 1]);
        }
    }
}

} // verus!
