//! The pointer scan: a background job whose result may come too late to be
//! wanted, and what its window shows.

use crate::gui::{Action, ActionV};
use crate::node::ClassId;
use crate::panels::asked;
use crate::text;
use vstd::prelude::*;

verus! {

/// A chain of pointers from a module to the target.
#[derive(Debug)]
pub struct PointerPath {
    pub module: String,
    pub base_offset: u64,
    pub offsets: Vec<u64>,
}

/// What a [`PointerPath`] says.
pub struct PointerPathV {
    pub module: Seq<char>,
    pub base_offset: u64,
    pub offsets: Seq<u64>,
}

impl View for PointerPath {
    type V = PointerPathV;

    open spec fn view(&self) -> PointerPathV {
        PointerPathV {
            module: self.module@,
            base_offset: self.base_offset,
            offsets: self.offsets@,
        }
    }
}

/// What a list of paths says.
pub open spec fn paths_view(s: Seq<PointerPath>) -> Seq<PointerPathV> {
    Seq::new(s.len(), |i: int| s[i]@)
}

/// The bounds of a scan.
#[derive(Clone, Copy, Debug, PartialEq, Eq, Structural)]
pub struct ScanConfig {
    /// How many pointers deep.
    pub max_depth: usize,
    /// Largest offset allowed at each hop.
    pub max_offset: u64,
    /// Result cap.
    pub max_results: usize,
    /// Bytes of an address in the target.
    pub pointer_bytes: usize,
}

/// What the scan window is currently showing.
#[derive(Debug)]
pub enum ScanState {
    /// Nothing has been run yet.
    Idle,
    /// A worker is running.
    Running,
    /// Finished, with the paths found (possibly none).
    Done(Vec<PointerPath>),
    /// Finished badly: attach failed, or the target's maps could not be read.
    Failed(String),
}

/// What a [`ScanState`] says.
pub enum ScanStateV {
    Idle,
    Running,
    Done(Seq<PointerPathV>),
    Failed(Seq<char>),
}

impl View for ScanState {
    type V = ScanStateV;

    open spec fn view(&self) -> ScanStateV {
        match self {
            ScanState::Idle => ScanStateV::Idle,
            ScanState::Running => ScanStateV::Running,
            ScanState::Done(p) => ScanStateV::Done(paths_view(p@)),
            ScanState::Failed(e) => ScanStateV::Failed(e@),
        }
    }
}

/// The scan job. Workers are numbered; only the newest one's result is taken,
/// and only while it is wanted.
#[derive(Debug)]
pub struct ScanJob {
    pub state: ScanState,
    /// The number of the newest worker.
    pub worker: u64,
    /// Whether the user abandoned it.
    pub abandoned: bool,
    /// Window visibility.
    pub open: bool,
    /// Target address / expression input.
    pub target: String,
    /// Bounds the user can widen.
    pub depth: usize,
    pub max_offset: u64,
    pub max_results: usize,
}

/// What a [`ScanJob`] says.
pub struct ScanJobV {
    pub state: ScanStateV,
    pub worker: u64,
    pub abandoned: bool,
    pub open: bool,
    pub target: Seq<char>,
    pub depth: usize,
    pub max_offset: u64,
    pub max_results: usize,
}

impl View for ScanJob {
    type V = ScanJobV;

    open spec fn view(&self) -> ScanJobV {
        ScanJobV {
            state: self.state@,
            worker: self.worker,
            abandoned: self.abandoned,
            open: self.open,
            target: self.target@,
            depth: self.depth,
            max_offset: self.max_offset,
            max_results: self.max_results,
        }
    }
}

impl ScanJobV {
    /// With a new worker running; an older one is disowned.
    pub open spec fn started(self) -> ScanJobV {
        ScanJobV {
            state: ScanStateV::Running,
            worker: (self.worker + 1) as u64,
            abandoned: false,
            ..self
        }
    }

    /// With the running worker disowned.
    pub open spec fn given_up(self) -> ScanJobV {
        ScanJobV { state: ScanStateV::Idle, abandoned: true, ..self }
    }

    /// With other bounds, each within what the window allows.
    pub open spec fn bounded(self, depth: usize, max_offset: u64, max_results: usize) -> ScanJobV {
        ScanJobV {
            depth: crate::settings::within(depth, 1, 8),
            max_offset: limited(max_offset, 0, 0x10000),
            max_results: crate::settings::within(max_results, 1, 1024),
            ..self
        }
    }

    /// What the lower part of the window shows.
    pub open spec fn shown(self) -> ScanView {
        match self.state {
            ScanStateV::Idle => ScanView::NotRun,
            ScanStateV::Running => ScanView::Scanning,
            ScanStateV::Failed(_) => ScanView::Failed,
            ScanStateV::Done(p) => if p.len() == 0 {
                ScanView::NoPath
            } else {
                ScanView::Paths
            },
        }
    }

    /// With a worker's result, if it is still wanted.
    pub open spec fn reported(self, worker: u64, outcome: ScanStateV) -> ScanJobV {
        if worker == self.worker && !self.abandoned {
            ScanJobV { state: outcome, ..self }
        } else {
            self
        }
    }
}

/// What the worker is to do.
#[derive(Clone, Copy, Debug, PartialEq, Eq, Structural)]
pub struct Launch {
    /// Its number.
    pub worker: u64,
    pub target: u64,
    pub config: ScanConfig,
}

/// What the lower part of the scan window shows.
#[derive(Clone, Copy, Debug, PartialEq, Eq, Structural)]
pub enum ScanView {
    Scanning,
    NotRun,
    Failed,
    NoPath,
    Paths,
}

/// `n` brought into `lo..=hi`.
pub open spec fn limited(n: u64, lo: u64, hi: u64) -> u64 {
    if n < lo {
        lo
    } else if n > hi {
        hi
    } else {
        n
    }
}

impl ScanJob {
    /// A fresh job with the bounds `d`.
    pub fn new(d: &ScanConfig) -> (r: ScanJob)
        ensures
            r@ == (ScanJobV {
                state: ScanStateV::Idle,
                worker: 0,
                abandoned: false,
                open: false,
                target: Seq::empty(),
                depth: d.max_depth,
                max_offset: d.max_offset,
                max_results: d.max_results,
            }),
    {
        let target = String::new();
        proof {
            assert(target@ =~= Seq::<char>::empty());
        }
        ScanJob {
            state: ScanState::Idle,
            worker: 0,
            abandoned: false,
            open: false,
            target,
            depth: d.max_depth,
            max_offset: d.max_offset,
            max_results: d.max_results,
        }
    }

    /// Whether a worker is in flight.
    pub fn running(&self) -> (r: bool)
        ensures
            r == (self@.state is Running),
    {
        match &self.state {
            ScanState::Running => true,
            _ => false,
        }
    }

    /// Start a worker, replacing any previous result. A previous worker may
    /// still be alive; its result is disowned rather than waited for. Returns
    /// the worker's number.
    pub fn start(&mut self) -> (r: u64)
        requires
            old(self)@.worker < u64::MAX,
        ensures
            final(self)@ == old(self)@.started(),
            r == final(self)@.worker,
    {
        self.worker = self.worker + 1;
        self.abandoned = false;
        self.state = ScanState::Running;
        self.worker
    }

    /// Take a worker's result, unless the worker was disowned. Returns whether
    /// it was taken.
    pub fn report(&mut self, worker: u64, outcome: ScanState) -> (r: bool)
        ensures
            final(self)@ == old(self)@.reported(worker, outcome@),
            r == (worker == old(self)@.worker && !old(self)@.abandoned),
    {
        if worker == self.worker && !self.abandoned {
            self.state = outcome;
            true
        } else {
            false
        }
    }

    /// Abandon the running worker. It finishes anyway, but its result is
    /// discarded.
    pub fn abandon(&mut self)
        ensures
            final(self)@ == old(self)@.given_up(),
    {
        self.abandoned = true;
        self.state = ScanState::Idle;
    }

    /// Start a worker on the target as resolved, or say why there is none.
    pub fn launch(&mut self, target: Result<u64, String>, pointer_bytes: usize) -> (r: Result<
        Launch,
        String,
    >)
        requires
            old(self)@.worker < u64::MAX,
        ensures
            match target {
                Ok(a) => {
                    &&& final(self)@ == old(self)@.started()
                    &&& r is Ok
                    &&& r->Ok_0 == (Launch {
                        worker: final(self)@.worker,
                        target: a,
                        config: ScanConfig {
                            max_depth: old(self)@.depth,
                            max_offset: old(self)@.max_offset,
                            max_results: old(self)@.max_results,
                            pointer_bytes,
                        },
                    })
                },
                Err(e) => {
                    &&& final(self)@ == old(self)@
                    &&& r is Err
                    &&& (r->Err_0)@ == "scan target: "@ + e@
                },
            },
    {
        match target {
            Ok(a) => {
                let worker: u64 = self.start();
                Ok(
                    Launch {
                        worker,
                        target: a,
                        config: ScanConfig {
                            max_depth: self.depth,
                            max_offset: self.max_offset,
                            max_results: self.max_results,
                            pointer_bytes,
                        },
                    },
                )
            },
            Err(e) => Err(text::join2("scan target: ", e.as_str())),
        }
    }

    /// Set the bounds, each within what the window allows.
    pub fn set_bounds(&mut self, depth: usize, max_offset: u64, max_results: usize)
        ensures
            final(self)@ == old(self)@.bounded(depth, max_offset, max_results),
    {
        self.depth = crate::settings::clamp_to(depth, 1, 8);
        self.max_offset = if max_offset > 0x10000 {
            0x10000
        } else {
            max_offset
        };
        self.max_results = crate::settings::clamp_to(max_results, 1, 1024);
    }

    /// What the lower part of the window shows.
    pub fn shows(&self) -> (r: ScanView)
        ensures
            r == self@.shown(),
    {
        match &self.state {
            ScanState::Idle => ScanView::NotRun,
            ScanState::Running => ScanView::Scanning,
            ScanState::Failed(_) => ScanView::Failed,
            ScanState::Done(p) => if p.len() == 0 {
                ScanView::NoPath
            } else {
                ScanView::Paths
            },
        }
    }
}

/// The outcome of a worker: the paths found, or why there are none.
pub open spec fn scan_outcome(
    attach: Result<(), String>,
    paths: Result<Vec<PointerPath>, String>,
) -> ScanStateV {
    match attach {
        Err(e) => ScanStateV::Failed("attach: "@ + e@),
        Ok(_) => match paths {
            Ok(p) => ScanStateV::Done(paths_view(p@)),
            Err(e) => ScanStateV::Failed(e@),
        },
    }
}

/// The outcome of a worker: the paths found, or why there are none.
pub fn scanned(attach: Result<(), String>, paths: Result<Vec<PointerPath>, String>) -> (r: ScanState)
    ensures
        r@ == scan_outcome(attach, paths),
{
    match attach {
        Err(e) => ScanState::Failed(text::join2("attach: ", e.as_str())),
        Ok(_) => match paths {
            Ok(p) => ScanState::Done(p),
            Err(e) => ScanState::Failed(e),
        },
    }
}

/// The heading above the paths found.
pub fn results_heading(n: usize) -> (r: String)
    ensures
        r@ == text::written(n as nat, 10, false) + " path(s), shortest first:"@,
{
    text::join2(text::dec(n as u64).as_str(), " path(s), shortest first:")
}

/// Take a path found, written as an expression, for the selected class's
/// address; not offered where no class is selected.
pub fn use_path(class: Option<ClassId>, expr: &str) -> (r: Option<Action>)
    ensures
        asked(r) == match class {
            Some(c) => Some(ActionV::SetExpr(c, expr@)),
            None => None,
        },
{
    match class {
        Some(c) => Some(Action::SetExpr(c, expr.to_owned())),
        None => None,
    }
}

/// A disowned worker changes nothing when it reports: neither one that was
/// abandoned, nor one that a later run replaced. The later run is not disowned
/// with it.
pub proof fn law_disowned_worker_changes_nothing(j: ScanJobV, late: ScanStateV, good: ScanStateV)
    requires
        j.worker < u64::MAX - 1,
    ensures
        ({
            let first = j.started();
            let dropped = first.given_up();
            let second = first.started();
            &&& dropped.reported(first.worker, late) == dropped
            &&& second.reported(first.worker, late) == second
            &&& second.reported(second.worker, good).state == good
            &&& dropped.started().reported(first.worker, late) == dropped.started()
        }),
{
}

/// A scan shows what its worker found: a started one runs, and the report of the
/// worker started last is taken as it is. Starting again numbers a new worker
/// and forgets that the last one was abandoned; the user's bounds and target stay.
pub proof fn law_current_worker_is_heard(j: ScanJobV, outcome: ScanStateV)
    requires
        j.worker < u64::MAX,
    ensures
        j.started().state is Running,
        j.started().worker == j.worker + 1,
        j.started().reported(j.started().worker, outcome).state == outcome,
        j.given_up().started().reported(j.given_up().started().worker, outcome).state == outcome,
        j.given_up().state is Idle,
        j.started().depth == j.depth,
        j.started().max_offset == j.max_offset,
        j.started().max_results == j.max_results,
        j.started().target == j.target,
{
}

/// A bound is brought within what is allowed, and left alone where it is.
pub proof fn law_bounds_are_kept(n: u64, lo: u64, hi: u64)
    requires
        lo <= hi,
    ensures
        lo <= limited(n, lo, hi) <= hi,
        lo <= n <= hi ==> limited(n, lo, hi) == n,
        n < lo ==> limited(n, lo, hi) == lo,
        n > hi ==> limited(n, lo, hi) == hi,
{
}

/// The bounds of a scan stay within what the window allows, and are as asked for
/// where that is; setting them changes nothing else.
pub proof fn law_scan_bounds_are_set(j: ScanJobV, depth: usize, max_offset: u64, max_results: usize)
    ensures
        ({
            let k = j.bounded(depth, max_offset, max_results);
            &&& 1 <= k.depth <= 8 && k.max_offset <= 0x10000 && 1 <= k.max_results <= 1024
            &&& 1 <= depth <= 8 ==> k.depth == depth
            &&& max_offset <= 0x10000 ==> k.max_offset == max_offset
            &&& 1 <= max_results <= 1024 ==> k.max_results == max_results
            &&& k.state == j.state && k.worker == j.worker && k.abandoned == j.abandoned
                && k.open == j.open && k.target == j.target
        }),
{
}

/// The window shows a scan's outcome for what it is: the paths found, that none
/// was found, that it failed, that it runs or has not been run. A worker that
/// could attach and search comes to the paths that it found.
pub proof fn law_scan_outcome_is_shown(j: ScanJobV, paths: Vec<PointerPath>, why: String)
    requires
        j.worker < u64::MAX,
    ensures
        ({
            let run = j.started();
            let found = run.reported(run.worker, scan_outcome(Ok(()), Ok(paths)));
            let failed = run.reported(run.worker, scan_outcome(Ok(()), Err(why)));
            let alone = run.reported(run.worker, scan_outcome(Err(why), Ok(paths)));
            &&& run.shown() == ScanView::Scanning
            &&& found.state == ScanStateV::Done(paths_view(paths@))
            &&& paths@.len() > 0 ==> found.shown() == ScanView::Paths
            &&& paths@.len() == 0 ==> found.shown() == ScanView::NoPath
            &&& failed.state == ScanStateV::Failed(why@)
            &&& failed.shown() == ScanView::Failed
            &&& alone.shown() == ScanView::Failed
            &&& run.given_up().shown() == ScanView::NotRun
        }),
{
}

} // verus!
