//! The application core: the project at hand, the views open on it, every edit
//! to it, and its undo history. Front-ends and remote callers all work on this
//! one state.

use crate::expand::{ExpandState, ExpandV};
use crate::history::{History, HistoryV, Snapshot};
use crate::memory::{regions_view, MemError, Region, RegionV};
use crate::node::{nodes_view, ClassId, Node, NodeV};
use crate::project::{Project, ProjectV};
use crate::registry::{pushed, ClassV, Edit, RegistryError, RegistryV};
use crate::text;
use std::collections::HashMap;
use vstd::prelude::*;

verus! {

broadcast use vstd::std_specs::hash::group_hash_axioms;

/// Why an edit, a write or a project operation failed.
#[derive(Debug)]
pub enum AppError {
    /// A registry / layout edit failed.
    Registry(RegistryError),
    /// Parsing a value for its node kind failed.
    Edit(String),
    /// A memory read/write failed.
    Mem(MemError),
    /// Saving or loading a project failed.
    Project(String),
    /// The edit would create an inline class cycle.
    Cycle,
    /// No target process is attached.
    NotAttached,
    /// A filesystem error while writing a generated project, with the path.
    Io { path: String, source: String },
}

/// The outcome of a registry edit as an outcome of the application.
pub open spec fn lifted(r: Result<(), RegistryError>) -> Result<(), AppError> {
    match r {
        Ok(_) => Ok(()),
        Err(e) => Err(AppError::Registry(e)),
    }
}

/// [`lifted`] of `r`.
pub(crate) fn lift(r: Result<(), RegistryError>) -> (o: Result<(), AppError>)
    ensures
        o == lifted(r),
{
    match r {
        Ok(_) => Ok(()),
        Err(e) => Err(AppError::Registry(e)),
    }
}

/// Per-view resolved-base outcome for this tick.
#[derive(Debug)]
pub struct ViewStatus {
    /// Resolved base address (0 if unresolved).
    pub base: u64,
    /// Error message if the expression failed to resolve.
    pub error: Option<String>,
}

/// What a [`ViewStatus`] says.
pub struct ViewStatusV {
    pub base: u64,
    pub error: Option<Seq<char>>,
}

impl View for ViewStatus {
    type V = ViewStatusV;

    open spec fn view(&self) -> ViewStatusV {
        ViewStatusV { base: self.base, error: text::opt_view(self.error) }
    }
}

/// Not resolved, and no error either.
pub open spec fn unresolved() -> ViewStatusV {
    ViewStatusV { base: 0, error: None }
}

impl ViewStatus {
    /// Not resolved, and no error either.
    pub fn new() -> (r: ViewStatus)
        ensures
            r@ == unresolved(),
    {
        ViewStatus { base: 0, error: None }
    }
}

/// What a list of statuses says.
pub open spec fn statuses_view(s: Seq<ViewStatus>) -> Seq<ViewStatusV> {
    Seq::new(s.len(), |i: int| s[i]@)
}

/// `s` cut or filled up with unresolved statuses to `n` of them.
pub open spec fn resized(s: Seq<ViewStatusV>, n: nat) -> Seq<ViewStatusV> {
    Seq::new(
        n,
        |i: int|
            if i < s.len() {
                s[i]
            } else {
                unresolved()
            },
    )
}

/// Cut or fill up `v` to `n` statuses.
pub(crate) fn resize_statuses(v: &mut Vec<ViewStatus>, n: usize)
    ensures
        statuses_view(final(v)@) == resized(statuses_view(old(v)@), n as nat),
{
    let ghost before = statuses_view(v@);
    v.truncate(n);
    proof {
        assert forall|i: int| 0 <= i < v@.len() implies v@[i]@ == before[i] by {}
    }
    while v.len() < n
        invariant
            v@.len() <= n,
            before.len() <= v@.len() || v@.len() == n,
            forall|i: int|
                0 <= i < v@.len() ==> (#[trigger] v@[i])@ == if i < before.len() {
                    before[i]
                } else {
                    unresolved()
                },
        decreases n - v@.len(),
    {
        v.push(ViewStatus::new());
    }
    proof {
        assert(statuses_view(v@) =~= resized(before, n as nat));
    }
}

/// A parsed address expression: the text it came from, and the handle of its
/// syntax tree or why it has none.
#[derive(Debug)]
pub struct CachedExpr {
    pub src: String,
    pub parsed: Result<u64, String>,
}

/// What a [`CachedExpr`] says.
pub struct CachedExprV {
    pub src: Seq<char>,
    pub parsed: Result<u64, Seq<char>>,
}

/// What an attempt that ends in a number or a message says.
pub open spec fn attempt_view(r: Result<u64, String>) -> Result<u64, Seq<char>> {
    match r {
        Ok(n) => Ok(n),
        Err(e) => Err(e@),
    }
}

impl View for CachedExpr {
    type V = CachedExprV;

    open spec fn view(&self) -> CachedExprV {
        CachedExprV { src: self.src@, parsed: attempt_view(self.parsed) }
    }
}

/// The whole application state.
pub struct AppState {
    /// Classes, views, window settings.
    pub project: Project,
    /// Whether a target is attached.
    pub attached: bool,
    /// Expansion state of the rows.
    pub expand: ExpandState,
    /// How many elements of an array are shown.
    pub array_limit: usize,
    /// Cached regions for the memory-map view and pointer annotation.
    pub regions: Vec<Region>,
    /// Index of the currently selected view.
    pub selected_view: usize,
    /// Per-view resolve status (parallel to the project's views).
    pub view_status: Vec<ViewStatus>,
    /// Human-readable status line.
    pub status: String,
    /// Parsed address expressions by class. An entry is used only while its
    /// text still is the class's expression.
    pub expr_cache: HashMap<ClassId, CachedExpr>,
    /// Undo/redo snapshots.
    pub history: History,
    /// Nodes copied from a class, waiting to be pasted.
    pub clipboard: Vec<Node>,
}

/// What an [`AppState`] says.
pub struct AppV {
    pub project: ProjectV,
    pub attached: bool,
    pub expand: ExpandV,
    pub array_limit: nat,
    pub regions: Seq<RegionV>,
    pub selected_view: int,
    pub view_status: Seq<ViewStatusV>,
    pub status: Seq<char>,
    pub cache: Map<ClassId, CachedExprV>,
    pub history: HistoryV,
    pub clipboard: Seq<NodeV>,
}

/// What the cached expressions say.
pub open spec fn cache_view(m: Map<ClassId, CachedExpr>) -> Map<ClassId, CachedExprV> {
    Map::new(|k: ClassId| m.dom().contains(k), |k: ClassId| m[k]@)
}

impl View for AppState {
    type V = AppV;

    open spec fn view(&self) -> AppV {
        AppV {
            project: self.project@,
            attached: self.attached,
            expand: self.expand@,
            array_limit: self.array_limit as nat,
            regions: regions_view(self.regions@),
            selected_view: self.selected_view as int,
            view_status: statuses_view(self.view_status@),
            status: self.status@,
            cache: cache_view(self.expr_cache@),
            history: self.history@,
            clipboard: nodes_view(self.clipboard@),
        }
    }
}

/// The first view of class `id`, or the number of views.
pub open spec fn first_view(views: Seq<ClassId>, id: ClassId) -> int
    decreases views.len(),
{
    if views.len() == 0 || views[0] == id {
        0
    } else {
        1 + first_view(views.skip(1), id)
    }
}

proof fn lemma_first_view(views: Seq<ClassId>, id: ClassId, i: int)
    requires
        0 <= i <= views.len(),
        i < views.len() ==> views[i] == id,
        forall|k: int| 0 <= k < i ==> views[k] != id,
    ensures
        first_view(views, id) == i,
    decreases views.len(),
{
    if i > 0 {
        assert(views[0] != id);
        assert forall|k: int| 0 <= k < i - 1 implies views.skip(1)[k] != id by {
            assert(views.skip(1)[k] == views[k + 1]);
        }
        lemma_first_view(views.skip(1), id, i - 1);
    }
}

/// [`first_view`] of `views`.
pub(crate) fn find_view(views: &Vec<ClassId>, id: ClassId) -> (r: usize)
    ensures
        r == first_view(views@, id),
        r <= views@.len(),
{
    let mut i: usize = 0;
    while i < views.len() && views[i] != id
        invariant
            i <= views@.len(),
            forall|k: int| 0 <= k < i ==> views@[k] != id,
        decreases views@.len() - i,
    {
        i = i + 1;
    }
    proof {
        lemma_first_view(views@, id, i as int);
    }
    i
}

/// `at`, or the last of `n` positions where that is smaller.
pub open spec fn clamped(at: int, n: int) -> int {
    if at >= n {
        if n > 0 {
            n - 1
        } else {
            0
        }
    } else {
        at
    }
}

impl AppV {
    /// The state's invariant: the project and every snapshot of it are well
    /// formed, and there is one status per view.
    pub open spec fn wf(self) -> bool {
        &&& self.project.registry.wf()
        &&& self.history.wf()
        &&& self.view_status.len() == self.project.views.len()
        &&& 0 <= self.selected_view
    }

    /// With the project as it is recorded as an undo point.
    pub open spec fn snapped(self) -> AppV {
        AppV { history: self.history.pushed(self.project), ..self }
    }

    /// With other classes.
    pub open spec fn with_registry(self, r: RegistryV) -> AppV {
        AppV { project: ProjectV { registry: r, ..self.project }, ..self }
    }

    /// What a recorded edit of the classes leaves and returns. A refused edit
    /// is recorded too.
    pub open spec fn edited(self, e: Edit) -> (AppV, Result<(), AppError>) {
        (self.snapped().with_registry(e.0), lifted(e.1))
    }

    /// With class `id` shown and selected, in the view that it has or a new one.
    pub open spec fn opened(self, id: ClassId) -> AppV {
        let i = first_view(self.project.views, id);
        let views = if i < self.project.views.len() {
            self.project.views
        } else {
            self.project.views.push(id)
        };
        AppV {
            project: ProjectV { views, ..self.project },
            selected_view: i,
            view_status: resized(self.view_status, views.len()),
            ..self
        }
    }

    /// With view `idx` closed.
    pub open spec fn closed_view(self, idx: int) -> AppV {
        if 0 <= idx < self.project.views.len() {
            let views = self.project.views.remove(idx);
            AppV {
                project: ProjectV { views, ..self.project },
                view_status: resized(self.view_status, views.len()),
                selected_view: clamped(self.selected_view, views.len() as int),
                expand: self.expand.drop_root(idx),
                ..self
            }
        } else {
            self
        }
    }

    /// With class `id` and the first view of it gone, as an undo step.
    pub open spec fn without_class(self, id: ClassId) -> AppV {
        let s = self.snapped().with_registry(self.project.registry.without_class(id));
        AppV { cache: s.cache.remove(id), ..s }.closed_view(first_view(self.project.views, id))
    }

    /// With the project replaced by a restored one, and everything that is
    /// derived from it brought back in line.
    pub open spec fn restored(self, p: ProjectV) -> AppV {
        AppV {
            project: p,
            view_status: Seq::new(p.views.len(), |i: int| unresolved()),
            selected_view: clamped(self.selected_view, p.views.len() as int),
            expand: ExpandV::none(),
            cache: Map::empty(),
            ..self
        }
    }

    /// One edit back; unchanged where there is none.
    pub open spec fn undone(self) -> AppV {
        if self.history.undo.len() > 0 {
            let h = HistoryV {
                undo: self.history.undo.drop_last(),
                redo: self.history.redo.push(self.project),
            };
            AppV { history: h, ..self }.restored(self.history.undo.last())
        } else {
            self
        }
    }

    /// One undone edit forward; unchanged where there is none.
    pub open spec fn redone(self) -> AppV {
        if self.history.redo.len() > 0 {
            let h = HistoryV {
                undo: self.history.undo.push(self.project),
                redo: self.history.redo.drop_last(),
            };
            AppV { history: h, ..self }.restored(self.history.redo.last())
        } else {
            self
        }
    }

    /// A freshly loaded project: a new timeline, the first view selected.
    pub open spec fn loaded(self, p: ProjectV) -> AppV {
        AppV {
            selected_view: 0,
            history: HistoryV::none(),
            ..self.restored(p)
        }
    }

    /// The class of the selected view.
    pub open spec fn selected_class(self) -> Option<ClassId> {
        if self.selected_view < self.project.views.len() {
            Some(self.project.views[self.selected_view])
        } else {
            None
        }
    }
}

/// An empty, detached state.
pub open spec fn empty_state() -> AppV {
    AppV {
        project: ProjectV {
            registry: RegistryV { classes: Seq::empty(), next_id: 0, pointer_bytes: 8 },
            views: Seq::empty(),
            attach_name: None,
            refresh_hz: 4,
        },
        attached: false,
        expand: ExpandV::none(),
        array_limit: 256,
        regions: Seq::empty(),
        selected_view: 0,
        view_status: Seq::empty(),
        status: "detached"@,
        cache: Map::empty(),
        history: HistoryV::none(),
        clipboard: Seq::empty(),
    }
}

impl AppState {
    /// [`AppV::wf`], and the counts cached in the history are right.
    pub open spec fn wf(self) -> bool {
        self@.wf() && self.history.counted()
    }

    /// An empty, detached state.
    pub fn new() -> (r: AppState)
        ensures
            r.wf(),
            r@ == empty_state(),
    {
        let r = AppState {
            project: Project::new(),
            attached: false,
            expand: ExpandState::new(),
            array_limit: 256,
            regions: Vec::new(),
            selected_view: 0,
            view_status: Vec::new(),
            status: "detached".to_owned(),
            expr_cache: HashMap::new(),
            history: History::new(),
            clipboard: Vec::new(),
        };
        proof {
            assert(r@.cache =~= Map::<ClassId, CachedExprV>::empty());
            assert(r@.project.registry.classes =~= Seq::<ClassV>::empty());
            assert(r@.regions =~= Seq::<RegionV>::empty());
            assert(r@.view_status =~= Seq::<ViewStatusV>::empty());
            assert(r@.clipboard =~= Seq::<NodeV>::empty());
        }
        r
    }

    // -- undo / redo -------------------------------------------------------

    /// Record the current project as an undo point.
    ///
    /// Every mutator calls this first, once: one user action is exactly one
    /// undo step.
    pub(crate) fn snapshot(&mut self)
        requires
            old(self).wf(),
        ensures
            final(self).wf(),
            final(self)@ == old(self)@.snapped(),
    {
        self.history.push(self.project.dup());
    }

    /// Whether there is an edit to undo.
    pub fn can_undo(&self) -> (r: bool)
        ensures
            r == (self@.history.undo.len() > 0),
    {
        self.history.undo.len() > 0
    }

    /// Whether there is an undone edit to redo.
    pub fn can_redo(&self) -> (r: bool)
        ensures
            r == (self@.history.redo.len() > 0),
    {
        self.history.redo.len() > 0
    }

    /// Depth of the undo stack.
    pub fn undo_depth(&self) -> (r: usize)
        ensures
            r == self@.history.undo.len(),
    {
        self.history.undo.len()
    }

    /// Step back one edit. Returns whether anything changed.
    pub fn undo(&mut self) -> (r: bool)
        requires
            old(self).wf(),
        ensures
            final(self).wf(),
            r == (old(self)@.history.undo.len() > 0),
            final(self)@ == old(self)@.undone(),
    {
        let ghost before = self@;
        let ghost stack = self.history.undo@;
        let ghost others = self.history.redo@;
        match self.history.undo.pop_back() {
            None => false,
            Some(snap) => {
                let mut current = snap.project;
                core::mem::swap(&mut self.project, &mut current);
                self.history.redo.push(Snapshot::of(current));
                proof {
                    let u = crate::history::projects(stack);
                    assert(stack[stack.len() - 1] == snap);
                    assert(self@.history.undo =~= before.history.undo.drop_last());
                    assert(self@.history.redo =~= before.history.redo.push(before.project));
                    assert(before.history.undo.last() == snap.project@);
                    assert forall|i: int|
                        0 <= i < self@.history.undo.len() implies (#[trigger] self@.history.undo[i]).registry.wf() by {
                        assert(before.history.undo[i].registry.wf());
                    }
                    assert forall|i: int|
                        0 <= i < self@.history.redo.len() implies (#[trigger] self@.history.redo[i]).registry.wf() by {
                        if i < before.history.redo.len() {
                            assert(before.history.redo[i].registry.wf());
                        }
                    }
                    assert(before.history.undo[before.history.undo.len() - 1].registry.wf());
                }
                self.resync_after_restore();
                true
            },
        }
    }

    /// Step forward one undone edit. Returns whether anything changed.
    ///
    /// Re-entering the undo stack past its caps is allowed: the snapshot came
    /// from that stack a moment ago, and dropping it here would strand the user
    /// mid-timeline with no way back.
    pub fn redo(&mut self) -> (r: bool)
        requires
            old(self).wf(),
        ensures
            final(self).wf(),
            r == (old(self)@.history.redo.len() > 0),
            final(self)@ == old(self)@.redone(),
    {
        let ghost before = self@;
        let ghost stack = self.history.redo@;
        match self.history.redo.pop() {
            None => false,
            Some(snap) => {
                let mut current = snap.project;
                core::mem::swap(&mut self.project, &mut current);
                self.history.undo.push_back(Snapshot::of(current));
                proof {
                    assert(stack[stack.len() - 1] == snap);
                    assert(self@.history.redo =~= before.history.redo.drop_last());
                    assert(self@.history.undo =~= before.history.undo.push(before.project));
                    assert(before.history.redo.last() == snap.project@);
                    assert forall|i: int|
                        0 <= i < self@.history.redo.len() implies (#[trigger] self@.history.redo[i]).registry.wf() by {
                        assert(before.history.redo[i].registry.wf());
                    }
                    assert forall|i: int|
                        0 <= i < self@.history.undo.len() implies (#[trigger] self@.history.undo[i]).registry.wf() by {
                        if i < before.history.undo.len() {
                            assert(before.history.undo[i].registry.wf());
                        }
                    }
                    assert(before.history.redo[before.history.redo.len() - 1].registry.wf());
                }
                self.resync_after_restore();
                true
            },
        }
    }

    /// Bring the derived, non-persisted state back in line with a restored
    /// project: the view cursor and status vector are indexed by view position,
    /// and a cached expression may belong to a class that no longer exists.
    ///
    /// Expansion state is keyed by view position and node path, both of which a
    /// restore can invalidate, so it is dropped rather than half-applied.
    fn resync_after_restore(&mut self)
        requires
            old(self)@.project.registry.wf(),
            old(self)@.history.wf(),
            old(self).history.counted(),
            old(self)@.selected_view >= 0,
        ensures
            final(self).wf(),
            final(self)@ == old(self)@.restored(old(self)@.project),
    {
        let ghost before = self@;
        let n: usize = self.project.views.len();
        self.view_status.clear();
        resize_statuses(&mut self.view_status, n);
        if self.selected_view >= n {
            self.selected_view = if n > 0 {
                n - 1
            } else {
                0
            };
        }
        self.expand = ExpandState::new();
        self.expr_cache.clear();
        proof {
            assert(self@.view_status =~= before.restored(before.project).view_status);
            assert(self@.cache =~= Map::<ClassId, CachedExprV>::empty());
        }
    }

    /// Replace the project by a loaded one.
    ///
    /// Clears the undo history: the snapshots describe a different project, so
    /// undoing across a load would splice one project's classes into another's
    /// views.
    pub fn load(&mut self, project: Project)
        requires
            old(self).wf(),
            project@.registry.wf(),
        ensures
            final(self).wf(),
            final(self)@ == old(self)@.loaded(project@),
    {
        self.project = project;
        self.history.clear();
        self.resync_after_restore();
        self.selected_view = 0;
    }
}

/// The first view of a class is a view of it, and none before it is; where there
/// is none, no view shows the class.
pub proof fn lemma_first_view_found(views: Seq<ClassId>, id: ClassId)
    ensures
        0 <= first_view(views, id) <= views.len(),
        first_view(views, id) < views.len() ==> views[first_view(views, id)] == id,
        forall|k: int| 0 <= k < first_view(views, id) ==> #[trigger] views[k] != id,
    decreases views.len(),
{
    if views.len() > 0 && views[0] != id {
        lemma_first_view_found(views.skip(1), id);
        let n = first_view(views.skip(1), id);
        assert(n < views.skip(1).len() ==> views.skip(1)[n] == views[n + 1]);
        assert forall|k: int| 0 <= k < n + 1 implies #[trigger] views[k] != id by {
            if k > 0 {
                assert(views.skip(1)[k - 1] == views[k]);
            }
        }
    }
}

/// Opening a class shows it: its view is selected. A class that is shown already
/// gets no second view; another one gets a view behind the others. The classes
/// stay as they are.
pub proof fn law_opened_class_is_shown(s: AppV, id: ClassId)
    ensures
        s.opened(id).selected_class() == Some(id),
        s.project.views.contains(id) ==> s.opened(id).project.views == s.project.views,
        !s.project.views.contains(id) ==> s.opened(id).project.views == s.project.views.push(id),
        s.opened(id).project.registry == s.project.registry,
        s.opened(id).history == s.history,
        s.opened(id).view_status.len() == s.opened(id).project.views.len(),
        forall|k: int|
            0 <= k < s.view_status.len() && k < s.opened(id).project.views.len() ==> #[trigger]
            s.opened(id).view_status[k] == s.view_status[k],
{
    lemma_first_view_found(s.project.views, id);
}

/// Closing a view takes that view away and no other, and leaves the classes as
/// they are; the selection stays within the views. There is nothing to close at
/// a place where there is no view.
pub proof fn law_closed_view_is_gone(s: AppV, idx: int)
    requires
        0 <= s.selected_view,
    ensures
        0 <= idx < s.project.views.len() ==> {
            let t = s.closed_view(idx);
            &&& t.project.views.len() == s.project.views.len() - 1
            &&& forall|k: int|
                0 <= k < idx ==> #[trigger] t.project.views[k] == s.project.views[k]
            &&& forall|k: int|
                idx <= k < t.project.views.len() ==> #[trigger] t.project.views[k]
                    == s.project.views[k + 1]
            &&& t.project.registry == s.project.registry
            &&& t.history == s.history
            &&& t.view_status.len() == t.project.views.len()
            &&& t.project.views.len() > 0 ==> 0 <= t.selected_view < t.project.views.len()
            &&& s.selected_view < t.project.views.len() ==> t.selected_view == s.selected_view
        },
        !(0 <= idx < s.project.views.len()) ==> s.closed_view(idx) == s,
{
}

/// Undo and redo go through the project's states in order: undo gives back the
/// state recorded last and keeps the present one for redo, redo gives that back.
/// What is not part of the project stays, the clipboard among it.
pub proof fn law_undo_gives_back_the_last_state(s: AppV)
    ensures
        s.history.undo.len() > 0 ==> {
            &&& s.undone().project == s.history.undo[s.history.undo.len() - 1]
            &&& s.undone().history.undo == s.history.undo.take(s.history.undo.len() - 1)
            &&& s.undone().history.redo == s.history.redo.push(s.project)
        },
        s.history.redo.len() > 0 ==> {
            &&& s.redone().project == s.history.redo[s.history.redo.len() - 1]
            &&& s.redone().history.redo == s.history.redo.take(s.history.redo.len() - 1)
            &&& s.redone().history.undo == s.history.undo.push(s.project)
        },
        s.undone().clipboard == s.clipboard,
        s.redone().clipboard == s.clipboard,
        s.undone().attached == s.attached,
        s.redone().attached == s.attached,
        s.undone().regions == s.regions,
        s.redone().regions == s.regions,
{
}

/// A position is kept on the list: as it was where it lies there, else the last.
pub proof fn law_positions_are_kept_on_the_list(at: int, n: int)
    requires
        0 <= at,
        0 <= n,
    ensures
        n > 0 ==> 0 <= clamped(at, n) < n,
        at < n ==> clamped(at, n) == at,
        0 < n <= at ==> clamped(at, n) == n - 1,
        n == 0 ==> clamped(at, n) == 0,
{
}

/// As many statuses as asked for: the first as they were, the others without an
/// address yet.
pub proof fn law_statuses_are_kept(s: Seq<ViewStatusV>, n: nat, i: int)
    requires
        0 <= i < n,
    ensures
        resized(s, n).len() == n,
        i < s.len() ==> resized(s, n)[i] == s[i],
        i >= s.len() ==> resized(s, n)[i].base == 0,
{
}

} // verus!
