//! Undo and redo: bounded stacks of whole-project snapshots.

use crate::node::{capped, lemma_capped_sum, sum_capped};
use crate::project::{node_total, Project, ProjectV};
use std::collections::VecDeque;
use vstd::prelude::*;

verus! {

/// A project as it was, with the number of its fields.
#[derive(Debug)]
pub struct Snapshot {
    pub project: Project,
    pub nodes: usize,
}

/// Bounded undo/redo stack of whole-project snapshots.
///
/// Bounded on two axes: [`History::DEPTH`] snapshots whatever their size, and
/// [`History::MAX_NODES`] fields across the whole undo stack, which trades undo
/// depth for memory where a snapshot gets large.
#[derive(Debug)]
pub struct History {
    pub undo: VecDeque<Snapshot>,
    pub redo: Vec<Snapshot>,
}

/// What a [`History`] says: the projects on either stack, newest last.
pub struct HistoryV {
    pub undo: Seq<ProjectV>,
    pub redo: Seq<ProjectV>,
}

/// The projects of a list of snapshots.
pub open spec fn projects(s: Seq<Snapshot>) -> Seq<ProjectV> {
    Seq::new(s.len(), |i: int| s[i].project@)
}

impl View for History {
    type V = HistoryV;

    open spec fn view(&self) -> HistoryV {
        HistoryV { undo: projects(self.undo@), redo: projects(self.redo@) }
    }
}

/// Fields of all snapshots of a stack.
pub open spec fn stack_nodes(s: Seq<ProjectV>) -> nat
    decreases s.len(),
{
    if s.len() == 0 {
        0
    } else {
        stack_nodes(s.drop_last()) + node_total(s.last().registry.classes)
    }
}

/// Whether a stack is over one of its bounds and has more than its newest
/// snapshot to give.
pub open spec fn over(s: Seq<ProjectV>) -> bool {
    s.len() > 1 && (s.len() > 64 || stack_nodes(s) > 500_000)
}

/// `s` without as many of its oldest snapshots as it takes to meet the bounds;
/// the newest stays in any case.
pub open spec fn trimmed(s: Seq<ProjectV>) -> Seq<ProjectV>
    decreases s.len(),
{
    if over(s) {
        trimmed(s.skip(1))
    } else {
        s
    }
}

/// Whether every project of a stack keeps its invariant.
pub open spec fn stack_wf(s: Seq<ProjectV>) -> bool {
    forall|i: int| 0 <= i < s.len() ==> (#[trigger] s[i]).registry.wf()
}

impl HistoryV {
    /// Both stacks hold projects that keep their invariant.
    pub open spec fn wf(self) -> bool {
        stack_wf(self.undo) && stack_wf(self.redo)
    }

    /// With `p` as the newest undo point and no redo branch.
    pub open spec fn pushed(self, p: ProjectV) -> HistoryV {
        HistoryV { undo: trimmed(self.undo.push(p)), redo: Seq::empty() }
    }

    /// No snapshot at all.
    pub open spec fn none() -> HistoryV {
        HistoryV { undo: Seq::empty(), redo: Seq::empty() }
    }
}

/// Trimming keeps a stretch of the stack that ends with its newest snapshot,
/// and is the longest such stretch within the bounds.
pub proof fn law_trim_keeps_newest(s: Seq<ProjectV>)
    requires
        s.len() > 0,
    ensures
        1 <= trimmed(s).len() <= s.len(),
        trimmed(s) == s.skip(s.len() - trimmed(s).len()),
        trimmed(s).last() == s.last(),
        !over(trimmed(s)),
        forall|k: int|
            0 <= k < s.len() - trimmed(s).len() ==> #[trigger] over(s.skip(k)),
    decreases s.len(),
{
    if over(s) {
        law_trim_keeps_newest(s.skip(1));
        let t = trimmed(s);
        let rest = s.skip(1);
        assert(rest.skip(rest.len() - t.len()) =~= s.skip(s.len() - t.len()));
        assert forall|k: int| 0 <= k < s.len() - t.len() implies #[trigger] over(s.skip(k)) by {
            if k == 0 {
                assert(s.skip(0) =~= s);
            } else {
                assert(s.skip(k) =~= rest.skip(k - 1));
            }
        }
    } else {
        assert(s.skip(0) =~= s);
    }
}

/// A trimmed stack is within its depth, and within its node budget unless one
/// snapshot alone exceeds it.
pub proof fn law_trim_is_bounded(s: Seq<ProjectV>)
    ensures
        trimmed(s).len() <= 64,
        trimmed(s).len() > 1 ==> stack_nodes(trimmed(s)) <= 500_000,
{
    if s.len() > 0 {
        law_trim_keeps_newest(s);
    }
}

proof fn lemma_trim_wf(s: Seq<ProjectV>)
    requires
        stack_wf(s),
    ensures
        stack_wf(trimmed(s)),
    decreases s.len(),
{
    if over(s) {
        assert forall|i: int| 0 <= i < s.skip(1).len() implies (#[trigger] s.skip(
            1,
        )[i]).registry.wf() by {
            assert(s.skip(1)[i] == s[i + 1]);
        }
        lemma_trim_wf(s.skip(1));
    }
}

impl Snapshot {
    /// A snapshot of a project.
    pub fn of(project: Project) -> (r: Snapshot)
        ensures
            r.project@ == project@,
            r.counted(),
    {
        let nodes: usize = project.count_nodes();
        Snapshot { project, nodes }
    }

    /// Whether the cached number of fields is right.
    pub open spec fn counted(self) -> bool {
        self.nodes == capped(node_total(self.project@.registry.classes))
    }
}

impl History {
    /// Snapshots kept, whatever their size.
    pub const DEPTH: usize = 64;

    /// Field budget across the whole undo stack.
    pub const MAX_NODES: usize = 500_000;

    /// Whether every cached number of fields is right.
    pub open spec fn counted(self) -> bool {
        &&& forall|i: int| 0 <= i < self.undo@.len() ==> (#[trigger] self.undo@[i]).counted()
        &&& forall|i: int| 0 <= i < self.redo@.len() ==> (#[trigger] self.redo@[i]).counted()
    }

    /// No snapshot.
    pub fn new() -> (r: History)
        ensures
            r@ == HistoryV::none(),
            r.counted(),
    {
        let r = History { undo: VecDeque::new(), redo: Vec::new() };
        proof {
            assert(r@.undo =~= Seq::<ProjectV>::empty());
            assert(r@.redo =~= Seq::<ProjectV>::empty());
        }
        r
    }

    /// [`stack_nodes`] of the undo stack, capped.
    fn undo_nodes(&self) -> (r: usize)
        requires
            self.counted(),
        ensures
            r == capped(stack_nodes(self@.undo)),
    {
        let ghost s = self@.undo;
        let mut total: usize = 0;
        let mut i: usize = 0;
        proof {
            assert(s.take(0) =~= Seq::<ProjectV>::empty());
        }
        while i < self.undo.len()
            invariant
                s == self@.undo,
                self.counted(),
                i <= self.undo@.len(),
                total == capped(stack_nodes(s.take(i as int))),
            decreases self.undo@.len() - i,
        {
            let n: usize = self.undo[i].nodes;
            proof {
                let t = s.take(i as int + 1);
                assert(t.drop_last() =~= s.take(i as int));
                assert(t.last() == s[i as int]);
                assert(self.undo@[i as int].counted());
                lemma_capped_sum(
                    stack_nodes(s.take(i as int)),
                    node_total(s[i as int].registry.classes),
                );
            }
            total = sum_capped(total, n);
            i = i + 1;
        }
        proof {
            assert(s.take(i as int) =~= s);
        }
        total
    }

    /// Record `before` as an undo point, invalidating any redo branch.
    pub fn push(&mut self, before: Project)
        requires
            old(self).counted(),
            old(self)@.wf(),
            before@.registry.wf(),
        ensures
            final(self)@ == old(self)@.pushed(before@),
            final(self).counted(),
            final(self)@.wf(),
    {
        let ghost start = self@.undo;
        let ghost all = self@.undo.push(before@);
        self.undo.push_back(Snapshot::of(before));
        proof {
            assert(self@.undo =~= all);
        }
        // The newest snapshot stays, even if it alone exceeds the budget:
        // dropping it would make the edit that just happened unundoable.
        while self.undo.len() > 1 && (self.undo.len() > History::DEPTH || self.undo_nodes()
            > History::MAX_NODES)
            invariant
                self.counted(),
                trimmed(self@.undo) == trimmed(all),
            decreases self.undo@.len(),
        {
            let ghost s = self.undo@;
            let _ = self.undo.pop_front();
            proof {
                assert(projects(self.undo@) =~= projects(s).skip(1));
            }
        }
        self.redo.clear();
        proof {
            assert(self@.redo =~= Seq::<ProjectV>::empty());
            assert(stack_wf(all)) by {
                assert forall|i: int| 0 <= i < all.len() implies (#[trigger] all[i]).registry.wf() by {
                    if i < start.len() {
                        assert(all[i] == start[i]);
                    }
                }
            }
            lemma_trim_wf(all);
        }
    }

    /// Forget everything: a project load starts a new timeline.
    pub fn clear(&mut self)
        ensures
            final(self)@ == HistoryV::none(),
            final(self).counted(),
    {
        self.undo.clear();
        self.redo.clear();
        proof {
            assert(self@.undo =~= Seq::<ProjectV>::empty());
            assert(self@.redo =~= Seq::<ProjectV>::empty());
        }
    }
}

/// Within its bounds, sixty-four states and half a million fields, the history
/// forgets nothing; a state recorded comes behind those before it and ends what
/// could be redone.
pub proof fn law_history_within_bounds_forgets_nothing(h: HistoryV, p: ProjectV)
    ensures
        h.undo.len() < 64 && stack_nodes(h.undo.push(p)) <= 500_000 ==> h.pushed(p).undo
            == h.undo.push(p),
        h.pushed(p).undo.len() > 0 && h.pushed(p).undo.last() == p,
        h.pushed(p).redo.len() == 0,
{
    law_trim_keeps_newest(h.undo.push(p));
}

/// The fields of a stack are those of all its states together.
pub proof fn law_stack_counts_every_field(s: Seq<ProjectV>, p: ProjectV)
    ensures
        stack_nodes(s.push(p)) == stack_nodes(s) + node_total(p.registry.classes),
        stack_nodes(Seq::empty()) == 0,
{
    assert(s.push(p).drop_last() =~= s);
}

} // verus!
