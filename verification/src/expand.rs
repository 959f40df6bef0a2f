//! Which rows of the views are opened up: followed pointers and collapsed
//! aggregates, each by view position and path.

use crate::node::PathSeg;
use vstd::prelude::*;

verus! {

/// A row: the position of its view, and the way down to its field.
pub type Spot = (int, Seq<PathSeg>);

/// Whether two paths are the same.
pub fn same_path(a: &Vec<PathSeg>, b: &Vec<PathSeg>) -> (r: bool)
    ensures
        r == (a@ == b@),
{
    if a.len() != b.len() {
        return false;
    }
    let mut i: usize = 0;
    while i < a.len()
        invariant
            i <= a@.len(),
            a@.len() == b@.len(),
            forall|j: int| 0 <= j < i ==> a@[j] == b@[j],
        decreases a@.len() - i,
    {
        if a[i] != b[i] {
            return false;
        }
        i = i + 1;
    }
    proof {
        assert(a@ =~= b@);
    }
    true
}

/// A copy of a path.
pub fn dup_path(p: &Vec<PathSeg>) -> (r: Vec<PathSeg>)
    ensures
        r@ == p@,
{
    let mut out: Vec<PathSeg> = Vec::new();
    let mut i: usize = 0;
    while i < p.len()
        invariant
            i <= p@.len(),
            out@ =~= p@.take(i as int),
        decreases p@.len() - i,
    {
        out.push(p[i]);
        i = i + 1;
    }
    out
}

/// A set of marked rows.
#[derive(Debug)]
pub struct Marks {
    pub rows: Vec<(usize, Vec<PathSeg>)>,
}

/// The row that an entry marks.
pub open spec fn spot(e: (usize, Vec<PathSeg>)) -> Spot {
    (e.0 as int, e.1@)
}

/// Whether one of the entries marks `s`.
pub open spec fn marked(rows: Seq<(usize, Vec<PathSeg>)>, s: Spot) -> bool {
    exists|i: int| 0 <= i < rows.len() && spot(#[trigger] rows[i]) == s
}

impl View for Marks {
    type V = Set<Spot>;

    open spec fn view(&self) -> Set<Spot> {
        Set::new(|s: Spot| marked(self.rows@, s))
    }
}

/// What `s` is once view `idx` is gone: its rows go, and those of later views
/// move up.
pub open spec fn without_view(s: Set<Spot>, idx: int) -> Set<Spot> {
    Set::new(
        |e: Spot|
            s.contains(
                if e.0 >= idx {
                    (e.0 + 1, e.1)
                } else {
                    e
                },
            ),
    )
}

/// What `s` is without the rows of view `root`.
pub open spec fn without_rows_of(s: Set<Spot>, root: int) -> Set<Spot> {
    Set::new(|e: Spot| s.contains(e) && e.0 != root)
}

impl Marks {
    /// No row.
    pub fn new() -> (r: Marks)
        ensures
            r@ == Set::<Spot>::empty(),
    {
        let r = Marks { rows: Vec::new() };
        proof {
            assert(r@ =~= Set::<Spot>::empty());
        }
        r
    }

    /// Whether the row is marked.
    pub fn contains(&self, root: usize, path: &Vec<PathSeg>) -> (r: bool)
        ensures
            r == self@.contains((root as int, path@)),
    {
        let ghost s = (root as int, path@);
        let mut i: usize = 0;
        while i < self.rows.len()
            invariant
                i <= self.rows@.len(),
                s == (root as int, path@),
                forall|j: int| 0 <= j < i ==> spot(#[trigger] self.rows@[j]) != s,
            decreases self.rows@.len() - i,
        {
            if self.rows[i].0 == root && same_path(&self.rows[i].1, path) {
                proof {
                    assert(spot(self.rows@[i as int]) == s);
                }
                return true;
            }
            i = i + 1;
        }
        false
    }

    /// Mark the row.
    pub fn insert(&mut self, root: usize, path: Vec<PathSeg>)
        ensures
            final(self)@ == old(self)@.insert((root as int, path@)),
    {
        let ghost before = self.rows@;
        let ghost s = (root as int, path@);
        if !self.contains(root, &path) {
            self.rows.push((root, path));
            proof {
                assert forall|e: Spot| self@.contains(e) == old(self)@.insert(s).contains(e) by {
                    if old(self)@.contains(e) {
                        let i = choose|i: int|
                            0 <= i < before.len() && spot(#[trigger] before[i]) == e;
                        assert(self.rows@[i] == before[i]);
                    }
                    if e == s {
                        assert(spot(self.rows@[before.len() as int]) == s);
                    }
                    if self@.contains(e) {
                        let i = choose|i: int|
                            0 <= i < self.rows@.len() && spot(#[trigger] self.rows@[i]) == e;
                        if i < before.len() {
                            assert(spot(before[i]) == e);
                        }
                    }
                }
            }
        }
        proof {
            assert(self@ =~= old(self)@.insert(s));
        }
    }

    /// Take the mark from the row.
    pub fn remove(&mut self, root: usize, path: &Vec<PathSeg>)
        ensures
            final(self)@ == old(self)@.remove((root as int, path@)),
    {
        let ghost s = (root as int, path@);
        let mut out: Vec<(usize, Vec<PathSeg>)> = Vec::new();
        let mut i: usize = 0;
        let ghost all = self.rows@;
        while i < self.rows.len()
            invariant
                i <= self.rows@.len(),
                self.rows@ == all,
                s == (root as int, path@),
                forall|e: Spot|
                    #[trigger] marked(out@, e) == (e != s && marked(all.take(i as int), e)),
            decreases self.rows@.len() - i,
        {
            let ghost before = out@;
            let same: bool = self.rows[i].0 == root && same_path(&self.rows[i].1, path);
            if !same {
                out.push((self.rows[i].0, dup_path(&self.rows[i].1)));
                proof {
                    assert(spot(out@[before.len() as int]) == spot(all[i as int]));
                }
            }
            proof {
                assert(out@.take(before.len() as int) =~= before);
                lemma_marks_step(before, out@, all, i as int, |e: Spot| e != s, |e: Spot| e);
            }
            i = i + 1;
        }
        self.rows = out;
        proof {
            assert(all.take(all.len() as int) =~= all);
            assert(self@ =~= old(self)@.remove(s));
        }
    }

    /// Take the marks from the rows of view `root`.
    pub fn clear_root(&mut self, root: usize)
        ensures
            final(self)@ == without_rows_of(old(self)@, root as int),
    {
        let mut out: Vec<(usize, Vec<PathSeg>)> = Vec::new();
        let mut i: usize = 0;
        let ghost all = self.rows@;
        while i < self.rows.len()
            invariant
                i <= self.rows@.len(),
                self.rows@ == all,
                forall|e: Spot|
                    #[trigger] marked(out@, e) == (e.0 != root && marked(all.take(i as int), e)),
            decreases self.rows@.len() - i,
        {
            let ghost before = out@;
            if self.rows[i].0 != root {
                out.push((self.rows[i].0, dup_path(&self.rows[i].1)));
                proof {
                    assert(spot(out@[before.len() as int]) == spot(all[i as int]));
                }
            }
            proof {
                assert(out@.take(before.len() as int) =~= before);
                lemma_marks_step(before, out@, all, i as int, |e: Spot| e.0 != root, |e: Spot| e);
            }
            i = i + 1;
        }
        self.rows = out;
        proof {
            assert(all.take(all.len() as int) =~= all);
            assert(self@ =~= without_rows_of(old(self)@, root as int));
        }
    }

    /// View `idx` is gone: drop its marks and move those of later views up.
    pub fn drop_root(&mut self, idx: usize)
        ensures
            final(self)@ == without_view(old(self)@, idx as int),
    {
        let mut out: Vec<(usize, Vec<PathSeg>)> = Vec::new();
        let mut i: usize = 0;
        let ghost all = self.rows@;
        let ghost up = |e: Spot|
            if e.0 >= idx {
                (e.0 + 1, e.1)
            } else {
                e
            };
        while i < self.rows.len()
            invariant
                i <= self.rows@.len(),
                self.rows@ == all,
                up == (|e: Spot|
                    if e.0 >= idx {
                        (e.0 + 1, e.1)
                    } else {
                        e
                    }),
                forall|e: Spot| #[trigger] marked(out@, e) == marked(all.take(i as int), up(e)),
            decreases self.rows@.len() - i,
        {
            let ghost before = out@;
            let at: usize = self.rows[i].0;
            if at < idx {
                out.push((at, dup_path(&self.rows[i].1)));
                proof {
                    assert(spot(out@[before.len() as int]) == spot(all[i as int]));
                }
            } else if at > idx {
                out.push((at - 1, dup_path(&self.rows[i].1)));
                proof {
                    assert(up(spot(out@[before.len() as int])) == spot(all[i as int]));
                }
            }
            proof {
                assert(out@.take(before.len() as int) =~= before);
                lemma_marks_step(before, out@, all, i as int, |e: Spot| true, up);
            }
            i = i + 1;
        }
        self.rows = out;
        proof {
            assert(all.take(all.len() as int) =~= all);
            assert(self@ =~= without_view(old(self)@, idx as int));
        }
    }
}

/// One entry more on either side keeps the two lists in step.
proof fn lemma_marks_step(
    before: Seq<(usize, Vec<PathSeg>)>,
    after: Seq<(usize, Vec<PathSeg>)>,
    all: Seq<(usize, Vec<PathSeg>)>,
    i: int,
    keep: spec_fn(Spot) -> bool,
    back: spec_fn(Spot) -> Spot,
)
    requires
        0 <= i < all.len(),
        forall|e: Spot|
            #[trigger] marked(before, e) == (keep(e) && marked(all.take(i), back(e))),
        (after == before && forall|e: Spot| #[trigger] keep(e) ==> back(e) != spot(all[i])) || (
        after.len() == before.len() + 1 && after.take(before.len() as int) == before && keep(
            spot(after[before.len() as int]),
        ) && back(spot(after[before.len() as int])) == spot(all[i]) && forall|e: Spot|
            #[trigger] keep(e) && back(e) == spot(all[i]) ==> e == spot(
                after[before.len() as int],
            )),
    ensures
        forall|e: Spot|
            #[trigger] marked(after, e) == (keep(e) && marked(all.take(i + 1), back(e))),
{
    let now = all.take(i + 1);
    assert forall|e: Spot|
        #[trigger] marked(after, e) == (keep(e) && marked(now, back(e))) by {
        assert(marked(before, e) == (keep(e) && marked(all.take(i), back(e))));
        if marked(after, e) {
            let k = choose|k: int| 0 <= k < after.len() && spot(#[trigger] after[k]) == e;
            if k < before.len() {
                assert(after.take(before.len() as int)[k] == after[k]);
                assert(spot(before[k]) == e);
                let j = choose|j: int|
                    0 <= j < all.take(i).len() && spot(#[trigger] all.take(i)[j]) == back(e);
                assert(spot(now[j]) == back(e));
            } else {
                assert(spot(now[i]) == back(e));
            }
        }
        if keep(e) && marked(now, back(e)) {
            let j = choose|j: int| 0 <= j < now.len() && spot(#[trigger] now[j]) == back(e);
            if j < i {
                assert(spot(all.take(i)[j]) == back(e));
                let k = choose|k: int| 0 <= k < before.len() && spot(#[trigger] before[k]) == e;
                assert(after.take(before.len() as int)[k] == after[k]);
                assert(spot(after[k]) == e);
            } else {
                assert(spot(after[before.len() as int]) == e);
            }
        }
    }
}

/// Which rows are opened up.
#[derive(Debug)]
pub struct ExpandState {
    /// Pointers that are followed.
    pub expanded: Marks,
    /// Arrays and inline instances whose contents are not shown.
    pub collapsed: Marks,
}

/// What an [`ExpandState`] says.
pub struct ExpandV {
    pub expanded: Set<Spot>,
    pub collapsed: Set<Spot>,
}

impl View for ExpandState {
    type V = ExpandV;

    open spec fn view(&self) -> ExpandV {
        ExpandV { expanded: self.expanded@, collapsed: self.collapsed@ }
    }
}

/// `s` with `e` in it where it was not, and without it where it was.
pub open spec fn toggled(s: Set<Spot>, e: Spot) -> Set<Spot> {
    if s.contains(e) {
        s.remove(e)
    } else {
        s.insert(e)
    }
}

impl ExpandV {
    /// Nothing followed, nothing collapsed.
    pub open spec fn none() -> ExpandV {
        ExpandV { expanded: Set::empty(), collapsed: Set::empty() }
    }

    /// Once view `idx` is gone.
    pub open spec fn drop_root(self, idx: int) -> ExpandV {
        ExpandV {
            expanded: without_view(self.expanded, idx),
            collapsed: without_view(self.collapsed, idx),
        }
    }

    /// Without the marks of view `root`.
    pub open spec fn clear_root(self, root: int) -> ExpandV {
        ExpandV {
            expanded: without_rows_of(self.expanded, root),
            collapsed: without_rows_of(self.collapsed, root),
        }
    }
}

impl ExpandState {
    /// Nothing followed, nothing collapsed.
    pub fn new() -> (r: ExpandState)
        ensures
            r@ == ExpandV::none(),
    {
        ExpandState { expanded: Marks::new(), collapsed: Marks::new() }
    }

    /// Follow a pointer, or stop following it.
    pub fn toggle(&mut self, root: usize, path: Vec<PathSeg>)
        ensures
            final(self)@ == (ExpandV {
                expanded: toggled(old(self)@.expanded, (root as int, path@)),
                ..old(self)@
            }),
    {
        if self.expanded.contains(root, &path) {
            self.expanded.remove(root, &path);
        } else {
            self.expanded.insert(root, path);
        }
    }

    /// Collapse an aggregate, or open it again.
    pub fn toggle_collapse(&mut self, root: usize, path: Vec<PathSeg>)
        ensures
            final(self)@ == (ExpandV {
                collapsed: toggled(old(self)@.collapsed, (root as int, path@)),
                ..old(self)@
            }),
    {
        if self.collapsed.contains(root, &path) {
            self.collapsed.remove(root, &path);
        } else {
            self.collapsed.insert(root, path);
        }
    }

    /// Follow a pointer.
    pub fn expand(&mut self, root: usize, path: Vec<PathSeg>)
        ensures
            final(self)@ == (ExpandV {
                expanded: old(self)@.expanded.insert((root as int, path@)),
                ..old(self)@
            }),
    {
        self.expanded.insert(root, path);
    }

    /// Collapse an aggregate.
    pub fn mark_collapsed(&mut self, root: usize, path: Vec<PathSeg>)
        ensures
            final(self)@ == (ExpandV {
                collapsed: old(self)@.collapsed.insert((root as int, path@)),
                ..old(self)@
            }),
    {
        self.collapsed.insert(root, path);
    }

    /// Whether a pointer is followed.
    pub fn is_expanded(&self, root: usize, path: &Vec<PathSeg>) -> (r: bool)
        ensures
            r == self@.expanded.contains((root as int, path@)),
    {
        self.expanded.contains(root, path)
    }

    /// Whether an aggregate is collapsed.
    pub fn is_collapsed(&self, root: usize, path: &Vec<PathSeg>) -> (r: bool)
        ensures
            r == self@.collapsed.contains((root as int, path@)),
    {
        self.collapsed.contains(root, path)
    }

    /// Forget the marks of one view.
    pub fn clear_root(&mut self, root: usize)
        ensures
            final(self)@ == old(self)@.clear_root(root as int),
    {
        self.expanded.clear_root(root);
        self.collapsed.clear_root(root);
    }

    /// View `idx` is gone: forget its marks and renumber those of later views.
    pub fn drop_root(&mut self, idx: usize)
        ensures
            final(self)@ == old(self)@.drop_root(idx as int),
    {
        self.expanded.drop_root(idx);
        self.collapsed.drop_root(idx);
    }
}

/// Once a view is closed the marks of the views before it stay, those of the ones
/// behind it move up with them, and its own are gone.
pub proof fn law_marks_follow_their_views(e: ExpandV, idx: int, root: int, path: Seq<PathSeg>)
    ensures
        root < idx ==> {
            &&& e.drop_root(idx).expanded.contains((root, path)) == e.expanded.contains(
                (root, path),
            )
            &&& e.drop_root(idx).collapsed.contains((root, path)) == e.collapsed.contains(
                (root, path),
            )
        },
        root > idx ==> {
            &&& e.drop_root(idx).expanded.contains((root - 1, path)) == e.expanded.contains(
                (root, path),
            )
            &&& e.drop_root(idx).collapsed.contains((root - 1, path)) == e.collapsed.contains(
                (root, path),
            )
        },
{
}

/// Turning a row concerns that row alone, and turning it again turns it back.
pub proof fn law_turning_concerns_one_row(s: Set<Spot>, e: Spot, other: Spot)
    ensures
        toggled(s, e).contains(e) == !s.contains(e),
        other != e ==> toggled(s, e).contains(other) == s.contains(other),
        toggled(toggled(s, e), e) == s,
{
    assert(toggled(toggled(s, e), e) =~= s);
}

/// Clearing a view takes every mark of it away, of either kind, and no other.
pub proof fn law_cleared_view_has_no_marks(x: ExpandV, root: int, e: Spot)
    ensures
        e.0 == root ==> !x.clear_root(root).expanded.contains(e) && !x.clear_root(
            root,
        ).collapsed.contains(e),
        e.0 != root ==> x.clear_root(root).expanded.contains(e) == x.expanded.contains(e)
            && x.clear_root(root).collapsed.contains(e) == x.collapsed.contains(e),
{
}

} // verus!
