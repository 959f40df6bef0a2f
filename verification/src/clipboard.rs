//! Edits of several fields at once: copy, paste and multi-select delete.

use crate::app_state::{AppError, AppState, AppV};
use crate::effects::{lemma_other_fields, same_but_classes, same_but_fields};
use crate::node::{dup_nodes, nodes_view, reference, ClassId, Node, NodeKind, NodeV};
use crate::registry::{
    lemma_with_nodes, removed, would_cycle, ClassRegistry, RegistryError, RegistryV,
};
use vstd::prelude::*;

verus! {

/// A field: its class, and its number in it.
pub type Target = (ClassId, usize);

/// Whether `a` stands before `b`: by class, then by field number, rising or
/// falling.
pub open spec fn comes_first(a: Target, b: Target, down: bool) -> bool {
    a.0 < b.0 || (a.0 == b.0 && if down {
        a.1 > b.1
    } else {
        a.1 < b.1
    })
}

/// `t` put where it belongs in `s`, unless it is there.
pub open spec fn placed(s: Seq<Target>, t: Target, down: bool) -> Seq<Target>
    decreases s.len(),
{
    if s.len() == 0 {
        seq![t]
    } else if s.last() == t {
        s
    } else if comes_first(s.last(), t, down) {
        s.push(t)
    } else {
        placed(s.drop_last(), t, down).push(s.last())
    }
}

/// The targets in order, each once.
pub open spec fn ordered(ts: Seq<Target>, down: bool) -> Seq<Target>
    decreases ts.len(),
{
    if ts.len() == 0 {
        Seq::empty()
    } else {
        placed(ordered(ts.drop_last(), down), ts.last(), down)
    }
}

/// Whether every target stands before the later ones.
pub open spec fn in_order(s: Seq<Target>, down: bool) -> bool {
    forall|i: int, j: int|
        0 <= i < j < s.len() ==> comes_first(#[trigger] s[i], #[trigger] s[j], down)
}

proof fn lemma_placed(s: Seq<Target>, t: Target, down: bool)
    requires
        in_order(s, down),
    ensures
        in_order(placed(s, t, down), down),
        forall|x: Target| #[trigger] placed(s, t, down).contains(x) == (s.contains(x) || x == t),
    decreases s.len(),
{
    let r = placed(s, t, down);
    if s.len() == 0 {
        assert(r[0] == t);
    } else if s.last() == t {
        assert(s[s.len() - 1] == t);
    } else if comes_first(s.last(), t, down) {
        assert forall|i: int, j: int| 0 <= i < j < r.len() implies comes_first(
            #[trigger] r[i],
            #[trigger] r[j],
            down,
        ) by {
            if j == s.len() {
                if i < s.len() - 1 {
                    assert(comes_first(s[i], s[s.len() - 1], down));
                }
            } else {
                assert(comes_first(s[i], s[j], down));
            }
        }
        assert forall|x: Target| #[trigger] r.contains(x) == (s.contains(x) || x == t) by {
            if s.contains(x) {
                let k = choose|k: int| 0 <= k < s.len() && s[k] == x;
                assert(r[k] == x);
            }
            if x == t {
                assert(r[s.len() as int] == t);
            }
        }
    } else {
        let head = s.drop_last();
        assert(in_order(head, down)) by {
            assert forall|i: int, j: int| 0 <= i < j < head.len() implies comes_first(
                #[trigger] head[i],
                #[trigger] head[j],
                down,
            ) by {
                assert(comes_first(s[i], s[j], down));
            }
        }
        lemma_placed(head, t, down);
        let q = placed(head, t, down);
        assert forall|i: int, j: int| 0 <= i < j < r.len() implies comes_first(
            #[trigger] r[i],
            #[trigger] r[j],
            down,
        ) by {
            if j == q.len() {
                assert(q.contains(q[i]));
                if q[i] != t {
                    let k = choose|k: int| 0 <= k < head.len() && head[k] == q[i];
                    assert(comes_first(s[k], s[s.len() - 1], down));
                }
            } else {
                assert(comes_first(q[i], q[j], down));
            }
        }
        assert forall|x: Target| #[trigger] r.contains(x) == (s.contains(x) || x == t) by {
            if r.contains(x) {
                let k = choose|k: int| 0 <= k < r.len() && r[k] == x;
                if k < q.len() {
                    assert(q.contains(x)) by {
                        assert(q[k] == x);
                    }
                    if x != t {
                        let m = choose|m: int| 0 <= m < head.len() && head[m] == x;
                        assert(s[m] == x);
                    }
                } else {
                    assert(s[s.len() - 1] == x);
                }
            }
            if s.contains(x) || x == t {
                if x == s.last() {
                    assert(r[q.len() as int] == x);
                } else {
                    if s.contains(x) {
                        let m = choose|m: int| 0 <= m < s.len() && s[m] == x;
                        assert(head[m] == x);
                    }
                    assert(q.contains(x));
                    let k = choose|k: int| 0 <= k < q.len() && q[k] == x;
                    assert(r[k] == x);
                }
            }
        }
    }
}

/// Ordering keeps exactly the targets given, each once, by class and then by
/// field number, however they were given.
pub proof fn law_ordered(ts: Seq<Target>, down: bool)
    ensures
        in_order(ordered(ts, down), down),
        forall|x: Target| #[trigger] ordered(ts, down).contains(x) == ts.contains(x),
    decreases ts.len(),
{
    if ts.len() > 0 {
        law_ordered(ts.drop_last(), down);
        lemma_placed(ordered(ts.drop_last(), down), ts.last(), down);
        assert forall|x: Target| #[trigger] ordered(ts, down).contains(x) == ts.contains(x) by {
            if ts.contains(x) {
                let k = choose|k: int| 0 <= k < ts.len() && ts[k] == x;
                if k < ts.len() - 1 {
                    assert(ts.drop_last()[k] == x);
                }
            }
            if ts.drop_last().contains(x) {
                let k = choose|k: int| 0 <= k < ts.drop_last().len() && ts.drop_last()[k] == x;
                assert(ts[k] == x);
            }
            if x == ts.last() {
                assert(ts[ts.len() - 1] == x);
            }
        }
    }
}

/// Where [`placed`] puts `t`.
proof fn lemma_placed_at(s: Seq<Target>, t: Target, down: bool, i: int)
    requires
        0 <= i <= s.len(),
        forall|k: int|
            i <= k < s.len() ==> #[trigger] s[k] != t && !comes_first(s[k], t, down),
        i == 0 || s[i - 1] == t || comes_first(s[i - 1], t, down),
    ensures
        placed(s, t, down) == if i > 0 && s[i - 1] == t {
            s
        } else {
            s.insert(i, t)
        },
    decreases s.len(),
{
    if s.len() == 0 {
        assert(s.insert(0, t) =~= seq![t]);
    } else if i == s.len() {
        assert(s.insert(i, t) =~= s.push(t));
    } else {
        let head = s.drop_last();
        assert(s[s.len() - 1] != t);
        assert forall|k: int| i <= k < head.len() implies #[trigger] head[k] != t && !comes_first(
            head[k],
            t,
            down,
        ) by {
            assert(head[k] == s[k]);
        }
        if i > 0 {
            assert(head[i - 1] == s[i - 1]);
        }
        lemma_placed_at(head, t, down, i);
        assert(head.push(s.last()) =~= s);
        assert(head.insert(i, t).push(s.last()) =~= s.insert(i, t));
    }
}

/// [`comes_first`] of two targets.
fn is_first(a: Target, b: Target, down: bool) -> (r: bool)
    ensures
        r == comes_first(a, b, down),
{
    if a.0 != b.0 {
        a.0 < b.0
    } else if down {
        a.1 > b.1
    } else {
        a.1 < b.1
    }
}

/// [`ordered`] of `ts`.
pub fn order_targets(ts: &Vec<Target>, down: bool) -> (r: Vec<Target>)
    ensures
        r@ == ordered(ts@, down),
{
    let mut out: Vec<Target> = Vec::new();
    let mut n: usize = 0;
    proof {
        assert(ts@.take(0) =~= Seq::<Target>::empty());
    }
    while n < ts.len()
        invariant
            n <= ts@.len(),
            out@ == ordered(ts@.take(n as int), down),
        decreases ts@.len() - n,
    {
        let t: Target = ts[n];
        let ghost before = out@;
        let mut i: usize = out.len();
        while i > 0 && !(out[i - 1].0 == t.0 && out[i - 1].1 == t.1) && !is_first(
            out[i - 1],
            t,
            down,
        )
            invariant
                i <= out@.len(),
                out@ == before,
                forall|k: int|
                    i <= k < out@.len() ==> #[trigger] out@[k] != t && !comes_first(
                        out@[k],
                        t,
                        down,
                    ),
            decreases i,
        {
            i = i - 1;
        }
        proof {
            lemma_placed_at(before, t, down, i as int);
            assert(ts@.take(n as int + 1).drop_last() =~= ts@.take(n as int));
            assert(ts@.take(n as int + 1).last() == t);
        }
        if !(i > 0 && out[i - 1].0 == t.0 && out[i - 1].1 == t.1) {
            out.insert(i, t);
        }
        n = n + 1;
    }
    proof {
        assert(ts@.take(n as int) =~= ts@);
    }
    out
}

// ---------------------------------------------------------------------------
// Copy
// ---------------------------------------------------------------------------

/// The fields at `ts`, those that exist, in that order.
pub open spec fn picked(v: RegistryV, ts: Seq<Target>) -> Seq<NodeV>
    decreases ts.len(),
{
    if ts.len() == 0 {
        Seq::empty()
    } else {
        let head = picked(v, ts.drop_last());
        let t = ts.last();
        if v.has(t.0) && t.1 < v.nodes(t.0).len() {
            head.push(v.nodes(t.0)[t.1 as int])
        } else {
            head
        }
    }
}

impl AppState {
    /// Copy the nodes at `targets` into the clipboard, in class-then-index
    /// order so a multi-row selection pastes back in its original layout order
    /// regardless of how the user clicked it. Returns how many were copied.
    ///
    /// A stale index is skipped rather than failing the whole copy.
    pub fn copy_nodes(&mut self, targets: &Vec<Target>) -> (r: usize)
        requires
            old(self).wf(),
        ensures
            final(self).wf(),
            final(self)@ == (AppV {
                clipboard: picked(old(self)@.project.registry, ordered(targets@, false)),
                ..old(self)@
            }),
            r == final(self)@.clipboard.len(),
    {
        let ghost v = self@.project.registry;
        let t = order_targets(targets, false);
        let mut out: Vec<Node> = Vec::new();
        let mut i: usize = 0;
        proof {
            assert(t@.take(0) =~= Seq::<Target>::empty());
            assert(nodes_view(out@) =~= Seq::<NodeV>::empty());
        }
        while i < t.len()
            invariant
                self.wf(),
                v == self@.project.registry,
                i <= t@.len(),
                nodes_view(out@) == picked(v, t@.take(i as int)),
            decreases t@.len() - i,
        {
            let ghost before = out@;
            proof {
                assert(t@.take(i as int + 1).drop_last() =~= t@.take(i as int));
                assert(t@.take(i as int + 1).last() == t@[i as int]);
            }
            match self.project.registry.get(t[i].0) {
                Some(c) => {
                    let idx: usize = t[i].1;
                    if idx < c.nodes.len() {
                        out.push(c.nodes[idx].dup());
                        proof {
                            assert(nodes_view(out@) =~= nodes_view(before).push(
                                v.nodes(t@[i as int].0)[idx as int],
                            ));
                        }
                    }
                },
                None => {},
            }
            i = i + 1;
        }
        proof {
            assert(t@.take(i as int) =~= t@);
        }
        self.clipboard = out;
        self.clipboard.len()
    }

    /// Nodes currently on the clipboard.
    pub fn clipboard(&self) -> (r: &Vec<Node>)
        ensures
            nodes_view(r@) == self@.clipboard,
    {
        &self.clipboard
    }
}

// ---------------------------------------------------------------------------
// Paste
// ---------------------------------------------------------------------------

/// The class that `kind` refers to, where there is no such class.
pub open spec fn missing_ref(v: RegistryV, kind: NodeKind) -> Option<ClassId> {
    match reference(kind) {
        Some(id) => if v.has(id) {
            None
        } else {
            Some(id)
        },
        None => None,
    }
}

/// The first class id `kind` references that is no longer in the registry, if
/// any.
///
/// A node copied while its target class existed can outlive it: the registry
/// rewrites references when a class is removed, but a clipboard entry is
/// outside the registry and keeps the dead id.
pub fn first_missing_ref(reg: &ClassRegistry, kind: &NodeKind) -> (r: Option<ClassId>)
    requires
        reg@.wf(),
    ensures
        r == missing_ref(reg@, *kind),
{
    match kind.referenced_class() {
        Some(id) => match reg.find(id) {
            Some(_) => None,
            None => Some(id),
        },
        None => None,
    }
}

/// Why `nodes` may not be pasted into `class`: the first of them that would
/// make the class contain itself, or refers to a class that is gone.
pub open spec fn paste_refusal(v: RegistryV, class: ClassId, nodes: Seq<NodeV>) -> Option<AppError>
    decreases nodes.len(),
{
    if nodes.len() == 0 {
        None
    } else if would_cycle(v.classes, class, nodes[0].kind) {
        Some(AppError::Cycle)
    } else {
        match missing_ref(v, nodes[0].kind) {
            Some(target) => Some(
                AppError::Registry(RegistryError::DanglingRef { class, idx: 0, target }),
            ),
            None => paste_refusal(v, class, nodes.skip(1)),
        }
    }
}

/// `nodes` with `more` put in at `at`.
pub open spec fn spliced(nodes: Seq<NodeV>, at: int, more: Seq<NodeV>) -> Seq<NodeV> {
    nodes.take(at) + more + nodes.skip(at)
}

/// What a paste leaves and returns. It is refused whole, before anything is
/// recorded, or it is one undo step.
pub open spec fn pasted(s: AppV, class: ClassId, after: Option<usize>) -> (
    AppV,
    Result<usize, AppError>,
) {
    let v = s.project.registry;
    if s.clipboard.len() == 0 {
        (s, Ok(0))
    } else if !v.has(class) {
        (s, Err(AppError::Registry(RegistryError::NotFound(class))))
    } else {
        match paste_refusal(v, class, s.clipboard) {
            Some(e) => (s, Err(e)),
            None => {
                let at = match after {
                    Some(idx) => idx + 1,
                    None => v.nodes(class).len() as int,
                };
                if at > v.nodes(class).len() {
                    (
                        s.snapped(),
                        Err(
                            AppError::Registry(
                                RegistryError::NoSuchNode { class, idx: at as usize },
                            ),
                        ),
                    )
                } else {
                    (
                        s.snapped().with_registry(
                            v.with_nodes(class, spliced(v.nodes(class), at, s.clipboard)),
                        ),
                        Ok(s.clipboard.len() as usize),
                    )
                }
            },
        }
    }
}

impl AppState {
    /// [`paste_refusal`] of the clipboard.
    fn refuse_paste(&self, class: ClassId) -> (r: Option<AppError>)
        requires
            self.wf(),
        ensures
            r == paste_refusal(self@.project.registry, class, self@.clipboard),
    {
        let ghost v = self@.project.registry;
        let ghost clip = self@.clipboard;
        let n: usize = self.clipboard.len();
        let mut i: usize = 0;
        proof {
            assert(clip.skip(0) =~= clip);
        }
        while i < n
            invariant
                self.wf(),
                v == self@.project.registry,
                clip == nodes_view(self.clipboard@),
                n == self.clipboard@.len(),
                i <= n,
                paste_refusal(v, class, clip.skip(i as int)) == paste_refusal(v, class, clip),
            decreases n - i,
        {
            let kind = &self.clipboard[i].kind;
            proof {
                assert(clip.skip(i as int)[0].kind == *kind);
                assert(clip.skip(i as int).skip(1) =~= clip.skip(i as int + 1));
            }
            if self.project.registry.kind_would_cycle(class, kind) {
                return Some(AppError::Cycle);
            }
            match first_missing_ref(&self.project.registry, kind) {
                Some(target) => {
                    return Some(
                        AppError::Registry(RegistryError::DanglingRef { class, idx: 0, target }),
                    );
                },
                None => {},
            }
            i = i + 1;
        }
        None
    }

    /// Insert the clipboard into `class`, after node `after` (or appended when
    /// `None`). Returns how many nodes were inserted.
    ///
    /// Rejected wholesale, before any node lands, when a pasted node would
    /// create an inline cycle, or references a class that has since been
    /// deleted.
    pub fn paste_nodes(&mut self, class: ClassId, after: Option<usize>) -> (r: Result<
        usize,
        AppError,
    >)
        requires
            old(self).wf(),
            after is Some ==> after->0 < usize::MAX,
        ensures
            final(self).wf(),
            (final(self)@, r) == pasted(old(self)@, class, after),
    {
        let ghost s = self@;
        let ghost v = s.project.registry;
        let ghost clip = s.clipboard;
        let n: usize = self.clipboard.len();
        if n == 0 {
            return Ok(0);
        }
        match self.project.registry.find(class) {
            Some(_) => {},
            None => {
                return Err(AppError::Registry(RegistryError::NotFound(class)));
            },
        }
        match self.refuse_paste(class) {
            Some(e) => {
                return Err(e);
            },
            None => {},
        }
        self.snapshot();
        let nodes = dup_nodes(&self.clipboard);
        proof {
            assert(nodes_view(nodes@) == clip);
            lemma_with_nodes(v, class, v.nodes(class));
        }
        match after {
            Some(idx) => {
                let ghost at = idx + 1;
                let mut k: usize = n;
                proof {
                    assert(clip.skip(n as int) =~= Seq::<NodeV>::empty());
                    assert(at <= v.nodes(class).len() ==> spliced(
                        v.nodes(class),
                        at,
                        clip.skip(n as int),
                    ) =~= v.nodes(class));
                }
                // last to first, so that each insert lands before the previous
                // one and the block keeps its order
                while k > 0
                    invariant
                        self.wf(),
                        v.wf(),
                        v.has(class),
                        idx < usize::MAX,
                        at == idx + 1,
                        k <= n,
                        n == nodes@.len(),
                        n == clip.len(),
                        n > 0,
                        after == Some(idx),
                        s == old(self)@,
                        s.clipboard == clip,
                        s.project.registry == v,
                        clip.len() > 0,
                        paste_refusal(v, class, clip) is None,
                        nodes_view(nodes@) == clip,
                        at > v.nodes(class).len() ==> k == n && self@ == s.snapped(),
                        at <= v.nodes(class).len() ==> self@ == s.snapped().with_registry(
                            v.with_nodes(
                                class,
                                spliced(v.nodes(class), at, clip.skip(k as int)),
                            ),
                        ),
                    decreases k,
                {
                    k = k - 1;
                    let ghost so_far = spliced(v.nodes(class), at, clip.skip(k as int + 1));
                    proof {
                        lemma_with_nodes(v, class, so_far);
                        assert(nodes@[k as int]@ == clip[k as int]);
                    }
                    let one = self.project.registry.insert_node(class, idx + 1, nodes[k].dup());
                    match one {
                        Ok(_) => {
                            proof {
                                assert(so_far.insert(at, clip[k as int]) =~= spliced(
                                    v.nodes(class),
                                    at,
                                    clip.skip(k as int),
                                ));
                            }
                        },
                        Err(e) => {
                            return Err(AppError::Registry(e));
                        },
                    }
                }
                proof {
                    assert(clip.skip(0) =~= clip);
                }
            },
            None => {
                proof {
                    let len = v.nodes(class).len() as int;
                    assert(spliced(v.nodes(class), len, clip) =~= v.nodes(class) + clip);
                }
                match self.project.registry.push_nodes(class, nodes) {
                    Ok(_) => {},
                    Err(e) => {
                        return Err(AppError::Registry(e));
                    },
                }
            },
        }
        Ok(n)
    }
}

// ---------------------------------------------------------------------------
// Delete
// ---------------------------------------------------------------------------

/// What deleting the fields `ts`, one after the other, leaves, and the first
/// failure.
pub open spec fn deleted(v: RegistryV, ts: Seq<Target>) -> (RegistryV, Option<RegistryError>)
    decreases ts.len(),
{
    if ts.len() == 0 {
        (v, None)
    } else {
        let (w, first) = deleted(v, ts.drop_last());
        let e = removed(w, ts.last().0, ts.last().1);
        (
            e.0,
            match first {
                Some(f) => Some(f),
                None => match e.1 {
                    Ok(_) => None,
                    Err(f) => Some(f),
                },
            },
        )
    }
}

/// `nodes` without those whose numbers are in `gone`.
pub open spec fn kept(nodes: Seq<NodeV>, gone: Set<int>) -> Seq<NodeV>
    decreases nodes.len(),
{
    if nodes.len() == 0 {
        Seq::empty()
    } else {
        let head = kept(nodes.drop_last(), gone);
        if gone.contains(nodes.len() - 1) {
            head
        } else {
            head.push(nodes.last())
        }
    }
}

/// The numbers of the fields of class `c` among `ts`.
pub open spec fn numbers_of(ts: Seq<Target>, c: ClassId) -> Set<int> {
    Set::new(|i: int| exists|k: int| 0 <= k < ts.len() && (#[trigger] ts[k]).0 == c && ts[k].1 == i)
}

impl AppState {
    /// Delete several nodes at once, by class and by descending index so that
    /// removing one doesn't shift the indices of those still to go.
    ///
    /// Returns the first failure. Deletion continues past it: the targets are
    /// independent, and a stale index should not silently drop the rest.
    pub fn delete_many(&mut self, targets: &Vec<Target>) -> (r: Result<(), AppError>)
        requires
            old(self).wf(),
        ensures
            final(self).wf(),
            ({
                let d = deleted(old(self)@.project.registry, ordered(targets@, true));
                &&& final(self)@ == old(self)@.snapped().with_registry(d.0)
                &&& r == match d.1 {
                    Some(e) => Err::<(), AppError>(AppError::Registry(e)),
                    None => Ok(()),
                }
            }),
    {
        let ghost s = self@;
        let ghost v = s.project.registry;
        let t = order_targets(targets, true);
        self.snapshot();
        let mut first: Option<RegistryError> = None;
        let mut i: usize = 0;
        proof {
            assert(t@.take(0) =~= Seq::<Target>::empty());
        }
        while i < t.len()
            invariant
                self.wf(),
                i <= t@.len(),
                s.project.registry == v,
                self@ == s.snapped().with_registry(deleted(v, t@.take(i as int)).0),
                first == deleted(v, t@.take(i as int)).1,
            decreases t@.len() - i,
        {
            proof {
                assert(t@.take(i as int + 1).drop_last() =~= t@.take(i as int));
                assert(t@.take(i as int + 1).last() == t@[i as int]);
            }
            // straight to the registry: one multi-select delete is one undo step
            match self.project.registry.remove_node(t[i].0, t[i].1) {
                Ok(_) => {},
                Err(e) => {
                    if first.is_none() {
                        first = Some(e);
                    }
                },
            }
            i = i + 1;
        }
        proof {
            assert(t@.take(i as int) =~= t@);
        }
        match first {
            Some(e) => Err(AppError::Registry(e)),
            None => Ok(()),
        }
    }
}

/// Taking one more number out, below all others, takes out that field.
proof fn lemma_kept_step(nodes: Seq<NodeV>, gone: Set<int>, j: int)
    requires
        0 <= j < nodes.len(),
        forall|i: int| #[trigger] gone.contains(i) ==> i > j,
    ensures
        j < kept(nodes, gone).len() <= nodes.len(),
        kept(nodes, gone.insert(j)) == kept(nodes, gone).remove(j),
        forall|i: int| 0 <= i <= j ==> kept(nodes, gone)[i] == nodes[i],
    decreases nodes.len(),
{
    let head = nodes.drop_last();
    if j == nodes.len() - 1 {
        lemma_kept_all(head, gone);
        lemma_kept_all(head, gone.insert(j));
        assert(kept(nodes, gone) =~= nodes);
        assert(nodes.remove(j) =~= head);
    } else {
        lemma_kept_step(head, gone, j);
        let k = kept(head, gone);
        if !gone.contains(nodes.len() - 1) {
            assert(k.push(nodes.last()).remove(j) =~= k.remove(j).push(nodes.last()));
        }
        assert forall|i: int| 0 <= i <= j implies kept(nodes, gone)[i] == nodes[i] by {
            assert(k[i] == head[i]);
        }
    }
}

/// Numbers beyond the end take nothing out.
proof fn lemma_kept_all(nodes: Seq<NodeV>, gone: Set<int>)
    requires
        forall|i: int| 0 <= i < nodes.len() ==> !gone.contains(i),
    ensures
        kept(nodes, gone) == nodes,
    decreases nodes.len(),
{
    if nodes.len() > 0 {
        lemma_kept_all(nodes.drop_last(), gone);
        assert(nodes.drop_last().push(nodes.last()) =~= nodes);
    }
}

/// A number beyond the end makes no difference.
proof fn lemma_kept_beyond(nodes: Seq<NodeV>, gone: Set<int>, j: int)
    requires
        j >= nodes.len(),
    ensures
        kept(nodes, gone.insert(j)) == kept(nodes, gone),
        kept(nodes, gone).len() <= nodes.len(),
    decreases nodes.len(),
{
    if nodes.len() > 0 {
        lemma_kept_beyond(nodes.drop_last(), gone, j);
    }
}

/// Deleting in falling order removes exactly the fields that were named: each
/// class keeps its other fields, in order, and stale targets change nothing.
proof fn lemma_deleted(v: RegistryV, ts: Seq<Target>, c: ClassId)
    requires
        v.wf(),
        in_order(ts, true),
    ensures
        deleted(v, ts).0.wf(),
        deleted(v, ts).0.has(c) == v.has(c),
        v.has(c) ==> deleted(v, ts).0.nodes(c) == kept(v.nodes(c), numbers_of(ts, c)),
    decreases ts.len(),
{
    if ts.len() == 0 {
        assert(numbers_of(ts, c) =~= Set::<int>::empty());
        if v.has(c) {
            lemma_kept_all(v.nodes(c), numbers_of(ts, c));
        }
    } else {
        let head = ts.drop_last();
        let t = ts.last();
        assert forall|i: int, j: int| 0 <= i < j < head.len() implies comes_first(
            #[trigger] head[i],
            #[trigger] head[j],
            true,
        ) by {
            assert(comes_first(ts[i], ts[j], true));
        }
        lemma_deleted(v, head, c);
        lemma_deleted(v, head, t.0);
        let w = deleted(v, head).0;
        let gone = numbers_of(head, t.0);
        assert forall|i: int| #[trigger] gone.contains(i) implies i > t.1 by {
            let k = choose|k: int|
                0 <= k < head.len() && (#[trigger] head[k]).0 == t.0 && head[k].1 == i;
            assert(comes_first(ts[k], ts[ts.len() - 1], true));
        }
        assert(numbers_of(ts, t.0) =~= gone.insert(t.1 as int)) by {
            assert forall|i: int| numbers_of(ts, t.0).contains(i) == gone.insert(
                t.1 as int,
            ).contains(i) by {
                if numbers_of(ts, t.0).contains(i) {
                    let k = choose|k: int|
                        0 <= k < ts.len() && (#[trigger] ts[k]).0 == t.0 && ts[k].1 == i;
                    if k < head.len() {
                        assert(head[k] == ts[k]);
                    }
                }
                if gone.contains(i) {
                    let k = choose|k: int|
                        0 <= k < head.len() && (#[trigger] head[k]).0 == t.0 && head[k].1 == i;
                    assert(ts[k] == head[k]);
                }
                if i == t.1 {
                    assert(ts[ts.len() - 1] == t);
                }
            }
        }
        if c != t.0 {
            assert(numbers_of(ts, c) =~= numbers_of(head, c)) by {
                assert forall|i: int| numbers_of(ts, c).contains(i) == numbers_of(
                    head,
                    c,
                ).contains(i) by {
                    if numbers_of(ts, c).contains(i) {
                        let k = choose|k: int|
                            0 <= k < ts.len() && (#[trigger] ts[k]).0 == c && ts[k].1 == i;
                        assert(head[k] == ts[k]);
                    }
                    if numbers_of(head, c).contains(i) {
                        let k = choose|k: int|
                            0 <= k < head.len() && (#[trigger] head[k]).0 == c && head[k].1 == i;
                        assert(ts[k] == head[k]);
                    }
                }
            }
        }
        if v.has(t.0) {
            if t.1 < v.nodes(t.0).len() {
                lemma_kept_step(v.nodes(t.0), gone, t.1 as int);
                lemma_with_nodes(w, t.0, w.nodes(t.0).remove(t.1 as int));
            } else {
                lemma_kept_beyond(v.nodes(t.0), gone, t.1 as int);
            }
        }
    }
}

/// A multi-select delete removes exactly the fields that were named, whatever
/// their order and however often: each class keeps its other fields in order,
/// and stale targets change nothing.
pub proof fn law_delete_many_removes_exactly(v: RegistryV, targets: Seq<Target>, c: ClassId)
    requires
        v.wf(),
        v.has(c),
    ensures
        deleted(v, ordered(targets, true)).0.has(c),
        deleted(v, ordered(targets, true)).0.nodes(c) == kept(
            v.nodes(c),
            numbers_of(targets, c),
        ),
{
    let ts = ordered(targets, true);
    law_ordered(targets, true);
    lemma_deleted(v, ts, c);
    assert(numbers_of(ts, c) =~= numbers_of(targets, c)) by {
        assert forall|i: int| numbers_of(ts, c).contains(i) == numbers_of(targets, c).contains(
            i,
        ) by {
            if numbers_of(ts, c).contains(i) {
                let k = choose|k: int|
                    0 <= k < ts.len() && (#[trigger] ts[k]).0 == c && ts[k].1 == i;
                assert(ts.contains(ts[k]));
                let m = choose|m: int| 0 <= m < targets.len() && targets[m] == ts[k];
                assert(targets[m].0 == c);
            }
            if numbers_of(targets, c).contains(i) {
                let k = choose|k: int|
                    0 <= k < targets.len() && (#[trigger] targets[k]).0 == c && targets[k].1 == i;
                assert(targets.contains(targets[k]));
                assert(ts.contains(targets[k]));
                let m = choose|m: int| 0 <= m < ts.len() && ts[m] == targets[k];
                assert(ts[m].0 == c);
            }
        }
    }
}

/// Ordered targets rise by class, and within a class by field number, or fall by
/// field number where asked to.
pub proof fn law_targets_go_by_class_and_number(ts: Seq<Target>, down: bool, i: int, j: int)
    requires
        0 <= i < j < ordered(ts, down).len(),
    ensures
        ({
            let a = ordered(ts, down)[i];
            let b = ordered(ts, down)[j];
            &&& a.0 <= b.0
            &&& a.0 == b.0 && down ==> a.1 > b.1
            &&& a.0 == b.0 && !down ==> a.1 < b.1
        }),
{
    law_ordered(ts, down);
    assert(comes_first(ordered(ts, down)[i], ordered(ts, down)[j], down));
}

/// What is left of a list without some of its fields is all of the others, in
/// their order. `at` says where they stood.
pub proof fn law_kept_fields_are_the_others(nodes: Seq<NodeV>, gone: Set<int>) -> (at: Seq<int>)
    ensures
        at.len() == kept(nodes, gone).len(),
        forall|a: int|
            0 <= a < at.len() ==> 0 <= #[trigger] at[a] < nodes.len() && !gone.contains(at[a])
                && kept(nodes, gone)[a] == nodes[at[a]],
        forall|a: int, b: int| 0 <= a < b < at.len() ==> #[trigger] at[a] < #[trigger] at[b],
        forall|i: int|
            0 <= i < nodes.len() && !#[trigger] gone.contains(i) ==> at.contains(i),
    decreases nodes.len(),
{
    if nodes.len() == 0 {
        Seq::empty()
    } else {
        let head = nodes.drop_last();
        let n = nodes.len() - 1;
        let before = law_kept_fields_are_the_others(head, gone);
        let at = if gone.contains(n) {
            before
        } else {
            before.push(n)
        };
        assert forall|i: int| 0 <= i < nodes.len() && !#[trigger] gone.contains(i) implies at.contains(
            i,
        ) by {
            if i < n {
                assert(before.contains(i));
                let k = choose|k: int| 0 <= k < before.len() && before[k] == i;
                assert(at[k] == i);
            } else {
                assert(at[before.len() as int] == i);
            }
        }
        at
    }
}

/// The fields picked are those of the targets that exist, in the targets' order.
/// `at` says which targets these are.
proof fn lemma_picked(v: RegistryV, ts: Seq<Target>) -> (at: Seq<int>)
    ensures
        at.len() == picked(v, ts).len(),
        forall|a: int|
            0 <= a < at.len() ==> 0 <= #[trigger] at[a] < ts.len() && v.has(ts[at[a]].0)
                && ts[at[a]].1 < v.nodes(ts[at[a]].0).len() && picked(v, ts)[a] == v.nodes(
                ts[at[a]].0,
            )[ts[at[a]].1 as int],
        forall|a: int, b: int| 0 <= a < b < at.len() ==> #[trigger] at[a] < #[trigger] at[b],
        forall|i: int|
            0 <= i < ts.len() && v.has((#[trigger] ts[i]).0) && ts[i].1 < v.nodes(ts[i].0).len()
                ==> at.contains(i),
    decreases ts.len(),
{
    if ts.len() == 0 {
        Seq::empty()
    } else {
        let head = ts.drop_last();
        let n = ts.len() - 1;
        let t = ts.last();
        let before = lemma_picked(v, head);
        assert forall|a: int| 0 <= a < before.len() implies ts[#[trigger] before[a]]
            == head[before[a]] by {}
        let at = if v.has(t.0) && t.1 < v.nodes(t.0).len() {
            before.push(n)
        } else {
            before
        };
        assert forall|i: int|
            0 <= i < ts.len() && v.has((#[trigger] ts[i]).0) && ts[i].1 < v.nodes(
                ts[i].0,
            ).len() implies at.contains(i) by {
            if i < n {
                assert(head[i] == ts[i]);
                assert(before.contains(i));
                let k = choose|k: int| 0 <= k < before.len() && before[k] == i;
                assert(at[k] == i);
            } else {
                assert(at[before.len() as int] == i);
            }
        }
        at
    }
}

/// A copy holds a copy of every field named that exists, and nothing else, by
/// class and then by field number, in whatever order they were named. `from`
/// says which fields these are.
pub proof fn law_copy_takes_the_fields_in_order(v: RegistryV, ts: Seq<Target>) -> (from: Seq<
    Target,
>)
    ensures
        from.len() == picked(v, ordered(ts, false)).len(),
        forall|a: int|
            0 <= a < from.len() ==> ts.contains(#[trigger] from[a]) && v.has(from[a].0) && from[a].1
                < v.nodes(from[a].0).len() && picked(v, ordered(ts, false))[a] == v.nodes(
                from[a].0,
            )[from[a].1 as int],
        forall|a: int, b: int|
            0 <= a < b < from.len() ==> (#[trigger] from[a]).0 < (#[trigger] from[b]).0 || (
            from[a].0 == from[b].0 && from[a].1 < from[b].1),
        forall|t: Target| #[trigger]
            ts.contains(t) && v.has(t.0) && t.1 < v.nodes(t.0).len() ==> from.contains(t),
{
    let os = ordered(ts, false);
    law_ordered(ts, false);
    let at = lemma_picked(v, os);
    let from = Seq::new(at.len(), |a: int| os[at[a]]);
    assert forall|a: int| 0 <= a < from.len() implies ts.contains(#[trigger] from[a]) by {
        assert(os.contains(os[at[a]]));
    }
    assert forall|a: int, b: int| 0 <= a < b < from.len() implies (#[trigger] from[a]).0 < (
    #[trigger] from[b]).0 || (from[a].0 == from[b].0 && from[a].1 < from[b].1) by {
        assert(at[a] < at[b]);
        assert(comes_first(os[at[a]], os[at[b]], false));
    }
    assert forall|t: Target| #[trigger] ts.contains(t) && v.has(t.0) && t.1 < v.nodes(
        t.0,
    ).len() implies from.contains(t) by {
        assert(os.contains(t));
        let k = choose|k: int| 0 <= k < os.len() && os[k] == t;
        assert(at.contains(k));
        let a = choose|a: int| 0 <= a < at.len() && at[a] == k;
        assert(from[a] == t);
    }
    from
}

/// A paste is refused exactly when one of the fields would make the class
/// contain itself or refers to a class that is gone.
proof fn lemma_refusal(v: RegistryV, class: ClassId, nodes: Seq<NodeV>)
    ensures
        paste_refusal(v, class, nodes) is Some <==> exists|k: int|
            0 <= k < nodes.len() && (would_cycle(v.classes, class, (#[trigger] nodes[k]).kind) || (
            reference(nodes[k].kind) matches Some(id) && !v.has(id))),
    decreases nodes.len(),
{
    if nodes.len() > 0 {
        let rest = nodes.skip(1);
        lemma_refusal(v, class, rest);
        if exists|k: int|
            0 <= k < nodes.len() && (would_cycle(v.classes, class, (#[trigger] nodes[k]).kind) || (
            reference(nodes[k].kind) matches Some(id) && !v.has(id))) {
            let k = choose|k: int|
                0 <= k < nodes.len() && (would_cycle(v.classes, class, (#[trigger] nodes[k]).kind)
                    || (reference(nodes[k].kind) matches Some(id) && !v.has(id)));
            if k > 0 {
                assert(rest[k - 1] == nodes[k]);
            }
        }
        if exists|k: int|
            0 <= k < rest.len() && (would_cycle(v.classes, class, (#[trigger] rest[k]).kind) || (
            reference(rest[k].kind) matches Some(id) && !v.has(id))) {
            let k = choose|k: int|
                0 <= k < rest.len() && (would_cycle(v.classes, class, (#[trigger] rest[k]).kind) || (
                reference(rest[k].kind) matches Some(id) && !v.has(id)));
            assert(nodes[k + 1] == rest[k]);
        }
        assert(nodes[0] == nodes[0]);
    }
}

/// A paste puts the fields of the clipboard, all of them and in their order,
/// right behind the field named or at the end of the class, and changes nothing
/// else; the clipboard keeps them. It happens exactly when none of them would
/// make the class contain itself or refers to a class that is gone.
pub proof fn law_paste_puts_the_clipboard_in(s: AppV, class: ClassId, after: Option<usize>)
    requires
        s.wf(),
        0 < s.clipboard.len() <= usize::MAX,
        s.project.registry.has(class),
        after matches Some(i) ==> i < s.project.registry.nodes(class).len(),
    ensures
        ({
            let v = s.project.registry;
            let (t, r) = pasted(s, class, after);
            let w = t.project.registry;
            let n = s.clipboard.len() as int;
            let at = match after {
                Some(i) => i + 1,
                None => v.nodes(class).len() as int,
            };
            let barred = exists|k: int|
                0 <= k < n && (would_cycle(
                    v.classes,
                    class,
                    (#[trigger] s.clipboard[k]).kind,
                ) || (reference(s.clipboard[k].kind) matches Some(id) && !v.has(id)));
            &&& barred ==> r is Err && t == s
            &&& !barred ==> {
                &&& r == Ok::<usize, AppError>(n as usize)
                &&& same_but_classes(s, t)
                &&& same_but_fields(v, w, class)
                &&& w.nodes(class).len() == v.nodes(class).len() + n
                &&& forall|j: int|
                    0 <= j < at ==> #[trigger] w.nodes(class)[j] == v.nodes(class)[j]
                &&& forall|j: int|
                    at <= j < at + n ==> #[trigger] w.nodes(class)[j] == s.clipboard[j - at]
                &&& forall|j: int|
                    at + n <= j < w.nodes(class).len() ==> #[trigger] w.nodes(class)[j] == v.nodes(
                        class,
                    )[j - n]
            }
        }),
{
    let v = s.project.registry;
    let at = match after {
        Some(i) => i + 1,
        None => v.nodes(class).len() as int,
    };
    lemma_refusal(v, class, s.clipboard);
    lemma_other_fields(v, class, spliced(v.nodes(class), at, s.clipboard));
}

} // verus!
