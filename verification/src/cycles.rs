//! The guard against a class that contains itself, and why guarded edits keep
//! the registry free of such classes.

use crate::clipboard::spliced;
use crate::node::{inline_target, nodes_view, ClassId, Node, NodeKind, NodeV};
use crate::registry::{
    acyclic, class_at, edge, known, ids_ascend, is_path, lemma_place, lemma_put_wf, place, ranked,
    reaches, would_cycle, ClassRegistry, ClassV, RegistryV,
};
use vstd::prelude::*;
use vstd::set_lib::*;

verus! {

/// Whether class `x` stands at one of the places `work`.
spec fn listed(cs: Seq<ClassV>, work: Seq<usize>, x: ClassId) -> bool {
    exists|k: int| 0 <= k < work.len() && cs[#[trigger] work[k] as int].id == x
}

/// What the search knows of the inline target of one field: it is not the
/// class looked for, and if it exists it is on the list.
spec fn handled(cs: Seq<ClassV>, work: Seq<usize>, kind: NodeKind, class: ClassId) -> bool {
    inline_target(kind) matches Some(b) ==> b != class && (known(cs, b) ==> listed(cs, work, b))
}

/// A longer list still handles what it handled.
proof fn lemma_handled_grows(
    cs: Seq<ClassV>,
    work: Seq<usize>,
    i: usize,
    kind: NodeKind,
    class: ClassId,
)
    requires
        handled(cs, work, kind, class),
    ensures
        handled(cs, work.push(i), kind, class),
{
    if let Some(b) = inline_target(kind) {
        if known(cs, b) {
            let k = choose|k: int| 0 <= k < work.len() && cs[#[trigger] work[k] as int].id == b;
            assert(work.push(i)[k] == work[k]);
        }
    }
}

/// Distinct places in a list of `n` classes are at most `n`.
proof fn lemma_distinct_places(work: Seq<usize>, n: nat)
    requires
        work.no_duplicates(),
        forall|k: int| 0 <= k < work.len() ==> #[trigger] work[k] < n,
    ensures
        work.len() <= n,
{
    let ints = work.map_values(|x: usize| x as int);
    assert(ints.no_duplicates());
    ints.unique_seq_to_set();
    lemma_int_range(0, n as int);
    let all = set_int_range(0, n as int);
    assert forall|x: int| ints.to_set().contains(x) implies all.contains(x) by {
        let k = choose|k: int| 0 <= k < ints.len() && ints[k] == x;
        assert(ints[k] == work[k] as int);
    }
    lemma_len_subset(ints.to_set(), all);
}

/// What is reached can be followed one step further.
pub proof fn lemma_reaches_step(cs: Seq<ClassV>, t: ClassId, a: ClassId, b: ClassId)
    requires
        reaches(cs, t, a),
        edge(cs, a, b),
    ensures
        reaches(cs, t, b),
{
    let p = choose|p: Seq<ClassId>| #[trigger] is_path(cs, p) && p.first() == t && p.last() == a;
    let q = p.push(b);
    assert forall|k: int| 0 <= k < q.len() - 1 implies #[trigger] edge(cs, q[k], q[k + 1]) by {
        if k < p.len() - 1 {
            assert(edge(cs, p[k], p[k + 1]));
        }
    }
    assert(is_path(cs, q));
    assert(q.first() == t && q.last() == b);
}

/// A class is reached from itself.
pub proof fn lemma_reaches_self(cs: Seq<ClassV>, a: ClassId)
    ensures
        reaches(cs, a, a),
{
    let p = seq![a];
    assert(is_path(cs, p));
    assert(p.first() == a && p.last() == a);
}

/// What lies one step before what is reached, reaches it too.
pub proof fn lemma_reaches_before(cs: Seq<ClassV>, a: ClassId, b: ClassId, c: ClassId)
    requires
        edge(cs, a, b),
        reaches(cs, b, c),
    ensures
        reaches(cs, a, c),
{
    let p = choose|p: Seq<ClassId>| #[trigger] is_path(cs, p) && p.first() == b && p.last() == c;
    let q = seq![a] + p;
    assert forall|k: int| 0 <= k < q.len() - 1 implies #[trigger] edge(cs, q[k], q[k + 1]) by {
        if k > 0 {
            assert(edge(cs, p[k - 1], p[k - 1 + 1]));
        }
    }
    assert(is_path(cs, q));
    assert(q.first() == a && q.last() == c);
}

/// A set of classes that holds `t` and whatever its members store in place,
/// holds everything reached from `t`.
proof fn lemma_closed(cs: Seq<ClassV>, inside: spec_fn(ClassId) -> bool, p: Seq<ClassId>, k: int)
    requires
        is_path(cs, p),
        inside(p.first()),
        forall|a: ClassId, b: ClassId| inside(a) && #[trigger] edge(cs, a, b) ==> inside(b),
        0 <= k < p.len(),
    ensures
        inside(p[k]),
    decreases k,
{
    if k > 0 {
        lemma_closed(cs, inside, p, k - 1);
        assert(edge(cs, p[k - 1], p[k - 1 + 1]));
    }
}

/// A finished search that did not meet `class` shows that it is not reached.
proof fn lemma_search_done(
    cs: Seq<ClassV>,
    next: ClassId,
    work: Seq<usize>,
    t: ClassId,
    class: ClassId,
)
    requires
        ids_ascend(cs, next),
        t != class,
        known(cs, t) ==> listed(cs, work, t),
        forall|k: int| 0 <= k < work.len() ==> #[trigger] work[k] < cs.len(),
        forall|k: int| 0 <= k < work.len() ==> cs[#[trigger] work[k] as int].id != class,
        forall|k: int, j: int|
            0 <= k < work.len() && 0 <= j < cs[work[k] as int].nodes.len() ==> handled(
                cs,
                work,
                (#[trigger] cs[work[k] as int].nodes[j]).kind,
                class,
            ),
    ensures
        !reaches(cs, t, class),
{
    let inside = |x: ClassId| x != class && (known(cs, x) ==> listed(cs, work, x));
    assert forall|a: ClassId, b: ClassId| inside(a) && #[trigger] edge(cs, a, b) implies inside(
        b,
    ) by {
        let k = choose|k: int| 0 <= k < work.len() && cs[#[trigger] work[k] as int].id == a;
        lemma_place(cs, next, work[k] as int);
        let j = choose|j: int|
            0 <= j < class_at(cs, a).nodes.len() && inline_target(
                (#[trigger] class_at(cs, a).nodes[j]).kind,
            ) == Some(b);
        assert(handled(cs, work, cs[work[k] as int].nodes[j].kind, class));
    }
    if reaches(cs, t, class) {
        let p = choose|p: Seq<ClassId>|
            #[trigger] is_path(cs, p) && p.first() == t && p.last() == class;
        lemma_closed(cs, inside, p, p.len() - 1);
    }
}

impl ClassRegistry {
    /// Whether a field of `kind` in class `class` would make that class
    /// contain itself.
    pub fn kind_would_cycle(&self, class: ClassId, kind: &NodeKind) -> (r: bool)
        requires
            self@.wf(),
        ensures
            r == would_cycle(self@.classes, class, *kind),
    {
        let ghost cs = self@.classes;
        let t: ClassId = match kind.inline_class() {
            Some(t) => t,
            None => {
                return false;
            },
        };
        if t == class {
            proof {
                lemma_reaches_self(cs, t);
            }
            return true;
        }
        let mut work: Vec<usize> = Vec::new();
        match self.find(t) {
            Some(i) => {
                work.push(i);
                proof {
                    lemma_reaches_self(cs, t);
                    assert(work@[0] == i);
                    assert(cs[work@[0] as int].id == t);
                }
            },
            None => {},
        }
        let mut next: usize = 0;
        while next < work.len()
            invariant
                self@.wf(),
                cs == self@.classes,
                inline_target(*kind) == Some(t),
                t != class,
                next <= work@.len(),
                work@.no_duplicates(),
                known(cs, t) ==> listed(cs, work@, t),
                forall|k: int| 0 <= k < work@.len() ==> #[trigger] work@[k] < cs.len(),
                forall|k: int|
                    0 <= k < work@.len() ==> cs[#[trigger] work@[k] as int].id != class
                        && reaches(cs, t, cs[work@[k] as int].id),
                forall|k: int, j: int|
                    0 <= k < next && 0 <= j < cs[work@[k] as int].nodes.len() ==> handled(
                        cs,
                        work@,
                        (#[trigger] cs[work@[k] as int].nodes[j]).kind,
                        class,
                    ),
            decreases cs.len() - next,
        {
            let at: usize = work[next];
            let nodes: &Vec<Node> = &self.classes[at].nodes;
            let ghost a = cs[at as int].id;
            proof {
                lemma_distinct_places(work@, cs.len());
                lemma_place(cs, self.next_id, at as int);
                assert(nodes_view(nodes@) == cs[at as int].nodes);
            }
            let mut j: usize = 0;
            while j < nodes.len()
                invariant
                    self@.wf(),
                    cs == self@.classes,
                    inline_target(*kind) == Some(t),
                    t != class,
                    next < work@.len(),
                    work@[next as int] == at,
                    at < cs.len(),
                    a == cs[at as int].id,
                    known(cs, a),
                    class_at(cs, a) == cs[at as int],
                    nodes_view(nodes@) == cs[at as int].nodes,
                    j <= nodes@.len(),
                    work@.no_duplicates(),
                    known(cs, t) ==> listed(cs, work@, t),
                    forall|k: int| 0 <= k < work@.len() ==> #[trigger] work@[k] < cs.len(),
                    forall|k: int|
                        0 <= k < work@.len() ==> cs[#[trigger] work@[k] as int].id != class
                            && reaches(cs, t, cs[work@[k] as int].id),
                    forall|k: int, m: int|
                        0 <= k < next && 0 <= m < cs[work@[k] as int].nodes.len() ==> handled(
                            cs,
                            work@,
                            (#[trigger] cs[work@[k] as int].nodes[m]).kind,
                            class,
                        ),
                    forall|m: int|
                        0 <= m < j ==> handled(
                            cs,
                            work@,
                            (#[trigger] cs[at as int].nodes[m]).kind,
                            class,
                        ),
                decreases nodes@.len() - j,
            {
                proof {
                    assert(cs[at as int].nodes[j as int].kind == nodes@[j as int].kind);
                    assert(class_at(cs, a).nodes[j as int].kind == nodes@[j as int].kind);
                    assert(reaches(cs, t, a));
                }
                match nodes[j].kind.inline_class() {
                    Some(b) => {
                        proof {
                            assert(edge(cs, a, b));
                            lemma_reaches_step(cs, t, a, b);
                        }
                        if b == class {
                            return true;
                        }
                        match self.find(b) {
                            Some(i) => {
                                let seen: bool = has_place(&work, i);
                                let ghost old_work = work@;
                                if !seen {
                                    work.push(i);
                                    proof {
                                        assert forall|k: int, m: int|
                                            0 <= k < next && 0 <= m
                                                < cs[work@[k] as int].nodes.len() implies handled(
                                            cs,
                                            work@,
                                            (#[trigger] cs[work@[k] as int].nodes[m]).kind,
                                            class,
                                        ) by {
                                            assert(work@[k] == old_work[k]);
                                            lemma_handled_grows(
                                                cs,
                                                old_work,
                                                i,
                                                cs[work@[k] as int].nodes[m].kind,
                                                class,
                                            );
                                        }
                                        assert forall|m: int| 0 <= m < j implies handled(
                                            cs,
                                            work@,
                                            (#[trigger] cs[at as int].nodes[m]).kind,
                                            class,
                                        ) by {
                                            lemma_handled_grows(
                                                cs,
                                                old_work,
                                                i,
                                                cs[at as int].nodes[m].kind,
                                                class,
                                            );
                                        }
                                        if known(cs, t) {
                                            let k = choose|k: int|
                                                0 <= k < old_work.len()
                                                    && cs[#[trigger] old_work[k] as int].id == t;
                                            assert(work@[k] == old_work[k]);
                                        }
                                        assert(work@[work@.len() - 1] == i);
                                    }
                                }
                                proof {
                                    assert(cs[i as int].id == b);
                                    let k = choose|k: int|
                                        0 <= k < work@.len() && work@[k] == i;
                                    assert(cs[work@[k] as int].id == b);
                                    assert(listed(cs, work@, b));
                                }
                            },
                            None => {},
                        }
                        proof {
                            assert(handled(cs, work@, cs[at as int].nodes[j as int].kind, class));
                        }
                    },
                    None => {},
                }
                j = j + 1;
            }
            next = next + 1;
        }
        proof {
            lemma_search_done(cs, self.next_id, work@, t, class);
        }
        false
    }
}

/// Whether place `i` is on the list.
fn has_place(work: &Vec<usize>, i: usize) -> (r: bool)
    ensures
        r == work@.contains(i),
{
    let mut k: usize = 0;
    while k < work.len()
        invariant
            k <= work@.len(),
            forall|m: int| 0 <= m < k ==> work@[m] != i,
        decreases work@.len() - k,
    {
        if work[k] == i {
            return true;
        }
        k = k + 1;
    }
    false
}

// ---------------------------------------------------------------------------
// Laws
// ---------------------------------------------------------------------------

/// Whether every inline instance in `after` either stood in the same class of
/// `before` or is that of one of the fields `more`, stored in `class`.
pub open spec fn only_adds(
    before: Seq<ClassV>,
    after: Seq<ClassV>,
    class: ClassId,
    more: Seq<NodeV>,
) -> bool {
    forall|a: ClassId, b: ClassId| #[trigger]
        edge(after, a, b) ==> edge(before, a, b) || (a == class && targets(more, b))
}

/// Whether one of the fields `more` stores class `b` in place.
pub open spec fn targets(more: Seq<NodeV>, b: ClassId) -> bool {
    exists|j: int| 0 <= j < more.len() && inline_target((#[trigger] more[j]).kind) == Some(b)
}

/// Whether every one of the fields `more` passes the cycle guard of `class`.
pub open spec fn all_guarded(cs: Seq<ClassV>, class: ClassId, more: Seq<NodeV>) -> bool {
    forall|j: int| 0 <= j < more.len() ==> !would_cycle(cs, class, (#[trigger] more[j]).kind)
}

/// A rank above those of all classes that `more` stores in place.
spec fn rank_above(rank: spec_fn(ClassId) -> nat, more: Seq<NodeV>) -> nat
    decreases more.len(),
{
    if more.len() == 0 {
        0
    } else {
        let rest = rank_above(rank, more.drop_last());
        match inline_target(more.last().kind) {
            Some(t) => if rank(t) + 1 > rest {
                rank(t) + 1
            } else {
                rest
            },
            None => rest,
        }
    }
}

proof fn lemma_rank_above(rank: spec_fn(ClassId) -> nat, more: Seq<NodeV>, j: int)
    requires
        0 <= j < more.len(),
        inline_target(more[j].kind) is Some,
    ensures
        rank(inline_target(more[j].kind)->0) < rank_above(rank, more),
    decreases more.len(),
{
    if j < more.len() - 1 {
        assert(more.drop_last()[j] == more[j]);
        lemma_rank_above(rank, more.drop_last(), j);
    }
}

/// Storing fields that all pass the cycle guard keeps the registry free of
/// classes that contain themselves.
pub proof fn law_guarded_edit_keeps_acyclic(
    before: Seq<ClassV>,
    after: Seq<ClassV>,
    class: ClassId,
    more: Seq<NodeV>,
)
    requires
        acyclic(before),
        all_guarded(before, class, more),
        only_adds(before, after, class, more),
    ensures
        acyclic(after),
{
    let rank = choose|rank: spec_fn(ClassId) -> nat| #[trigger] ranked(before, rank);
    let lift = rank_above(rank, more);
    let lifted = |x: ClassId|
        if reaches(before, x, class) {
            rank(x) + lift
        } else {
            rank(x)
        };
    assert forall|a: ClassId, b: ClassId| #[trigger] edge(after, a, b) implies lifted(b) < lifted(
        a,
    ) by {
        if edge(before, a, b) {
            assert(rank(b) < rank(a));
            if reaches(before, b, class) {
                lemma_reaches_before(before, a, b, class);
            }
        } else {
            lemma_reaches_self(before, class);
            let j = choose|j: int|
                0 <= j < more.len() && inline_target((#[trigger] more[j]).kind) == Some(b);
            lemma_rank_above(rank, more, j);
            assert(!would_cycle(before, class, more[j].kind));
        }
    }
    assert(ranked(after, lifted));
}

/// Taking inline instances away keeps the registry free of classes that
/// contain themselves.
pub proof fn law_removal_keeps_acyclic(before: Seq<ClassV>, after: Seq<ClassV>)
    requires
        acyclic(before),
        forall|a: ClassId, b: ClassId| #[trigger] edge(after, a, b) ==> edge(before, a, b),
    ensures
        acyclic(after),
{
    let rank = choose|rank: spec_fn(ClassId) -> nat| #[trigger] ranked(before, rank);
    assert(ranked(after, rank));
}

/// In a registry whose classes can be ranked no class contains itself.
pub proof fn law_acyclic_means_no_cycle(cs: Seq<ClassV>, a: ClassId, b: ClassId)
    requires
        acyclic(cs),
        edge(cs, a, b),
    ensures
        !reaches(cs, b, a),
{
    let rank = choose|rank: spec_fn(ClassId) -> nat| #[trigger] ranked(cs, rank);
    if reaches(cs, b, a) {
        let p = choose|p: Seq<ClassId>| #[trigger] is_path(cs, p) && p.first() == b && p.last() == a;
        lemma_rank_falls(cs, rank, p, p.len() - 1);
    }
}

/// Ranks fall along a path.
proof fn lemma_rank_falls(cs: Seq<ClassV>, rank: spec_fn(ClassId) -> nat, p: Seq<ClassId>, k: int)
    requires
        ranked(cs, rank),
        is_path(cs, p),
        0 <= k < p.len(),
    ensures
        rank(p[k]) <= rank(p[0]),
    decreases k,
{
    if k > 0 {
        lemma_rank_falls(cs, rank, p, k - 1);
        assert(edge(cs, p[k - 1], p[k - 1 + 1]));
    }
}

/// Replacing the fields of one class changes only that class's inline
/// instances.
pub proof fn lemma_with_nodes_edges(v: RegistryV, id: ClassId, nodes: Seq<NodeV>)
    requires
        v.wf(),
        v.has(id),
    ensures
        forall|a: ClassId, b: ClassId| a != id ==> (#[trigger] edge(
            v.with_nodes(id, nodes).classes,
            a,
            b,
        ) == edge(v.classes, a, b)),
        forall|b: ClassId|
            (#[trigger] edge(v.with_nodes(id, nodes).classes, id, b)) ==> exists|j: int|
                0 <= j < nodes.len() && inline_target((#[trigger] nodes[j]).kind) == Some(b),
{
    let c = ClassV { nodes, ..class_at(v.classes, id) };
    let w = v.put(c);
    assert(class_at(v.classes, id).id == id);
    lemma_put_wf(v, c);
    assert(w == v.with_nodes(id, nodes));
    assert forall|a: ClassId, b: ClassId| a != id implies (#[trigger] edge(w.classes, a, b) == edge(
        v.classes,
        a,
        b,
    )) by {
        if v.has(a) {
            let i = place(v.classes, a);
            assert(v.classes[i].id == a);
            assert(w.classes[i].id == a);
            lemma_place(v.classes, v.next_id, i);
            lemma_place(w.classes, w.next_id, i);
            assert(class_at(w.classes, a) == class_at(v.classes, a));
        }
    }
    assert forall|b: ClassId| (#[trigger] edge(w.classes, id, b)) implies exists|j: int|
        0 <= j < nodes.len() && inline_target((#[trigger] nodes[j]).kind) == Some(b) by {
        let j = choose|j: int|
            0 <= j < class_at(w.classes, id).nodes.len() && inline_target(
                (#[trigger] class_at(w.classes, id).nodes[j]).kind,
            ) == Some(b);
        assert(inline_target(nodes[j].kind) == Some(b));
    }
}

/// Putting guarded fields into a class keeps the registry acyclic.
pub proof fn law_splice_keeps_acyclic(v: RegistryV, id: ClassId, at: int, more: Seq<NodeV>)
    requires
        v.wf(),
        v.has(id),
        acyclic(v.classes),
        0 <= at <= v.nodes(id).len(),
        all_guarded(v.classes, id, more),
    ensures
        acyclic(v.with_nodes(id, spliced(v.nodes(id), at, more)).classes),
{
    let nodes = spliced(v.nodes(id), at, more);
    let w = v.with_nodes(id, nodes);
    lemma_with_nodes_edges(v, id, nodes);
    assert forall|a: ClassId, b: ClassId| #[trigger] edge(w.classes, a, b) implies edge(
        v.classes,
        a,
        b,
    ) || (a == id && targets(more, b)) by {
        if a == id {
            let j = choose|j: int|
                0 <= j < nodes.len() && inline_target((#[trigger] nodes[j]).kind) == Some(b);
            if j < at {
                assert(nodes[j] == v.nodes(id)[j]);
                assert(inline_target(class_at(v.classes, id).nodes[j].kind) == Some(b));
            } else if j < at + more.len() {
                assert(nodes[j] == more[j - at]);
            } else {
                let k = j - more.len();
                assert(nodes[j] == v.nodes(id)[k]);
                assert(inline_target(class_at(v.classes, id).nodes[k].kind) == Some(b));
            }
        }
    }
    law_guarded_edit_keeps_acyclic(v.classes, w.classes, id, more);
}

/// Giving a field a guarded kind keeps the registry acyclic.
pub proof fn law_change_kind_keeps_acyclic(v: RegistryV, id: ClassId, idx: int, n: NodeV)
    requires
        v.wf(),
        v.has(id),
        acyclic(v.classes),
        0 <= idx < v.nodes(id).len(),
        !would_cycle(v.classes, id, n.kind),
    ensures
        acyclic(v.with_node(id, idx, n).classes),
{
    let nodes = v.nodes(id).update(idx, n);
    let w = v.with_node(id, idx, n);
    lemma_with_nodes_edges(v, id, nodes);
    assert forall|a: ClassId, b: ClassId| #[trigger] edge(w.classes, a, b) implies edge(
        v.classes,
        a,
        b,
    ) || (a == id && targets(seq![n], b)) by {
        if a == id {
            let j = choose|j: int|
                0 <= j < nodes.len() && inline_target((#[trigger] nodes[j]).kind) == Some(b);
            if j != idx {
                assert(nodes[j] == v.nodes(id)[j]);
                assert(inline_target(class_at(v.classes, id).nodes[j].kind) == Some(b));
            } else {
                assert(seq![n][0] == n);
            }
        }
    }
    law_guarded_edit_keeps_acyclic(v.classes, w.classes, id, seq![n]);
}

/// Taking a field out keeps the registry acyclic.
pub proof fn law_delete_keeps_acyclic(v: RegistryV, id: ClassId, idx: int)
    requires
        v.wf(),
        v.has(id),
        acyclic(v.classes),
        0 <= idx < v.nodes(id).len(),
    ensures
        acyclic(v.with_nodes(id, v.nodes(id).remove(idx)).classes),
{
    let nodes = v.nodes(id).remove(idx);
    let w = v.with_nodes(id, nodes);
    lemma_with_nodes_edges(v, id, nodes);
    assert forall|a: ClassId, b: ClassId| #[trigger] edge(w.classes, a, b) implies edge(
        v.classes,
        a,
        b,
    ) by {
        if a == id {
            let j = choose|j: int|
                0 <= j < nodes.len() && inline_target((#[trigger] nodes[j]).kind) == Some(b);
            let k = if j < idx {
                j
            } else {
                j + 1
            };
            assert(nodes[j] == v.nodes(id)[k]);
            assert(inline_target(class_at(v.classes, id).nodes[k].kind) == Some(b));
        }
    }
    law_removal_keeps_acyclic(v.classes, w.classes);
}

/// What the guard refuses and what it lets pass: a class in itself is refused,
/// and so is one in a class that it holds, however deep; an array counts as its
/// elements do; what stores no class in place, pointers among it, always passes.
pub proof fn law_guard_refuses_cycles_only(
    cs: Seq<ClassV>,
    class: ClassId,
    t: ClassId,
    j: int,
    kind: NodeKind,
    count: usize,
)
    ensures
        would_cycle(cs, class, NodeKind::ClassInstance { class_id: class }),
        known(cs, t) && 0 <= j < class_at(cs, t).nodes.len() && would_cycle(
            cs,
            class,
            class_at(cs, t).nodes[j].kind,
        ) ==> would_cycle(cs, class, NodeKind::ClassInstance { class_id: t }),
        t != class && (!known(cs, t) || forall|k: int|
            0 <= k < class_at(cs, t).nodes.len() ==> !would_cycle(
                cs,
                class,
                (#[trigger] class_at(cs, t).nodes[k]).kind,
            )) ==> !would_cycle(cs, class, NodeKind::ClassInstance { class_id: t }),
        would_cycle(cs, class, NodeKind::Array { element: Box::new(kind), count }) == would_cycle(
            cs,
            class,
            kind,
        ),
        !(kind is Array) && !(kind is ClassInstance) ==> !would_cycle(cs, class, kind),
        !would_cycle(cs, class, NodeKind::ClassPtr { class_id: t }),
{
    let me = seq![class];
    assert(is_path(cs, me) && me.first() == class && me.last() == class);
    if known(cs, t) && 0 <= j < class_at(cs, t).nodes.len() && would_cycle(
        cs,
        class,
        class_at(cs, t).nodes[j].kind,
    ) {
        let x = inline_target(class_at(cs, t).nodes[j].kind)->0;
        let p = choose|p: Seq<ClassId>| #[trigger]
            is_path(cs, p) && p.first() == x && p.last() == class;
        let q = seq![t] + p;
        assert(inline_target(class_at(cs, t).nodes[j].kind) == Some(x));
        assert(edge(cs, t, x));
        assert forall|k: int| 0 <= k < q.len() - 1 implies #[trigger] edge(cs, q[k], q[k + 1]) by {
            if k > 0 {
                assert(edge(cs, p[k - 1], p[k - 1 + 1]));
                assert(q[k] == p[k - 1] && q[k + 1] == p[k]);
            }
        }
        assert(is_path(cs, q) && q.first() == t && q.last() == class);
    }
    if t != class && would_cycle(cs, class, NodeKind::ClassInstance { class_id: t }) {
        let p = choose|p: Seq<ClassId>| #[trigger]
            is_path(cs, p) && p.first() == t && p.last() == class;
        assert(p.len() > 1);
        let from: int = 0;
        assert(edge(cs, p[from], p[from + 1]));
        let rest = p.skip(1);
        assert forall|k: int| 0 <= k < rest.len() - 1 implies #[trigger] edge(
            cs,
            rest[k],
            rest[k + 1],
        ) by {
            assert(edge(cs, p[k + 1], p[k + 1 + 1]));
        }
        assert(is_path(cs, rest) && rest.first() == p[1] && rest.last() == class);
        let k = choose|k: int|
            0 <= k < class_at(cs, t).nodes.len() && inline_target(
                (#[trigger] class_at(cs, t).nodes[k]).kind,
            ) == Some(p[1]);
        assert(would_cycle(cs, class, class_at(cs, t).nodes[k].kind));
    }
}

} // verus!
