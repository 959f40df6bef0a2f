//! Layout: how much room fields take, what becomes of the references to a class
//! that is removed, and why every other class then keeps its layout.

use crate::cycles::law_removal_keeps_acyclic;
use crate::node::{
    array_depth, capped, inline_target, lemma_capped_product_same, lemma_capped_sum, nodes_view,
    reference, ClassId, IntWidth, Node, NodeKind, NodeV, TextEncoding,
};
use crate::registry::{
    acyclic, class_at, classes_view, detached, detached_class, detached_nodes, edge, known,
    kind_bytes, lemma_place, list_bytes, place, ranked, Class, ClassRegistry, ClassV, RegistryV,
};
use vstd::prelude::*;

verus! {

/// [`detached`] of `kind`.
fn detach_kind(kind: &NodeKind, id: ClassId, bytes: usize) -> (r: NodeKind)
    ensures
        r == detached(*kind, id, bytes),
    decreases kind,
{
    match kind {
        NodeKind::ClassInstance { class_id } => if *class_id == id {
            NodeKind::Unknown(bytes)
        } else {
            kind.dup()
        },
        NodeKind::ClassPtr { class_id } => if *class_id == id {
            NodeKind::Pointer
        } else {
            kind.dup()
        },
        NodeKind::Array { element, count } => NodeKind::Array {
            element: Box::new(detach_kind(element, id, bytes)),
            count: *count,
        },
        _ => kind.dup(),
    }
}

/// [`detached_class`] of `c`.
fn detach_class(c: &Class, id: ClassId, bytes: usize) -> (r: Class)
    ensures
        r@ == detached_class(c@, id, bytes),
{
    let mut nodes: Vec<Node> = Vec::new();
    let mut i: usize = 0;
    while i < c.nodes.len()
        invariant
            i <= c.nodes@.len(),
            nodes@.len() == i,
            forall|j: int|
                0 <= j < i ==> (#[trigger] nodes@[j])@ == (NodeV {
                    kind: detached(c.nodes@[j].kind, id, bytes),
                    ..c.nodes@[j]@
                }),
        decreases c.nodes@.len() - i,
    {
        let n = &c.nodes[i];
        nodes.push(
            Node {
                name: n.name.clone(),
                comment: n.comment.clone(),
                kind: detach_kind(&n.kind, id, bytes),
            },
        );
        i = i + 1;
    }
    proof {
        assert(nodes_view(nodes@) =~= detached_nodes(nodes_view(c.nodes@), id, bytes));
    }
    Class { id: c.id, name: c.name.clone(), address_expr: c.address_expr.clone(), nodes }
}

/// The list without class `id` still ascends.
pub proof fn lemma_without_class_wf(v: RegistryV, id: ClassId)
    requires
        v.wf(),
    ensures
        v.without_class(id).wf(),
        !v.without_class(id).has(id),
        forall|x: ClassId| x != id ==> v.without_class(id).has(x) == v.has(x),
        forall|x: ClassId|
            x != id && v.has(x) && v.has(id) ==> #[trigger] class_at(v.without_class(id).classes, x)
                == detached_class(class_at(v.classes, x), id, capped(v.class_bytes(id))),
{
    let w = v.without_class(id);
    if v.has(id) {
        let p = place(v.classes, id);
        let bytes = capped(v.class_bytes(id));
        let cs = v.classes.remove(p);
        assert forall|i: int| 0 <= i < w.classes.len() implies (#[trigger] w.classes[i]).id
            == v.classes[if i < p {
            i
        } else {
            i + 1
        }].id by {}
        assert forall|i: int, j: int| 0 <= i < j < w.classes.len() implies (#[trigger] w.classes[i]).id
            < (#[trigger] w.classes[j]).id by {
            let a = if i < p {
                i
            } else {
                i + 1
            };
            let b = if j < p {
                j
            } else {
                j + 1
            };
            assert(v.classes[a].id < v.classes[b].id);
        }
        assert(w.wf());
        assert forall|x: ClassId| x != id implies w.has(x) == v.has(x) by {
            if w.has(x) {
                let i = place(w.classes, x);
                let a = if i < p {
                    i
                } else {
                    i + 1
                };
                assert(v.classes[a].id == x);
            }
            if v.has(x) {
                let a = place(v.classes, x);
                let i = if a < p {
                    a
                } else {
                    a - 1
                };
                assert(w.classes[i].id == x);
            }
        }
        assert forall|x: ClassId| x != id && v.has(x) && v.has(id) implies #[trigger] class_at(
            w.classes,
            x,
        ) == detached_class(class_at(v.classes, x), id, bytes) by {
            let a = place(v.classes, x);
            assert(v.classes[a].id == x);
            lemma_place(v.classes, v.next_id, a);
            let i = if a < p {
                a
            } else {
                a - 1
            };
            assert(w.classes[i] == detached_class(v.classes[a], id, bytes));
            assert(w.classes[i].id == x);
            lemma_place(w.classes, w.next_id, i);
        }
        if w.has(id) {
            let i = place(w.classes, id);
            let a = if i < p {
                i
            } else {
                i + 1
            };
            assert(v.classes[a].id == id);
            lemma_place(v.classes, v.next_id, a);
        }
    }
}

impl ClassRegistry {
    /// Remove a class. Every reference to it goes too, in place: an inline
    /// instance becomes as many unknown bytes, a pointer a plain pointer.
    pub fn remove_class(&mut self, id: ClassId)
        requires
            old(self)@.wf(),
        ensures
            final(self)@ == old(self)@.without_class(id),
            final(self)@.wf(),
    {
        let ghost before = self@;
        proof {
            lemma_without_class_wf(before, id);
        }
        let at: usize = match self.find(id) {
            Some(i) => i,
            None => {
                return;
            },
        };
        let bytes: usize = self.size_of(id);
        let ghost rest = before.classes.remove(at as int);
        let mut out: Vec<Class> = Vec::new();
        let mut i: usize = 0;
        while i < self.classes.len()
            invariant
                i <= self.classes@.len(),
                at < self.classes@.len(),
                before.classes == classes_view(self.classes@),
                rest == before.classes.remove(at as int),
                out@.len() == if i <= at {
                    i as int
                } else {
                    i - 1
                },
                forall|j: int|
                    0 <= j < out@.len() ==> (#[trigger] out@[j])@ == detached_class(
                        rest[j],
                        id,
                        bytes,
                    ),
            decreases self.classes@.len() - i,
        {
            if i != at {
                out.push(detach_class(&self.classes[i], id, bytes));
            }
            i = i + 1;
        }
        self.classes = out;
        proof {
            assert(self@.classes =~= before.without_class(id).classes);
        }
    }
}

// ---------------------------------------------------------------------------
// Sizes do not depend on how deep they are followed
// ---------------------------------------------------------------------------

/// How many classes rank below `r`.
spec fn below(cs: Seq<ClassV>, rank: spec_fn(ClassId) -> nat, r: nat) -> nat
    decreases cs.len(),
{
    if cs.len() == 0 {
        0
    } else {
        below(cs.drop_last(), rank, r) + if rank(cs.last().id) < r {
            1nat
        } else {
            0
        }
    }
}

proof fn lemma_below_grows(cs: Seq<ClassV>, rank: spec_fn(ClassId) -> nat, r: nat, s: nat)
    requires
        r <= s,
    ensures
        below(cs, rank, r) <= below(cs, rank, s) <= cs.len(),
    decreases cs.len(),
{
    if cs.len() > 0 {
        lemma_below_grows(cs.drop_last(), rank, r, s);
    }
}

proof fn lemma_below_strict(cs: Seq<ClassV>, rank: spec_fn(ClassId) -> nat, i: int, s: nat)
    requires
        0 <= i < cs.len(),
        rank(cs[i].id) < s,
    ensures
        below(cs, rank, rank(cs[i].id)) < below(cs, rank, s) <= cs.len(),
    decreases cs.len(),
{
    let r = rank(cs[i].id);
    if i == cs.len() - 1 {
        lemma_below_grows(cs.drop_last(), rank, r, s);
    } else {
        lemma_below_strict(cs.drop_last(), rank, i, s);
    }
}

/// How many levels deep `kind` has to be followed.
spec fn need(cs: Seq<ClassV>, rank: spec_fn(ClassId) -> nat, kind: NodeKind) -> nat {
    match inline_target(kind) {
        Some(t) => if known(cs, t) {
            below(cs, rank, rank(t)) + 1
        } else {
            0
        },
        None => 0,
    }
}

proof fn lemma_need_bound(cs: Seq<ClassV>, rank: spec_fn(ClassId) -> nat, kind: NodeKind)
    ensures
        need(cs, rank, kind) <= cs.len(),
{
    if let Some(t) = inline_target(kind) {
        if known(cs, t) {
            let i = place(cs, t);
            assert(cs[i].id == t);
            lemma_below_strict(cs, rank, i, rank(t) + 1);
        }
    }
}

/// The fields of a class need less depth than the class itself.
proof fn lemma_need_of_fields(cs: Seq<ClassV>, rank: spec_fn(ClassId) -> nat, t: ClassId, j: int)
    requires
        ranked(cs, rank),
        known(cs, t),
        0 <= j < class_at(cs, t).nodes.len(),
    ensures
        need(cs, rank, class_at(cs, t).nodes[j].kind) <= below(cs, rank, rank(t)),
{
    let kind = class_at(cs, t).nodes[j].kind;
    if let Some(u) = inline_target(kind) {
        if known(cs, u) {
            assert(edge(cs, t, u));
            let i = place(cs, u);
            assert(cs[i].id == u);
            lemma_below_strict(cs, rank, i, rank(t));
        }
    }
}

/// Once followed as deep as needed, a kind has one size.
proof fn lemma_depth_kind(
    cs: Seq<ClassV>,
    rank: spec_fn(ClassId) -> nat,
    ptr: nat,
    kind: NodeKind,
    bound: nat,
    f: nat,
    g: nat,
)
    requires
        ranked(cs, rank),
        need(cs, rank, kind) <= bound,
        bound <= f,
        bound <= g,
    ensures
        kind_bytes(cs, ptr, kind, f) == kind_bytes(cs, ptr, kind, g),
    decreases bound, 0nat, array_depth(kind),
{
    match kind {
        NodeKind::Array { element, count } => {
            lemma_depth_kind(cs, rank, ptr, *element, bound, f, g);
        },
        NodeKind::ClassInstance { class_id } => {
            if known(cs, class_id) {
                let nodes = class_at(cs, class_id).nodes;
                assert forall|j: int| 0 <= j < nodes.len() implies need(
                    cs,
                    rank,
                    (#[trigger] nodes[j]).kind,
                ) <= bound - 1 by {
                    lemma_need_of_fields(cs, rank, class_id, j);
                }
                lemma_depth_list(
                    cs,
                    rank,
                    ptr,
                    nodes,
                    (bound - 1) as nat,
                    (f - 1) as nat,
                    (g - 1) as nat,
                );
            }
        },
        _ => {},
    }
}

proof fn lemma_depth_list(
    cs: Seq<ClassV>,
    rank: spec_fn(ClassId) -> nat,
    ptr: nat,
    nodes: Seq<NodeV>,
    bound: nat,
    f: nat,
    g: nat,
)
    requires
        ranked(cs, rank),
        forall|j: int|
            0 <= j < nodes.len() ==> need(cs, rank, (#[trigger] nodes[j]).kind) <= bound,
        bound <= f,
        bound <= g,
    ensures
        list_bytes(cs, ptr, nodes, f) == list_bytes(cs, ptr, nodes, g),
    decreases bound, 1nat, nodes.len(),
{
    if nodes.len() > 0 {
        assert forall|j: int| 0 <= j < nodes.drop_last().len() implies need(
            cs,
            rank,
            (#[trigger] nodes.drop_last()[j]).kind,
        ) <= bound by {
            assert(nodes.drop_last()[j] == nodes[j]);
        }
        lemma_depth_list(cs, rank, ptr, nodes.drop_last(), bound, f, g);
        assert(need(cs, rank, nodes[nodes.len() - 1].kind) <= bound);
        lemma_depth_kind(cs, rank, ptr, nodes.last().kind, bound, f, g);
    }
}

// ---------------------------------------------------------------------------
// Laws
// ---------------------------------------------------------------------------

proof fn lemma_detached_reference(kind: NodeKind, id: ClassId, bytes: usize)
    ensures
        reference(detached(kind, id, bytes)) != Some(id),
        inline_target(detached(kind, id, bytes)) is Some ==> inline_target(
            detached(kind, id, bytes),
        ) == inline_target(kind),
        inline_target(kind) != Some(id) ==> inline_target(detached(kind, id, bytes))
            == inline_target(kind),
    decreases kind,
{
    match kind {
        NodeKind::Array { element, count } => {
            lemma_detached_reference(*element, id, bytes);
        },
        _ => {},
    }
}

/// Every inline instance left after a removal stood there before it.
proof fn lemma_removal_edges(v: RegistryV, id: ClassId)
    requires
        v.wf(),
    ensures
        forall|a: ClassId, b: ClassId| #[trigger]
            edge(v.without_class(id).classes, a, b) ==> edge(v.classes, a, b),
{
    let w = v.without_class(id);
    let bytes = capped(v.class_bytes(id));
    lemma_without_class_wf(v, id);
    if v.has(id) {
        assert forall|a: ClassId, b: ClassId| #[trigger] edge(w.classes, a, b) implies edge(
            v.classes,
            a,
            b,
        ) by {
            let j = choose|j: int|
                0 <= j < class_at(w.classes, a).nodes.len() && inline_target(
                    (#[trigger] class_at(w.classes, a).nodes[j]).kind,
                ) == Some(b);
            let n = class_at(v.classes, a).nodes[j];
            assert(class_at(w.classes, a) == detached_class(class_at(v.classes, a), id, bytes));
            assert(class_at(w.classes, a).nodes[j].kind == detached(n.kind, id, bytes));
            lemma_detached_reference(n.kind, id, bytes);
            assert(inline_target(class_at(v.classes, a).nodes[j].kind) == Some(b));
        }
    }
}

/// Removing a class keeps the registry free of classes that contain themselves.
pub proof fn law_remove_class_keeps_acyclic(v: RegistryV, id: ClassId)
    requires
        v.wf(),
        acyclic(v.classes),
    ensures
        acyclic(v.without_class(id).classes),
{
    lemma_removal_edges(v, id);
    law_removal_keeps_acyclic(v.classes, v.without_class(id).classes);
}

/// Once a class is removed, no field refers to it.
pub proof fn law_remove_class_leaves_no_reference(v: RegistryV, id: ClassId, i: int, j: int)
    requires
        v.wf(),
        v.has(id),
        0 <= i < v.without_class(id).classes.len(),
        0 <= j < v.without_class(id).classes[i].nodes.len(),
    ensures
        reference(v.without_class(id).classes[i].nodes[j].kind) != Some(id),
{
    let p = place(v.classes, id);
    let n = v.classes.remove(p)[i].nodes[j];
    lemma_detached_reference(n.kind, id, capped(v.class_bytes(id)));
}

/// A kind takes as many bytes after the removal as before.
proof fn lemma_removal_kind(
    v: RegistryV,
    id: ClassId,
    rank: spec_fn(ClassId) -> nat,
    kind: NodeKind,
    bound: nat,
    f: nat,
)
    requires
        v.wf(),
        v.has(id),
        ranked(v.classes, rank),
        need(v.classes, rank, kind) <= bound,
        bound <= f,
    ensures
        capped(
            kind_bytes(
                v.without_class(id).classes,
                v.pointer_bytes,
                detached(kind, id, capped(v.class_bytes(id))),
                f,
            ),
        ) == capped(kind_bytes(v.classes, v.pointer_bytes, kind, f)),
    decreases bound, 0nat, array_depth(kind),
{
    let w = v.without_class(id);
    let bytes = capped(v.class_bytes(id));
    lemma_without_class_wf(v, id);
    match kind {
        NodeKind::Array { element, count } => {
            lemma_removal_kind(v, id, rank, *element, bound, f);
            let e = detached(*element, id, bytes);
            assert(detached(kind, id, bytes) == (NodeKind::Array { element: Box::new(e), count }));
            assert(kind_bytes(w.classes, v.pointer_bytes, detached(kind, id, bytes), f)
                == count as nat * kind_bytes(w.classes, v.pointer_bytes, e, f));
            let x = kind_bytes(w.classes, v.pointer_bytes, e, f);
            let y = kind_bytes(v.classes, v.pointer_bytes, *element, f);
            lemma_capped_product_same(count as nat, x, y);
        },
        NodeKind::ClassInstance { class_id } => {
            assert(class_id != id ==> w.has(class_id) == v.has(class_id));
            if known(v.classes, class_id) {
                let nodes = class_at(v.classes, class_id).nodes;
                let g = (f - 1) as nat;
                assert forall|j: int| 0 <= j < nodes.len() implies need(
                    v.classes,
                    rank,
                    (#[trigger] nodes[j]).kind,
                ) <= bound - 1 by {
                    lemma_need_of_fields(v.classes, rank, class_id, j);
                }
                if class_id == id {
                    assert forall|j: int| 0 <= j < nodes.len() implies need(
                        v.classes,
                        rank,
                        (#[trigger] nodes[j]).kind,
                    ) <= below(v.classes, rank, rank(id)) by {
                        lemma_need_of_fields(v.classes, rank, class_id, j);
                    }
                    lemma_need_bound(v.classes, rank, kind);
                    lemma_depth_list(
                        v.classes,
                        rank,
                        v.pointer_bytes,
                        nodes,
                        below(v.classes, rank, rank(id)),
                        g,
                        v.classes.len(),
                    );
                } else {
                    lemma_removal_list(v, id, rank, nodes, (bound - 1) as nat, g);
                    assert(class_at(w.classes, class_id) == detached_class(
                        class_at(v.classes, class_id),
                        id,
                        bytes,
                    ));
                }
            }
        },
        _ => {},
    }
}

proof fn lemma_removal_list(
    v: RegistryV,
    id: ClassId,
    rank: spec_fn(ClassId) -> nat,
    nodes: Seq<NodeV>,
    bound: nat,
    f: nat,
)
    requires
        v.wf(),
        v.has(id),
        ranked(v.classes, rank),
        forall|j: int|
            0 <= j < nodes.len() ==> need(v.classes, rank, (#[trigger] nodes[j]).kind) <= bound,
        bound <= f,
    ensures
        capped(
            list_bytes(
                v.without_class(id).classes,
                v.pointer_bytes,
                detached_nodes(nodes, id, capped(v.class_bytes(id))),
                f,
            ),
        ) == capped(list_bytes(v.classes, v.pointer_bytes, nodes, f)),
    decreases bound, 1nat, nodes.len(),
{
    let w = v.without_class(id);
    let bytes = capped(v.class_bytes(id));
    if nodes.len() > 0 {
        let head = nodes.drop_last();
        assert forall|j: int| 0 <= j < head.len() implies need(
            v.classes,
            rank,
            (#[trigger] head[j]).kind,
        ) <= bound by {
            assert(head[j] == nodes[j]);
        }
        lemma_removal_list(v, id, rank, head, bound, f);
        assert(need(v.classes, rank, nodes[nodes.len() - 1].kind) <= bound);
        lemma_removal_kind(v, id, rank, nodes.last().kind, bound, f);
        let d = detached_nodes(nodes, id, bytes);
        assert(d.drop_last() =~= detached_nodes(head, id, bytes));
        assert(d.last().kind == detached(nodes.last().kind, id, bytes));
        lemma_capped_sum(
            list_bytes(w.classes, v.pointer_bytes, d.drop_last(), f),
            kind_bytes(w.classes, v.pointer_bytes, d.last().kind, f),
        );
        lemma_capped_sum(
            list_bytes(v.classes, v.pointer_bytes, head, f),
            kind_bytes(v.classes, v.pointer_bytes, nodes.last().kind, f),
        );
    }
}

/// Removing a class preserves the layout of every other one: each keeps its
/// size, and each of its fields keeps its offset.
pub proof fn law_remove_class_preserves_layout(v: RegistryV, id: ClassId, other: ClassId, upto: int)
    requires
        v.wf(),
        acyclic(v.classes),
        v.has(id),
        v.has(other),
        other != id,
        0 <= upto <= v.nodes(other).len(),
    ensures
        v.without_class(id).nodes(other).len() == v.nodes(other).len(),
        capped(v.without_class(id).class_bytes(other)) == capped(v.class_bytes(other)),
        capped(
            list_bytes(
                v.without_class(id).classes,
                v.pointer_bytes,
                v.without_class(id).nodes(other).take(upto),
                v.without_class(id).classes.len(),
            ),
        ) == capped(
            list_bytes(
                v.classes,
                v.pointer_bytes,
                v.nodes(other).take(upto),
                v.classes.len(),
            ),
        ),
{
    lemma_removal_prefix(v, id, other, upto);
    lemma_removal_prefix(v, id, other, v.nodes(other).len() as int);
    lemma_without_class_wf(v, id);
    let w = v.without_class(id);
    assert(v.nodes(other).take(v.nodes(other).len() as int) =~= v.nodes(other));
    assert(w.nodes(other).take(w.nodes(other).len() as int) =~= w.nodes(other));
}

proof fn lemma_removal_prefix(v: RegistryV, id: ClassId, other: ClassId, upto: int)
    requires
        v.wf(),
        acyclic(v.classes),
        v.has(id),
        v.has(other),
        other != id,
        0 <= upto <= v.nodes(other).len(),
    ensures
        v.without_class(id).nodes(other).len() == v.nodes(other).len(),
        capped(
            list_bytes(
                v.without_class(id).classes,
                v.pointer_bytes,
                v.without_class(id).nodes(other).take(upto),
                v.without_class(id).classes.len(),
            ),
        ) == capped(
            list_bytes(
                v.classes,
                v.pointer_bytes,
                v.nodes(other).take(upto),
                v.classes.len(),
            ),
        ),
{
    let rank = choose|rank: spec_fn(ClassId) -> nat| #[trigger] ranked(v.classes, rank);
    let w = v.without_class(id);
    let bytes = capped(v.class_bytes(id));
    lemma_without_class_wf(v, id);
    lemma_removal_edges(v, id);
    assert(ranked(w.classes, rank));
    let nodes = v.nodes(other);
    let head = nodes.take(upto);
    let bound = below(v.classes, rank, rank(other));
    assert forall|j: int| 0 <= j < head.len() implies need(
        v.classes,
        rank,
        (#[trigger] head[j]).kind,
    ) <= bound by {
        lemma_need_of_fields(v.classes, rank, other, j);
    }
    lemma_below_grows(v.classes, rank, rank(other), rank(other));
    lemma_removal_list(v, id, rank, head, bound, v.classes.len());
    let after = w.nodes(other);
    assert(after == detached_nodes(nodes, id, bytes));
    assert(after.take(upto) =~= detached_nodes(head, id, bytes));
    // follow the remaining classes as deep as there are classes left
    let small = below(w.classes, rank, rank(other));
    lemma_below_grows(w.classes, rank, rank(other), rank(other));
    let t = after.take(upto);
    assert forall|j: int| 0 <= j < t.len() implies need(w.classes, rank, (#[trigger] t[j]).kind)
        <= small by {
        assert(t[j] == class_at(w.classes, other).nodes[j]);
        lemma_need_of_fields(w.classes, rank, other, j);
    }
    lemma_depth_list(
        w.classes,
        rank,
        v.pointer_bytes,
        t,
        small,
        v.classes.len(),
        w.classes.len(),
    );
}

/// Fields lie one behind the other: each begins where the one before it ends, the
/// first at the start, and a class takes the bytes of all of them.
pub proof fn law_fields_lie_one_behind_the_other(v: RegistryV, id: ClassId, i: int)
    requires
        v.has(id),
        0 <= i < v.nodes(id).len(),
    ensures
        ({
            let cs = v.classes;
            let n = v.nodes(id);
            let fuel = v.classes.len();
            &&& list_bytes(cs, v.pointer_bytes, n.take(0), fuel) == 0
            &&& list_bytes(cs, v.pointer_bytes, n.take(i + 1), fuel) == list_bytes(
                cs,
                v.pointer_bytes,
                n.take(i),
                fuel,
            ) + kind_bytes(cs, v.pointer_bytes, n[i].kind, fuel)
            &&& v.class_bytes(id) == list_bytes(
                cs,
                v.pointer_bytes,
                n.take(n.len() as int),
                fuel,
            )
        }),
{
    let n = v.nodes(id);
    assert(n.take(i + 1).drop_last() =~= n.take(i));
    assert(n.take(i + 1).last() == n[i]);
    assert(n.take(n.len() as int) =~= n);
}

/// How much room kinds take compared with each other: a wider integer twice that
/// of the next narrower one, whatever it is shown as; a double that of two
/// floats, a vector that of its components; every pointer that of an address;
/// UTF-16 twice that of UTF-8. An array takes its elements' room, each in turn.
pub proof fn law_kinds_take_room_in_proportion(
    cs: Seq<ClassV>,
    ptr: nat,
    fuel: nat,
    w: IntWidth,
    k: NodeKind,
    count: usize,
    to: ClassId,
    len: usize,
)
    ensures
        ({
            let room = |x: NodeKind| kind_bytes(cs, ptr, x, fuel);
            &&& room(NodeKind::UInt(IntWidth::W8)) == 1
            &&& room(NodeKind::UInt(IntWidth::W16)) == 2 * room(NodeKind::UInt(IntWidth::W8))
            &&& room(NodeKind::UInt(IntWidth::W32)) == 2 * room(NodeKind::UInt(IntWidth::W16))
            &&& room(NodeKind::UInt(IntWidth::W64)) == 2 * room(NodeKind::UInt(IntWidth::W32))
            &&& room(NodeKind::Int(w)) == room(NodeKind::UInt(w))
            &&& room(NodeKind::Hex(w)) == room(NodeKind::UInt(w))
            &&& room(NodeKind::Bool) == 1
            &&& room(NodeKind::Float32) == 4
            &&& room(NodeKind::Float64) == 2 * room(NodeKind::Float32)
            &&& room(NodeKind::Vec2) == 2 * room(NodeKind::Float32)
            &&& room(NodeKind::Vec3) == 3 * room(NodeKind::Float32)
            &&& room(NodeKind::Vec4) == 4 * room(NodeKind::Float32)
            &&& room(NodeKind::Pointer) == ptr
            &&& room(NodeKind::FunctionPtr) == ptr
            &&& room(NodeKind::ClassPtr { class_id: to }) == ptr
            &&& room(NodeKind::Padding(count)) == count
            &&& room(NodeKind::Unknown(count)) == count
            &&& room(NodeKind::Text { encoding: TextEncoding::Utf8, len }) == len
            &&& room(NodeKind::Text { encoding: TextEncoding::Utf16, len }) == 2 * len
            &&& room(NodeKind::Array { element: Box::new(k), count }) == count * room(k)
        }),
{
    assert(len as nat * 1 == len as nat);
    assert(len as nat * 2 == 2 * len);
}

/// An inline instance takes the room of the fields of its class; one of a class
/// that is missing takes none.
pub proof fn law_instance_takes_its_fields_room(cs: Seq<ClassV>, ptr: nat, fuel: nat, to: ClassId)
    ensures
        fuel > 0 && known(cs, to) ==> kind_bytes(
            cs,
            ptr,
            NodeKind::ClassInstance { class_id: to },
            fuel,
        ) == list_bytes(cs, ptr, class_at(cs, to).nodes, (fuel - 1) as nat),
        !known(cs, to) ==> kind_bytes(cs, ptr, NodeKind::ClassInstance { class_id: to }, fuel) == 0,
{
}

} // verus!
