//! What holds of whole sequences of edits: undo and redo, the bounds of the
//! history, layouts that grow, and registries that stay free of cycles.

use crate::app_state::AppV;
use crate::clipboard::{deleted, missing_ref, paste_refusal, pasted, spliced, Target};
use crate::cycles::{
    all_guarded, law_acyclic_means_no_cycle, law_change_kind_keeps_acyclic,
    law_delete_keeps_acyclic, law_removal_keeps_acyclic, law_splice_keeps_acyclic,
    lemma_reaches_before, lemma_reaches_self,
};
use crate::edits::{byte_fields, kind_changed, pointer_expanded, word_fields};
use crate::history::{law_trim_is_bounded, law_trim_keeps_newest, over, stack_nodes};
use crate::node::{array_depth, inline_target, ClassId, NodeKind, NodeV};
use crate::project::ProjectV;
use crate::registry::{
    acyclic, array_counted, class_at, edge, kind_bytes, known, lemma_place, lemma_with_nodes,
    list_bytes, place, pushed, reaches, would_cycle, ClassV, RegistryV,
};
use vstd::prelude::*;

verus! {

// ---------------------------------------------------------------------------
// Undo and redo
// ---------------------------------------------------------------------------

/// Undo reverses the edit just made: whatever became of the recorded state, the
/// project is again what it was when it was recorded.
pub proof fn law_undo_reverses_edit(s: AppV, after: AppV)
    requires
        after.history == s.snapped().history,
    ensures
        after.history.undo.len() > 0,
        after.undone().project == s.project,
{
    law_trim_keeps_newest(s.history.undo.push(s.project));
}

/// Redo reapplies what undo reversed: the project and both stacks are again
/// what they were.
pub proof fn law_redo_reapplies(s: AppV)
    requires
        s.history.undo.len() > 0,
    ensures
        s.undone().redone().project == s.project,
        s.undone().redone().history == s.history,
{
    let r = s.undone().redone();
    assert(r.history.undo =~= s.history.undo);
    assert(r.history.redo =~= s.history.redo);
}

/// Undo reverses a redo.
pub proof fn law_undo_reverses_redo(s: AppV)
    requires
        s.history.redo.len() > 0,
    ensures
        s.redone().undone().project == s.project,
        s.redone().undone().history == s.history,
{
    let r = s.redone().undone();
    assert(r.history.undo =~= s.history.undo);
    assert(r.history.redo =~= s.history.redo);
}

/// Without an edit to undo, undo changes nothing; nor does redo past the tip.
pub proof fn law_ends_of_the_timeline(s: AppV)
    ensures
        s.history.undo.len() == 0 ==> s.undone() == s,
        s.history.redo.len() == 0 ==> s.redone() == s,
{
}

/// A new edit discards the redo branch.
pub proof fn law_edit_discards_redo(s: AppV)
    ensures
        s.snapped().history.redo.len() == 0,
        s.snapped().redone() == s.snapped(),
{
}

/// The history is bounded by depth and, unless one snapshot alone exceeds it,
/// by the node budget; the newest edit can always be undone.
pub proof fn law_history_is_bounded(s: AppV)
    ensures
        1 <= s.snapped().history.undo.len() <= 64,
        s.snapped().history.undo.len() > 1 ==> stack_nodes(s.snapped().history.undo) <= 500_000,
        s.snapped().history.undo.last() == s.project,
{
    law_trim_keeps_newest(s.history.undo.push(s.project));
    law_trim_is_bounded(s.history.undo.push(s.project));
}

/// One edit is one undo step, as long as the history is within its bounds.
pub proof fn law_edit_is_one_step(s: AppV)
    requires
        !over(s.history.undo.push(s.project)),
    ensures
        s.snapped().history.undo == s.history.undo.push(s.project),
{
}

/// Undoing a class removal brings back the class, the references to it that
/// the removal rewrote, and the view that showed it.
pub proof fn law_undo_restores_removed_class(s: AppV, id: ClassId)
    ensures
        s.without_class(id).history.undo.len() > 0,
        s.without_class(id).undone().project == s.project,
{
    assert(s.without_class(id).history == s.snapped().history);
    law_undo_reverses_edit(s, s.without_class(id));
}

/// A loaded project starts a new timeline.
pub proof fn law_load_clears_history(s: AppV, p: ProjectV)
    ensures
        s.loaded(p).history.undo.len() == 0,
        s.loaded(p).history.redo.len() == 0,
        s.loaded(p).project == p,
{
}

// ---------------------------------------------------------------------------
// Paste
// ---------------------------------------------------------------------------

/// A paste that is refused for a cycle or a missing class changes nothing at
/// all; so does pasting an empty clipboard.
pub proof fn law_refused_paste_changes_nothing(s: AppV, class: ClassId, after: Option<usize>)
    requires
        s.clipboard.len() == 0 || !s.project.registry.has(class) || paste_refusal(
            s.project.registry,
            class,
            s.clipboard,
        ) is Some,
    ensures
        pasted(s, class, after).0 == s,
        s.clipboard.len() > 0 ==> pasted(s, class, after).1 is Err,
{
}

/// A paste that is not refused passes the guard field by field.
proof fn lemma_not_refused(v: RegistryV, class: ClassId, nodes: Seq<NodeV>)
    requires
        paste_refusal(v, class, nodes) is None,
    ensures
        all_guarded(v.classes, class, nodes),
        forall|j: int| 0 <= j < nodes.len() ==> missing_ref(v, (#[trigger] nodes[j]).kind) is None,
    decreases nodes.len(),
{
    if nodes.len() > 0 {
        lemma_not_refused(v, class, nodes.skip(1));
        assert forall|j: int| 0 <= j < nodes.len() implies !would_cycle(
            v.classes,
            class,
            (#[trigger] nodes[j]).kind,
        ) && missing_ref(v, nodes[j].kind) is None by {
            if j > 0 {
                assert(nodes.skip(1)[j - 1] == nodes[j]);
            }
        }
    }
}

/// A paste keeps the registry free of classes that contain themselves.
pub proof fn law_paste_keeps_acyclic(s: AppV, class: ClassId, after: Option<usize>)
    requires
        s.project.registry.wf(),
        acyclic(s.project.registry.classes),
    ensures
        acyclic(pasted(s, class, after).0.project.registry.classes),
{
    let v = s.project.registry;
    if s.clipboard.len() > 0 && v.has(class) && paste_refusal(v, class, s.clipboard) is None {
        lemma_not_refused(v, class, s.clipboard);
        let at = match after {
            Some(idx) => idx + 1,
            None => v.nodes(class).len() as int,
        };
        if at <= v.nodes(class).len() {
            law_splice_keeps_acyclic(v, class, at, s.clipboard);
        }
    }
}

// ---------------------------------------------------------------------------
// Other edits keep the registry acyclic
// ---------------------------------------------------------------------------

/// A guarded change of a field's kind keeps the registry acyclic.
pub proof fn law_kind_change_keeps_acyclic(s: AppV, class: ClassId, idx: usize, kind: NodeKind)
    requires
        s.project.registry.wf(),
        acyclic(s.project.registry.classes),
    ensures
        acyclic(kind_changed(s, class, idx, kind).0.project.registry.classes),
{
    let v = s.project.registry;
    if !would_cycle(v.classes, class, kind) && v.has(class) && idx < v.nodes(class).len() {
        law_change_kind_keeps_acyclic(
            v,
            class,
            idx as int,
            NodeV { kind, ..v.nodes(class)[idx as int] },
        );
    }
}

/// Appending guarded fields keeps the registry acyclic.
pub proof fn law_push_keeps_acyclic(v: RegistryV, class: ClassId, more: Seq<NodeV>)
    requires
        v.wf(),
        acyclic(v.classes),
        all_guarded(v.classes, class, more),
    ensures
        acyclic(pushed(v, class, more).0.classes),
{
    if v.has(class) {
        let n = v.nodes(class).len() as int;
        assert(spliced(v.nodes(class), n, more) =~= v.nodes(class) + more);
        law_splice_keeps_acyclic(v, class, n, more);
    }
}

/// Another element count keeps the registry acyclic.
pub proof fn law_array_count_keeps_acyclic(v: RegistryV, class: ClassId, idx: usize, count: usize)
    requires
        v.wf(),
        acyclic(v.classes),
    ensures
        acyclic(array_counted(v, class, idx, count).0.classes),
{
    let n = v.nodes(class)[idx as int];
    if v.has(class) && idx < v.nodes(class).len() && n.kind is Array {
        let kind = NodeKind::Array { element: n.kind->element, count };
        let m = NodeV { kind, ..n };
        assert(inline_target(kind) == inline_target(n.kind));
        if let Some(t) = inline_target(kind) {
            assert(inline_target(class_at(v.classes, class).nodes[idx as int].kind) == Some(t));
            assert(edge(v.classes, class, t));
            law_acyclic_means_no_cycle(v.classes, class, t);
        }
        law_change_kind_keeps_acyclic(v, class, idx as int, m);
    }
}

/// Deleting fields keeps the registry acyclic.
pub proof fn law_delete_many_keeps_acyclic(v: RegistryV, ts: Seq<Target>)
    requires
        v.wf(),
        acyclic(v.classes),
    ensures
        deleted(v, ts).0.wf(),
        acyclic(deleted(v, ts).0.classes),
    decreases ts.len(),
{
    if ts.len() > 0 {
        law_delete_many_keeps_acyclic(v, ts.drop_last());
        let w = deleted(v, ts.drop_last()).0;
        let t = ts.last();
        if w.has(t.0) && t.1 < w.nodes(t.0).len() {
            law_delete_keeps_acyclic(w, t.0, t.1 as int);
            lemma_with_nodes(w, t.0, w.nodes(t.0).remove(t.1 as int));
        }
    }
}

/// One more, empty class keeps the registry acyclic.
pub proof fn law_add_class_keeps_acyclic(v: RegistryV, name: Seq<char>)
    requires
        v.wf(),
        v.next_id < u32::MAX,
        acyclic(v.classes),
    ensures
        v.with_class(name).wf(),
        v.with_class(name).has(v.next_id),
        v.with_class(name).nodes(v.next_id).len() == 0,
        acyclic(v.with_class(name).classes),
{
    let w = v.with_class(name);
    assert(w.wf());
    let last = v.classes.len() as int;
    assert(w.classes[last].id == v.next_id);
    lemma_place(w.classes, w.next_id, last);
    assert forall|a: ClassId, b: ClassId| #[trigger] edge(w.classes, a, b) implies edge(
        v.classes,
        a,
        b,
    ) by {
        let i = place(w.classes, a);
        assert(w.classes[i].id == a);
        if i == last {
            assert(class_at(w.classes, a).nodes.len() == 0);
        } else {
            assert(v.classes[i] == w.classes[i]);
            lemma_place(v.classes, v.next_id, i);
            let j = choose|j: int|
                0 <= j < class_at(w.classes, a).nodes.len() && inline_target(
                    (#[trigger] class_at(w.classes, a).nodes[j]).kind,
                ) == Some(b);
            assert(inline_target(class_at(v.classes, a).nodes[j].kind) == Some(b));
        }
    }
    law_removal_keeps_acyclic(v.classes, w.classes);
}

/// Expanding a pointer into a class of its own keeps the registry acyclic.
pub proof fn law_expand_pointer_keeps_acyclic(v: RegistryV, owner: ClassId, idx: usize)
    requires
        v.wf(),
        v.next_id < u32::MAX,
        acyclic(v.classes),
    ensures
        acyclic(pointer_expanded(v, owner, idx).0.classes),
{
    let name = crate::edits::auto_name(v.classes.len());
    law_add_class_keeps_acyclic(v, name);
    let made = v.with_class(name);
    let fields = word_fields(v.pointer_bytes);
    assert(made.nodes(v.next_id) + fields =~= fields);
    law_push_keeps_acyclic(made, v.next_id, fields);
    let filled = made.with_nodes(v.next_id, fields);
    lemma_with_nodes(made, v.next_id, fields);
    if filled.has(owner) && idx < filled.nodes(owner).len() {
        law_change_kind_keeps_acyclic(
            filled,
            owner,
            idx as int,
            NodeV {
                kind: NodeKind::ClassPtr { class_id: v.next_id },
                ..filled.nodes(owner)[idx as int]
            },
        );
    }
}

// ---------------------------------------------------------------------------
// Layouts grow by what is appended
// ---------------------------------------------------------------------------

/// A kind that does not lead to class `id` keeps its size when that class gets
/// other fields.
proof fn lemma_size_unaffected_kind(
    v: RegistryV,
    id: ClassId,
    nodes: Seq<NodeV>,
    kind: NodeKind,
    fuel: nat,
)
    requires
        v.wf(),
        v.has(id),
        !would_cycle(v.classes, id, kind),
    ensures
        kind_bytes(v.with_nodes(id, nodes).classes, v.pointer_bytes, kind, fuel) == kind_bytes(
            v.classes,
            v.pointer_bytes,
            kind,
            fuel,
        ),
    decreases fuel, 0nat, array_depth(kind),
{
    let w = v.with_nodes(id, nodes);
    lemma_with_nodes(v, id, nodes);
    match kind {
        NodeKind::Array { element, count } => {
            lemma_size_unaffected_kind(v, id, nodes, *element, fuel);
        },
        NodeKind::ClassInstance { class_id } => {
            assert(w.has(class_id) == v.has(class_id));
            if fuel > 0 && known(v.classes, class_id) {
                if class_id == id {
                    lemma_reaches_self(v.classes, id);
                }
                let inner = v.nodes(class_id);
                assert(w.nodes(class_id) == inner);
                assert forall|j: int| 0 <= j < inner.len() implies !would_cycle(
                    v.classes,
                    id,
                    (#[trigger] inner[j]).kind,
                ) by {
                    if let Some(u) = inline_target(inner[j].kind) {
                        assert(inline_target(class_at(v.classes, class_id).nodes[j].kind) == Some(
                            u,
                        ));
                        assert(edge(v.classes, class_id, u));
                        if reaches(v.classes, u, id) {
                            lemma_reaches_before(v.classes, class_id, u, id);
                        }
                    }
                }
                lemma_size_unaffected_list(v, id, nodes, inner, (fuel - 1) as nat);
            }
        },
        _ => {},
    }
}

proof fn lemma_size_unaffected_list(
    v: RegistryV,
    id: ClassId,
    nodes: Seq<NodeV>,
    list: Seq<NodeV>,
    fuel: nat,
)
    requires
        v.wf(),
        v.has(id),
        forall|j: int|
            0 <= j < list.len() ==> !would_cycle(v.classes, id, (#[trigger] list[j]).kind),
    ensures
        list_bytes(v.with_nodes(id, nodes).classes, v.pointer_bytes, list, fuel) == list_bytes(
            v.classes,
            v.pointer_bytes,
            list,
            fuel,
        ),
    decreases fuel, 1nat, list.len(),
{
    if list.len() > 0 {
        assert forall|j: int| 0 <= j < list.drop_last().len() implies !would_cycle(
            v.classes,
            id,
            (#[trigger] list.drop_last()[j]).kind,
        ) by {
            assert(list.drop_last()[j] == list[j]);
        }
        lemma_size_unaffected_list(v, id, nodes, list.drop_last(), fuel);
        assert(!would_cycle(v.classes, id, list[list.len() - 1].kind));
        lemma_size_unaffected_kind(v, id, nodes, list.last().kind, fuel);
    }
}

/// Sizes of lists add up.
proof fn lemma_list_bytes_sum(
    cs: Seq<ClassV>,
    ptr: nat,
    a: Seq<NodeV>,
    b: Seq<NodeV>,
    fuel: nat,
)
    ensures
        list_bytes(cs, ptr, a + b, fuel) == list_bytes(cs, ptr, a, fuel) + list_bytes(
            cs,
            ptr,
            b,
            fuel,
        ),
    decreases b.len(),
{
    if b.len() == 0 {
        assert(a + b =~= a);
    } else {
        lemma_list_bytes_sum(cs, ptr, a, b.drop_last(), fuel);
        assert((a + b).drop_last() =~= a + b.drop_last());
        assert((a + b).last() == b.last());
    }
}

/// In an acyclic registry a class grows by exactly the bytes of the guarded
/// fields that are appended to it.
pub proof fn law_push_grows_class(v: RegistryV, id: ClassId, more: Seq<NodeV>)
    requires
        v.wf(),
        v.has(id),
        acyclic(v.classes),
        all_guarded(v.classes, id, more),
    ensures
        pushed(v, id, more).0.class_bytes(id) == v.class_bytes(id) + list_bytes(
            v.classes,
            v.pointer_bytes,
            more,
            v.classes.len(),
        ),
{
    let nodes = v.nodes(id) + more;
    let w = v.with_nodes(id, nodes);
    lemma_with_nodes(v, id, nodes);
    assert forall|j: int| 0 <= j < nodes.len() implies !would_cycle(
        v.classes,
        id,
        (#[trigger] nodes[j]).kind,
    ) by {
        if j < v.nodes(id).len() {
            let own = class_at(v.classes, id).nodes[j];
            if let Some(t) = inline_target(own.kind) {
                assert(edge(v.classes, id, t));
                law_acyclic_means_no_cycle(v.classes, id, t);
            }
        } else {
            assert(nodes[j] == more[j - v.nodes(id).len()]);
        }
    }
    lemma_size_unaffected_list(v, id, nodes, nodes, v.classes.len());
    lemma_list_bytes_sum(v.classes, v.pointer_bytes, v.nodes(id), more, v.classes.len());
    assert(w.has(id) == v.has(id));
}

/// Bulk fields take exactly the bytes that were asked for.
proof fn lemma_byte_fields_size(cs: Seq<ClassV>, ptr: nat, off: nat, n: nat, k: int, fuel: nat)
    requires
        0 <= k <= n / 8 + n % 8,
    ensures
        list_bytes(cs, ptr, byte_fields(off, n).take(k), fuel) == if k <= n / 8 {
            8 * k
        } else {
            8 * (n / 8) + (k - n / 8)
        },
    decreases k,
{
    let all = byte_fields(off, n);
    if k == 0 {
        assert(all.take(0) =~= Seq::<NodeV>::empty());
    } else {
        lemma_byte_fields_size(cs, ptr, off, n, k - 1, fuel);
        assert(all.take(k).drop_last() =~= all.take(k - 1));
        assert(all.take(k).last() == all[k - 1]);
        assert(kind_bytes(cs, ptr, all[k - 1].kind, fuel) == if k - 1 < n / 8 {
            8nat
        } else {
            1
        });
    }
}

/// Growing a class by `n` bytes makes it exactly `n` bytes larger.
pub proof fn law_add_bytes_grows_class(v: RegistryV, id: ClassId, off: nat, n: nat)
    requires
        v.wf(),
        v.has(id),
        acyclic(v.classes),
    ensures
        pushed(v, id, byte_fields(off, n)).0.class_bytes(id) == v.class_bytes(id) + n,
{
    let more = byte_fields(off, n);
    assert(more.take(more.len() as int) =~= more);
    lemma_byte_fields_size(
        v.classes,
        v.pointer_bytes,
        off,
        n,
        more.len() as int,
        v.classes.len(),
    );
    law_push_grows_class(v, id, more);
}

} // verus!
