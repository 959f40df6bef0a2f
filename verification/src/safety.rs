//! What holds whatever is clicked: no action makes a class contain itself, what
//! an action changes can be undone, and a class added with all its fields is one
//! undo step.

use crate::app_state::AppV;
use crate::clipboard::{ordered, spliced};
use crate::cycles::{
    all_guarded, law_acyclic_means_no_cycle, law_change_kind_keeps_acyclic,
    law_delete_keeps_acyclic, law_removal_keeps_acyclic, law_splice_keeps_acyclic,
};
use crate::gui::{
    all_closed_up, all_opened_up, applicable, applied, array_pushed, array_resized, bytes_pushed,
    class_added, class_removed, class_renamed, edit_committed, expr_set, field_changed,
    field_deleted, field_inserted, field_pushed, owners, rename_started, row_collapsed,
    row_toggled, selected_removed, selection_deleted, target_made, view_closed, view_opened,
    view_selected, without_classes, ActionV, GuiV,
};
use crate::layout::{law_remove_class_keeps_acyclic, lemma_without_class_wf};
use crate::node::{inline_target, ClassId, NodeKind, NodeV};
use crate::palette::seed_fields;
use crate::registry::{
    acyclic, class_at, edge, lemma_place, lemma_put_wf, place, would_cycle, ClassV, RegistryV,
};
use crate::timeline::{
    law_add_class_keeps_acyclic, law_array_count_keeps_acyclic, law_delete_many_keeps_acyclic,
    law_expand_pointer_keeps_acyclic, law_kind_change_keeps_acyclic, law_push_keeps_acyclic,
    law_undo_reverses_edit,
};
use vstd::prelude::*;

verus! {

/// Another name or address of a class brings no cycle.
proof fn lemma_relabelled(v: RegistryV, c: ClassV)
    requires
        v.wf(),
        v.has(c.id),
        acyclic(v.classes),
        c.nodes == v.nodes(c.id),
    ensures
        acyclic(v.put(c).classes),
{
    let w = v.put(c);
    lemma_put_wf(v, c);
    assert forall|a: ClassId, b: ClassId| #[trigger] edge(w.classes, a, b) implies edge(
        v.classes,
        a,
        b,
    ) by {
        assert(w.has(a) == v.has(a));
        let i = place(w.classes, a);
        if a != c.id {
            let k = place(v.classes, a);
            assert(w.classes[k] == v.classes[k]) by {
                if k == place(v.classes, c.id) {
                    assert(v.classes[k].id == a);
                    assert(v.classes[k].id == c.id);
                }
            }
            lemma_place(w.classes, w.next_id, k);
        }
        assert(class_at(w.classes, a).nodes == class_at(v.classes, a).nodes);
        let j = choose|j: int|
            0 <= j < class_at(w.classes, a).nodes.len() && inline_target(
                (#[trigger] class_at(w.classes, a).nodes[j]).kind,
            ) == Some(b);
        assert(inline_target(class_at(v.classes, a).nodes[j].kind) == Some(b));
    }
    law_removal_keeps_acyclic(v.classes, w.classes);
}

/// Another name or comment of a field brings no cycle.
proof fn lemma_relabelled_field(v: RegistryV, id: ClassId, idx: int, n: NodeV)
    requires
        v.wf(),
        v.has(id),
        acyclic(v.classes),
        0 <= idx < v.nodes(id).len(),
        n.kind == v.nodes(id)[idx].kind,
    ensures
        acyclic(v.with_node(id, idx, n).classes),
{
    if let Some(t) = inline_target(n.kind) {
        assert(inline_target(class_at(v.classes, id).nodes[idx].kind) == Some(t));
        assert(edge(v.classes, id, t));
        law_acyclic_means_no_cycle(v.classes, id, t);
    }
    law_change_kind_keeps_acyclic(v, id, idx, n);
}

proof fn lemma_classes_removed(s: AppV, ids: Seq<ClassId>)
    requires
        s.project.registry.wf(),
        acyclic(s.project.registry.classes),
    ensures
        acyclic(without_classes(s, ids).project.registry.classes),
    decreases ids.len(),
{
    if ids.len() > 0 {
        lemma_without_class_wf(s.project.registry, ids[0]);
        law_remove_class_keeps_acyclic(s.project.registry, ids[0]);
        lemma_classes_removed(s.without_class(ids[0]), ids.skip(1));
    }
}

/// Whether the kind that an action stores in place, unguarded, brings no cycle.
pub open spec fn harmless(g: GuiV, a: ActionV) -> bool {
    let cs = g.state.project.registry.classes;
    match a {
        ActionV::PushNode(c, k) => !would_cycle(cs, c, k),
        ActionV::InsertAfter(c, i, k) => !would_cycle(cs, c, k),
        ActionV::AddClass => inline_target(g.settings.default_kind) is None,
        _ => true,
    }
}

proof fn lemma_add_class(g: GuiV)
    requires
        g.state.project.registry.wf(),
        acyclic(g.state.project.registry.classes),
        applicable(g, ActionV::AddClass),
        harmless(g, ActionV::AddClass),
    ensures
        acyclic(class_added(g).state.project.registry.classes),
{
    reveal(class_added);
    let v = g.state.project.registry;
    let name = crate::gui::next_class_name(g);
    law_add_class_keeps_acyclic(v, name);
    let made = v.with_class(name);
    let fields = seed_fields(g.settings.default_kind, g.settings.seed_rows as nat);
    assert(all_guarded(made.classes, v.next_id, fields));
    law_push_keeps_acyclic(made, v.next_id, fields);
}

proof fn lemma_insert(g: GuiV, c: ClassId, i: usize, k: NodeKind)
    requires
        g.state.project.registry.wf(),
        acyclic(g.state.project.registry.classes),
        i < usize::MAX,
        !would_cycle(g.state.project.registry.classes, c, k),
    ensures
        acyclic(field_inserted(g, c, i, k).state.project.registry.classes),
{
    reveal(field_inserted);
    let v = g.state.project.registry;
    let name = "field_"@ + crate::text::written(i as nat, 10, false);
    let n = crate::node::plain_node(name, k);
    if v.has(c) && i + 1 <= v.nodes(c).len() {
        assert(spliced(v.nodes(c), i + 1, seq![n]) =~= v.nodes(c).insert(i + 1, n));
        assert(all_guarded(v.classes, c, seq![n]));
        law_splice_keeps_acyclic(v, c, i + 1, seq![n]);
    }
}

proof fn lemma_bytes(g: GuiV, c: ClassId, n: usize)
    requires
        g.state.project.registry.wf(),
        acyclic(g.state.project.registry.classes),
    ensures
        acyclic(bytes_pushed(g, c, n).state.project.registry.classes),
{
    reveal(bytes_pushed);
    let v = g.state.project.registry;
    let fields = crate::edits::byte_fields(crate::node::capped(v.class_bytes(c)) as nat, n as nat);
    assert(all_guarded(v.classes, c, fields));
    law_push_keeps_acyclic(v, c, fields);
}

proof fn lemma_push(g: GuiV, c: ClassId, k: NodeKind)
    requires
        g.state.project.registry.wf(),
        acyclic(g.state.project.registry.classes),
        !would_cycle(g.state.project.registry.classes, c, k),
    ensures
        acyclic(field_pushed(g, c, k).state.project.registry.classes),
{
    reveal(field_pushed);
    let v = g.state.project.registry;
    let name = "field_"@ + crate::text::written(
        crate::node::capped(v.class_bytes(c)) as nat,
        16,
        false,
    );
    let more = seq![crate::node::plain_node(name, k)];
    assert(all_guarded(v.classes, c, more));
    law_push_keeps_acyclic(v, c, more);
}

proof fn lemma_array(g: GuiV, c: ClassId, k: NodeKind, n: usize)
    requires
        g.state.project.registry.wf(),
        acyclic(g.state.project.registry.classes),
    ensures
        acyclic(array_pushed(g, c, k, n).state.project.registry.classes),
{
    reveal(array_pushed);
    let v = g.state.project.registry;
    if !would_cycle(v.classes, c, k) {
        let kind = NodeKind::Array { element: Box::new(k), count: n };
        let name = crate::edits::array_name(crate::node::capped(v.class_bytes(c)) as nat);
        let more = seq![crate::node::plain_node(name, kind)];
        assert(inline_target(kind) == inline_target(k));
        assert(all_guarded(v.classes, c, more));
        law_push_keeps_acyclic(v, c, more);
    }
}

proof fn lemma_delete(g: GuiV, c: ClassId, i: usize)
    requires
        g.state.project.registry.wf(),
        acyclic(g.state.project.registry.classes),
    ensures
        acyclic(field_deleted(g, c, i).state.project.registry.classes),
{
    reveal(field_deleted);
    let v = g.state.project.registry;
    if v.has(c) && i < v.nodes(c).len() {
        law_delete_keeps_acyclic(v, c, i as int);
    }
}

proof fn lemma_commit(g: GuiV)
    requires
        g.state.project.registry.wf(),
        acyclic(g.state.project.registry.classes),
    ensures
        acyclic(edit_committed(g).0.state.project.registry.classes),
{
    reveal(edit_committed);
    let v = g.state.project.registry;
    match g.editing {
        Some(ed) => match g.state.selected_class() {
            Some(class) => match crate::walk::walked(v, class, ed.path) {
                Some(at) => {
                    let (owner, idx) = at.owner;
                    if v.has(owner) && idx < v.nodes(owner).len() {
                        let n = v.nodes(owner)[idx as int];
                        lemma_relabelled_field(
                            v,
                            owner,
                            idx as int,
                            NodeV { name: ed.buf, ..n },
                        );
                        lemma_relabelled_field(
                            v,
                            owner,
                            idx as int,
                            NodeV { comment: ed.buf, ..n },
                        );
                    }
                },
                None => {},
            },
            None => {},
        },
        None => {},
    }
}

proof fn lemma_labels(g: GuiV, c: ClassId, t: Seq<char>)
    requires
        g.state.project.registry.wf(),
        acyclic(g.state.project.registry.classes),
    ensures
        acyclic(expr_set(g, c, t).state.project.registry.classes),
        acyclic(class_renamed(g, c, t).state.project.registry.classes),
{
    reveal(expr_set);
    reveal(class_renamed);
    let v = g.state.project.registry;
    if v.has(c) {
        let k = class_at(v.classes, c);
        assert(k.id == c);
        lemma_relabelled(v, ClassV { address_expr: t, ..k });
        lemma_relabelled(v, ClassV { name: t, ..k });
    }
}

proof fn lemma_selected(g: GuiV)
    requires
        g.state.project.registry.wf(),
        acyclic(g.state.project.registry.classes),
    ensures
        acyclic(selection_deleted(g).state.project.registry.classes),
        acyclic(selected_removed(g).state.project.registry.classes),
{
    reveal(selection_deleted);
    reveal(selected_removed);
    let v = g.state.project.registry;
    match g.state.selected_class() {
        Some(class) => {
            law_delete_many_keeps_acyclic(v, ordered(owners(v, class, g.selected), true));
        },
        None => {},
    }
    lemma_classes_removed(g.state, g.selected_classes);
}

proof fn lemma_kinds(g: GuiV, c: ClassId, i: usize, k: NodeKind, n: usize)
    requires
        g.state.project.registry.wf(),
        acyclic(g.state.project.registry.classes),
    ensures
        acyclic(field_changed(g, c, i, k).state.project.registry.classes),
        acyclic(array_resized(g, c, i, n).state.project.registry.classes),
{
    reveal(field_changed);
    reveal(array_resized);
    law_kind_change_keeps_acyclic(g.state, c, i, k);
    law_array_count_keeps_acyclic(g.state.project.registry, c, i, n);
}

proof fn lemma_views(g: GuiV, c: ClassId, i: usize, root: usize, path: Seq<crate::node::PathSeg>)
    ensures
        view_opened(g, c).state.project.registry == g.state.project.registry,
        view_closed(g, i).state.project.registry == g.state.project.registry,
        view_selected(g, i).state.project.registry == g.state.project.registry,
        row_toggled(g, root, path).state.project.registry == g.state.project.registry,
        row_collapsed(g, root, path).state.project.registry == g.state.project.registry,
        rename_started(g, c).state.project.registry == g.state.project.registry,
        all_opened_up(g).state.project.registry == g.state.project.registry,
        all_closed_up(g).state.project.registry == g.state.project.registry,
{
    reveal(view_opened);
    reveal(view_closed);
    reveal(view_selected);
    reveal(row_toggled);
    reveal(row_collapsed);
    reveal(rename_started);
    reveal(all_opened_up);
    reveal(all_closed_up);
}

proof fn lemma_target(
    g: GuiV,
    owner: ClassId,
    idx: usize,
    root: usize,
    path: Seq<crate::node::PathSeg>,
)
    requires
        g.state.project.registry.wf(),
        acyclic(g.state.project.registry.classes),
        g.state.project.registry.next_id < u32::MAX,
    ensures
        acyclic(target_made(g, owner, idx, root, path).state.project.registry.classes),
{
    reveal(target_made);
    law_expand_pointer_keeps_acyclic(g.state.project.registry, owner, idx);
}

proof fn lemma_class_gone(g: GuiV, c: ClassId)
    requires
        g.state.project.registry.wf(),
        acyclic(g.state.project.registry.classes),
    ensures
        acyclic(class_removed(g, c).state.project.registry.classes),
{
    reveal(class_removed);
    law_remove_class_keeps_acyclic(g.state.project.registry, c);
}

/// No action makes a class contain itself, directly or through others. Kinds
/// stored in place without a guard must be harmless themselves, as every entry
/// of the toolbar's menus is.
pub proof fn law_actions_keep_acyclic(g: GuiV, a: ActionV)
    requires
        g.state.project.registry.wf(),
        acyclic(g.state.project.registry.classes),
        applicable(g, a),
        harmless(g, a),
    ensures
        acyclic(applied(g, a).0.state.project.registry.classes),
{
    match a {
        ActionV::AddClass => lemma_add_class(g),
        ActionV::OpenView(c) => lemma_views(g, c, 0, 0, Seq::empty()),
        ActionV::CloseView(i) => lemma_views(g, 0, i, 0, Seq::empty()),
        ActionV::SelectView(i) => lemma_views(g, 0, i, 0, Seq::empty()),
        ActionV::SetExpr(c, e) => lemma_labels(g, c, e),
        ActionV::Toggle(r, p) => lemma_views(g, 0, 0, r, p),
        ActionV::ToggleCollapse(r, p) => lemma_views(g, 0, 0, r, p),
        ActionV::ExpandPointer { owner, idx, root, path } => lemma_target(
            g,
            owner,
            idx,
            root,
            path,
        ),
        ActionV::CommitEdit => lemma_commit(g),
        ActionV::RenameClass(c, n) => lemma_labels(g, c, n),
        ActionV::StartRenameClass(c) => lemma_views(g, c, 0, 0, Seq::empty()),
        ActionV::RemoveClass(c) => lemma_class_gone(g, c),
        ActionV::RemoveSelectedClasses => lemma_selected(g),
        ActionV::PushNode(c, k) => lemma_push(g, c, k),
        ActionV::AddBytes(c, n) => lemma_bytes(g, c, n),
        ActionV::AddArray(c, k, n) => lemma_array(g, c, k, n),
        ActionV::InsertAfter(c, i, k) => lemma_insert(g, c, i, k),
        ActionV::DeleteNode(c, i) => lemma_delete(g, c, i),
        ActionV::DeleteSelected => lemma_selected(g),
        ActionV::ChangeKind(c, i, k) => lemma_kinds(g, c, i, k, 0),
        ActionV::SetArrayCount(c, i, n) => lemma_kinds(g, c, i, NodeKind::Bool, n),
        ActionV::ExpandAll => lemma_views(g, 0, 0, 0, Seq::empty()),
        ActionV::CollapseAll => lemma_views(g, 0, 0, 0, Seq::empty()),
        _ => {},
    }
}

/// A class added with all the fields that it is seeded with is one undo step:
/// undoing it gives back the project before it.
pub proof fn law_seeded_class_is_one_step(g: GuiV)
    ensures
        class_added(g).state.history == g.state.snapped().history,
        class_added(g).state.undone().project == g.state.project,
{
    reveal(class_added);
    law_undo_reverses_edit(g.state, class_added(g).state);
}

/// Where the classes changed, the project before was recorded.
proof fn lemma_recorded_classes(g: GuiV, c: ClassId, e: Seq<char>)
    ensures
        ({
            let s = expr_set(g, c, e).state;
            s.project.registry != g.state.project.registry ==> s.history
                == g.state.snapped().history
        }),
        ({
            let s = class_renamed(g, c, e).state;
            s.project.registry != g.state.project.registry ==> s.history
                == g.state.snapped().history
        }),
        ({
            let s = class_removed(g, c).state;
            s.project.registry != g.state.project.registry ==> s.history
                == g.state.snapped().history
        }),
        class_added(g).state.history == g.state.snapped().history,
{
    reveal(expr_set);
    reveal(class_renamed);
    reveal(class_removed);
    reveal(class_added);
}

/// Where the fields changed, the project before was recorded.
proof fn lemma_recorded_fields(g: GuiV, c: ClassId, i: usize, k: NodeKind, n: usize)
    ensures
        ({
            let s = field_pushed(g, c, k).state;
            s.project.registry != g.state.project.registry ==> s.history
                == g.state.snapped().history
        }),
        ({
            let s = bytes_pushed(g, c, n).state;
            s.project.registry != g.state.project.registry ==> s.history
                == g.state.snapped().history
        }),
        ({
            let s = array_pushed(g, c, k, n).state;
            s.project.registry != g.state.project.registry ==> s.history
                == g.state.snapped().history
        }),
        ({
            let s = field_inserted(g, c, i, k).state;
            s.project.registry != g.state.project.registry ==> s.history
                == g.state.snapped().history
        }),
        ({
            let s = field_deleted(g, c, i).state;
            s.project.registry != g.state.project.registry ==> s.history
                == g.state.snapped().history
        }),
        ({
            let s = field_changed(g, c, i, k).state;
            s.project.registry != g.state.project.registry ==> s.history
                == g.state.snapped().history
        }),
        ({
            let s = array_resized(g, c, i, n).state;
            s.project.registry != g.state.project.registry ==> s.history
                == g.state.snapped().history
        }),
{
    reveal(field_pushed);
    reveal(bytes_pushed);
    reveal(array_pushed);
    reveal(field_inserted);
    reveal(field_deleted);
    reveal(field_changed);
    reveal(array_resized);
}

/// Whatever changes the classes can be undone: undo gives back the project
/// before the action. Removing the selected classes is left out, being a step
/// for each class.
pub proof fn law_actions_can_be_undone(g: GuiV, a: ActionV)
    requires
        !(a is RemoveSelectedClasses),
        applied(g, a).0.state.project.registry != g.state.project.registry,
    ensures
        applied(g, a).0.state.undone().project == g.state.project,
{
    let after = applied(g, a).0.state;
    match a {
        ActionV::AddClass => lemma_recorded_classes(g, 0, Seq::empty()),
        ActionV::OpenView(c) => lemma_views(g, c, 0, 0, Seq::empty()),
        ActionV::CloseView(i) => lemma_views(g, 0, i, 0, Seq::empty()),
        ActionV::SelectView(i) => lemma_views(g, 0, i, 0, Seq::empty()),
        ActionV::SetExpr(c, e) => lemma_recorded_classes(g, c, e),
        ActionV::Toggle(r, p) => lemma_views(g, 0, 0, r, p),
        ActionV::ToggleCollapse(r, p) => lemma_views(g, 0, 0, r, p),
        ActionV::ExpandPointer { owner, idx, root, path } => {
            reveal(target_made);
        },
        ActionV::CommitEdit => {
            reveal(edit_committed);
        },
        ActionV::RenameClass(c, n) => lemma_recorded_classes(g, c, n),
        ActionV::StartRenameClass(c) => lemma_views(g, c, 0, 0, Seq::empty()),
        ActionV::RemoveClass(c) => lemma_recorded_classes(g, c, Seq::empty()),
        ActionV::PushNode(c, k) => lemma_recorded_fields(g, c, 0, k, 0),
        ActionV::AddBytes(c, n) => lemma_recorded_fields(g, c, 0, NodeKind::Bool, n),
        ActionV::AddArray(c, k, n) => lemma_recorded_fields(g, c, 0, k, n),
        ActionV::InsertAfter(c, i, k) => lemma_recorded_fields(g, c, i, k, 0),
        ActionV::DeleteNode(c, i) => lemma_recorded_fields(g, c, i, NodeKind::Bool, 0),
        ActionV::DeleteSelected => {
            reveal(selection_deleted);
        },
        ActionV::ChangeKind(c, i, k) => lemma_recorded_fields(g, c, i, k, 0),
        ActionV::SetArrayCount(c, i, n) => lemma_recorded_fields(g, c, i, NodeKind::Bool, n),
        ActionV::ExpandAll => lemma_views(g, 0, 0, 0, Seq::empty()),
        ActionV::CollapseAll => lemma_views(g, 0, 0, 0, Seq::empty()),
        _ => {},
    }
    law_undo_reverses_edit(g.state, after);
}

/// Deleting the selected rows is one undo step.
pub proof fn law_selection_delete_is_one_step(g: GuiV)
    requires
        g.state.selected_class() is Some,
    ensures
        selection_deleted(g).state.history == g.state.snapped().history,
        selection_deleted(g).state.undone().project == g.state.project,
        selection_deleted(g).selected.len() == 0,
{
    reveal(selection_deleted);
    law_undo_reverses_edit(g.state, selection_deleted(g).state);
}

} // verus!
