//! What the actions of the desktop front-end come to: what an action names
//! changes as asked, and everything else stays as it was.

use crate::app_state::{law_closed_view_is_gone, law_opened_class_is_shown, AppV};
use crate::clipboard::{
    deleted, kept, law_delete_many_removes_exactly, numbers_of, ordered, Target,
};
use crate::edits::{auto_name, word_fields};
use crate::effects::{
    law_removed_class_is_gone, lemma_class_set, lemma_field_set, lemma_other_fields,
    same_but_class, same_but_classes, same_but_field, same_but_fields,
};
use crate::gui::{
    applied, array_pushed, array_resized, bytes_pushed, class_added, class_removed, class_renamed,
    edit_committed, expr_set, field_changed, field_deleted, field_inserted, field_pushed,
    next_class_name, owners, rename_started, row_collapsed, row_toggled, selected_removed, selection_deleted,
    target_made, view_closed, view_opened, view_selected, without_classes, ActionV, EditField, EditingV, EffectV,
    GuiV,
};
use crate::node::{ClassId, IntWidth, NodeKind, NodeV, PathSeg};
use crate::palette::seed_fields;
use crate::registry::{class_at, lemma_place, place, would_cycle, ClassV, RegistryV};
use crate::walk::walked;
use vstd::prelude::*;

verus! {

/// Nothing but the project state differs between `g` and `h`.
pub open spec fn same_but_state(g: GuiV, h: GuiV) -> bool {
    h == (GuiV { state: h.state, ..g })
}

/// Nothing but the project's classes, and what can be undone, differs between
/// `g` and `h`.
pub open spec fn same_but_its_classes(g: GuiV, h: GuiV) -> bool {
    same_but_state(g, h) && same_but_classes(g.state, h.state)
}

// ---------------------------------------------------------------------------
// Editing in place
// ---------------------------------------------------------------------------

/// Committing an edited name or comment gives exactly the field behind the row
/// that name or comment, wherever the row lies: in the class shown, behind a
/// pointer, in an instance or in an array. Its kind and the other text stay, and
/// so does everything else; the editor closes. An edited value is to be written
/// to that row, and changes no class.
pub proof fn law_committed_edit_reaches_its_field(
    g: GuiV,
    ed: EditingV,
    class: ClassId,
    c: ClassId,
    i: usize,
)
    requires
        g.state.wf(),
        g.editing == Some(ed),
        g.state.selected_class() == Some(class),
        walked(g.state.project.registry, class, ed.path) matches Some(at) && at.owner == (c, i),
        g.state.project.registry.has(c),
        i < g.state.project.registry.nodes(c).len(),
    ensures
        ({
            let v = g.state.project.registry;
            let (h, effect) = applied(g, ActionV::CommitEdit);
            let w = h.state.project.registry;
            let n = v.nodes(c)[i as int];
            let m = w.nodes(c)[i as int];
            &&& h.editing is None
            &&& same_but_its_classes(GuiV { editing: None, ..g }, h)
            &&& ed.field == EditField::Name ==> {
                &&& effect == EffectV::Nothing
                &&& m.name == ed.buf && m.comment == n.comment && m.kind == n.kind
                &&& same_but_field(v, w, c, i as int)
            }
            &&& ed.field == EditField::Comment ==> {
                &&& effect == EffectV::Nothing
                &&& m.comment == ed.buf && m.name == n.name && m.kind == n.kind
                &&& same_but_field(v, w, c, i as int)
            }
            &&& ed.field == EditField::Value ==> {
                &&& effect == (EffectV::Write { root: ed.root, path: ed.path, text: ed.buf })
                &&& h.state == g.state
            }
        }),
{
    reveal(edit_committed);
    let v = g.state.project.registry;
    lemma_field_set(v, c, i, NodeV { name: ed.buf, ..v.nodes(c)[i as int] });
    lemma_field_set(v, c, i, NodeV { comment: ed.buf, ..v.nodes(c)[i as int] });
}

/// Committing an editor whose row leads to no field, or none at all, closes it
/// and does nothing else; so does cancelling any.
pub proof fn law_pointless_edit_only_closes(g: GuiV)
    ensures
        g.editing is None || g.state.selected_class() is None || (walked(
            g.state.project.registry,
            g.state.selected_class()->0,
            (g.editing->0).path,
        ) is None) ==> applied(g, ActionV::CommitEdit) == (
            GuiV { editing: None, ..g },
            EffectV::Nothing,
        ),
        applied(g, ActionV::CancelEdit) == (GuiV { editing: None, ..g }, EffectV::Nothing),
{
    reveal(edit_committed);
}

/// An editor opens on the row, the text and the content that it is started with,
/// and changes nothing yet.
pub proof fn law_editor_opens_as_asked(
    g: GuiV,
    root: usize,
    path: Seq<PathSeg>,
    field: EditField,
    buf: Seq<char>,
)
    ensures
        ({
            let (h, effect) = applied(g, ActionV::StartEdit(root, path, field, buf));
            &&& effect == EffectV::Nothing
            &&& h.state == g.state
            &&& h.selected == g.selected
            &&& h.editing matches Some(ed) && ed.root == root && ed.path == path && ed.field == field
                && ed.buf == buf && !ed.focused
        }),
{
}

// ---------------------------------------------------------------------------
// Fields
// ---------------------------------------------------------------------------

/// Changing a kind changes that of the field named and nothing else. A kind that
/// would make a class contain itself is refused with a message, and so is a
/// field that does not exist; then no class changes.
pub proof fn law_kind_changes_of_one_field(g: GuiV, c: ClassId, i: usize, k: NodeKind)
    requires
        g.state.wf(),
    ensures
        ({
            let v = g.state.project.registry;
            let (h, effect) = applied(g, ActionV::ChangeKind(c, i, k));
            let w = h.state.project.registry;
            let good = v.has(c) && i < v.nodes(c).len() && !would_cycle(v.classes, c, k);
            &&& effect == EffectV::Nothing
            &&& good ==> {
                &&& same_but_its_classes(g, h)
                &&& same_but_field(v, w, c, i as int)
                &&& w.nodes(c)[i as int].kind == k
                &&& w.nodes(c)[i as int].name == v.nodes(c)[i as int].name
                &&& w.nodes(c)[i as int].comment == v.nodes(c)[i as int].comment
            }
            &&& !good ==> w == v && h.error is Some
        }),
{
    reveal(field_changed);
    let v = g.state.project.registry;
    lemma_field_set(v, c, i, NodeV { kind: k, ..v.nodes(c)[i as int] });
}

/// Setting an element count sets that of the array named and nothing else;
/// without such an array no class changes.
pub proof fn law_count_changes_of_one_array(g: GuiV, c: ClassId, i: usize, n: usize)
    requires
        g.state.wf(),
    ensures
        ({
            let v = g.state.project.registry;
            let (h, effect) = applied(g, ActionV::SetArrayCount(c, i, n));
            let w = h.state.project.registry;
            let good = v.has(c) && i < v.nodes(c).len() && v.nodes(c)[i as int].kind is Array;
            &&& effect == EffectV::Nothing
            &&& same_but_its_classes(g, h)
            &&& good ==> {
                &&& same_but_field(v, w, c, i as int)
                &&& w.nodes(c)[i as int].kind == (NodeKind::Array {
                    element: v.nodes(c)[i as int].kind->element,
                    count: n,
                })
                &&& w.nodes(c)[i as int].name == v.nodes(c)[i as int].name
                &&& w.nodes(c)[i as int].comment == v.nodes(c)[i as int].comment
            }
            &&& !good ==> w == v
        }),
{
    reveal(array_resized);
    let v = g.state.project.registry;
    let m = v.nodes(c)[i as int];
    lemma_field_set(
        v,
        c,
        i,
        NodeV { kind: NodeKind::Array { element: m.kind->element, count: n }, ..m },
    );
}

/// Deleting a field takes out the one named: those before it stay, those behind
/// it move up, and everything else stays.
pub proof fn law_deleting_takes_out_one_field(g: GuiV, c: ClassId, i: usize)
    requires
        g.state.wf(),
    ensures
        ({
            let v = g.state.project.registry;
            let (h, effect) = applied(g, ActionV::DeleteNode(c, i));
            let w = h.state.project.registry;
            let good = v.has(c) && i < v.nodes(c).len();
            &&& effect == EffectV::Nothing
            &&& same_but_its_classes(g, h)
            &&& good ==> {
                &&& same_but_fields(v, w, c)
                &&& w.nodes(c).len() == v.nodes(c).len() - 1
                &&& forall|j: int| 0 <= j < i ==> #[trigger] w.nodes(c)[j] == v.nodes(c)[j]
                &&& forall|j: int|
                    i <= j < w.nodes(c).len() ==> #[trigger] w.nodes(c)[j] == v.nodes(c)[j + 1]
            }
            &&& !good ==> w == v
        }),
{
    reveal(field_deleted);
    let v = g.state.project.registry;
    if v.has(c) && i < v.nodes(c).len() {
        lemma_other_fields(v, c, v.nodes(c).remove(i as int));
    }
}

/// A field inserted below another one comes right behind it, with the kind asked
/// for and no comment; those further down move, and everything else stays.
pub proof fn law_inserted_field_comes_next(g: GuiV, c: ClassId, i: usize, k: NodeKind)
    requires
        g.state.wf(),
        g.state.project.registry.has(c),
        i < g.state.project.registry.nodes(c).len() < usize::MAX,
    ensures
        ({
            let v = g.state.project.registry;
            let (h, effect) = applied(g, ActionV::InsertAfter(c, i, k));
            let w = h.state.project.registry;
            &&& effect == EffectV::Nothing
            &&& same_but_its_classes(g, h)
            &&& same_but_fields(v, w, c)
            &&& w.nodes(c).len() == v.nodes(c).len() + 1
            &&& w.nodes(c)[i + 1].kind == k
            &&& w.nodes(c)[i + 1].comment.len() == 0
            &&& forall|j: int| 0 <= j <= i ==> #[trigger] w.nodes(c)[j] == v.nodes(c)[j]
            &&& forall|j: int|
                i + 1 < j < w.nodes(c).len() ==> #[trigger] w.nodes(c)[j] == v.nodes(c)[j - 1]
        }),
{
    reveal(field_inserted);
    let v = g.state.project.registry;
    let name = "field_"@ + crate::text::written(i as nat, 10, false);
    lemma_other_fields(v, c, v.nodes(c).insert(i + 1, crate::node::plain_node(name, k)));
}

/// A field appended comes behind all others, with the kind asked for; its name
/// tells the offset at which it begins, the bytes of the class before. An array
/// appended has so many elements of the kind asked for, unless that would make
/// the class contain itself. Everything else stays.
pub proof fn law_appended_fields_come_last(g: GuiV, c: ClassId, k: NodeKind, n: usize)
    requires
        g.state.wf(),
        g.state.project.registry.has(c),
    ensures
        ({
            let v = g.state.project.registry;
            let (h, effect) = applied(g, ActionV::PushNode(c, k));
            let w = h.state.project.registry;
            let last = v.nodes(c).len() as int;
            &&& effect == EffectV::Nothing
            &&& same_but_its_classes(g, h)
            &&& same_but_fields(v, w, c)
            &&& w.nodes(c).len() == last + 1
            &&& w.nodes(c)[last].kind == k
            &&& w.nodes(c)[last].comment.len() == 0
            &&& v.class_bytes(c) <= usize::MAX ==> w.nodes(c)[last].name == "field_"@
                + crate::text::written(v.class_bytes(c), 16, false)
            &&& forall|j: int| 0 <= j < last ==> #[trigger] w.nodes(c)[j] == v.nodes(c)[j]
        }),
        ({
            let v = g.state.project.registry;
            let (h, effect) = applied(g, ActionV::AddArray(c, k, n));
            let w = h.state.project.registry;
            let last = v.nodes(c).len() as int;
            &&& effect == EffectV::Nothing
            &&& would_cycle(v.classes, c, k) ==> h.state == g.state && h.error is Some
            &&& !would_cycle(v.classes, c, k) ==> {
                &&& same_but_its_classes(g, h)
                &&& same_but_fields(v, w, c)
                &&& w.nodes(c).len() == last + 1
                &&& w.nodes(c)[last].kind == (NodeKind::Array { element: Box::new(k), count: n })
                &&& w.nodes(c)[last].comment.len() == 0
                &&& forall|j: int| 0 <= j < last ==> #[trigger] w.nodes(c)[j] == v.nodes(c)[j]
            }
        }),
{
    reveal(field_pushed);
    reveal(array_pushed);
    let v = g.state.project.registry;
    let off = crate::node::capped(v.class_bytes(c)) as nat;
    let name = "field_"@ + crate::text::written(off, 16, false);
    lemma_other_fields(v, c, v.nodes(c) + seq![crate::node::plain_node(name, k)]);
    let array = crate::node::plain_node(
        crate::edits::array_name(off),
        NodeKind::Array { element: Box::new(k), count: n },
    );
    lemma_other_fields(v, c, v.nodes(c) + seq![array]);
}

/// Bytes are appended as eight-byte fields, as many as fit, and one-byte ones;
/// everything else stays.
pub proof fn law_appended_bytes_come_last(g: GuiV, c: ClassId, n: usize)
    requires
        g.state.wf(),
        g.state.project.registry.has(c),
    ensures
        ({
            let v = g.state.project.registry;
            let (h, effect) = applied(g, ActionV::AddBytes(c, n));
            let w = h.state.project.registry;
            let last = v.nodes(c).len() as int;
            &&& effect == EffectV::Nothing
            &&& same_but_its_classes(g, h)
            &&& same_but_fields(v, w, c)
            &&& w.nodes(c).len() == last + n / 8 + n % 8
            &&& forall|j: int| 0 <= j < last ==> #[trigger] w.nodes(c)[j] == v.nodes(c)[j]
            &&& forall|j: int|
                last <= j < last + n / 8 ==> (#[trigger] w.nodes(c)[j]).kind == NodeKind::Hex(
                    IntWidth::W64,
                )
            &&& forall|j: int|
                last + n / 8 <= j < w.nodes(c).len() ==> (#[trigger] w.nodes(c)[j]).kind
                    == NodeKind::Hex(IntWidth::W8)
        }),
{
    reveal(bytes_pushed);
    let v = g.state.project.registry;
    let off = crate::node::capped(v.class_bytes(c)) as nat;
    lemma_other_fields(v, c, v.nodes(c) + crate::edits::byte_fields(off, n as nat));
}

// ---------------------------------------------------------------------------
// Classes and views
// ---------------------------------------------------------------------------

/// Renaming a class, or giving it another address expression, changes that of
/// the class named and nothing else.
pub proof fn law_class_texts_change_alone(g: GuiV, c: ClassId, text: Seq<char>)
    requires
        g.state.wf(),
        g.state.project.registry.has(c),
    ensures
        ({
            let v = g.state.project.registry;
            let (h, effect) = applied(g, ActionV::RenameClass(c, text));
            let w = h.state.project.registry;
            &&& effect == EffectV::Nothing
            &&& same_but_its_classes(g, h)
            &&& same_but_class(v, w, c)
            &&& class_at(w.classes, c).name == text
            &&& class_at(w.classes, c).address_expr == class_at(v.classes, c).address_expr
            &&& w.nodes(c) == v.nodes(c)
        }),
        ({
            let v = g.state.project.registry;
            let (h, effect) = applied(g, ActionV::SetExpr(c, text));
            let w = h.state.project.registry;
            &&& effect == EffectV::Nothing
            &&& same_but_its_classes(g, h)
            &&& same_but_class(v, w, c)
            &&& class_at(w.classes, c).address_expr == text
            &&& class_at(w.classes, c).name == class_at(v.classes, c).name
            &&& w.nodes(c) == v.nodes(c)
        }),
{
    reveal(class_renamed);
    reveal(expr_set);
    let v = g.state.project.registry;
    let k = place(v.classes, c);
    assert(v.classes[k].id == c);
    lemma_class_set(v, c, ClassV { name: text, ..class_at(v.classes, c) });
    lemma_class_set(v, c, ClassV { address_expr: text, ..class_at(v.classes, c) });
}

/// The rename editor of a class starts with its name and changes no class; it
/// closes without a trace.
pub proof fn law_rename_starts_with_the_name(g: GuiV, c: ClassId)
    ensures
        ({
            let h = applied(g, ActionV::StartRenameClass(c)).0;
            &&& h.state == g.state
            &&& h.renaming_class matches Some(r) && r.id == c && !r.focused && (
            g.state.project.registry.has(c) ==> r.buf == class_at(
                g.state.project.registry.classes,
                c,
            ).name)
        }),
        applied(g, ActionV::EndRenameClass).0.renaming_class is None,
        applied(g, ActionV::EndRenameClass).0.state == g.state,
{
    reveal(rename_started);
}

/// Removing a class removes it and no other, and takes it off the selected
/// classes; the row selection, which may lead into it, is dropped.
pub proof fn law_removing_takes_out_one_class(g: GuiV, c: ClassId, k: int)
    requires
        g.state.wf(),
        g.state.project.registry.has(c),
    ensures
        ({
            let v = g.state.project.registry;
            let (h, effect) = applied(g, ActionV::RemoveClass(c));
            let w = h.state.project.registry;
            &&& effect == EffectV::Nothing
            &&& !w.has(c)
            &&& w.classes.len() == v.classes.len() - 1
            &&& 0 <= k < w.classes.len() ==> {
                let from = if v.classes[k].id < c {
                    v.classes[k]
                } else {
                    v.classes[k + 1]
                };
                &&& w.classes[k].id == from.id
                &&& w.classes[k].name == from.name
                &&& w.classes[k].nodes.len() == from.nodes.len()
            }
            &&& !h.selected_classes.contains(c)
            &&& forall|x: ClassId|
                x != c ==> #[trigger] h.selected_classes.contains(x)
                    == g.selected_classes.contains(x)
            &&& h.selected.len() == 0
        }),
{
    reveal(class_removed);
    law_removed_class_is_gone(g.state.project.registry, c, k, 0);
    lemma_without_item(g.selected_classes, c);
}

/// What is left without an item is everything else.
proof fn lemma_without_item(s: Seq<ClassId>, x: ClassId)
    ensures
        !crate::selection::without_item(s, x).contains(x),
        forall|y: ClassId|
            y != x ==> #[trigger] crate::selection::without_item(s, x).contains(y) == s.contains(y),
    decreases s.len(),
{
    let r = crate::selection::without_item(s, x);
    if s.len() > 0 {
        let head = s.drop_last();
        let kept = crate::selection::without_item(head, x);
        lemma_without_item(head, x);
        if r.contains(x) {
            let k = choose|k: int| 0 <= k < r.len() && r[k] == x;
            assert(kept[k] == x);
        }
        assert forall|y: ClassId| y != x implies #[trigger] r.contains(y) == s.contains(y) by {
            if s.contains(y) {
                let k = choose|k: int| 0 <= k < s.len() && s[k] == y;
                if k < head.len() {
                    assert(head[k] == y);
                    assert(kept.contains(y));
                    let m = choose|m: int| 0 <= m < kept.len() && kept[m] == y;
                    assert(r[m] == y);
                } else {
                    assert(r[r.len() - 1] == y);
                }
            }
            if r.contains(y) {
                let m = choose|m: int| 0 <= m < r.len() && r[m] == y;
                if m < kept.len() {
                    assert(kept[m] == y);
                    assert(kept.contains(y));
                    let k = choose|k: int| 0 <= k < head.len() && head[k] == y;
                    assert(s[k] == y);
                } else {
                    assert(s[s.len() - 1] == y);
                }
            }
        }
    }
}

/// Opening a class shows it; selecting a view shows that view; closing one takes
/// it away and no other. None of them changes a class.
pub proof fn law_views_open_and_close(g: GuiV, c: ClassId, i: usize)
    requires
        g.state.wf(),
    ensures
        applied(g, ActionV::OpenView(c)).0.state.selected_class() == Some(c),
        applied(g, ActionV::OpenView(c)).0.state.project.registry == g.state.project.registry,
        g.state.project.views.contains(c) ==> applied(g, ActionV::OpenView(c)).0.state.project.views
            == g.state.project.views,
        applied(g, ActionV::SelectView(i)).0.state == (AppV { selected_view: i as int, ..g.state }),
        applied(g, ActionV::SelectView(i)).0.selected.len() == 0,
        applied(g, ActionV::CloseView(i)).0.state.project.registry == g.state.project.registry,
        i < g.state.project.views.len() ==> ({
            let h = applied(g, ActionV::CloseView(i)).0;
            &&& h.state.project.views.len() == g.state.project.views.len() - 1
            &&& forall|k: int|
                0 <= k < i ==> #[trigger] h.state.project.views[k] == g.state.project.views[k]
            &&& forall|k: int|
                i <= k < h.state.project.views.len() ==> #[trigger] h.state.project.views[k]
                    == g.state.project.views[k + 1]
            &&& h.selected.len() == 0
        }),
{
    reveal(view_opened);
    reveal(view_selected);
    reveal(view_closed);
    law_opened_class_is_shown(g.state, c);
    law_closed_view_is_gone(g.state, i as int);
}

/// Toggling a row opens it if it was shut and shuts it if it was open, and
/// touches no other row and no class.
pub proof fn law_toggling_turns_one_row(g: GuiV, root: usize, path: Seq<PathSeg>)
    ensures
        ({
            let spot = (root as int, path);
            let h = applied(g, ActionV::Toggle(root, path)).0;
            let was = g.state.expand.expanded;
            let is = h.state.expand.expanded;
            &&& is.contains(spot) == !was.contains(spot)
            &&& forall|x: (int, Seq<PathSeg>)|
                x != spot ==> #[trigger] is.contains(x) == was.contains(x)
            &&& h.state.expand.collapsed == g.state.expand.collapsed
            &&& h.state.project == g.state.project
            &&& same_but_state(g, h)
        }),
        ({
            let spot = (root as int, path);
            let h = applied(g, ActionV::ToggleCollapse(root, path)).0;
            let was = g.state.expand.collapsed;
            let is = h.state.expand.collapsed;
            &&& is.contains(spot) == !was.contains(spot)
            &&& forall|x: (int, Seq<PathSeg>)|
                x != spot ==> #[trigger] is.contains(x) == was.contains(x)
            &&& h.state.expand.expanded == g.state.expand.expanded
            &&& h.state.project == g.state.project
            &&& same_but_state(g, h)
        }),
{
    reveal(row_toggled);
    reveal(row_collapsed);
}

/// Work outside is asked for as it was: the process to attach to, the file to
/// save to or to load, the directory to generate into. Nothing changes before it
/// is done.
pub proof fn law_outside_work_is_passed_on(g: GuiV, pid: i32, path: Seq<char>)
    ensures
        applied(g, ActionV::AttachPid(pid)) == (g, EffectV::Attach(pid)),
        applied(g, ActionV::RefreshRegions) == (g, EffectV::Refresh),
        applied(g, ActionV::Save(path)) == (g, EffectV::Save(path)),
        applied(g, ActionV::Load(path)) == (g, EffectV::Load(path)),
        applied(g, ActionV::GenerateProject(path)) == (g, EffectV::Generate(path)),
{
}

// ---------------------------------------------------------------------------
// Several at once
// ---------------------------------------------------------------------------

/// The fields behind the selected rows are those that a selected row leads to.
proof fn lemma_owners(v: RegistryV, class: ClassId, paths: Seq<Seq<PathSeg>>, t: Target)
    ensures
        owners(v, class, paths).contains(t) <==> exists|k: int|
            0 <= k < paths.len() && (walked(v, class, #[trigger] paths[k]) matches Some(at)
                && at.owner == t),
    decreases paths.len(),
{
    if paths.len() > 0 {
        let head = paths.drop_last();
        let n = paths.len() - 1;
        lemma_owners(v, class, head, t);
        let a = owners(v, class, head);
        let b = owners(v, class, paths);
        if b.contains(t) {
            let k = choose|k: int| 0 <= k < b.len() && b[k] == t;
            if k < a.len() {
                assert(a[k] == t);
                let m = choose|m: int|
                    0 <= m < head.len() && (walked(v, class, #[trigger] head[m]) matches Some(at)
                        && at.owner == t);
                assert(paths[m] == head[m]);
            } else {
                assert(paths[n] == paths.last());
            }
        }
        if exists|k: int|
            0 <= k < paths.len() && (walked(v, class, #[trigger] paths[k]) matches Some(at)
                && at.owner == t) {
            let k = choose|k: int|
                0 <= k < paths.len() && (walked(v, class, #[trigger] paths[k]) matches Some(at)
                    && at.owner == t);
            if k < n {
                assert(head[k] == paths[k]);
                assert(a.contains(t));
                let m = choose|m: int| 0 <= m < a.len() && a[m] == t;
                assert(b[m] == t);
            } else {
                assert(b[a.len() as int] == t);
            }
        }
    }
}

/// Deleting fields leaves every class where it is, under its id and name and
/// with its address expression.
proof fn lemma_deleting_keeps_classes(v: RegistryV, ts: Seq<Target>)
    requires
        v.wf(),
    ensures
        deleted(v, ts).0.wf(),
        deleted(v, ts).0.classes.len() == v.classes.len(),
        deleted(v, ts).0.next_id == v.next_id,
        deleted(v, ts).0.pointer_bytes == v.pointer_bytes,
        forall|k: int|
            0 <= k < v.classes.len() ==> {
                let c = #[trigger] deleted(v, ts).0.classes[k];
                c.id == v.classes[k].id && c.name == v.classes[k].name && c.address_expr
                    == v.classes[k].address_expr
            },
    decreases ts.len(),
{
    if ts.len() > 0 {
        lemma_deleting_keeps_classes(v, ts.drop_last());
        let w = deleted(v, ts.drop_last()).0;
        let t = ts.last();
        if w.has(t.0) && t.1 < w.nodes(t.0).len() {
            lemma_other_fields(w, t.0, w.nodes(t.0).remove(t.1 as int));
        }
    }
}

/// Deleting the selected rows deletes exactly the fields behind them, wherever
/// these lie, and drops the selection. Every class keeps its other fields, in
/// their order; no class comes, goes or is renamed, and no view changes.
pub proof fn law_selected_rows_are_deleted(g: GuiV, class: ClassId, c: ClassId)
    requires
        g.state.wf(),
        g.state.selected_class() == Some(class),
        g.state.project.registry.has(c),
    ensures
        ({
            let v = g.state.project.registry;
            let (h, effect) = applied(g, ActionV::DeleteSelected);
            let w = h.state.project.registry;
            let gone = Set::new(
                |i: int|
                    exists|k: int|
                        0 <= k < g.selected.len() && (walked(
                            v,
                            class,
                            #[trigger] g.selected[k],
                        ) matches Some(at) && at.owner.0 == c && at.owner.1 == i),
            );
            &&& effect == EffectV::Nothing
            &&& w.nodes(c) == kept(v.nodes(c), gone)
            &&& w.classes.len() == v.classes.len()
            &&& forall|k: int|
                0 <= k < v.classes.len() ==> {
                    let x = #[trigger] w.classes[k];
                    x.id == v.classes[k].id && x.name == v.classes[k].name && x.address_expr
                        == v.classes[k].address_expr
                }
            &&& h.state.project.views == g.state.project.views
            &&& h.selected.len() == 0
            &&& h.editing == g.editing
        }),
{
    reveal(selection_deleted);
    let v = g.state.project.registry;
    let ts = owners(v, class, g.selected);
    law_delete_many_removes_exactly(v, ts, c);
    lemma_deleting_keeps_classes(v, ordered(ts, true));
    let gone = Set::new(
        |i: int|
            exists|k: int|
                0 <= k < g.selected.len() && (walked(
                    v,
                    class,
                    #[trigger] g.selected[k],
                ) matches Some(at) && at.owner.0 == c && at.owner.1 == i),
    );
    assert forall|i: int| numbers_of(ts, c).contains(i) == gone.contains(i) by {
        if numbers_of(ts, c).contains(i) {
            let k = choose|k: int| 0 <= k < ts.len() && (#[trigger] ts[k]).0 == c && ts[k].1 == i;
            assert(ts.contains(ts[k]));
            lemma_owners(v, class, g.selected, ts[k]);
        }
        if gone.contains(i) {
            let k = choose|k: int|
                0 <= k < g.selected.len() && (walked(
                    v,
                    class,
                    #[trigger] g.selected[k],
                ) matches Some(at) && at.owner.0 == c && at.owner.1 == i);
            let t = (walked(v, class, g.selected[k])->0).owner;
            lemma_owners(v, class, g.selected, t);
            let m = choose|m: int| 0 <= m < ts.len() && ts[m] == t;
            assert(ts[m].0 == c && ts[m].1 == i);
        }
    }
    assert(numbers_of(ts, c) =~= gone);
}

/// A class added comes behind the others, which stay; it has the name typed in,
/// which is used up, as many fields as the settings ask for, each of the kind
/// that they ask for, and no address expression; and it is shown.
pub proof fn law_added_class_is_seeded(g: GuiV)
    requires
        g.state.wf(),
        g.state.project.registry.next_id < u32::MAX,
    ensures
        ({
            let v = g.state.project.registry;
            let (h, effect) = applied(g, ActionV::AddClass);
            let w = h.state.project.registry;
            let n = v.classes.len() as int;
            let made = w.classes[n];
            &&& effect == EffectV::Nothing
            &&& w.classes.len() == n + 1
            &&& forall|k: int| 0 <= k < n ==> #[trigger] w.classes[k] == v.classes[k]
            &&& made.id == v.next_id
            &&& crate::text::trim(g.new_class_name).len() > 0 ==> made.name == g.new_class_name
                && h.new_class_name.len() == 0
            &&& made.address_expr.len() == 0
            &&& made.nodes.len() == g.settings.seed_rows
            &&& forall|j: int|
                0 <= j < made.nodes.len() ==> (#[trigger] made.nodes[j]).kind
                    == g.settings.default_kind && made.nodes[j].comment.len() == 0
            &&& h.state.selected_class() == Some(v.next_id)
        }),
{
    reveal(class_added);
    let v = g.state.project.registry;
    let name = next_class_name(g);
    let made = v.with_class(name);
    let n = v.classes.len() as int;
    assert(made.classes[n].id == v.next_id);
    assert forall|i: int, j: int| 0 <= i < j < made.classes.len() implies (
    #[trigger] made.classes[i]).id < (#[trigger] made.classes[j]).id by {
        if j < n {
            assert(v.classes[i].id < v.classes[j].id);
        } else {
            assert(v.classes[i].id < v.next_id);
        }
    }
    assert forall|i: int| 0 <= i < made.classes.len() implies (#[trigger] made.classes[i]).id
        < made.next_id by {
        if i < n {
            assert(v.classes[i].id < v.next_id);
        }
    }
    lemma_place(made.classes, made.next_id, n);
    let fields = seed_fields(g.settings.default_kind, g.settings.seed_rows as nat);
    assert(made.nodes(v.next_id) + fields =~= fields);
    lemma_other_fields(made, v.next_id, fields);
    let w = made.with_nodes(v.next_id, fields);
    lemma_place(w.classes, w.next_id, n);
    law_opened_class_is_shown(g.state.snapped().with_registry(made), v.next_id);
}

/// Following a plain pointer makes a class for its target, of sixteen words as
/// wide as an address, and turns the field into a pointer to it, under its name
/// and with its comment; the row is opened up. The other classes and fields stay.
pub proof fn law_followed_pointer_gets_a_class(
    g: GuiV,
    c: ClassId,
    i: usize,
    root: usize,
    path: Seq<PathSeg>,
)
    requires
        g.state.wf(),
        g.state.project.registry.has(c),
        i < g.state.project.registry.nodes(c).len(),
        g.state.project.registry.next_id < u32::MAX,
    ensures
        ({
            let v = g.state.project.registry;
            let h = applied(g, ActionV::ExpandPointer { owner: c, idx: i, root, path }).0;
            let w = h.state.project.registry;
            let n = v.classes.len() as int;
            let made = w.classes[n];
            &&& w.classes.len() == n + 1
            &&& made.id == v.next_id
            &&& made.nodes.len() == 16
            &&& forall|j: int|
                0 <= j < 16 ==> (#[trigger] made.nodes[j]).kind == NodeKind::Hex(
                    if v.pointer_bytes == 4 {
                        IntWidth::W32
                    } else {
                        IntWidth::W64
                    },
                )
            &&& w.nodes(c).len() == v.nodes(c).len()
            &&& w.nodes(c)[i as int].kind == (NodeKind::ClassPtr { class_id: v.next_id })
            &&& w.nodes(c)[i as int].name == v.nodes(c)[i as int].name
            &&& w.nodes(c)[i as int].comment == v.nodes(c)[i as int].comment
            &&& forall|j: int|
                0 <= j < v.nodes(c).len() && j != i ==> #[trigger] w.nodes(c)[j] == v.nodes(c)[j]
            &&& forall|k: int|
                0 <= k < n && v.classes[k].id != c ==> #[trigger] w.classes[k] == v.classes[k]
            &&& h.state.expand.expanded.contains((root as int, path))
            &&& h.error == g.error
        }),
{
    reveal(target_made);
    let v = g.state.project.registry;
    let made = v.with_class(auto_name(v.classes.len()));
    let n = v.classes.len() as int;
    let p = place(v.classes, c);
    assert(v.classes[p].id == c);
    assert(made.classes[n].id == v.next_id);
    assert forall|i: int, j: int| 0 <= i < j < made.classes.len() implies (
    #[trigger] made.classes[i]).id < (#[trigger] made.classes[j]).id by {
        if j < n {
            assert(v.classes[i].id < v.classes[j].id);
        } else {
            assert(v.classes[i].id < v.next_id);
        }
    }
    assert forall|i: int| 0 <= i < made.classes.len() implies (#[trigger] made.classes[i]).id
        < made.next_id by {
        if i < n {
            assert(v.classes[i].id < v.next_id);
        }
    }
    lemma_place(made.classes, made.next_id, n);
    assert(made.classes[p] == v.classes[p]);
    lemma_place(made.classes, made.next_id, p);
    lemma_place(v.classes, v.next_id, p);
    let words = word_fields(v.pointer_bytes);
    let filled = made.with_nodes(v.next_id, words);
    lemma_other_fields(made, v.next_id, words);
    assert(v.classes[p].id < v.next_id);
    assert(filled.classes[p] == made.classes[p]);
    lemma_place(filled.classes, filled.next_id, p);
    lemma_place(filled.classes, filled.next_id, n);
    let node = NodeV {
        kind: NodeKind::ClassPtr { class_id: v.next_id },
        ..filled.nodes(c)[i as int]
    };
    lemma_field_set(filled, c, i, node);
    let w = filled.with_node(c, i as int, node);
    assert(w.classes[n] == filled.classes[n]);
    assert forall|k: int| 0 <= k < n && v.classes[k].id != c implies #[trigger] w.classes[k]
        == v.classes[k] by {
        assert(v.classes[k].id < v.next_id);
        assert(made.classes[k] == v.classes[k]);
        assert(filled.classes[k] == made.classes[k]);
    }
}

/// Removing the selected classes removes every one of them and no other class.
pub proof fn law_selected_classes_are_removed(g: GuiV, c: ClassId)
    requires
        g.state.wf(),
    ensures
        ({
            let h = applied(g, ActionV::RemoveSelectedClasses).0;
            &&& h.state.project.registry.has(c) <==> g.state.project.registry.has(c)
                && !g.selected_classes.contains(c)
            &&& h.selected_classes.len() == 0
            &&& h.selected.len() == 0
        }),
{
    reveal(selected_removed);
    lemma_without_classes(g.state, g.selected_classes, c);
}

proof fn lemma_without_classes(s: AppV, ids: Seq<ClassId>, c: ClassId)
    requires
        s.project.registry.wf(),
    ensures
        without_classes(s, ids).project.registry.has(c) <==> s.project.registry.has(c)
            && !ids.contains(c),
    decreases ids.len(),
{
    if ids.len() > 0 {
        let v = s.project.registry;
        let w = v.without_class(ids[0]);
        let rest = ids.skip(1);
        lemma_one_class_less(v, ids[0], c);
        lemma_without_classes(s.without_class(ids[0]), rest, c);
        if ids.contains(c) && c != ids[0] {
            let k = choose|k: int| 0 <= k < ids.len() && ids[k] == c;
            assert(rest[k - 1] == c);
        }
        if rest.contains(c) {
            let k = choose|k: int| 0 <= k < rest.len() && rest[k] == c;
            assert(ids[k + 1] == c);
        }
        assert(ids[0] == ids[0]);
    }
}

proof fn lemma_one_class_less(v: RegistryV, x: ClassId, c: ClassId)
    requires
        v.wf(),
    ensures
        v.without_class(x).wf(),
        v.without_class(x).has(c) <==> v.has(c) && c != x,
{
    let w = v.without_class(x);
    if v.has(x) {
        law_removed_class_is_gone(v, x, 0, 0);
        let p = place(v.classes, x);
        assert(v.classes[p].id == x);
        assert forall|k: int| 0 <= k < w.classes.len() implies (#[trigger] w.classes[k]).id
            == v.classes.remove(p)[k].id by {}
        assert forall|i: int, j: int| 0 <= i < j < w.classes.len() implies (
        #[trigger] w.classes[i]).id < (#[trigger] w.classes[j]).id by {
            let a = if i < p {
                i
            } else {
                i + 1
            };
            let b = if j < p {
                j
            } else {
                j + 1
            };
            assert(v.classes[a].id < v.classes[b].id);
        }
        assert forall|i: int| 0 <= i < w.classes.len() implies (#[trigger] w.classes[i]).id
            < w.next_id by {
            let a = if i < p {
                i
            } else {
                i + 1
            };
            assert(v.classes[a].id < v.next_id);
        }
        if v.has(c) && c != x {
            let k = place(v.classes, c);
            assert(v.classes[k].id == c);
            let m = if k < p {
                k
            } else {
                k - 1
            };
            assert(w.classes[m].id == c);
        }
        if w.has(c) {
            let m = place(w.classes, c);
            assert(w.classes[m].id == c);
            let k = if m < p {
                m
            } else {
                m + 1
            };
            assert(v.classes[k].id == c);
        }
    }
}

} // verus!
