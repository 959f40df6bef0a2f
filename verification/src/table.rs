//! The central panel: the tabs, the class and address bar, the toolbar, and the
//! node table with its inline editing and its menus. Each function says what is
//! shown, or which actions a click asks for.

use crate::app_state::{AppV, ViewStatusV};
use crate::edits::readable_at;
use crate::expand::{dup_path, same_path};
use crate::gui::{actions_view, Action, ActionV, EditField, GuiV, ReClassApp};
use crate::live::expr_of;
use crate::node::{capped, ClassId, IntWidth, NodeKind};
use crate::palette::{
    array_elem_kinds, array_elems, asm_size_kinds, asm_sizes, byte_steps, choices, quick_kinds,
    quick_picks, scalar_kinds, scalars, strip_quotes, unquoted, Choice,
};
use crate::panels::{asked, class_title, hex_label, hex_text};
use crate::registry::class_at;
use crate::rows::{Row, RowV};
use crate::text;
use crate::walk::walked;
use vstd::prelude::*;

verus! {

// ---------------------------------------------------------------------------
// Tabs
// ---------------------------------------------------------------------------

/// A tab: the name of the class that a view shows, and whether it is the
/// selected one.
#[derive(Debug)]
pub struct Tab {
    pub label: String,
    pub selected: bool,
}

/// What a list of tabs says.
pub open spec fn tabs_view(s: Seq<Tab>) -> Seq<(Seq<char>, bool)> {
    Seq::new(s.len(), |i: int| (s[i].label@, s[i].selected))
}

impl ReClassApp {
    /// The tabs, one per view.
    pub fn tabs(&self) -> (r: Vec<Tab>)
        requires
            self.wf(),
        ensures
            tabs_view(r@) == Seq::new(
                self@.state.project.views.len(),
                |i: int|
                    (
                        class_title(
                            self@.state.project.registry,
                            self@.state.project.views[i],
                        ),
                        i == self@.state.selected_view,
                    ),
            ),
    {
        let ghost s = self@.state;
        let mut out: Vec<Tab> = Vec::new();
        let mut i: usize = 0;
        while i < self.state.project.views.len()
            invariant
                self.wf(),
                s == self@.state,
                i <= self.state.project.views@.len(),
                out@.len() == i,
                forall|k: int|
                    0 <= k < i ==> (#[trigger] out@[k]).label@ == class_title(
                        s.project.registry,
                        s.project.views[k],
                    ) && out@[k].selected == (k == s.selected_view),
            decreases self.state.project.views@.len() - i,
        {
            out.push(
                Tab {
                    label: self.class_name(self.state.project.views[i]),
                    selected: i == self.state.selected_view,
                },
            );
            i = i + 1;
        }
        proof {
            assert(tabs_view(out@) =~= Seq::new(
                s.project.views.len(),
                |i: int|
                    (
                        class_title(s.project.registry, s.project.views[i]),
                        i == s.selected_view,
                    ),
            ));
        }
        out
    }
}

// ---------------------------------------------------------------------------
// The class and address bar
// ---------------------------------------------------------------------------

/// What stands behind the address expression.
#[derive(Debug)]
pub enum AddressNote {
    /// Why the expression has no value.
    Failed(String),
    /// Its value, and whether that lies in readable memory. `unmapped` says
    /// that it does not although there is a value.
    Base { label: String, readable: bool, unmapped: bool },
}

/// What an [`AddressNote`] says.
pub enum AddressNoteV {
    Failed(Seq<char>),
    Base { label: Seq<char>, readable: bool, unmapped: bool },
}

impl View for AddressNote {
    type V = AddressNoteV;

    open spec fn view(&self) -> AddressNoteV {
        match self {
            AddressNote::Failed(e) => AddressNoteV::Failed(e@),
            AddressNote::Base { label, readable, unmapped } => AddressNoteV::Base {
                label: label@,
                readable: *readable,
                unmapped: *unmapped,
            },
        }
    }
}

/// The bar above the table.
#[derive(Debug)]
pub struct ClassBar {
    pub class: ClassId,
    pub name: String,
    pub size_label: String,
    pub expr: String,
    pub note: AddressNote,
}

/// The status of view `i`: unresolved where there is none.
pub open spec fn status_of(s: AppV, i: int) -> ViewStatusV {
    if 0 <= i < s.view_status.len() {
        s.view_status[i]
    } else {
        crate::app_state::unresolved()
    }
}

/// What stands behind the address expression of the selected view.
pub open spec fn address_note(s: AppV) -> AddressNoteV {
    let st = status_of(s, s.selected_view);
    match st.error {
        Some(e) => AddressNoteV::Failed(e),
        None => {
            let readable = readable_at(s.regions, st.base);
            AddressNoteV::Base {
                label: "= "@ + hex_label(st.base as nat),
                readable,
                unmapped: !readable && st.base != 0,
            }
        },
    }
}

impl ReClassApp {
    /// The bar above the table: nothing where no class is open.
    pub fn class_bar(&self) -> (r: Option<ClassBar>)
        requires
            self.wf(),
        ensures
            match self@.state.selected_class() {
                None => r is None,
                Some(c) => {
                    let v = self@.state.project.registry;
                    &&& r is Some
                    &&& (r->0).class == c
                    &&& (r->0).name@ == if v.has(c) {
                        class_at(v.classes, c).name
                    } else {
                        Seq::empty()
                    }
                    &&& (r->0).size_label@ == "size "@ + hex_label(capped(v.class_bytes(c)) as nat)
                    &&& (r->0).expr@ == expr_of(self@.state, c)
                    &&& (r->0).note@ == address_note(self@.state)
                },
            },
    {
        let class: ClassId = match self.state.selected_class() {
            Some(c) => c,
            None => {
                return None;
            },
        };
        let mut name = String::new();
        let mut expr = String::new();
        proof {
            assert(name@ =~= Seq::<char>::empty());
            assert(expr@ =~= Seq::<char>::empty());
        }
        match self.state.project.registry.get(class) {
            Some(c) => {
                name = c.name.clone();
                expr = c.address_expr.clone();
            },
            None => {},
        }
        let size: usize = self.state.project.registry.size_of(class);
        let i: usize = self.state.selected_view;
        let mut base: u64 = 0;
        let mut error: Option<String> = None;
        if i < self.state.view_status.len() {
            base = self.state.view_status[i].base;
            error = crate::project::dup_opt(&self.state.view_status[i].error);
        }
        let ghost st = status_of(self@.state, self@.state.selected_view);
        assert(base == st.base);
        assert(text::opt_view(error) == st.error);
        let note = match error {
            Some(e) => AddressNote::Failed(e),
            None => {
                let readable = self.state.addr_is_readable(base);
                AddressNote::Base {
                    label: text::join2("= ", hex_text(base).as_str()),
                    readable,
                    unmapped: !readable && base != 0,
                }
            },
        };
        Some(
            ClassBar {
                class,
                name,
                size_label: text::join2("size ", hex_text(size as u64).as_str()),
                expr,
                note,
            },
        )
    }
}

// ---------------------------------------------------------------------------
// The toolbar
// ---------------------------------------------------------------------------

/// A click in the toolbar. Numbers are positions in the list that is offered.
#[derive(Clone, Copy, Debug, PartialEq, Eq, Structural)]
pub enum ToolPick {
    /// One of the kinds with a button of their own.
    Quick(usize),
    /// One of the scalar kinds.
    More(usize),
    /// One of the assembly sizes.
    Asm(usize),
    /// As many bytes as set.
    AddBytes,
    /// A fixed number of bytes.
    AddStep(usize),
    /// An array as set.
    AddArray,
    ExpandAll,
    CollapseAll,
}

/// The kind at position `i` of a menu.
pub open spec fn kind_in(s: Seq<Choice>, i: usize) -> Option<NodeKind> {
    if i < s.len() {
        Some(s[i as int].1)
    } else {
        None
    }
}

/// The kind at position `i` of a menu.
fn pick_kind(v: &Vec<(&'static str, NodeKind)>, i: usize) -> (r: Option<NodeKind>)
    ensures
        r == kind_in(choices(v@), i),
{
    if i < v.len() {
        Some(v[i].1.dup())
    } else {
        None
    }
}

/// The element type that the array builder is set to: the last one where its
/// setting is beyond the list.
pub open spec fn elem_index(g: GuiV) -> int {
    if g.array_elem < array_elems().len() {
        g.array_elem as int
    } else {
        array_elems().len() - 1
    }
}

/// What a click in the toolbar asks for, where class `c` is shown.
pub open spec fn tool_asks(g: GuiV, c: ClassId, pick: ToolPick) -> Option<ActionV> {
    match pick {
        ToolPick::Quick(i) => match kind_in(quick_picks(), i) {
            Some(k) => Some(ActionV::PushNode(c, k)),
            None => None,
        },
        ToolPick::More(i) => match kind_in(scalars(), i) {
            Some(k) => Some(ActionV::PushNode(c, k)),
            None => None,
        },
        ToolPick::Asm(i) => match kind_in(asm_sizes(), i) {
            Some(k) => Some(ActionV::PushNode(c, k)),
            None => None,
        },
        ToolPick::AddBytes => Some(ActionV::AddBytes(c, g.add_bytes_n)),
        ToolPick::AddStep(i) => step_asks(c, i),
        ToolPick::AddArray => Some(
            ActionV::AddArray(c, array_elems()[elem_index(g)].1, g.array_count),
        ),
        ToolPick::ExpandAll => Some(ActionV::ExpandAll),
        ToolPick::CollapseAll => Some(ActionV::CollapseAll),
    }
}

/// What a click on one of the fixed numbers of bytes asks for.
pub open spec fn step_asks(c: ClassId, i: usize) -> Option<ActionV> {
    let steps = seq![64usize, 256usize, 1024usize, 4096usize];
    if i < steps.len() {
        Some(ActionV::AddBytes(c, steps[i as int]))
    } else {
        None
    }
}

/// What a click on one of the fixed numbers of bytes asks for.
pub fn step_action(c: ClassId, i: usize) -> (r: Option<Action>)
    ensures
        asked(r) == step_asks(c, i),
{
    let steps = byte_steps();
    if i < steps.len() {
        Some(Action::AddBytes(c, steps[i]))
    } else {
        None
    }
}

/// Append a field of kind `kind`, if there is one.
fn push_action(c: ClassId, kind: Option<NodeKind>) -> (r: Option<Action>)
    ensures
        asked(r) == match kind {
            Some(k) => Some(ActionV::PushNode(c, k)),
            None => None,
        },
{
    match kind {
        Some(k) => Some(Action::PushNode(c, k)),
        None => None,
    }
}

impl ReClassApp {
    /// The position of the element type that the array builder is set to.
    pub fn array_elem_index(&self) -> (r: usize)
        ensures
            r == elem_index(self@),
    {
        let elems = array_elem_kinds();
        let n: usize = elems.len();
        assert(choices(elems@).len() == 8);
        if self.array_elem < n {
            self.array_elem
        } else {
            n - 1
        }
    }

    /// What a click in the toolbar asks for, where class `c` is shown.
    pub fn tool_action(&self, c: ClassId, pick: ToolPick) -> (r: Option<Action>)
        ensures
            asked(r) == tool_asks(self@, c, pick),
    {
        match pick {
            ToolPick::Quick(i) => push_action(c, pick_kind(&quick_kinds(), i)),
            ToolPick::More(i) => push_action(c, pick_kind(&scalar_kinds(), i)),
            ToolPick::Asm(i) => push_action(c, pick_kind(&asm_size_kinds(), i)),
            ToolPick::AddBytes => Some(Action::AddBytes(c, self.add_bytes_n)),
            ToolPick::AddStep(i) => step_action(c, i),
            ToolPick::AddArray => {
                let elems = array_elem_kinds();
                let i: usize = self.array_elem_index();
                proof {
                    assert(choices(elems@)[i as int].1 == elems@[i as int].1);
                }
                Some(Action::AddArray(c, elems[i].1.dup(), self.array_count))
            },
            ToolPick::ExpandAll => Some(Action::ExpandAll),
            ToolPick::CollapseAll => Some(Action::CollapseAll),
        }
    }

    /// The Delete key removes the selected rows, when no field is edited.
    pub fn delete_key(&self) -> (r: Option<Action>)
        ensures
            asked(r) == if self@.editing is None && self@.selected.len() > 0 {
                Some(ActionV::DeleteSelected)
            } else {
                None
            },
    {
        if self.editing.is_none() && self.selected.len() > 0 {
            Some(Action::DeleteSelected)
        } else {
            None
        }
    }
}

// ---------------------------------------------------------------------------
// Rows
// ---------------------------------------------------------------------------

/// The rows of view `root`.
pub open spec fn rows_of(rows: Seq<Row>, root: int) -> Seq<RowV>
    decreases rows.len(),
{
    if rows.len() == 0 {
        Seq::empty()
    } else {
        let head = rows_of(rows.drop_last(), root);
        if rows.last().root == root {
            head.push(rows.last()@)
        } else {
            head
        }
    }
}

/// What a list of rows says.
pub open spec fn row_views(rows: Seq<&Row>) -> Seq<RowV> {
    Seq::new(rows.len(), |i: int| rows[i]@)
}

/// The rows of view `root`.
pub fn visible_rows<'a>(rows: &'a Vec<Row>, root: usize) -> (r: Vec<&'a Row>)
    ensures
        row_views(r@) == rows_of(rows@, root as int),
{
    let ghost all = rows@;
    let mut out: Vec<&'a Row> = Vec::new();
    let mut i: usize = 0;
    proof {
        assert(all.take(0) =~= Seq::<Row>::empty());
        assert(row_views(out@) =~= Seq::<RowV>::empty());
    }
    while i < rows.len()
        invariant
            i <= rows@.len(),
            all == rows@,
            row_views(out@) == rows_of(all.take(i as int), root as int),
        decreases rows@.len() - i,
    {
        proof {
            let k = all.take(i as int + 1);
            assert(k.drop_last() =~= all.take(i as int));
            assert(k.last() == rows@[i as int]);
        }
        let ghost before = row_views(out@);
        if rows[i].root == root {
            out.push(&rows[i]);
            proof {
                assert(row_views(out@) =~= before.push(rows@[i as int]@));
            }
        }
        i = i + 1;
    }
    proof {
        assert(all.take(i as int) =~= all);
    }
    out
}

/// An offset as the table shows it.
pub open spec fn offset_label(n: nat) -> Seq<char> {
    "0x"@ + text::zero_padded(text::written(n, 16, true), 4)
}

/// An offset as the table shows it.
pub fn offset_text(n: usize) -> (r: String)
    ensures
        r@ == offset_label(n as nat),
{
    text::join2("0x", text::hex_upper_padded(n as u64, 4).as_str())
}

/// The triangle before a row that can be opened or closed.
pub fn triangle(row: &Row) -> (r: Option<&'static str>)
    ensures
        match r {
            Some(t) => row@.expandable && t@ == if row@.expanded {
                "▼"@
            } else {
                "▶"@
            },
            None => !row@.expandable,
        },
{
    if row.expandable {
        Some(
            if row.expanded {
                "▼"
            } else {
                "▶"
            },
        )
    } else {
        None
    }
}

/// A text as a cell shows it: a dash where it is empty.
pub open spec fn cell(t: Seq<char>) -> Seq<char> {
    if t.len() == 0 {
        "—"@
    } else {
        t
    }
}

/// A text as a cell shows it: a dash where it is empty.
pub fn cell_text(t: &str) -> (r: String)
    ensures
        r@ == cell(t@),
{
    if text::chars_of(t).len() == 0 {
        "—".to_owned()
    } else {
        t.to_owned()
    }
}

/// What a click on the triangle of a row asks for, in a view of class `c`.
pub open spec fn triangle_asks(s: AppV, c: ClassId, row: RowV) -> Option<ActionV> {
    match row.kind {
        NodeKind::Pointer => match walked(s.project.registry, c, row.path) {
            Some(at) => Some(
                ActionV::ExpandPointer {
                    owner: at.owner.0,
                    idx: at.owner.1,
                    root: row.root,
                    path: row.path,
                },
            ),
            None => None,
        },
        NodeKind::ClassPtr { class_id } => Some(ActionV::Toggle(row.root, row.path)),
        _ => Some(ActionV::ToggleCollapse(row.root, row.path)),
    }
}

impl ReClassApp {
    /// What a click on the triangle of a row asks for: a plain pointer gets a
    /// class for its target, a class pointer is followed or not, and arrays and
    /// inline instances collapse or open.
    pub fn triangle_action(&self, c: ClassId, row: &Row) -> (r: Option<Action>)
        requires
            self.wf(),
        ensures
            asked(r) == triangle_asks(self@.state, c, row@),
    {
        match &row.kind {
            NodeKind::Pointer => match self.state.resolve_owner(c, &row.path) {
                Some((owner, idx)) => Some(
                    Action::ExpandPointer { owner, idx, root: row.root, path: dup_path(&row.path) },
                ),
                None => None,
            },
            NodeKind::ClassPtr { .. } => Some(Action::Toggle(row.root, dup_path(&row.path))),
            _ => Some(Action::ToggleCollapse(row.root, dup_path(&row.path))),
        }
    }

    /// Whether the editor is open on this text of this row.
    pub fn is_editing(&self, row: &Row, field: EditField) -> (r: bool)
        ensures
            r == match self@.editing {
                Some(e) => e.root == row@.root && e.path == row@.path && e.field == field,
                None => false,
            },
    {
        match &self.editing {
            Some(e) => e.root == row.root && same_path(&e.path, &row.path) && e.field == field,
            None => false,
        }
    }
}

/// What leaving the editor asks for: Escape drops what was typed, losing the
/// focus stores it.
pub fn edit_left(escape: bool, lost_focus: bool) -> (r: Option<Action>)
    ensures
        asked(r) == if escape {
            Some(ActionV::CancelEdit)
        } else if lost_focus {
            Some(ActionV::CommitEdit)
        } else {
            None
        },
{
    if escape {
        Some(Action::CancelEdit)
    } else if lost_focus {
        Some(Action::CommitEdit)
    } else {
        None
    }
}

/// A double click on a text of a row opens the editor on it, without quotes.
pub fn edit_action(row: &Row, field: EditField, shown: &str) -> (r: Action)
    ensures
        r@ == ActionV::StartEdit(row@.root, row@.path, field, unquoted(shown@)),
{
    Action::StartEdit(row.root, dup_path(&row.path), field, strip_quotes(shown))
}

// ---------------------------------------------------------------------------
// The type menu
// ---------------------------------------------------------------------------

/// A click in the type menu of a row. Numbers are positions in the list that is
/// offered.
#[derive(Clone, Copy, Debug, PartialEq, Eq, Structural)]
pub enum TypePick {
    Scalar(usize),
    Asm(usize),
    /// An array of such elements, as many as set.
    Array(usize),
    Instance(ClassId),
    ClassPointer(ClassId),
    /// The length as set, of an array.
    Length,
}

/// The kind that a click in the type menu stands for, if it stands for one.
pub open spec fn kind_picked(count: usize, pick: TypePick) -> Option<NodeKind> {
    match pick {
        TypePick::Scalar(i) => kind_in(scalars(), i),
        TypePick::Asm(i) => kind_in(asm_sizes(), i),
        TypePick::Array(i) => match kind_in(array_elems(), i) {
            Some(k) => Some(NodeKind::Array { element: Box::new(k), count }),
            None => None,
        },
        TypePick::Instance(id) => Some(NodeKind::ClassInstance { class_id: id }),
        TypePick::ClassPointer(id) => Some(NodeKind::ClassPtr { class_id: id }),
        TypePick::Length => None,
    }
}

/// What a click in the type menu of a row asks for, in a view of class `c`.
pub open spec fn type_asks(g: GuiV, c: ClassId, row: RowV, pick: TypePick) -> Option<ActionV> {
    match walked(g.state.project.registry, c, row.path) {
        None => None,
        Some(at) => match pick {
            TypePick::Length => match row.kind {
                NodeKind::Array { element, count } => Some(
                    ActionV::SetArrayCount(at.owner.0, at.owner.1, g.array_count),
                ),
                _ => None,
            },
            _ => match kind_picked(g.array_count, pick) {
                Some(k) => Some(ActionV::ChangeKind(at.owner.0, at.owner.1, k)),
                None => None,
            },
        },
    }
}

/// The kind that a click in the type menu stands for, if it stands for one.
fn picked_kind(count: usize, pick: TypePick) -> (r: Option<NodeKind>)
    ensures
        r == kind_picked(count, pick),
{
    match pick {
        TypePick::Scalar(i) => pick_kind(&scalar_kinds(), i),
        TypePick::Asm(i) => pick_kind(&asm_size_kinds(), i),
        TypePick::Array(i) => match pick_kind(&array_elem_kinds(), i) {
            Some(k) => Some(NodeKind::Array { element: Box::new(k), count }),
            None => None,
        },
        TypePick::Instance(id) => Some(NodeKind::ClassInstance { class_id: id }),
        TypePick::ClassPointer(id) => Some(NodeKind::ClassPtr { class_id: id }),
        TypePick::Length => None,
    }
}

impl ReClassApp {
    /// What a click in the type menu of a row asks for, in a view of class `c`.
    pub fn type_action(&self, c: ClassId, row: &Row, pick: TypePick) -> (r: Option<Action>)
        requires
            self.wf(),
        ensures
            asked(r) == type_asks(self@, c, row@, pick),
    {
        let (owner, idx): (ClassId, usize) = match self.state.resolve_owner(c, &row.path) {
            Some(t) => t,
            None => {
                return None;
            },
        };
        match pick {
            TypePick::Length => match &row.kind {
                NodeKind::Array { .. } => Some(
                    Action::SetArrayCount(owner, idx, self.array_count),
                ),
                _ => None,
            },
            _ => match picked_kind(self.array_count, pick) {
                Some(k) => Some(Action::ChangeKind(owner, idx, k)),
                None => None,
            },
        }
    }

    /// The label of an array of `elem` in the type menu.
    pub fn array_label(&self, elem: &str) -> (r: String)
        ensures
            r@ == elem@ + " × "@ + text::written(self@.array_count as nat, 10, false),
    {
        text::join3(elem, " × ", text::dec(self.array_count as u64).as_str())
    }

    /// The label that offers to set the length of an array.
    pub fn length_label(&self) -> (r: String)
        ensures
            r@ == "Set length = "@ + text::written(self@.array_count as nat, 10, false),
    {
        text::join2("Set length = ", text::dec(self.array_count as u64).as_str())
    }
}

// ---------------------------------------------------------------------------
// The context menu of a row
// ---------------------------------------------------------------------------

/// A click in the context menu of a row.
#[derive(Clone, Copy, Debug, PartialEq, Eq, Structural)]
pub enum RowPick {
    Rename,
    EditComment,
    InsertBelow,
    Delete,
    DeleteSelected,
    /// Show the target class where this row has it.
    ViewAsRoot,
    /// Grow the target class by one of the fixed numbers of bytes.
    GrowTarget(usize),
}

/// The class that a row leads to.
pub open spec fn row_target(kind: NodeKind) -> Option<ClassId> {
    match kind {
        NodeKind::ClassPtr { class_id } => Some(class_id),
        NodeKind::ClassInstance { class_id } => Some(class_id),
        _ => None,
    }
}

/// The class that a row leads to.
pub fn target_of(row: &Row) -> (r: Option<ClassId>)
    ensures
        r == row_target(row@.kind),
{
    match &row.kind {
        NodeKind::ClassPtr { class_id } => Some(*class_id),
        NodeKind::ClassInstance { class_id } => Some(*class_id),
        _ => None,
    }
}

/// The expression for the address of the target of a row: what the pointer
/// holds, or the address of the instance.
pub open spec fn root_expr(row: RowV) -> Seq<char> {
    match row.kind {
        NodeKind::ClassPtr { class_id } => "["@ + hex_label(row.address as nat) + "]"@,
        _ => hex_label(row.address as nat),
    }
}

/// The expression for the address of the target of a row.
pub fn view_expr(row: &Row) -> (r: String)
    ensures
        r@ == root_expr(row@),
{
    match &row.kind {
        NodeKind::ClassPtr { .. } => text::join3("[", hex_text(row.address).as_str(), "]"),
        _ => hex_text(row.address),
    }
}

/// What a click in the context menu of a row asks for, in a view of class `c`.
pub open spec fn menu_asks(g: GuiV, c: ClassId, row: RowV, pick: RowPick) -> Seq<ActionV> {
    let owner = walked(g.state.project.registry, c, row.path);
    match pick {
        RowPick::Rename => seq![
            ActionV::StartEdit(row.root, row.path, EditField::Name, row.name),
        ],
        RowPick::EditComment => seq![
            ActionV::StartEdit(row.root, row.path, EditField::Comment, row.comment),
        ],
        RowPick::InsertBelow => match owner {
            Some(at) => seq![
                ActionV::InsertAfter(at.owner.0, at.owner.1, NodeKind::Int(IntWidth::W32)),
            ],
            None => Seq::empty(),
        },
        RowPick::Delete => match owner {
            Some(at) => seq![ActionV::DeleteNode(at.owner.0, at.owner.1)],
            None => Seq::empty(),
        },
        RowPick::DeleteSelected => if g.selected.len() > 0 {
            seq![ActionV::DeleteSelected]
        } else {
            Seq::empty()
        },
        RowPick::ViewAsRoot => match row_target(row.kind) {
            Some(t) => seq![ActionV::SetExpr(t, root_expr(row)), ActionV::OpenView(t)],
            None => Seq::empty(),
        },
        RowPick::GrowTarget(i) => match row_target(row.kind) {
            Some(t) => match step_asks(t, i) {
                Some(a) => seq![a],
                None => Seq::empty(),
            },
            None => Seq::empty(),
        },
    }
}

/// Append an action to a list.
fn add_action(v: &mut Vec<Action>, a: Action)
    ensures
        actions_view(final(v)@) == actions_view(old(v)@).push(a@),
{
    let ghost before = actions_view(v@);
    v.push(a);
    proof {
        assert(actions_view(v@) =~= before.push(a@));
    }
}

impl ReClassApp {
    /// What a click in the context menu of a row asks for, in a view of class
    /// `c`.
    pub fn menu_actions(&self, c: ClassId, row: &Row, pick: RowPick) -> (r: Vec<Action>)
        requires
            self.wf(),
        ensures
            actions_view(r@) == menu_asks(self@, c, row@, pick),
    {
        let owner: Option<(ClassId, usize)> = self.state.resolve_owner(c, &row.path);
        let mut out: Vec<Action> = Vec::new();
        proof {
            assert(actions_view(out@) =~= Seq::<ActionV>::empty());
        }
        match pick {
            RowPick::Rename => {
                add_action(
                    &mut out,
                    Action::StartEdit(
                        row.root,
                        dup_path(&row.path),
                        EditField::Name,
                        row.name.clone(),
                    ),
                );
            },
            RowPick::EditComment => {
                add_action(
                    &mut out,
                    Action::StartEdit(
                        row.root,
                        dup_path(&row.path),
                        EditField::Comment,
                        row.comment.clone(),
                    ),
                );
            },
            RowPick::InsertBelow => {
                match owner {
                    Some((cls, idx)) => {
                        add_action(
                            &mut out,
                            Action::InsertAfter(cls, idx, NodeKind::Int(IntWidth::W32)),
                        );
                    },
                    None => {},
                }
            },
            RowPick::Delete => {
                match owner {
                    Some((cls, idx)) => {
                        add_action(&mut out, Action::DeleteNode(cls, idx));
                    },
                    None => {},
                }
            },
            RowPick::DeleteSelected => {
                if self.selected.len() > 0 {
                    add_action(&mut out, Action::DeleteSelected);
                }
            },
            RowPick::ViewAsRoot => {
                match target_of(row) {
                    Some(t) => {
                        add_action(&mut out, Action::SetExpr(t, view_expr(row)));
                        add_action(&mut out, Action::OpenView(t));
                    },
                    None => {},
                }
            },
            RowPick::GrowTarget(i) => {
                match target_of(row) {
                    Some(t) => {
                        match step_action(t, i) {
                            Some(a) => {
                                add_action(&mut out, a);
                            },
                            None => {},
                        }
                    },
                    None => {},
                }
            },
        }
        proof {
            assert(actions_view(out@) =~= menu_asks(self@, c, row@, pick));
        }
        out
    }

    /// The label that offers to delete the selected rows: only where there are
    /// some.
    pub fn delete_rows_label(&self) -> (r: Option<String>)
        ensures
            text::opt_view(r) == if self@.selected.len() > 0 {
                Some(
                    "Delete selected ("@ + text::written(self@.selected.len(), 10, false) + ")"@,
                )
            } else {
                None
            },
    {
        let n: usize = self.selected.len();
        if n > 0 {
            Some(text::join3("Delete selected (", text::dec(n as u64).as_str(), ")"))
        } else {
            None
        }
    }
}

// ---------------------------------------------------------------------------
// Laws
// ---------------------------------------------------------------------------

/// What the menus of a row ask for concerns the field behind the row, wherever
/// that lies: another type or length goes to it, a field inserted below comes
/// behind it, and it is what is deleted. A row that leads to no field asks for
/// none of this.
pub proof fn law_row_menus_concern_their_field(
    g: GuiV,
    c: ClassId,
    row: RowV,
    pick: TypePick,
    kind: NodeKind,
    o: ClassId,
    i: usize,
)
    ensures
        (walked(g.state.project.registry, c, row.path) matches Some(at) && at.owner == (o, i)) ==> {
            &&& kind_picked(g.array_count, pick) == Some(kind) ==> type_asks(g, c, row, pick) == Some(
                ActionV::ChangeKind(o, i, kind),
            )
            &&& row.kind is Array ==> type_asks(g, c, row, TypePick::Length) == Some(
                ActionV::SetArrayCount(o, i, g.array_count),
            )
            &&& menu_asks(g, c, row, RowPick::Delete) == seq![ActionV::DeleteNode(o, i)]
            &&& menu_asks(g, c, row, RowPick::InsertBelow) == seq![
                ActionV::InsertAfter(o, i, NodeKind::Int(IntWidth::W32)),
            ]
            &&& row.kind is Pointer ==> triangle_asks(g.state, c, row) == Some(
                ActionV::ExpandPointer { owner: o, idx: i, root: row.root, path: row.path },
            )
        },
        walked(g.state.project.registry, c, row.path) is None ==> {
            &&& type_asks(g, c, row, pick) is None
            &&& menu_asks(g, c, row, RowPick::Delete).len() == 0
            &&& menu_asks(g, c, row, RowPick::InsertBelow).len() == 0
        },
{
}

/// The types that can be picked for a row: an instance of a class or a pointer to
/// it, and arrays of the length set.
pub proof fn law_picked_types_are_as_named(count: usize, id: ClassId, i: usize)
    ensures
        kind_picked(count, TypePick::Instance(id)) == Some(
            NodeKind::ClassInstance { class_id: id },
        ),
        kind_picked(count, TypePick::ClassPointer(id)) == Some(NodeKind::ClassPtr { class_id: id }),
        i < array_elems().len() ==> kind_picked(count, TypePick::Array(i)) == Some(
            NodeKind::Array { element: Box::new(array_elems()[i as int].1), count },
        ),
        i < scalars().len() ==> kind_picked(count, TypePick::Scalar(i)) == Some(
            scalars()[i as int].1,
        ),
        i < asm_sizes().len() ==> kind_picked(count, TypePick::Asm(i)) == Some(
            asm_sizes()[i as int].1,
        ),
{
}

/// A row's triangle follows or leaves a pointer to a class and collapses or opens
/// anything else, by the row's own place; renaming and commenting open the editor
/// on the row with the text that it has.
pub proof fn law_rows_turn_and_open_in_place(g: GuiV, c: ClassId, row: RowV)
    ensures
        row.kind is ClassPtr ==> triangle_asks(g.state, c, row) == Some(
            ActionV::Toggle(row.root, row.path),
        ),
        !(row.kind is ClassPtr) && !(row.kind is Pointer) ==> triangle_asks(g.state, c, row) == Some(
            ActionV::ToggleCollapse(row.root, row.path),
        ),
        menu_asks(g, c, row, RowPick::Rename) == seq![
            ActionV::StartEdit(row.root, row.path, EditField::Name, row.name),
        ],
        menu_asks(g, c, row, RowPick::EditComment) == seq![
            ActionV::StartEdit(row.root, row.path, EditField::Comment, row.comment),
        ],
{
}

/// Viewing a row's target as a class of its own opens that class at the address
/// that the row leads to: where the instance lies, or what the pointer holds.
pub proof fn law_target_is_viewed_where_it_lies(g: GuiV, c: ClassId, row: RowV, t: ClassId)
    ensures
        row.kind == (NodeKind::ClassInstance { class_id: t }) ==> menu_asks(
            g,
            c,
            row,
            RowPick::ViewAsRoot,
        ) == seq![
            ActionV::SetExpr(t, "0x"@ + text::written(row.address as nat, 16, true)),
            ActionV::OpenView(t),
        ],
        row.kind == (NodeKind::ClassPtr { class_id: t }) ==> menu_asks(
            g,
            c,
            row,
            RowPick::ViewAsRoot,
        ) == seq![
            ActionV::SetExpr(t, "["@ + ("0x"@ + text::written(row.address as nat, 16, true)) + "]"@),
            ActionV::OpenView(t),
        ],
        !(row.kind is ClassInstance) && !(row.kind is ClassPtr) ==> menu_asks(
            g,
            c,
            row,
            RowPick::ViewAsRoot,
        ).len() == 0,
{
}

/// The rows of a view are the rows that belong to it, all of them and in their
/// order. `at` says where they stand.
pub proof fn law_view_shows_its_rows(rows: Seq<Row>, root: int) -> (at: Seq<int>)
    ensures
        at.len() == rows_of(rows, root).len(),
        forall|a: int|
            0 <= a < at.len() ==> 0 <= #[trigger] at[a] < rows.len() && rows[at[a]].root == root
                && rows_of(rows, root)[a] == rows[at[a]]@,
        forall|a: int, b: int| 0 <= a < b < at.len() ==> #[trigger] at[a] < #[trigger] at[b],
        forall|i: int|
            0 <= i < rows.len() && (#[trigger] rows[i]).root == root ==> at.contains(i),
    decreases rows.len(),
{
    if rows.len() == 0 {
        Seq::empty()
    } else {
        let head = rows.drop_last();
        let before = law_view_shows_its_rows(head, root);
        assert forall|a: int| 0 <= a < before.len() implies rows[#[trigger] before[a]]
            == head[before[a]] by {}
        let at = if rows.last().root == root {
            before.push(rows.len() - 1)
        } else {
            before
        };
        assert forall|i: int| 0 <= i < rows.len() && (#[trigger] rows[i]).root
            == root implies at.contains(i) by {
            if i < head.len() {
                assert(head[i] == rows[i]);
                assert(before.contains(i));
                let k = choose|k: int| 0 <= k < before.len() && before[k] == i;
                assert(at[k] == i);
            } else {
                assert(at[before.len() as int] == i);
            }
        }
        at
    }
}

/// The toolbar appends to the class shown what its entries name, and asks for
/// the bytes and the array set beside them.
pub proof fn law_toolbar_appends_as_named(g: GuiV, c: ClassId, i: usize)
    ensures
        i < quick_picks().len() ==> tool_asks(g, c, ToolPick::Quick(i)) == Some(
            ActionV::PushNode(c, quick_picks()[i as int].1),
        ),
        i < scalars().len() ==> tool_asks(g, c, ToolPick::More(i)) == Some(
            ActionV::PushNode(c, scalars()[i as int].1),
        ),
        i < asm_sizes().len() ==> tool_asks(g, c, ToolPick::Asm(i)) == Some(
            ActionV::PushNode(c, asm_sizes()[i as int].1),
        ),
        tool_asks(g, c, ToolPick::AddBytes) == Some(ActionV::AddBytes(c, g.add_bytes_n)),
        g.array_elem < array_elems().len() ==> tool_asks(g, c, ToolPick::AddArray) == Some(
            ActionV::AddArray(c, array_elems()[g.array_elem as int].1, g.array_count),
        ),
        tool_asks(g, c, ToolPick::ExpandAll) == Some(ActionV::ExpandAll),
        tool_asks(g, c, ToolPick::CollapseAll) == Some(ActionV::CollapseAll),
        i < 4 ==> (tool_asks(g, c, ToolPick::AddStep(i)) matches Some(a) && (a matches
            ActionV::AddBytes(to, n) && to == c && n == seq![64usize, 256usize, 1024usize, 4096usize][i as int])),
{
}

/// A view without an address says why; one with an address tells it, and whether
/// memory can be read there.
pub proof fn law_address_note_tells_the_base(s: AppV, st: ViewStatusV)
    requires
        0 <= s.selected_view < s.view_status.len(),
        st == s.view_status[s.selected_view],
    ensures
        st.error matches Some(e) ==> address_note(s) == AddressNoteV::Failed(e),
        st.error is None ==> (address_note(s) matches AddressNoteV::Base {
            label,
            readable,
            unmapped,
        } && label == "= "@ + ("0x"@ + text::written(st.base as nat, 16, true)) && (readable
            <==> exists|i: int|
            0 <= i < s.regions.len() && (#[trigger] s.regions[i]).start <= st.base
                && st.base < s.regions[i].end && s.regions[i].perms.read) && (unmapped <==> !readable
            && st.base != 0)),
{
    if readable_at(s.regions, st.base) {
        let i = choose|i: int|
            0 <= i < s.regions.len() && (#[trigger] s.regions[i]).contains(st.base)
                && s.regions[i].perms.read;
        assert(s.regions[i].start <= st.base);
    }
    if exists|i: int|
        0 <= i < s.regions.len() && (#[trigger] s.regions[i]).start <= st.base && st.base
            < s.regions[i].end && s.regions[i].perms.read {
        let i = choose|i: int|
            0 <= i < s.regions.len() && (#[trigger] s.regions[i]).start <= st.base && st.base
                < s.regions[i].end && s.regions[i].perms.read;
        assert(s.regions[i].contains(st.base));
    }
}

} // verus!
