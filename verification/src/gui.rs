//! The desktop front-end's state: what it shows besides the project, the
//! actions that its panels ask for, and what each of them does.
//!
//! Panels only collect actions while they draw; the actions are applied
//! afterwards. Where one needs the outside world (a process, a file), applying
//! it returns an [`Effect`] for the shell to perform, and the shell hands the
//! outcome back.

use crate::app_state::{AppError, AppState, AppV};
use crate::clipboard::{deleted, ordered, Target};
use crate::edits::{array_added, byte_fields, kind_changed, pointer_expanded};
use crate::expand::{toggled, ExpandV};
use crate::flash::{FlashTracker, SeenV};
use crate::mcp_args::Language;
use crate::messages::error_text;
use crate::node::{capped, plain_node, ClassId, Node, NodeKind, NodeV, PathSeg};
use crate::palette::{seed_class, seeded};
use crate::processes::{procs_view, ProcInfo, ProcInfoV};
use crate::registry::{
    array_counted, class_at, class_set, inserted, node_set, pushed, removed, ClassV, RegistryV,
};
use crate::selection::{drop_class, paths_view, without_item};
use crate::settings::{remembered, Settings};
use crate::text;
use crate::walk::{all_collapsed, all_expanded, walked};
use vstd::prelude::*;

verus! {

// ---------------------------------------------------------------------------
// The state
// ---------------------------------------------------------------------------

/// A text of a row that can be edited in place.
#[derive(Clone, Copy, Debug, PartialEq, Eq, Structural)]
pub enum EditField {
    Value,
    Name,
    Comment,
}

/// The open in-place editor.
#[derive(Debug)]
pub struct Editing {
    pub root: usize,
    pub path: Vec<PathSeg>,
    pub field: EditField,
    pub buf: String,
    /// Whether it has already grabbed keyboard focus.
    pub focused: bool,
}

/// What an [`Editing`] says.
pub struct EditingV {
    pub root: usize,
    pub path: Seq<PathSeg>,
    pub field: EditField,
    pub buf: Seq<char>,
    pub focused: bool,
}

impl View for Editing {
    type V = EditingV;

    open spec fn view(&self) -> EditingV {
        EditingV {
            root: self.root,
            path: self.path@,
            field: self.field,
            buf: self.buf@,
            focused: self.focused,
        }
    }
}

/// The inline class-rename editor (in the list of classes).
#[derive(Debug)]
pub struct ClassRename {
    pub id: ClassId,
    pub buf: String,
    pub focused: bool,
}

/// What a [`ClassRename`] says.
pub struct ClassRenameV {
    pub id: ClassId,
    pub buf: Seq<char>,
    pub focused: bool,
}

impl View for ClassRename {
    type V = ClassRenameV;

    open spec fn view(&self) -> ClassRenameV {
        ClassRenameV { id: self.id, buf: self.buf@, focused: self.focused }
    }
}

/// Modes for the in-app browser: pick a `.ron` file (Open/Save) or a directory
/// to generate a project into (GenProject).
#[derive(Clone, Copy, Debug, PartialEq, Eq, Structural)]
pub enum FileMode {
    Open,
    Save,
    GenProject,
}

/// The file browser's state.
#[derive(Debug)]
pub struct FileDialog {
    pub mode: FileMode,
    pub dir: String,
    pub filename: String,
    pub error: Option<String>,
}

/// What a [`FileDialog`] says.
pub struct FileDialogV {
    pub mode: FileMode,
    pub dir: Seq<char>,
    pub filename: Seq<char>,
    pub error: Option<Seq<char>>,
}

impl View for FileDialog {
    type V = FileDialogV;

    open spec fn view(&self) -> FileDialogV {
        FileDialogV {
            mode: self.mode,
            dir: self.dir@,
            filename: self.filename@,
            error: text::opt_view(self.error),
        }
    }
}

/// The whole front-end.
pub struct ReClassApp {
    pub state: AppState,
    pub editing: Option<Editing>,
    pub processes: Vec<ProcInfo>,
    pub proc_filter: String,
    pub pid_input: String,
    pub new_class_name: String,
    pub save_path: String,
    pub show_side_panel: bool,
    pub show_memory_map: bool,
    pub show_codegen: bool,
    pub codegen_lang: Language,
    pub codegen_cache: String,
    pub error: Option<String>,
    pub add_bytes_n: usize,
    /// The selected rows of the selected view.
    pub selected: Vec<Vec<PathSeg>>,
    pub sel_anchor: Option<usize>,
    pub array_elem: usize,
    pub array_count: usize,
    pub selected_classes: Vec<ClassId>,
    pub class_anchor: Option<usize>,
    pub renaming_class: Option<ClassRename>,
    pub flash: FlashTracker,
    /// Whether the "kernel module not available" notice is up.
    pub show_kernel_unavailable: bool,
    pub recent: Vec<String>,
    pub file_dialog: Option<FileDialog>,
    pub settings: Settings,
    pub show_settings: bool,
    /// The port of the running control server, if it runs.
    pub mcp: Option<u16>,
}

/// What a [`ReClassApp`] says.
pub struct GuiV {
    pub state: AppV,
    pub editing: Option<EditingV>,
    pub processes: Seq<ProcInfoV>,
    pub proc_filter: Seq<char>,
    pub pid_input: Seq<char>,
    pub new_class_name: Seq<char>,
    pub save_path: Seq<char>,
    pub show_side_panel: bool,
    pub show_memory_map: bool,
    pub show_codegen: bool,
    pub codegen_lang: Language,
    pub codegen_cache: Seq<char>,
    pub error: Option<Seq<char>>,
    pub add_bytes_n: usize,
    pub selected: Seq<Seq<PathSeg>>,
    pub sel_anchor: Option<usize>,
    pub array_elem: usize,
    pub array_count: usize,
    pub selected_classes: Seq<ClassId>,
    pub class_anchor: Option<usize>,
    pub renaming_class: Option<ClassRenameV>,
    pub flash: Seq<SeenV>,
    pub show_kernel_unavailable: bool,
    pub recent: Seq<Seq<char>>,
    pub file_dialog: Option<FileDialogV>,
    pub settings: Settings,
    pub show_settings: bool,
    pub mcp: Option<u16>,
}

/// What an open editor says, if one is open.
pub open spec fn editing_view(e: Option<Editing>) -> Option<EditingV> {
    match e {
        Some(e) => Some(e@),
        None => None,
    }
}

/// What an open class-rename editor says, if one is open.
pub open spec fn rename_view(e: Option<ClassRename>) -> Option<ClassRenameV> {
    match e {
        Some(e) => Some(e@),
        None => None,
    }
}

/// What an open file browser says, if one is open.
pub open spec fn dialog_view(e: Option<FileDialog>) -> Option<FileDialogV> {
    match e {
        Some(e) => Some(e@),
        None => None,
    }
}

impl View for ReClassApp {
    type V = GuiV;

    open spec fn view(&self) -> GuiV {
        GuiV {
            state: self.state@,
            editing: editing_view(self.editing),
            processes: procs_view(self.processes@),
            proc_filter: self.proc_filter@,
            pid_input: self.pid_input@,
            new_class_name: self.new_class_name@,
            save_path: self.save_path@,
            show_side_panel: self.show_side_panel,
            show_memory_map: self.show_memory_map,
            show_codegen: self.show_codegen,
            codegen_lang: self.codegen_lang,
            codegen_cache: self.codegen_cache@,
            error: text::opt_view(self.error),
            add_bytes_n: self.add_bytes_n,
            selected: paths_view(self.selected@),
            sel_anchor: self.sel_anchor,
            array_elem: self.array_elem,
            array_count: self.array_count,
            selected_classes: self.selected_classes@,
            class_anchor: self.class_anchor,
            renaming_class: rename_view(self.renaming_class),
            flash: self.flash@,
            show_kernel_unavailable: self.show_kernel_unavailable,
            recent: text::texts(self.recent@),
            file_dialog: dialog_view(self.file_dialog),
            settings: self.settings,
            show_settings: self.show_settings,
            mcp: self.mcp,
        }
    }
}

// ---------------------------------------------------------------------------
// Actions and effects
// ---------------------------------------------------------------------------

/// Deferred mutations collected while drawing, applied afterwards.
#[derive(Debug)]
pub enum Action {
    AttachPid(i32),
    RefreshRegions,
    AddClass,
    OpenView(ClassId),
    CloseView(usize),
    SelectView(usize),
    SetExpr(ClassId, String),
    Toggle(usize, Vec<PathSeg>),
    ToggleCollapse(usize, Vec<PathSeg>),
    ExpandPointer { owner: ClassId, idx: usize, root: usize, path: Vec<PathSeg> },
    StartEdit(usize, Vec<PathSeg>, EditField, String),
    CommitEdit,
    CancelEdit,
    RenameClass(ClassId, String),
    StartRenameClass(ClassId),
    EndRenameClass,
    RemoveClass(ClassId),
    RemoveSelectedClasses,
    PushNode(ClassId, NodeKind),
    AddBytes(ClassId, usize),
    AddArray(ClassId, NodeKind, usize),
    InsertAfter(ClassId, usize, NodeKind),
    DeleteNode(ClassId, usize),
    DeleteSelected,
    ChangeKind(ClassId, usize, NodeKind),
    SetArrayCount(ClassId, usize, usize),
    ExpandAll,
    CollapseAll,
    Save(String),
    Load(String),
    /// Generate a project into the given directory.
    GenerateProject(String),
}

/// What an [`Action`] says.
pub enum ActionV {
    AttachPid(i32),
    RefreshRegions,
    AddClass,
    OpenView(ClassId),
    CloseView(usize),
    SelectView(usize),
    SetExpr(ClassId, Seq<char>),
    Toggle(usize, Seq<PathSeg>),
    ToggleCollapse(usize, Seq<PathSeg>),
    ExpandPointer { owner: ClassId, idx: usize, root: usize, path: Seq<PathSeg> },
    StartEdit(usize, Seq<PathSeg>, EditField, Seq<char>),
    CommitEdit,
    CancelEdit,
    RenameClass(ClassId, Seq<char>),
    StartRenameClass(ClassId),
    EndRenameClass,
    RemoveClass(ClassId),
    RemoveSelectedClasses,
    PushNode(ClassId, NodeKind),
    AddBytes(ClassId, usize),
    AddArray(ClassId, NodeKind, usize),
    InsertAfter(ClassId, usize, NodeKind),
    DeleteNode(ClassId, usize),
    DeleteSelected,
    ChangeKind(ClassId, usize, NodeKind),
    SetArrayCount(ClassId, usize, usize),
    ExpandAll,
    CollapseAll,
    Save(Seq<char>),
    Load(Seq<char>),
    GenerateProject(Seq<char>),
}

impl View for Action {
    type V = ActionV;

    open spec fn view(&self) -> ActionV {
        match self {
            Action::AttachPid(p) => ActionV::AttachPid(*p),
            Action::RefreshRegions => ActionV::RefreshRegions,
            Action::AddClass => ActionV::AddClass,
            Action::OpenView(c) => ActionV::OpenView(*c),
            Action::CloseView(i) => ActionV::CloseView(*i),
            Action::SelectView(i) => ActionV::SelectView(*i),
            Action::SetExpr(c, e) => ActionV::SetExpr(*c, e@),
            Action::Toggle(r, p) => ActionV::Toggle(*r, p@),
            Action::ToggleCollapse(r, p) => ActionV::ToggleCollapse(*r, p@),
            Action::ExpandPointer { owner, idx, root, path } => ActionV::ExpandPointer {
                owner: *owner,
                idx: *idx,
                root: *root,
                path: path@,
            },
            Action::StartEdit(r, p, f, b) => ActionV::StartEdit(*r, p@, *f, b@),
            Action::CommitEdit => ActionV::CommitEdit,
            Action::CancelEdit => ActionV::CancelEdit,
            Action::RenameClass(c, n) => ActionV::RenameClass(*c, n@),
            Action::StartRenameClass(c) => ActionV::StartRenameClass(*c),
            Action::EndRenameClass => ActionV::EndRenameClass,
            Action::RemoveClass(c) => ActionV::RemoveClass(*c),
            Action::RemoveSelectedClasses => ActionV::RemoveSelectedClasses,
            Action::PushNode(c, k) => ActionV::PushNode(*c, *k),
            Action::AddBytes(c, n) => ActionV::AddBytes(*c, *n),
            Action::AddArray(c, k, n) => ActionV::AddArray(*c, *k, *n),
            Action::InsertAfter(c, i, k) => ActionV::InsertAfter(*c, *i, *k),
            Action::DeleteNode(c, i) => ActionV::DeleteNode(*c, *i),
            Action::DeleteSelected => ActionV::DeleteSelected,
            Action::ChangeKind(c, i, k) => ActionV::ChangeKind(*c, *i, *k),
            Action::SetArrayCount(c, i, n) => ActionV::SetArrayCount(*c, *i, *n),
            Action::ExpandAll => ActionV::ExpandAll,
            Action::CollapseAll => ActionV::CollapseAll,
            Action::Save(p) => ActionV::Save(p@),
            Action::Load(p) => ActionV::Load(p@),
            Action::GenerateProject(d) => ActionV::GenerateProject(d@),
        }
    }
}

/// What a list of actions says.
pub open spec fn actions_view(s: Seq<Action>) -> Seq<ActionV> {
    Seq::new(s.len(), |i: int| s[i]@)
}

/// What the shell has to do next.
#[derive(Debug)]
pub enum Effect {
    /// No work outside.
    Nothing,
    /// Attach to the process and read its regions and its name.
    Attach(i32),
    /// List the processes and read the target's regions.
    Refresh,
    /// Render the rows, and write this text to the one at this place.
    Write { root: usize, path: Vec<PathSeg>, text: String },
    /// Save the project.
    Save(String),
    /// Load a project.
    Load(String),
    /// Generate a project into this directory.
    Generate(String),
}

/// What an [`Effect`] says.
pub enum EffectV {
    Nothing,
    Attach(i32),
    Refresh,
    Write { root: usize, path: Seq<PathSeg>, text: Seq<char> },
    Save(Seq<char>),
    Load(Seq<char>),
    Generate(Seq<char>),
}

impl View for Effect {
    type V = EffectV;

    open spec fn view(&self) -> EffectV {
        match self {
            Effect::Nothing => EffectV::Nothing,
            Effect::Attach(p) => EffectV::Attach(*p),
            Effect::Refresh => EffectV::Refresh,
            Effect::Write { root, path, text } => EffectV::Write {
                root: *root,
                path: path@,
                text: text@,
            },
            Effect::Save(p) => EffectV::Save(p@),
            Effect::Load(p) => EffectV::Load(p@),
            Effect::Generate(d) => EffectV::Generate(d@),
        }
    }
}

// ---------------------------------------------------------------------------
// What an action does
// ---------------------------------------------------------------------------

impl GuiV {
    /// With another project state.
    pub open spec fn with_state(self, s: AppV) -> GuiV {
        GuiV { state: s, ..self }
    }

    /// With an error shown.
    pub open spec fn failed(self, e: Seq<char>) -> GuiV {
        GuiV { error: Some(e), ..self }
    }

    /// With the state that an edit leaves, and its error shown if it failed.
    pub open spec fn took(self, out: (AppV, Result<(), AppError>)) -> GuiV {
        let g = self.with_state(out.0);
        match out.1 {
            Ok(_) => g,
            Err(e) => g.failed(error_text(e)),
        }
    }

    /// With no row selected.
    pub open spec fn cleared(self) -> GuiV {
        GuiV { selected: Seq::empty(), sel_anchor: None, ..self }
    }

    /// With `path` as the current and the most recent project.
    pub open spec fn recalling(self, path: Seq<char>) -> GuiV {
        GuiV { save_path: path, recent: remembered(self.recent, path), ..self }
    }

    /// With another status line.
    pub open spec fn telling(self, status: Seq<char>) -> GuiV {
        GuiV { state: AppV { status, ..self.state }, ..self }
    }
}

/// The state with the classes `ids` removed, one after the other.
pub open spec fn without_classes(s: AppV, ids: Seq<ClassId>) -> AppV
    decreases ids.len(),
{
    if ids.len() == 0 {
        s
    } else {
        without_classes(s.without_class(ids[0]), ids.skip(1))
    }
}

/// The fields that the paths lead to, of those that lead to one.
pub open spec fn owners(v: RegistryV, class: ClassId, paths: Seq<Seq<PathSeg>>) -> Seq<Target>
    decreases paths.len(),
{
    if paths.len() == 0 {
        Seq::empty()
    } else {
        let head = owners(v, class, paths.drop_last());
        match walked(v, class, paths.last()) {
            Some(at) => head.push(at.owner),
            None => head,
        }
    }
}

/// What following a plain pointer leaves and returns.
pub open spec fn pointer_followed(
    s: AppV,
    owner: ClassId,
    idx: usize,
    root: usize,
    path: Seq<PathSeg>,
) -> (AppV, Result<(), AppError>) {
    let out = s.edited(pointer_expanded(s.project.registry, owner, idx));
    if out.1 is Ok {
        (
            AppV {
                expand: ExpandV {
                    expanded: out.0.expand.expanded.insert((root as int, path)),
                    ..out.0.expand
                },
                ..out.0
            },
            out.1,
        )
    } else {
        out
    }
}

/// The name of the class that is added next.
pub open spec fn next_class_name(g: GuiV) -> Seq<char> {
    if text::trim(g.new_class_name).len() == 0 {
        "Class"@ + text::written(g.state.project.registry.classes.len() + 1, 10, false)
    } else {
        g.new_class_name
    }
}

/// With a fresh, seeded class added.
#[verifier::opaque]
pub open spec fn class_added(g: GuiV) -> GuiV {
    let s = g.state;
    let id = s.project.registry.next_id;
    let made = s.snapped().with_registry(
        s.project.registry.with_class(next_class_name(g)),
    ).opened(id);
    GuiV {
        state: seeded(made, id, g.settings.default_kind, g.settings.seed_rows as nat),
        new_class_name: if text::trim(g.new_class_name).len() == 0 {
            g.new_class_name
        } else {
            Seq::empty()
        },
        ..g
    }
}

/// With every selected row's field deleted.
#[verifier::opaque]
pub open spec fn selection_deleted(g: GuiV) -> GuiV {
    match g.state.selected_class() {
        None => g,
        Some(class) => {
            let v = g.state.project.registry;
            let d = deleted(v, ordered(owners(v, class, g.selected), true));
            g.with_state(g.state.snapped().with_registry(d.0)).cleared()
        },
    }
}

/// What committing the open editor leaves and asks for.
#[verifier::opaque]
pub open spec fn edit_committed(g: GuiV) -> (GuiV, EffectV) {
    let shut = GuiV { editing: None, ..g };
    match g.editing {
        None => (shut, EffectV::Nothing),
        Some(ed) => match g.state.selected_class() {
            None => (shut, EffectV::Nothing),
            Some(class) => match walked(g.state.project.registry, class, ed.path) {
                None => (shut, EffectV::Nothing),
                Some(at) => {
                    let v = g.state.project.registry;
                    let (owner, idx) = at.owner;
                    match ed.field {
                        EditField::Name => (
                            shut.with_state(
                                g.state.edited(
                                    node_set(
                                        v,
                                        owner,
                                        idx,
                                        NodeV { name: ed.buf, ..v.nodes(owner)[idx as int] },
                                    ),
                                ).0,
                            ),
                            EffectV::Nothing,
                        ),
                        EditField::Comment => (
                            shut.with_state(
                                g.state.edited(
                                    node_set(
                                        v,
                                        owner,
                                        idx,
                                        NodeV { comment: ed.buf, ..v.nodes(owner)[idx as int] },
                                    ),
                                ).0,
                            ),
                            EffectV::Nothing,
                        ),
                        EditField::Value => (
                            shut,
                            EffectV::Write { root: ed.root, path: ed.path, text: ed.buf },
                        ),
                    }
                },
            },
        },
    }
}

/// The bounds of the machine that an action needs: ids for new classes, and
/// positions and offsets that fit.
pub open spec fn applicable(g: GuiV, a: ActionV) -> bool {
    match a {
        ActionV::AddClass => g.state.project.registry.next_id < u32::MAX,
        ActionV::ExpandPointer { owner, idx, root, path } => g.state.project.registry.next_id
            < u32::MAX,
        ActionV::InsertAfter(c, idx, k) => idx < usize::MAX,
        ActionV::AddBytes(c, n) => capped(g.state.project.registry.class_bytes(c)) + n
            <= usize::MAX,
        _ => true,
    }
}

/// With view `i` closed.
#[verifier::opaque]
pub open spec fn view_closed(g: GuiV, i: usize) -> GuiV {
    g.with_state(g.state.closed_view(i as int)).cleared()
}

/// With view `i` shown.
#[verifier::opaque]
pub open spec fn view_selected(g: GuiV, i: usize) -> GuiV {
    g.with_state(AppV { selected_view: i as int, ..g.state }).cleared()
}

/// With class `c` shown.
#[verifier::opaque]
pub open spec fn view_opened(g: GuiV, c: ClassId) -> GuiV {
    g.with_state(g.state.opened(c))
}

/// With another address expression of a class.
#[verifier::opaque]
pub open spec fn expr_set(g: GuiV, c: ClassId, e: Seq<char>) -> GuiV {
    let v = g.state.project.registry;
    g.with_state(
        g.state.edited(
            class_set(v, c, ClassV { address_expr: e, ..class_at(v.classes, c) }),
        ).0,
    )
}

/// With a pointer row followed, or no longer.
#[verifier::opaque]
pub open spec fn row_toggled(g: GuiV, root: usize, path: Seq<PathSeg>) -> GuiV {
    let e = g.state.expand;
    g.with_state(
        AppV {
            expand: ExpandV { expanded: toggled(e.expanded, (root as int, path)), ..e },
            ..g.state
        },
    )
}

/// With an aggregate row collapsed, or no longer.
#[verifier::opaque]
pub open spec fn row_collapsed(g: GuiV, root: usize, path: Seq<PathSeg>) -> GuiV {
    let e = g.state.expand;
    g.with_state(
        AppV {
            expand: ExpandV { collapsed: toggled(e.collapsed, (root as int, path)), ..e },
            ..g.state
        },
    )
}

/// With a class made for the target of a plain pointer.
#[verifier::opaque]
pub open spec fn target_made(g: GuiV, owner: ClassId, idx: usize, root: usize, path: Seq<PathSeg>) -> GuiV {
    g.took(pointer_followed(g.state, owner, idx, root, path))
}

/// With another name of a class.
#[verifier::opaque]
pub open spec fn class_renamed(g: GuiV, c: ClassId, n: Seq<char>) -> GuiV {
    let v = g.state.project.registry;
    g.with_state(
        g.state.edited(class_set(v, c, ClassV { name: n, ..class_at(v.classes, c) })).0,
    )
}

/// With the rename editor of a class open.
#[verifier::opaque]
pub open spec fn rename_started(g: GuiV, c: ClassId) -> GuiV {
    let v = g.state.project.registry;
    let buf = if v.has(c) {
        class_at(v.classes, c).name
    } else {
        Seq::empty()
    };
    GuiV { renaming_class: Some(ClassRenameV { id: c, buf, focused: false }), ..g }
}

/// With a class gone, from the selection too.
#[verifier::opaque]
pub open spec fn class_removed(g: GuiV, c: ClassId) -> GuiV {
    GuiV {
        selected_classes: without_item(g.selected_classes, c),
        ..g.with_state(g.state.without_class(c))
    }.cleared()
}

/// With the selected classes gone.
#[verifier::opaque]
pub open spec fn selected_removed(g: GuiV) -> GuiV {
    GuiV {
        selected_classes: Seq::empty(),
        class_anchor: None,
        ..g.with_state(without_classes(g.state, g.selected_classes))
    }.cleared()
}

/// With a field appended, named by its offset.
#[verifier::opaque]
pub open spec fn field_pushed(g: GuiV, c: ClassId, k: NodeKind) -> GuiV {
    let v = g.state.project.registry;
    let name = "field_"@ + text::written(capped(v.class_bytes(c)) as nat, 16, false);
    g.took(g.state.edited(pushed(v, c, seq![plain_node(name, k)])))
}

/// With bytes appended.
#[verifier::opaque]
pub open spec fn bytes_pushed(g: GuiV, c: ClassId, n: usize) -> GuiV {
    let v = g.state.project.registry;
    g.with_state(
        g.state.edited(
            pushed(v, c, byte_fields(capped(v.class_bytes(c)) as nat, n as nat)),
        ).0,
    )
}

/// With an array appended.
#[verifier::opaque]
pub open spec fn array_pushed(g: GuiV, c: ClassId, k: NodeKind, n: usize) -> GuiV {
    g.took(array_added(g.state, c, k, n))
}

/// With a field inserted below another.
#[verifier::opaque]
pub open spec fn field_inserted(g: GuiV, c: ClassId, i: usize, k: NodeKind) -> GuiV {
    let name = "field_"@ + text::written(i as nat, 10, false);
    g.took(
        g.state.edited(
            inserted(g.state.project.registry, c, (i + 1) as usize, plain_node(name, k)),
        ),
    )
}

/// With a field deleted.
#[verifier::opaque]
pub open spec fn field_deleted(g: GuiV, c: ClassId, i: usize) -> GuiV {
    g.with_state(g.state.edited(removed(g.state.project.registry, c, i)).0)
}

/// With another kind of a field.
#[verifier::opaque]
pub open spec fn field_changed(g: GuiV, c: ClassId, i: usize, k: NodeKind) -> GuiV {
    g.took(kind_changed(g.state, c, i, k))
}

/// With another element count of an array.
#[verifier::opaque]
pub open spec fn array_resized(g: GuiV, c: ClassId, i: usize, n: usize) -> GuiV {
    g.with_state(
        g.state.edited(array_counted(g.state.project.registry, c, i, n)).0,
    )
}

/// With everything in the selected view open.
#[verifier::opaque]
pub open spec fn all_opened_up(g: GuiV) -> GuiV {
    g.with_state(all_expanded(g.state))
}

/// With everything in the selected view collapsed.
#[verifier::opaque]
pub open spec fn all_closed_up(g: GuiV) -> GuiV {
    g.with_state(all_collapsed(g.state))
}

/// What an action leaves and asks for.
pub open spec fn applied(g: GuiV, a: ActionV) -> (GuiV, EffectV) {
    match a {
        ActionV::AttachPid(pid) => (g, EffectV::Attach(pid)),
        ActionV::RefreshRegions => (g, EffectV::Refresh),
        ActionV::AddClass => (class_added(g), EffectV::Nothing),
        ActionV::OpenView(c) => (view_opened(g, c), EffectV::Nothing),
        ActionV::CloseView(i) => (view_closed(g, i), EffectV::Nothing),
        ActionV::SelectView(i) => (view_selected(g, i), EffectV::Nothing),
        ActionV::SetExpr(c, e) => (expr_set(g, c, e), EffectV::Nothing),
        ActionV::Toggle(r, p) => (row_toggled(g, r, p), EffectV::Nothing),
        ActionV::ToggleCollapse(r, p) => (row_collapsed(g, r, p), EffectV::Nothing),
        ActionV::ExpandPointer { owner, idx, root, path } => (
            target_made(g, owner, idx, root, path),
            EffectV::Nothing,
        ),
        ActionV::StartEdit(root, path, field, buf) => (
            GuiV { editing: Some(EditingV { root, path, field, buf, focused: false }), ..g },
            EffectV::Nothing,
        ),
        ActionV::CommitEdit => edit_committed(g),
        ActionV::CancelEdit => (GuiV { editing: None, ..g }, EffectV::Nothing),
        ActionV::RenameClass(c, n) => (class_renamed(g, c, n), EffectV::Nothing),
        ActionV::StartRenameClass(c) => (rename_started(g, c), EffectV::Nothing),
        ActionV::EndRenameClass => (GuiV { renaming_class: None, ..g }, EffectV::Nothing),
        ActionV::RemoveClass(c) => (class_removed(g, c), EffectV::Nothing),
        ActionV::RemoveSelectedClasses => (selected_removed(g), EffectV::Nothing),
        ActionV::PushNode(c, k) => (field_pushed(g, c, k), EffectV::Nothing),
        ActionV::AddBytes(c, n) => (bytes_pushed(g, c, n), EffectV::Nothing),
        ActionV::AddArray(c, k, n) => (array_pushed(g, c, k, n), EffectV::Nothing),
        ActionV::InsertAfter(c, i, k) => (field_inserted(g, c, i, k), EffectV::Nothing),
        ActionV::DeleteNode(c, i) => (field_deleted(g, c, i), EffectV::Nothing),
        ActionV::DeleteSelected => (selection_deleted(g), EffectV::Nothing),
        ActionV::ChangeKind(c, i, k) => (field_changed(g, c, i, k), EffectV::Nothing),
        ActionV::SetArrayCount(c, i, n) => (array_resized(g, c, i, n), EffectV::Nothing),
        ActionV::ExpandAll => (all_opened_up(g), EffectV::Nothing),
        ActionV::CollapseAll => (all_closed_up(g), EffectV::Nothing),
        ActionV::Save(p) => (g, EffectV::Save(p)),
        ActionV::Load(p) => (g, EffectV::Load(p)),
        ActionV::GenerateProject(d) => (g, EffectV::Generate(d)),
    }
}

/// Whether an action works on the classes and views.
pub open spec fn on_classes(a: ActionV) -> bool {
    ||| a is AddClass
    ||| a is OpenView
    ||| a is CloseView
    ||| a is SelectView
    ||| a is SetExpr
    ||| a is RenameClass
    ||| a is RemoveClass
    ||| a is RemoveSelectedClasses
    ||| a is ExpandAll
    ||| a is CollapseAll
    ||| a is Toggle
    ||| a is ToggleCollapse
}

/// Whether an action works on the fields of a class.
pub open spec fn on_fields(a: ActionV) -> bool {
    ||| a is ExpandPointer
    ||| a is PushNode
    ||| a is AddBytes
    ||| a is AddArray
    ||| a is InsertAfter
    ||| a is DeleteNode
    ||| a is DeleteSelected
    ||| a is ChangeKind
    ||| a is SetArrayCount
}

impl ReClassApp {
    /// The project state is well formed.
    pub open spec fn wf(self) -> bool {
        self.state.wf()
    }

    /// Whether an action can be applied: ids, positions and offsets fit.
    pub fn can_apply(&self, action: &Action) -> (r: bool)
        requires
            self.wf(),
        ensures
            r == applicable(self@, action@),
    {
        match action {
            Action::AddClass => self.state.project.registry.next_id < u32::MAX,
            Action::ExpandPointer { .. } => self.state.project.registry.next_id < u32::MAX,
            Action::InsertAfter(_, idx, _) => *idx < usize::MAX,
            Action::AddBytes(c, n) => {
                let off: usize = self.state.project.registry.size_of(*c);
                *n <= usize::MAX - off
            },
            _ => true,
        }
    }

    /// Show the error of an edit that failed.
    fn note(&mut self, r: Result<(), AppError>)
        requires
            old(self).wf(),
        ensures
            final(self).wf(),
            final(self)@ == match r {
                Ok(_) => old(self)@,
                Err(e) => old(self)@.failed(error_text(e)),
            },
    {
        match r {
            Ok(_) => {},
            Err(e) => {
                self.error = Some(e.message());
            },
        }
    }

    /// Unselect every row.
    pub fn clear_selection(&mut self)
        requires
            old(self).wf(),
        ensures
            final(self).wf(),
            final(self)@ == old(self)@.cleared(),
    {
        self.selected = Vec::new();
        self.sel_anchor = None;
        proof {
            assert(paths_view(self.selected@) =~= Seq::<Seq<PathSeg>>::empty());
        }
    }

    /// Delete every selected node. Resolves each selected path to its owning
    /// `(class, index)`, then deletes per class in descending index order so
    /// earlier deletes don't shift later ones.
    pub fn delete_selected(&mut self)
        requires
            old(self).wf(),
        ensures
            final(self).wf(),
            final(self)@ == selection_deleted(old(self)@),
    {
        reveal(selection_deleted);
        let class: ClassId = match self.state.selected_class() {
            Some(c) => c,
            None => {
                return;
            },
        };
        let ghost v = self@.state.project.registry;
        let ghost paths = self@.selected;
        let mut targets: Vec<Target> = Vec::new();
        let mut i: usize = 0;
        proof {
            assert(paths.take(0) =~= Seq::<Seq<PathSeg>>::empty());
        }
        while i < self.selected.len()
            invariant
                i <= self.selected@.len(),
                self.wf(),
                v == self@.state.project.registry,
                paths == paths_view(self.selected@),
                targets@ == owners(v, class, paths.take(i as int)),
            decreases self.selected@.len() - i,
        {
            proof {
                let k = paths.take(i as int + 1);
                assert(k.drop_last() =~= paths.take(i as int));
                assert(k.last() == self.selected@[i as int]@);
            }
            match self.state.resolve_owner(class, &self.selected[i]) {
                Some(t) => {
                    targets.push(t);
                },
                None => {},
            }
            i = i + 1;
        }
        proof {
            assert(paths.take(i as int) =~= paths);
        }
        let _ = self.state.delete_many(&targets);
        self.clear_selection();
    }

    /// Close the open editor and store what it holds.
    pub fn commit_edit(&mut self) -> (r: Effect)
        requires
            old(self).wf(),
        ensures
            final(self).wf(),
            (final(self)@, r@) == edit_committed(old(self)@),
    {
        reveal(edit_committed);
        let taken = self.editing.take();
        let ed = match taken {
            Some(ed) => ed,
            None => {
                return Effect::Nothing;
            },
        };
        let class: ClassId = match self.state.selected_class() {
            Some(c) => c,
            None => {
                return Effect::Nothing;
            },
        };
        let (owner, idx): (ClassId, usize) = match self.state.resolve_owner(class, &ed.path) {
            Some(t) => t,
            None => {
                return Effect::Nothing;
            },
        };
        match ed.field {
            EditField::Name => {
                let _ = self.state.rename_node(owner, idx, ed.buf);
                Effect::Nothing
            },
            EditField::Comment => {
                let _ = self.state.set_comment(owner, idx, ed.buf);
                Effect::Nothing
            },
            EditField::Value => Effect::Write { root: ed.root, path: ed.path, text: ed.buf },
        }
    }

    /// Add a fresh class, named as typed or by its number, and seed it.
    fn add_class(&mut self)
        requires
            old(self).wf(),
            old(self)@.state.project.registry.next_id < u32::MAX,
        ensures
            final(self).wf(),
            final(self)@ == class_added(old(self)@),
    {
        reveal(class_added);
        let blank = text::is_blank(self.new_class_name.as_str());
        let name = if blank {
            proof {
                crate::registry::lemma_class_count(
                    self@.state.project.registry.classes,
                    self@.state.project.registry.next_id,
                );
            }
            let n: usize = self.state.project.registry.len();
            text::join2("Class", text::dec(n as u64 + 1).as_str())
        } else {
            self.new_class_name.clone()
        };
        if !blank {
            self.new_class_name = String::new();
            proof {
                assert(self.new_class_name@ =~= Seq::<char>::empty());
            }
        }
        let id: ClassId = self.state.add_class(name.as_str());
        seed_class(
            &mut self.state,
            id,
            &self.settings.default_kind,
            self.settings.seed_rows,
        );
    }

    /// Remove every selected class.
    fn remove_selected_classes(&mut self)
        requires
            old(self).wf(),
        ensures
            final(self).wf(),
            final(self)@ == selected_removed(old(self)@),
    {
        reveal(selected_removed);
        let ghost g = self@;
        let ghost ids = g.selected_classes;
        let mut i: usize = 0;
        proof {
            assert(ids.skip(0) =~= ids);
        }
        while i < self.selected_classes.len()
            invariant
                i <= self.selected_classes@.len(),
                self.wf(),
                ids == self.selected_classes@,
                self@ == g.with_state(self@.state),
                without_classes(self@.state, ids.skip(i as int)) == without_classes(g.state, ids),
            decreases self.selected_classes@.len() - i,
        {
            proof {
                assert(ids.skip(i as int)[0] == ids[i as int]);
                assert(ids.skip(i as int).skip(1) =~= ids.skip(i as int + 1));
            }
            let id: ClassId = self.selected_classes[i];
            self.state.remove_class(id);
            i = i + 1;
        }
        proof {
            assert(ids.skip(i as int) =~= Seq::<ClassId>::empty());
        }
        self.selected_classes = Vec::new();
        self.class_anchor = None;
        proof {
            assert(self.selected_classes@ =~= Seq::<ClassId>::empty());
        }
        self.clear_selection();
    }

    /// Close view `i`.
    fn on_close_view(&mut self, i: usize)
        requires
            old(self).wf(),
        ensures
            final(self).wf(),
            final(self)@ == view_closed(old(self)@, i),
    {
        reveal(view_closed);
        self.state.close_view(i);
        self.clear_selection();
    }

    /// Show view `i`.
    fn on_select_view(&mut self, i: usize)
        requires
            old(self).wf(),
        ensures
            final(self).wf(),
            final(self)@ == view_selected(old(self)@, i),
    {
        reveal(view_selected);
        self.state.selected_view = i;
        self.clear_selection();
    }

    /// Set the address expression of a class.
    fn on_set_expr(&mut self, c: ClassId, e: String)
        requires
            old(self).wf(),
        ensures
            final(self).wf(),
            final(self)@ == expr_set(old(self)@, c, e@),
    {
        reveal(expr_set);
        let _ = self.state.set_address_expr(c, e);
    }

    /// Follow a pointer row, or stop following it.
    fn on_toggle(&mut self, root: usize, path: Vec<PathSeg>)
        requires
            old(self).wf(),
        ensures
            final(self).wf(),
            final(self)@ == row_toggled(old(self)@, root, path@),
    {
        reveal(row_toggled);
        self.state.toggle_expand(root, path);
    }

    /// Collapse an aggregate row, or open it up.
    fn on_toggle_collapse(&mut self, root: usize, path: Vec<PathSeg>)
        requires
            old(self).wf(),
        ensures
            final(self).wf(),
            final(self)@ == row_collapsed(old(self)@, root, path@),
    {
        reveal(row_collapsed);
        self.state.toggle_collapse(root, path);
    }

    /// Make a class for the target of a plain pointer, and follow it.
    fn on_expand_pointer(&mut self, owner: ClassId, idx: usize, root: usize, path: Vec<PathSeg>)
        requires
            old(self).wf(),
            old(self)@.state.project.registry.next_id < u32::MAX,
        ensures
            final(self).wf(),
            final(self)@ == target_made(old(self)@, owner, idx, root, path@),
    {
        reveal(target_made);
        let r = self.state.expand_pointer(owner, idx, root, path);
        self.note(r);
    }

    /// Open the rename editor of a class.
    fn on_start_rename(&mut self, c: ClassId)
        requires
            old(self).wf(),
        ensures
            final(self).wf(),
            final(self)@ == rename_started(old(self)@, c),
    {
        reveal(rename_started);
        let buf = match self.state.project.registry.name_of(c) {
            Some(n) => n.to_owned(),
            None => {
                let none = String::new();
                proof {
                    assert(none@ =~= Seq::<char>::empty());
                }
                none
            },
        };
        self.renaming_class = Some(ClassRename { id: c, buf, focused: false });
    }

    /// Rename a class.
    fn on_rename_class(&mut self, c: ClassId, name: String)
        requires
            old(self).wf(),
        ensures
            final(self).wf(),
            final(self)@ == class_renamed(old(self)@, c, name@),
    {
        reveal(class_renamed);
        let _ = self.state.rename_class(c, name);
    }

    /// Remove a class, from the selection too.
    fn on_remove_class(&mut self, c: ClassId)
        requires
            old(self).wf(),
        ensures
            final(self).wf(),
            final(self)@ == class_removed(old(self)@, c),
    {
        reveal(class_removed);
        self.state.remove_class(c);
        self.selected_classes = drop_class(&self.selected_classes, c);
        self.clear_selection();
    }

    /// Append a field, named by its offset.
    fn on_push_node(&mut self, c: ClassId, kind: NodeKind)
        requires
            old(self).wf(),
        ensures
            final(self).wf(),
            final(self)@ == field_pushed(old(self)@, c, kind),
    {
        reveal(field_pushed);
        let off: usize = self.state.project.registry.size_of(c);
        let name = text::join2("field_", text::hex_lower(off as u64).as_str());
        let r = self.state.push_node(c, Node::new(name.as_str(), kind));
        self.note(r);
    }

    /// Append bytes.
    fn on_add_bytes(&mut self, c: ClassId, n: usize)
        requires
            old(self).wf(),
            capped(old(self)@.state.project.registry.class_bytes(c)) + n <= usize::MAX,
        ensures
            final(self).wf(),
            final(self)@ == bytes_pushed(old(self)@, c, n),
    {
        reveal(bytes_pushed);
        let _ = self.state.add_bytes(c, n);
    }

    /// Append an array.
    fn on_add_array(&mut self, c: ClassId, element: NodeKind, count: usize)
        requires
            old(self).wf(),
        ensures
            final(self).wf(),
            final(self)@ == array_pushed(old(self)@, c, element, count),
    {
        reveal(array_pushed);
        let r = self.state.add_array(c, element, count);
        self.note(r);
    }

    /// Insert a field below another.
    fn on_insert_after(&mut self, c: ClassId, idx: usize, kind: NodeKind)
        requires
            old(self).wf(),
            idx < usize::MAX,
        ensures
            final(self).wf(),
            final(self)@ == field_inserted(old(self)@, c, idx, kind),
    {
        reveal(field_inserted);
        let name = text::join2("field_", text::dec(idx as u64).as_str());
        let r = self.state.insert_after(c, idx, Node::new(name.as_str(), kind));
        self.note(r);
    }

    /// Delete a field.
    fn on_delete_node(&mut self, c: ClassId, idx: usize)
        requires
            old(self).wf(),
        ensures
            final(self).wf(),
            final(self)@ == field_deleted(old(self)@, c, idx),
    {
        reveal(field_deleted);
        let _ = self.state.delete_node(c, idx);
    }

    /// Change the kind of a field.
    fn on_change_kind(&mut self, c: ClassId, idx: usize, kind: NodeKind)
        requires
            old(self).wf(),
        ensures
            final(self).wf(),
            final(self)@ == field_changed(old(self)@, c, idx, kind),
    {
        reveal(field_changed);
        let r = self.state.change_kind(c, idx, kind);
        self.note(r);
    }

    /// Set the element count of an array.
    fn on_set_array_count(&mut self, c: ClassId, idx: usize, n: usize)
        requires
            old(self).wf(),
        ensures
            final(self).wf(),
            final(self)@ == array_resized(old(self)@, c, idx, n),
    {
        reveal(array_resized);
        let _ = self.state.set_array_count(c, idx, n);
    }

    /// Show a class.
    fn on_open_view(&mut self, c: ClassId)
        requires
            old(self).wf(),
        ensures
            final(self).wf(),
            final(self)@ == view_opened(old(self)@, c),
    {
        reveal(view_opened);
        self.state.open_view(c);
    }

    /// Open everything up.
    fn on_expand_all(&mut self)
        requires
            old(self).wf(),
        ensures
            final(self).wf(),
            final(self)@ == all_opened_up(old(self)@),
    {
        reveal(all_opened_up);
        self.state.expand_all();
    }

    /// Collapse everything.
    fn on_collapse_all(&mut self)
        requires
            old(self).wf(),
        ensures
            final(self).wf(),
            final(self)@ == all_closed_up(old(self)@),
    {
        reveal(all_closed_up);
        self.state.collapse_all();
    }

    /// Apply an action on the fields of a class.
    #[verifier::spinoff_prover]
    fn apply_to_fields(&mut self, action: Action) -> (r: Effect)
        requires
            old(self).wf(),
            applicable(old(self)@, action@),
            on_fields(action@),
        ensures
            final(self).wf(),
            (final(self)@, r@) == applied(old(self)@, action@),
    {
        match action {
            Action::ExpandPointer { owner, idx, root, path } => {
                self.on_expand_pointer(
                    owner,
                    idx,
                    root,
                    path,
                );
                Effect::Nothing
            },
            Action::PushNode(c, kind) => {
                self.on_push_node(c, kind);
                Effect::Nothing
            },
            Action::AddBytes(c, n) => {
                self.on_add_bytes(c, n);
                Effect::Nothing
            },
            Action::AddArray(c, element, count) => {
                self.on_add_array(c, element, count);
                Effect::Nothing
            },
            Action::InsertAfter(c, idx, kind) => {
                self.on_insert_after(c, idx, kind);
                Effect::Nothing
            },
            Action::DeleteNode(c, idx) => {
                self.on_delete_node(c, idx);
                Effect::Nothing
            },
            Action::DeleteSelected => {
                self.delete_selected();
                Effect::Nothing
            },
            Action::ChangeKind(c, idx, kind) => {
                self.on_change_kind(c, idx, kind);
                Effect::Nothing
            },
            Action::SetArrayCount(c, idx, n) => {
                self.on_set_array_count(c, idx, n);
                Effect::Nothing
            },
            _ => Effect::Nothing,
        }
    }

    /// Apply an action on the classes and views.
    #[verifier::spinoff_prover]
    fn apply_to_classes(&mut self, action: Action) -> (r: Effect)
        requires
            old(self).wf(),
            applicable(old(self)@, action@),
            on_classes(action@),
        ensures
            final(self).wf(),
            (final(self)@, r@) == applied(old(self)@, action@),
    {
        match action {
            Action::AddClass => {
                self.add_class();
                Effect::Nothing
            },
            Action::OpenView(c) => {
                self.on_open_view(c);
                Effect::Nothing
            },
            Action::CloseView(i) => {
                self.on_close_view(i);
                Effect::Nothing
            },
            Action::SelectView(i) => {
                self.on_select_view(i);
                Effect::Nothing
            },
            Action::SetExpr(c, e) => {
                self.on_set_expr(c, e);
                Effect::Nothing
            },
            Action::RenameClass(c, name) => {
                self.on_rename_class(c, name);
                Effect::Nothing
            },
            Action::RemoveClass(c) => {
                self.on_remove_class(c);
                Effect::Nothing
            },
            Action::RemoveSelectedClasses => {
                self.remove_selected_classes();
                Effect::Nothing
            },
            Action::ExpandAll => {
                self.on_expand_all();
                Effect::Nothing
            },
            Action::CollapseAll => {
                self.on_collapse_all();
                Effect::Nothing
            },
            Action::Toggle(root, path) => {
                self.on_toggle(root, path);
                Effect::Nothing
            },
            Action::ToggleCollapse(root, path) => {
                self.on_toggle_collapse(root, path);
                Effect::Nothing
            },
            _ => Effect::Nothing,
        }
    }

    /// Apply an action.
    pub fn apply(&mut self, action: Action) -> (r: Effect)
        requires
            old(self).wf(),
            applicable(old(self)@, action@),
        ensures
            final(self).wf(),
            (final(self)@, r@) == applied(old(self)@, action@),
    {
        match action {
            Action::AttachPid(pid) => Effect::Attach(pid),
            Action::RefreshRegions => Effect::Refresh,
            Action::StartEdit(root, path, field, buf) => {
                self.editing = Some(Editing { root, path, field, buf, focused: false });
                Effect::Nothing
            },
            Action::CommitEdit => self.commit_edit(),
            Action::CancelEdit => {
                self.editing = None;
                Effect::Nothing
            },
            Action::StartRenameClass(c) => {
                self.on_start_rename(c);
                Effect::Nothing
            },
            Action::EndRenameClass => {
                self.renaming_class = None;
                Effect::Nothing
            },
            Action::Save(path) => Effect::Save(path),
            Action::Load(path) => Effect::Load(path),
            Action::GenerateProject(dir) => Effect::Generate(dir),
            Action::AddClass
            | Action::OpenView(_)
            | Action::CloseView(_)
            | Action::SelectView(_)
            | Action::SetExpr(_, _)
            | Action::RenameClass(_, _)
            | Action::RemoveClass(_)
            | Action::RemoveSelectedClasses
            | Action::ExpandAll
            | Action::CollapseAll
            | Action::Toggle(_, _)
            | Action::ToggleCollapse(_, _) => self.apply_to_classes(action),
            _ => self.apply_to_fields(action),
        }
    }
}

} // verus!
