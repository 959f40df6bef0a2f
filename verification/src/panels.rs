//! The panels around the node table: the menu bar, the process picker and the
//! class list, the file browser and the memory map. Each function says what a
//! panel shows, or which action a click in it asks for.

use crate::gui::{
    actions_view, Action, ActionV, ClassRenameV, FileDialog, FileDialogV, FileMode, GuiV,
    ReClassApp,
};
use crate::lists;
use crate::memory::{perms_text, Region};
use crate::node::{capped, ClassId};
use crate::processes::{ProcInfo, ProcInfoV};
use crate::registry::{class_at, RegistryV};
use crate::selection::{click_class, clicked, has_class, Mods};
use crate::settings::{join_path, path_in};
use crate::text;
use vstd::prelude::*;

verus! {

/// What an action says, if there is one.
pub open spec fn asked(a: Option<Action>) -> Option<ActionV> {
    match a {
        Some(a) => Some(a@),
        None => None,
    }
}

// ---------------------------------------------------------------------------
// The menu bar
// ---------------------------------------------------------------------------

impl ReClassApp {
    /// The status line, with a dot that tells whether a target is attached.
    pub fn status_line(&self) -> (r: String)
        ensures
            r@ == (if self@.state.attached {
                "🟢"@
            } else {
                "⚪"@
            }) + " "@ + self@.state.status,
    {
        let dot = if self.state.attached() {
            "🟢"
        } else {
            "⚪"
        };
        text::join3(dot, " ", self.state.status.as_str())
    }

    /// The error line, if there is an error.
    pub fn error_line(&self) -> (r: Option<String>)
        ensures
            text::opt_view(r) == match self@.error {
                Some(e) => Some("⚠ "@ + e),
                None => None,
            },
    {
        match &self.error {
            Some(e) => Some(text::join2("⚠ ", e.as_str())),
            None => None,
        }
    }

    /// Save to the current path; not offered where that is blank.
    pub fn save_action(&self) -> (r: Option<Action>)
        ensures
            asked(r) == if text::trim(self@.save_path).len() == 0 {
                None
            } else {
                Some(ActionV::Save(self@.save_path))
            },
    {
        if text::is_blank(self.save_path.as_str()) {
            None
        } else {
            Some(Action::Save(self.save_path.clone()))
        }
    }

    /// Open recent project `i`.
    pub fn recent_action(&self, i: usize) -> (r: Option<Action>)
        ensures
            asked(r) == if i < self@.recent.len() {
                Some(ActionV::Load(self@.recent[i as int]))
            } else {
                None
            },
    {
        if i < self.recent.len() {
            Some(Action::Load(self.recent[i].clone()))
        } else {
            None
        }
    }
}

// ---------------------------------------------------------------------------
// The process picker
// ---------------------------------------------------------------------------

/// What `str::to_lowercase` makes of a text.
pub uninterp spec fn lowercase(s: Seq<char>) -> Seq<char>;

/// `str::to_lowercase`: the lowercase equivalent of `s`, by the Unicode tables
/// that std carries. Nothing more is claimed than that it depends on `s` alone.
#[verifier::external_body]
fn to_lowercase(s: &str) -> (r: String)
    ensures
        r@ == lowercase(s@),
{
    s.to_lowercase()
}

/// The most processes that are listed at a time.
pub const MAX_LISTED: usize = 400;

/// The positions of the names that hold `filter`, the first [`MAX_LISTED`] of
/// them.
pub open spec fn listed(names: Seq<Seq<char>>, filter: Seq<char>) -> Seq<usize>
    decreases names.len(),
{
    if names.len() == 0 {
        Seq::empty()
    } else {
        let head = listed(names.drop_last(), filter);
        if head.len() < MAX_LISTED && (filter.len() == 0 || text::occurs(names.last(), filter)) {
            head.push((names.len() - 1) as usize)
        } else {
            head
        }
    }
}

/// The positions of the names that hold `filter`, both in small letters; all
/// where it is empty. At most [`MAX_LISTED`].
pub fn filter_names(names: &Vec<String>, filter: &str) -> (r: Vec<usize>)
    ensures
        r@ == listed(text::texts(names@), filter@),
{
    let ghost all = text::texts(names@);
    let needle = text::chars_of(filter);
    let mut out: Vec<usize> = Vec::new();
    let mut i: usize = 0;
    proof {
        assert(all.take(0) =~= Seq::<Seq<char>>::empty());
    }
    while i < names.len()
        invariant
            i <= names@.len(),
            all == text::texts(names@),
            needle@ == filter@,
            out@ == listed(all.take(i as int), filter@),
        decreases names@.len() - i,
    {
        proof {
            let k = all.take(i as int + 1);
            assert(k.drop_last() =~= all.take(i as int));
            assert(k.last() == names@[i as int]@);
        }
        if out.len() < MAX_LISTED && (needle.len() == 0 || text::contains(
            &text::chars_of(names[i].as_str()),
            &needle,
        )) {
            out.push(i);
        }
        i = i + 1;
    }
    proof {
        assert(all.take(i as int) =~= all);
    }
    out
}

/// How a process is listed.
pub open spec fn process_label(p: ProcInfoV) -> Seq<char> {
    lists::right_aligned(text::written_signed(p.pid as int), 7) + "  "@ + p.name
}

/// How a process is listed.
pub fn proc_label(p: &ProcInfo) -> (r: String)
    ensures
        r@ == process_label(p@),
{
    let pid = lists::align_right(text::dec_signed(p.pid as i64).as_str(), 7);
    text::join3(pid.as_str(), "  ", p.name.as_str())
}

impl ReClassApp {
    /// The positions of the processes that are listed, as the filter has it.
    pub fn shown_processes(&self) -> (r: Vec<usize>)
        ensures
            r@ == listed(
                Seq::new(self@.processes.len(), |i: int| lowercase(self@.processes[i].name)),
                lowercase(self@.proc_filter),
            ),
    {
        let ghost want = Seq::new(
            self@.processes.len(),
            |i: int| lowercase(self@.processes[i].name),
        );
        let filter = to_lowercase(self.proc_filter.as_str());
        let mut names: Vec<String> = Vec::new();
        let mut i: usize = 0;
        while i < self.processes.len()
            invariant
                i <= self.processes@.len(),
                names@.len() == i,
                forall|k: int|
                    0 <= k < i ==> (#[trigger] names@[k])@ == lowercase(self@.processes[k].name),
            decreases self.processes@.len() - i,
        {
            names.push(to_lowercase(self.processes[i].name.as_str()));
            i = i + 1;
        }
        proof {
            assert(text::texts(names@) =~= want);
        }
        filter_names(&names, filter.as_str())
    }

    /// Attach to the process whose id was typed in.
    pub fn attach_input(&mut self) -> (r: Option<Action>)
        requires
            old(self).wf(),
        ensures
            final(self).wf(),
            (final(self)@, asked(r)) == input_attached(old(self)@),
    {
        match text::parse_i32(&text::trim_chars(&text::chars_of(self.pid_input.as_str()))) {
            Some(pid) => Some(Action::AttachPid(pid)),
            None => {
                self.error = Some("bad pid".to_owned());
                None
            },
        }
    }
}

// ---------------------------------------------------------------------------
// The class list
// ---------------------------------------------------------------------------

/// One line of the class list.
#[derive(Debug)]
pub struct ClassEntry {
    pub id: ClassId,
    pub label: String,
    pub selected: bool,
    /// Whether its name is being edited in place.
    pub renaming: bool,
}

/// What a [`ClassEntry`] says.
pub struct ClassEntryV {
    pub id: ClassId,
    pub label: Seq<char>,
    pub selected: bool,
    pub renaming: bool,
}

impl View for ClassEntry {
    type V = ClassEntryV;

    open spec fn view(&self) -> ClassEntryV {
        ClassEntryV {
            id: self.id,
            label: self.label@,
            selected: self.selected,
            renaming: self.renaming,
        }
    }
}

/// What a list of lines says.
pub open spec fn entries_view(s: Seq<ClassEntry>) -> Seq<ClassEntryV> {
    Seq::new(s.len(), |i: int| s[i]@)
}

/// The name of a class; `?` where there is none.
pub open spec fn class_title(v: RegistryV, id: ClassId) -> Seq<char> {
    if v.has(id) {
        class_at(v.classes, id).name
    } else {
        "?"@
    }
}

/// A number in capital hexadecimal with `0x` before it.
pub open spec fn hex_label(n: nat) -> Seq<char> {
    "0x"@ + text::written(n, 16, true)
}

/// A number in capital hexadecimal with `0x` before it.
pub fn hex_text(n: u64) -> (r: String)
    ensures
        r@ == hex_label(n as nat),
{
    text::join2("0x", text::hex_upper(n).as_str())
}

/// The line of class `id`.
pub open spec fn class_entry(g: GuiV, id: ClassId) -> ClassEntryV {
    let v = g.state.project.registry;
    ClassEntryV {
        id,
        label: class_title(v, id) + "  ("@ + hex_label(capped(v.class_bytes(id)) as nat) + ")"@,
        selected: g.selected_classes.contains(id),
        renaming: match g.renaming_class {
            Some(r) => r.id == id,
            None => false,
        },
    }
}

/// A click in the context menu of a class.
#[derive(Clone, Copy, Debug, PartialEq, Eq, Structural)]
pub enum ClassPick {
    Open,
    Rename,
    Delete,
    DeleteSelected,
}

impl ReClassApp {
    /// The name of a class; `?` where there is none.
    pub fn class_name(&self, id: ClassId) -> (r: String)
        requires
            self.wf(),
        ensures
            r@ == class_title(self@.state.project.registry, id),
    {
        match self.state.project.registry.name_of(id) {
            Some(n) => n.to_owned(),
            None => "?".to_owned(),
        }
    }

    /// The class list.
    pub fn class_entries(&self) -> (r: Vec<ClassEntry>)
        requires
            self.wf(),
        ensures
            entries_view(r@) == Seq::new(
                self@.state.project.registry.classes.len(),
                |i: int| class_entry(self@, self@.state.project.registry.classes[i].id),
            ),
    {
        let ids = self.state.project.registry.ids();
        let mut out: Vec<ClassEntry> = Vec::new();
        let mut i: usize = 0;
        while i < ids.len()
            invariant
                self.wf(),
                i <= ids@.len(),
                out@.len() == i,
                forall|k: int| 0 <= k < i ==> (#[trigger] out@[k])@ == class_entry(self@, ids@[k]),
            decreases ids@.len() - i,
        {
            let id: ClassId = ids[i];
            let size: usize = self.state.project.registry.size_of(id);
            let head = text::join3(
                self.class_name(id).as_str(),
                "  (",
                hex_text(size as u64).as_str(),
            );
            let renaming = match &self.renaming_class {
                Some(r) => r.id == id,
                None => false,
            };
            out.push(
                ClassEntry {
                    id,
                    label: text::join2(head.as_str(), ")"),
                    selected: has_class(&self.selected_classes, id),
                    renaming,
                },
            );
            i = i + 1;
        }
        proof {
            assert(entries_view(out@) =~= Seq::new(
                self@.state.project.registry.classes.len(),
                |i: int| class_entry(self@, self@.state.project.registry.classes[i].id),
            ));
        }
        out
    }

    /// A click on line `i` of the class list. A plain click also shows the
    /// class.
    pub fn click_entry(&mut self, i: usize, mods: Mods) -> (r: Option<Action>)
        requires
            old(self).wf(),
            i < old(self)@.state.project.registry.classes.len(),
        ensures
            final(self).wf(),
            (final(self)@, asked(r)) == entry_clicked(old(self)@, i, mods),
    {
        let ids = self.state.project.registry.ids();
        click_class(&mut self.selected_classes, &mut self.class_anchor, &ids, i, mods);
        if mods.shift || mods.command {
            None
        } else {
            Some(Action::OpenView(ids[i]))
        }
    }

    /// What leaving the rename editor asks for: Escape drops the new name,
    /// anything else takes it.
    pub fn rename_left(&self, escape: bool) -> (r: Vec<Action>)
        ensures
            actions_view(r@) == rename_asks(self@, escape),
    {
        let mut out: Vec<Action> = Vec::new();
        match &self.renaming_class {
            None => {
                proof {
                    assert(actions_view(out@) =~= Seq::<ActionV>::empty());
                }
            },
            Some(c) => {
                if !escape {
                    out.push(Action::RenameClass(c.id, c.buf.clone()));
                }
                out.push(Action::EndRenameClass);
                proof {
                    assert(actions_view(out@) =~= if escape {
                        seq![ActionV::EndRenameClass]
                    } else {
                        seq![ActionV::RenameClass(c.id, c.buf@), ActionV::EndRenameClass]
                    });
                }
            },
        }
        out
    }

    /// The label that offers to delete the selected classes: only where there
    /// are several.
    pub fn delete_classes_label(&self) -> (r: Option<String>)
        ensures
            text::opt_view(r) == if self@.selected_classes.len() > 1 {
                Some(
                    "Delete selected ("@ + text::written(self@.selected_classes.len(), 10, false)
                        + ")"@,
                )
            } else {
                None
            },
    {
        let n: usize = self.selected_classes.len();
        if n > 1 {
            Some(text::join3("Delete selected (", text::dec(n as u64).as_str(), ")"))
        } else {
            None
        }
    }
}

/// What a click in the context menu of class `id` asks for.
pub fn class_action(id: ClassId, pick: ClassPick) -> (r: Action)
    ensures
        r@ == match pick {
            ClassPick::Open => ActionV::OpenView(id),
            ClassPick::Rename => ActionV::StartRenameClass(id),
            ClassPick::Delete => ActionV::RemoveClass(id),
            ClassPick::DeleteSelected => ActionV::RemoveSelectedClasses,
        },
{
    match pick {
        ClassPick::Open => Action::OpenView(id),
        ClassPick::Rename => Action::StartRenameClass(id),
        ClassPick::Delete => Action::RemoveClass(id),
        ClassPick::DeleteSelected => Action::RemoveSelectedClasses,
    }
}

// ---------------------------------------------------------------------------
// The file browser
// ---------------------------------------------------------------------------

/// An entry of a directory.
#[derive(Debug)]
pub struct DirEntry {
    pub name: String,
    pub is_dir: bool,
}

/// Whether an entry is listed among the directories.
pub open spec fn is_shown_dir(e: DirEntry) -> bool {
    e.is_dir && !text::begins_with(e.name@, "."@)
}

/// Whether an entry is listed among the files.
pub open spec fn is_shown_file(e: DirEntry, mode: FileMode) -> bool {
    &&& !e.is_dir
    &&& !text::begins_with(e.name@, "."@)
    &&& text::finishes_with(e.name@, ".ron"@)
    &&& mode != FileMode::GenProject
}

/// The names of the entries that are listed among the directories, or among the
/// files.
pub open spec fn shown_names(es: Seq<DirEntry>, dirs: bool, mode: FileMode) -> Seq<Seq<char>>
    decreases es.len(),
{
    if es.len() == 0 {
        Seq::empty()
    } else {
        let head = shown_names(es.drop_last(), dirs, mode);
        let e = es.last();
        if if dirs {
            is_shown_dir(e)
        } else {
            is_shown_file(e, mode)
        } {
            head.push(e.name@)
        } else {
            head
        }
    }
}

/// The directories and the project files of a directory, each in order; hidden
/// entries are left out. Where only a directory is wanted no file is listed.
pub fn list_entries(entries: &Vec<DirEntry>, mode: FileMode) -> (r: (Vec<String>, Vec<String>))
    ensures
        text::texts(r.0@) == lists::sorted(shown_names(entries@, true, mode)),
        text::texts(r.1@) == lists::sorted(shown_names(entries@, false, mode)),
{
    let ghost all = entries@;
    let dot = text::chars_of(".");
    let ron = text::chars_of(".ron");
    let mut dirs: Vec<String> = Vec::new();
    let mut files: Vec<String> = Vec::new();
    let mut i: usize = 0;
    proof {
        assert(all.take(0) =~= Seq::<DirEntry>::empty());
        assert(text::texts(dirs@) =~= Seq::<Seq<char>>::empty());
        assert(text::texts(files@) =~= Seq::<Seq<char>>::empty());
    }
    while i < entries.len()
        invariant
            i <= entries@.len(),
            all == entries@,
            dot@ == "."@,
            ron@ == ".ron"@,
            text::texts(dirs@) == shown_names(all.take(i as int), true, mode),
            text::texts(files@) == shown_names(all.take(i as int), false, mode),
        decreases entries@.len() - i,
    {
        let e = &entries[i];
        proof {
            let k = all.take(i as int + 1);
            assert(k.drop_last() =~= all.take(i as int));
            assert(k.last() == *e);
        }
        let name = text::chars_of(e.name.as_str());
        if !text::starts_with(&name, &dot) {
            if e.is_dir {
                text::push_text(&mut dirs, e.name.as_str());
            } else if text::ends_with(&name, &ron) && mode != FileMode::GenProject {
                text::push_text(&mut files, e.name.as_str());
            }
        }
        i = i + 1;
    }
    proof {
        assert(all.take(i as int) =~= all);
    }
    (lists::sort(&dirs), lists::sort(&files))
}

/// The file name as typed, trimmed and with its extension.
pub open spec fn full_name(typed: Seq<char>) -> Seq<char> {
    let t = text::trim(typed);
    if text::finishes_with(t, ".ron"@) {
        t
    } else {
        t + ".ron"@
    }
}

/// What drawing the file browser leaves and asks for: it stays open until it is
/// closed, cancelled or confirmed.
pub open spec fn dialog_left(g: GuiV, window_open: bool, cancelled: bool, confirm: bool) -> (
    GuiV,
    Option<ActionV>,
) {
    let action = match g.file_dialog {
        Some(fd) => if confirm {
            confirmed(fd)
        } else {
            None
        },
        None => None,
    };
    (
        if window_open && !cancelled && action is None {
            g
        } else {
            GuiV { file_dialog: None, ..g }
        },
        action,
    )
}

/// What clicking entry `i` of the list of classes leaves and asks for: a plain
/// click shows the class too.
pub open spec fn entry_clicked(g: GuiV, i: usize, mods: Mods) -> (GuiV, Option<ActionV>) {
    let ids = Seq::new(
        g.state.project.registry.classes.len(),
        |k: int| g.state.project.registry.classes[k].id,
    );
    let c = clicked(g.selected_classes, g.class_anchor, ids, i, mods);
    (
        GuiV { selected_classes: c.0, class_anchor: c.1, ..g },
        if mods.shift || mods.command {
            None
        } else {
            Some(ActionV::OpenView(ids[i as int]))
        },
    )
}

/// What attaching to the process id typed in leaves and asks for.
pub open spec fn input_attached(g: GuiV) -> (GuiV, Option<ActionV>) {
    match text::i32_number(text::trim(g.pid_input)) {
        Some(pid) => (g, Some(ActionV::AttachPid(pid))),
        None => (g.failed("bad pid"@), None),
    }
}

/// What leaving the rename editor asks for.
pub open spec fn rename_asks(g: GuiV, escape: bool) -> Seq<ActionV> {
    match g.renaming_class {
        None => Seq::<ActionV>::empty(),
        Some(c) => if escape {
            seq![ActionV::EndRenameClass]
        } else {
            seq![ActionV::RenameClass(c.id, c.buf), ActionV::EndRenameClass]
        },
    }
}

/// What confirming the browser asks for; nothing while no name is given.
pub open spec fn confirmed(fd: FileDialogV) -> Option<ActionV> {
    match fd.mode {
        FileMode::GenProject => Some(ActionV::GenerateProject(fd.dir)),
        FileMode::Open => if text::trim(fd.filename).len() == 0 {
            None
        } else {
            Some(ActionV::Load(path_in(fd.dir, full_name(fd.filename))))
        },
        FileMode::Save => if text::trim(fd.filename).len() == 0 {
            None
        } else {
            Some(ActionV::Save(path_in(fd.dir, full_name(fd.filename))))
        },
    }
}

impl FileDialog {
    /// The title of the window.
    pub fn title(&self) -> (r: &'static str)
        ensures
            r@ == match self@.mode {
                FileMode::Open => "Open project"@,
                FileMode::Save => "Save project as"@,
                FileMode::GenProject => "Generate vmem project into…"@,
            },
    {
        match self.mode {
            FileMode::Open => "Open project",
            FileMode::Save => "Save project as",
            FileMode::GenProject => "Generate vmem project into…",
        }
    }

    /// The label of the button that confirms.
    pub fn confirm_label(&self) -> (r: &'static str)
        ensures
            r@ == match self@.mode {
                FileMode::Open => "Open"@,
                FileMode::Save => "Save"@,
                FileMode::GenProject => "Generate here"@,
            },
    {
        match self.mode {
            FileMode::Open => "Open",
            FileMode::Save => "Save",
            FileMode::GenProject => "Generate here",
        }
    }

    /// What the browser lists, given the entries of its directory or why they
    /// could not be read: directories, then files.
    pub fn list(&mut self, entries: Result<Vec<DirEntry>, String>) -> (r: (
        Vec<String>,
        Vec<String>,
    ))
        ensures
            final(self)@ == (FileDialogV {
                error: match entries {
                    Ok(_) => None,
                    Err(e) => Some("cannot read directory: "@ + e@),
                },
                ..old(self)@
            }),
            ({
                let es = match entries {
                    Ok(v) => v@,
                    Err(_) => Seq::empty(),
                };
                &&& text::texts(r.0@) == lists::sorted(shown_names(es, true, old(self)@.mode))
                &&& text::texts(r.1@) == lists::sorted(shown_names(es, false, old(self)@.mode))
            }),
    {
        match entries {
            Ok(v) => {
                self.error = None;
                list_entries(&v, self.mode)
            },
            Err(e) => {
                self.error = Some(text::join2("cannot read directory: ", e.as_str()));
                let none: Vec<DirEntry> = Vec::new();
                proof {
                    assert(none@ =~= Seq::<DirEntry>::empty());
                }
                list_entries(&none, self.mode)
            },
        }
    }

    /// Go into directory `name`.
    pub fn enter(&mut self, name: &str)
        ensures
            final(self)@ == (FileDialogV {
                dir: path_in(old(self)@.dir, name@),
                ..old(self)@
            }),
    {
        self.dir = join_path(self.dir.as_str(), name);
    }

    /// Go to the parent directory; stay where there is none.
    pub fn go_up(&mut self, parent: Option<String>)
        ensures
            final(self)@ == match parent {
                Some(p) => FileDialogV { dir: p@, ..old(self)@ },
                None => old(self)@,
            },
    {
        match parent {
            Some(p) => {
                self.dir = p;
            },
            None => {},
        }
    }

    /// What confirming asks for; nothing while no name is given.
    pub fn confirm(&self) -> (r: Option<Action>)
        ensures
            asked(r) == confirmed(self@),
    {
        if self.mode == FileMode::GenProject {
            return Some(Action::GenerateProject(self.dir.clone()));
        }
        let t = text::trim_chars(&text::chars_of(self.filename.as_str()));
        if t.len() == 0 {
            return None;
        }
        let name = if text::ends_with(&t, &text::chars_of(".ron")) {
            text::string_of(&t)
        } else {
            text::join2(text::string_of(&t).as_str(), ".ron")
        };
        let path = join_path(self.dir.as_str(), name.as_str());
        if self.mode == FileMode::Open {
            Some(Action::Load(path))
        } else {
            Some(Action::Save(path))
        }
    }
}

impl ReClassApp {
    /// The browser was drawn: it stays open unless its window was closed, it
    /// was cancelled, or what was confirmed can be done.
    pub fn dialog_drawn(&mut self, window_open: bool, cancelled: bool, confirm: bool) -> (r: Option<
        Action,
    >)
        requires
            old(self).wf(),
        ensures
            final(self).wf(),
            (final(self)@, asked(r)) == dialog_left(old(self)@, window_open, cancelled, confirm),
    {
        let action = match &self.file_dialog {
            Some(fd) => if confirm {
                fd.confirm()
            } else {
                None
            },
            None => None,
        };
        if !(window_open && !cancelled && action.is_none()) {
            self.file_dialog = None;
        }
        action
    }
}

// ---------------------------------------------------------------------------
// The memory map
// ---------------------------------------------------------------------------

/// A line of the memory map.
#[derive(Debug)]
pub struct MapRow {
    pub start: String,
    pub end: String,
    pub perms: String,
    pub path: String,
}

/// An address as the tables show it.
pub open spec fn address_label(a: nat) -> Seq<char> {
    "0x"@ + text::zero_padded(text::written(a, 16, true), 12)
}

/// An address as the tables show it.
pub fn address_text(a: u64) -> (r: String)
    ensures
        r@ == address_label(a as nat),
{
    text::join2("0x", text::hex_upper_padded(a, 12).as_str())
}

/// The line of a region.
pub fn map_row(region: &Region) -> (r: MapRow)
    ensures
        r.start@ == address_label(region@.start as nat),
        r.end@ == address_label(region@.end as nat),
        r.perms@ == perms_text(region@.perms),
        r.path@ == match region@.path {
            Some(p) => p,
            None => Seq::empty(),
        },
{
    MapRow {
        start: address_text(region.start),
        end: address_text(region.end),
        perms: region.perms.text(),
        path: match &region.path {
            Some(p) => p.clone(),
            None => {
                let none = String::new();
                proof {
                    assert(none@ =~= Seq::<char>::empty());
                }
                none
            },
        },
    }
}

/// The heading of the memory map: how many regions there are.
pub fn map_heading(regions: &Vec<Region>) -> (r: String)
    ensures
        r@ == text::written(regions@.len(), 10, false) + " regions"@,
{
    text::join2(text::dec(regions.len() as u64).as_str(), " regions")
}

// ---------------------------------------------------------------------------
// Laws
// ---------------------------------------------------------------------------

/// The list shows the entries whose name holds the filter, in their order: all of
/// them, up to as many as are listed at most. An empty filter holds everywhere.
pub proof fn law_list_shows_what_matches(names: Seq<Seq<char>>, filter: Seq<char>, i: int)
    requires
        names.len() <= usize::MAX,
    ensures
        listed(names, filter).len() <= MAX_LISTED,
        forall|a: int|
            0 <= a < listed(names, filter).len() ==> (#[trigger] listed(names, filter)[a]) < names.len()
                && (filter.len() == 0 || text::occurs(
                names[listed(names, filter)[a] as int],
                filter,
            )),
        forall|a: int, b: int|
            0 <= a < b < listed(names, filter).len() ==> (#[trigger] listed(names, filter)[a]) < (
            #[trigger] listed(names, filter)[b]),
        listed(names, filter).len() < MAX_LISTED && 0 <= i < names.len() && (filter.len() == 0
            || text::occurs(names[i], filter)) ==> listed(names, filter).contains(i as usize),
    decreases names.len(),
{
    if names.len() > 0 {
        let head = names.drop_last();
        law_list_shows_what_matches(head, filter, i);
        let a = listed(head, filter);
        let b = listed(names, filter);
        assert forall|k: int| 0 <= k < b.len() implies (#[trigger] b[k]) < names.len() && (
        filter.len() == 0 || text::occurs(names[b[k] as int], filter)) by {
            if k < a.len() {
                assert(b[k] == a[k]);
                assert(head[a[k] as int] == names[a[k] as int]);
            }
        }
        if b.len() < MAX_LISTED && 0 <= i < names.len() && (filter.len() == 0 || text::occurs(
            names[i],
            filter,
        )) {
            if i < head.len() {
                assert(head[i] == names[i]);
                let k = choose|k: int| 0 <= k < a.len() && a[k] == i as usize;
                assert(b[k] == i as usize);
            } else {
                assert(b[a.len() as int] == i as usize);
            }
        }
    }
}

/// The file browser lists the directories that are not hidden, and beside them
/// the project files that are not, but none where a directory is to be picked.
pub proof fn law_browser_lists_projects(es: Seq<DirEntry>, mode: FileMode, name: Seq<char>)
    ensures
        shown_names(es, true, mode).contains(name) <==> exists|k: int|
            0 <= k < es.len() && (#[trigger] es[k]).name@ == name && es[k].is_dir
                && !text::begins_with(name, "."@),
        shown_names(es, false, mode).contains(name) <==> mode != FileMode::GenProject && exists|k: int|
            0 <= k < es.len() && (#[trigger] es[k]).name@ == name && !es[k].is_dir
                && !text::begins_with(name, "."@) && text::finishes_with(name, ".ron"@),
    decreases es.len(),
{
    if es.len() > 0 {
        let head = es.drop_last();
        let n = es.len() - 1;
        law_browser_lists_projects(head, mode, name);
        assert(es[n] == es.last());
        assert forall|k: int| 0 <= k < n implies #[trigger] head[k] == es[k] by {}
        let d = shown_names(head, true, mode);
        let f = shown_names(head, false, mode);
        let dd = shown_names(es, true, mode);
        let ff = shown_names(es, false, mode);
        lemma_pushed_holds(d, dd, es[n].name@, name);
        lemma_pushed_holds(f, ff, es[n].name@, name);
        if exists|k: int|
            0 <= k < es.len() && (#[trigger] es[k]).name@ == name && es[k].is_dir
                && !text::begins_with(name, "."@) {
            let k = choose|k: int|
                0 <= k < es.len() && (#[trigger] es[k]).name@ == name && es[k].is_dir
                    && !text::begins_with(name, "."@);
            if k < n {
                assert(head[k].name@ == name);
            }
        }
        if exists|k: int|
            0 <= k < es.len() && (#[trigger] es[k]).name@ == name && !es[k].is_dir
                && !text::begins_with(name, "."@) && text::finishes_with(name, ".ron"@) {
            let k = choose|k: int|
                0 <= k < es.len() && (#[trigger] es[k]).name@ == name && !es[k].is_dir
                    && !text::begins_with(name, "."@) && text::finishes_with(name, ".ron"@);
            if k < n {
                assert(head[k].name@ == name);
            }
        }
    }
}

/// A list with an item more holds that and what it held.
proof fn lemma_pushed_holds(s: Seq<Seq<char>>, t: Seq<Seq<char>>, x: Seq<char>, y: Seq<char>)
    ensures
        t == s.push(x) ==> (t.contains(y) <==> s.contains(y) || y == x),
{
    if t == s.push(x) {
        if s.contains(y) {
            let k = choose|k: int| 0 <= k < s.len() && s[k] == y;
            assert(t[k] == y);
        }
        if y == x {
            assert(t[s.len() as int] == y);
        }
        if t.contains(y) {
            let k = choose|k: int| 0 <= k < t.len() && t[k] == y;
            if k < s.len() {
                assert(s[k] == y);
            }
        }
    }
}

/// The file browser opens and saves under the name typed in, in the directory
/// shown; the name gets the ending of a project file unless it has it. Without a
/// name nothing is opened or saved. A project is generated into the directory.
pub proof fn law_browser_confirms_the_file(fd: FileDialogV)
    ensures
        text::finishes_with(full_name(fd.filename), ".ron"@),
        text::begins_with(full_name(fd.filename), text::trim(fd.filename)),
        text::finishes_with(text::trim(fd.filename), ".ron"@) ==> full_name(fd.filename)
            == text::trim(fd.filename),
        fd.mode == FileMode::GenProject ==> confirmed(fd) == Some(ActionV::GenerateProject(fd.dir)),
        fd.mode != FileMode::GenProject && text::trim(fd.filename).len() == 0 ==> confirmed(fd)
            is None,
        fd.mode == FileMode::Open && text::trim(fd.filename).len() > 0 ==> confirmed(fd) == Some(
            ActionV::Load(path_in(fd.dir, full_name(fd.filename))),
        ),
        fd.mode == FileMode::Save && text::trim(fd.filename).len() > 0 ==> confirmed(fd) == Some(
            ActionV::Save(path_in(fd.dir, full_name(fd.filename))),
        ),
{
    reveal_strlit(".ron");
    let t = text::trim(fd.filename);
    let f = full_name(fd.filename);
    assert(f.take(t.len() as int) =~= t);
    if f.len() > t.len() {
        assert(f.skip(f.len() - 4) =~= ".ron"@);
    }
}

/// The file browser stays open until it is closed, cancelled or has a file to
/// confirm; only confirming asks for anything.
pub proof fn law_browser_closes_when_done(g: GuiV, open: bool, cancelled: bool, confirm: bool)
    ensures
        !confirm ==> dialog_left(g, open, cancelled, confirm).1 is None,
        !open || cancelled ==> dialog_left(g, open, cancelled, confirm).0.file_dialog is None,
        open && !cancelled && !confirm ==> dialog_left(g, open, cancelled, confirm).0 == g,
        dialog_left(g, open, cancelled, confirm).1 is Some ==> dialog_left(
            g,
            open,
            cancelled,
            confirm,
        ).0.file_dialog is None,
        dialog_left(g, open, cancelled, confirm).0.state == g.state,
{
}

/// A plain click on a class selects it alone and shows it; one with a modifier
/// only changes the selection. No class changes.
pub proof fn law_class_clicks_show_or_select(g: GuiV, i: usize, mods: Mods)
    requires
        i < g.state.project.registry.classes.len(),
    ensures
        ({
            let (h, a) = entry_clicked(g, i, mods);
            let id = g.state.project.registry.classes[i as int].id;
            &&& h.state == g.state
            &&& !mods.shift && !mods.command ==> h.selected_classes == seq![id] && a == Some(
                ActionV::OpenView(id),
            )
            &&& mods.shift || mods.command ==> a is None
            &&& h == (GuiV {
                selected_classes: h.selected_classes,
                class_anchor: h.class_anchor,
                ..g
            })
        }),
{
}

/// A process id typed in is the one attached to, whatever white space is around
/// it; anything else is refused with a message.
pub proof fn law_typed_id_is_attached(g: GuiV, pid: i32, before: Seq<char>, after: Seq<char>)
    requires
        text::all_white(before),
        text::all_white(after),
    ensures
        g.pid_input == before + text::written_signed(pid as int) + after ==> input_attached(g) == (
            g,
            Some(ActionV::AttachPid(pid)),
        ),
        text::trim(g.pid_input).len() == 0 ==> input_attached(g).1 is None && input_attached(
            g,
        ).0.error is Some && input_attached(g).0.state == g.state,
{
    let s = text::written_signed(pid as int);
    text::law_signed_numbers_read_back(pid, 0);
    let m: nat = if pid < 0 {
        (-pid) as nat
    } else {
        pid as nat
    };
    text::lemma_written_reads_back(m, 10, false);
    let d = text::written(m, 10, false);
    assert(text::is_digit(d[0], 10) && text::is_digit(d[d.len() - 1], 10));
    assert(s.last() == d.last());
    text::lemma_trim_padded(before, s, after);
}

/// Leaving the rename editor renames the class to what was typed, unless it was
/// left with Escape, and closes the editor.
pub proof fn law_rename_takes_what_was_typed(g: GuiV, r: ClassRenameV)
    requires
        g.renaming_class == Some(r),
    ensures
        rename_asks(g, false) == seq![ActionV::RenameClass(r.id, r.buf), ActionV::EndRenameClass],
        rename_asks(g, true) == seq![ActionV::EndRenameClass],
{
}

/// The line of a class tells its name and its size, whether it is selected and
/// whether it is being renamed.
pub proof fn law_class_line_tells_the_class(g: GuiV, id: ClassId)
    ensures
        ({
            let v = g.state.project.registry;
            let e = class_entry(g, id);
            let name = class_at(v.classes, id).name;
            &&& e.id == id
            &&& v.has(id) ==> e.label.len() >= name.len() && e.label.take(name.len() as int) == name
            &&& v.has(id) && v.class_bytes(id) <= usize::MAX ==> e.label.skip(name.len() as int)
                == "  ("@ + hex_label(v.class_bytes(id)) + ")"@
            &&& e.selected <==> exists|k: int|
                0 <= k < g.selected_classes.len() && g.selected_classes[k] == id
            &&& e.renaming <==> (g.renaming_class matches Some(r) && r.id == id)
        }),
{
    let v = g.state.project.registry;
    let e = class_entry(g, id);
    if v.has(id) {
        let name = class_at(v.classes, id).name;
        assert(e.label.take(name.len() as int) =~= name);
        assert(e.label.skip(name.len() as int) =~= "  ("@ + hex_label(
            capped(v.class_bytes(id)) as nat,
        ) + ")"@);
    }
}

} // verus!
