//! What the shell around the front-end does for it: starting it up, handing
//! back the outcomes of the work outside, keeping the control server in line
//! with the settings, and pacing the frames.

use crate::app_state::{empty_state, AppError, AppState, AppV};
use crate::effects::{lemma_class_set, lemma_other_fields};
use crate::flash::{Shown, ShownV};
use crate::gui::{FileDialog, FileDialogV, FileMode, GuiV, ReClassApp};
use crate::mcp_args::Language;
use crate::memory::{regions_view, Region, RegionV};
use crate::messages::error_text;
use crate::node::{ClassId, NodeKind, PathSeg};
use crate::palette::{seed_class, seed_fields, seeded};
use crate::processes::{procs_view, ProcInfo, ProcInfoV};
use crate::project::{dup_opt, Project, ProjectV};
use crate::registry::{class_at, class_set, ClassV};
use crate::rows::Row;
use crate::selection::paths_view;
use crate::settings::{changed, remember_path, Change, Settings};
use crate::text;
use vstd::prelude::*;

verus! {

// ---------------------------------------------------------------------------
// Start
// ---------------------------------------------------------------------------

/// The project that the front-end starts with: one class, seeded as the
/// settings say, at the address given.
pub open spec fn first_state(settings: Settings, addr: Option<Seq<char>>) -> AppV {
    let empty = AppV { array_limit: settings.array_cap as nat, ..empty_state() };
    let made = empty.snapped().with_registry(
        empty.project.registry.with_class("Class1"@),
    ).opened(0);
    let s = seeded(made, 0, settings.default_kind, settings.seed_rows as nat);
    match addr {
        Some(e) => {
            let v = s.project.registry;
            s.edited(class_set(v, 0, ClassV { address_expr: e, ..class_at(v.classes, 0) })).0
        },
        None => s,
    }
}

/// The front-end as it starts.
pub open spec fn first_gui(
    settings: Settings,
    addr: Option<Seq<char>>,
    processes: Seq<ProcInfoV>,
    recent: Seq<Seq<char>>,
) -> GuiV {
    GuiV {
        state: first_state(settings, addr),
        editing: None,
        processes,
        proc_filter: Seq::empty(),
        pid_input: Seq::empty(),
        new_class_name: Seq::empty(),
        save_path: "project.ron"@,
        show_side_panel: true,
        show_memory_map: false,
        show_codegen: false,
        codegen_lang: Language::Rust,
        codegen_cache: Seq::empty(),
        error: None,
        add_bytes_n: 1024,
        selected: Seq::empty(),
        sel_anchor: None,
        array_elem: 0,
        array_count: 8,
        selected_classes: Seq::empty(),
        class_anchor: None,
        renaming_class: None,
        flash: Seq::empty(),
        show_kernel_unavailable: false,
        recent,
        file_dialog: None,
        settings,
        show_settings: false,
        mcp: None,
    }
}

/// An empty text.
fn no_text() -> (r: String)
    ensures
        r@ == Seq::<char>::empty(),
{
    let r = String::new();
    proof {
        assert(r@ =~= Seq::<char>::empty());
    }
    r
}

/// The starter project.
fn first_project(settings: &Settings, initial_addr: Option<String>) -> (r: AppState)
    ensures
        r.wf(),
        r@ == first_state(*settings, text::opt_view(initial_addr)),
{
    let mut state = AppState::new();
    state.array_limit = settings.array_cap;
    let c1: ClassId = state.add_class("Class1");
    seed_class(&mut state, c1, &settings.default_kind, settings.seed_rows);
    match initial_addr {
        Some(addr) => {
            let _ = state.set_address_expr(c1, addr);
        },
        None => {},
    }
    state
}

impl ReClassApp {
    /// Start with a seeded class, so that the table shows memory as soon as a
    /// process is attached. The shell then applies what its arguments ask for.
    pub fn new(
        settings: Settings,
        use_kernel: bool,
        initial_addr: Option<String>,
        processes: Vec<ProcInfo>,
        recent: Vec<String>,
    ) -> (r: ReClassApp)
        ensures
            r.wf(),
            r@ == first_gui(
                Settings { use_kernel, ..settings },
                text::opt_view(initial_addr),
                procs_view(processes@),
                text::texts(recent@),
            ),
    {
        let mut settings = settings;
        settings.use_kernel = use_kernel;
        let state = first_project(&settings, initial_addr);
        let r = ReClassApp {
            state,
            editing: None,
            processes,
            proc_filter: no_text(),
            pid_input: no_text(),
            new_class_name: no_text(),
            save_path: "project.ron".to_owned(),
            show_side_panel: true,
            show_memory_map: false,
            show_codegen: false,
            codegen_lang: Language::Rust,
            codegen_cache: no_text(),
            error: None,
            add_bytes_n: 1024,
            selected: Vec::new(),
            sel_anchor: None,
            array_elem: 0,
            array_count: 8,
            selected_classes: Vec::new(),
            class_anchor: None,
            renaming_class: None,
            flash: crate::flash::FlashTracker::new(),
            show_kernel_unavailable: false,
            recent,
            file_dialog: None,
            settings,
            show_settings: false,
            mcp: None,
        };
        proof {
            assert(paths_view(r.selected@) =~= Seq::<Seq<PathSeg>>::empty());
            assert(r.selected_classes@ =~= Seq::<ClassId>::empty());
        }
        r
    }
}

// ---------------------------------------------------------------------------
// Outcomes of the work outside
// ---------------------------------------------------------------------------

/// What is known of a process just attached: its mapped regions, if they could
/// be read, and its name, if it has one.
#[derive(Debug)]
pub struct Attached {
    pub regions: Option<Vec<Region>>,
    pub name: Option<String>,
}

/// What the regions read say; none where they could not be read.
pub open spec fn regions_read(r: Option<Vec<Region>>) -> Seq<RegionV> {
    match r {
        Some(v) => regions_view(v@),
        None => Seq::empty(),
    }
}

/// With a process attached.
pub open spec fn attached_to(g: GuiV, pid: i32, a: Attached) -> GuiV {
    let name = text::opt_view(a.name);
    let label = match name {
        Some(n) => n,
        None => "?"@,
    };
    GuiV {
        state: AppV {
            attached: true,
            regions: regions_read(a.regions),
            project: ProjectV { attach_name: name, ..g.state.project },
            status: "attached to "@ + label + " (pid "@ + text::written_signed(pid as int) + ")"@,
            ..g.state
        },
        error: None,
        ..g
    }
}

/// The first of `rows` that is row `path` of view `root`.
pub open spec fn row_at(rows: Seq<Row>, root: usize, path: Seq<PathSeg>) -> Option<Row>
    decreases rows.len(),
{
    if rows.len() == 0 {
        None
    } else if rows[0].root == root && rows[0].path@ == path {
        Some(rows[0])
    } else {
        row_at(rows.skip(1), root, path)
    }
}

/// Where the value of row `path` of view `root` is written, and of which kind
/// it is.
pub fn edit_target(rows: &Vec<Row>, root: usize, path: &Vec<PathSeg>) -> (r: Option<
    (u64, NodeKind),
>)
    ensures
        r == match row_at(rows@, root, path@) {
            Some(row) => Some((row.address, row.kind)),
            None => None,
        },
{
    let ghost all = rows@;
    let mut i: usize = 0;
    proof {
        assert(all.skip(0) =~= all);
    }
    while i < rows.len()
        invariant
            i <= rows@.len(),
            all == rows@,
            row_at(all.skip(i as int), root, path@) == row_at(all, root, path@),
        decreases rows@.len() - i,
    {
        proof {
            assert(all.skip(i as int)[0] == all[i as int]);
            assert(all.skip(i as int).skip(1) =~= all.skip(i as int + 1));
        }
        let row = &rows[i];
        if row.root == root && crate::expand::same_path(&row.path, path) {
            return Some((row.address, row.kind.dup()));
        }
        i = i + 1;
    }
    None
}

/// With the project loaded from `path`.
pub open spec fn loaded_from(g: GuiV, path: Seq<char>, p: ProjectV) -> GuiV {
    g.with_state(g.state.loaded(p)).telling("loaded "@ + path).cleared().recalling(path)
}

/// With the outcome of attaching to the process that a loaded project names.
pub open spec fn reattached(
    g: GuiV,
    path: Seq<char>,
    name: Seq<char>,
    found: Option<Option<Vec<Region>>>,
) -> GuiV {
    match found {
        Some(regions) => g.with_state(
            AppV { attached: true, regions: regions_read(regions), ..g.state },
        ).telling("loaded "@ + path + "; attached to "@ + name),
        None => g.telling("loaded "@ + path + "; '"@ + name + "' not running"@),
    }
}

impl ReClassApp {
    /// Record `path` as the current project and push it to the front of the
    /// recent list (deduped, capped); the shell then stores the list.
    pub fn remember(&mut self, path: &str)
        requires
            old(self).wf(),
        ensures
            final(self).wf(),
            final(self)@ == old(self)@.recalling(path@),
    {
        self.save_path = path.to_owned();
        remember_path(&mut self.recent, path);
    }

    /// Take the outcome of attaching to `pid`.
    pub fn after_attach(&mut self, pid: i32, outcome: Result<Attached, String>)
        requires
            old(self).wf(),
        ensures
            final(self).wf(),
            final(self)@ == match outcome {
                Ok(a) => attached_to(old(self)@, pid, a),
                Err(e) => old(self)@.failed(
                    "attach pid "@ + text::written_signed(pid as int) + ": "@ + e@,
                ),
            },
    {
        let number = text::dec_signed(pid as i64);
        match outcome {
            Ok(a) => {
                self.state.set_backend(a.regions);
                // remember the process name so the project can auto-attach on load
                let label = match &a.name {
                    Some(n) => n.clone(),
                    None => "?".to_owned(),
                };
                self.state.project.attach_name = a.name;
                let head = text::join3("attached to ", label.as_str(), " (pid ");
                self.state.status = text::join3(head.as_str(), number.as_str(), ")");
                self.error = None;
            },
            Err(e) => {
                let head = text::join3("attach pid ", number.as_str(), ": ");
                self.error = Some(text::join2(head.as_str(), e.as_str()));
            },
        }
    }

    /// Take the processes and the target's regions as just read.
    pub fn after_refresh(&mut self, processes: Vec<ProcInfo>, regions: Option<Vec<Region>>)
        requires
            old(self).wf(),
        ensures
            final(self).wf(),
            final(self)@ == (GuiV {
                processes: procs_view(processes@),
                state: AppV {
                    regions: if old(self)@.state.attached {
                        regions_read(regions)
                    } else {
                        Seq::empty()
                    },
                    ..old(self)@.state
                },
                ..old(self)@
            }),
    {
        self.processes = processes;
        self.state.refresh_regions(regions);
    }

    /// Take the outcome of writing a value.
    pub fn after_write(&mut self, outcome: Result<(), AppError>)
        requires
            old(self).wf(),
        ensures
            final(self).wf(),
            final(self)@ == match outcome {
                Ok(_) => old(self)@,
                Err(e) => old(self)@.failed(error_text(e)),
            },
    {
        match outcome {
            Ok(_) => {},
            Err(e) => {
                self.error = Some(e.message());
            },
        }
    }

    /// Take the outcome of saving to `path`.
    pub fn after_save(&mut self, path: &str, outcome: Result<(), AppError>)
        requires
            old(self).wf(),
        ensures
            final(self).wf(),
            final(self)@ == match outcome {
                Ok(_) => old(self)@.telling("saved "@ + path@).recalling(path@),
                Err(e) => old(self)@.failed(error_text(e)),
            },
    {
        match outcome {
            Ok(_) => {
                self.state.status = text::join2("saved ", path);
                self.remember(path);
            },
            Err(e) => {
                self.error = Some(e.message());
            },
        }
    }

    /// Take the outcome of loading from `path`. Returns the name of the process
    /// to attach to, if the project names one.
    pub fn after_load(&mut self, path: &str, outcome: Result<Project, AppError>) -> (r: Option<
        String,
    >)
        requires
            old(self).wf(),
            outcome is Ok ==> (outcome->Ok_0)@.registry.wf(),
        ensures
            final(self).wf(),
            final(self)@ == match outcome {
                Ok(p) => loaded_from(old(self)@, path@, p@),
                Err(e) => old(self)@.failed(error_text(e)),
            },
            text::opt_view(r) == match outcome {
                Ok(p) => p@.attach_name,
                Err(_) => None::<Seq<char>>,
            },
    {
        match outcome {
            Ok(p) => {
                self.state.load(p);
                self.state.status = text::join2("loaded ", path);
                self.clear_selection();
                self.remember(path);
                dup_opt(&self.state.project.attach_name)
            },
            Err(e) => {
                self.error = Some(e.message());
                None
            },
        }
    }

    /// Take the outcome of attaching to `name`, as the project loaded from
    /// `path` asks: the process's regions if it runs.
    pub fn after_reattach(&mut self, path: &str, name: &str, found: Option<Option<Vec<Region>>>)
        requires
            old(self).wf(),
        ensures
            final(self).wf(),
            final(self)@ == reattached(old(self)@, path@, name@, found),
    {
        let head = text::join2("loaded ", path);
        match found {
            Some(regions) => {
                self.state.set_backend(regions);
                self.state.status = text::join3(head.as_str(), "; attached to ", name);
            },
            None => {
                let mid = text::join3(head.as_str(), "; '", name);
                self.state.status = text::join2(mid.as_str(), "' not running");
            },
        }
    }

    /// Take the outcome of generating a project into `dir`: the number of files.
    pub fn after_generate(&mut self, dir: &str, outcome: Result<usize, AppError>)
        requires
            old(self).wf(),
        ensures
            final(self).wf(),
            final(self)@ == match outcome {
                Ok(n) => GuiV {
                    error: None,
                    ..old(self)@.telling(
                        "generated project ("@ + text::written(n as nat, 10, false)
                            + " files) in "@ + dir@,
                    )
                },
                Err(e) => old(self)@.failed("generate project: "@ + error_text(e)),
            },
    {
        match outcome {
            Ok(n) => {
                let head = text::join3(
                    "generated project (",
                    text::dec(n as u64).as_str(),
                    " files) in ",
                );
                self.state.status = text::join2(head.as_str(), dir);
                self.error = None;
            },
            Err(e) => {
                self.error = Some(text::join2("generate project: ", e.message().as_str()));
            },
        }
    }
}

// ---------------------------------------------------------------------------
// The control server
// ---------------------------------------------------------------------------

/// What to do with the control server.
#[derive(Clone, Copy, Debug, PartialEq, Eq, Structural)]
pub struct McpStep {
    /// Stop the one that runs.
    pub stop: bool,
    /// Start one on this port.
    pub start: Option<u16>,
}

/// The port that the settings ask for, if any.
pub open spec fn wanted_port(s: Settings) -> Option<u16> {
    if s.mcp_enabled {
        Some(s.mcp_port)
    } else {
        None
    }
}

/// The state and the work when the server is brought in line with the settings.
pub open spec fn synced(g: GuiV) -> (GuiV, McpStep) {
    if wanted_port(g.settings) == g.mcp {
        (g, McpStep { stop: false, start: None })
    } else {
        (
            GuiV { mcp: None, ..g },
            McpStep { stop: g.mcp is Some, start: wanted_port(g.settings) },
        )
    }
}

/// With the outcome of starting a server on `port`.
pub open spec fn server_started(g: GuiV, port: u16, outcome: Result<(), String>) -> GuiV {
    match outcome {
        Ok(_) => GuiV { mcp: Some(port), ..g }.telling(
            "MCP server on 127.0.0.1:"@ + text::written(port as nat, 10, false),
        ),
        Err(e) => GuiV {
            settings: Settings { mcp_enabled: false, ..g.settings },
            ..g.failed("MCP: "@ + e@)
        },
    }
}

impl ReClassApp {
    /// Bring the control server in line with the settings: (re)start on enable
    /// or port change, stop on disable. Nothing to do when already in line.
    pub fn sync_mcp(&mut self) -> (r: McpStep)
        requires
            old(self).wf(),
        ensures
            final(self).wf(),
            (final(self)@, r) == synced(old(self)@),
    {
        let current: Option<u16> = self.mcp;
        let in_line = match current {
            Some(p) => self.settings.mcp_enabled && p == self.settings.mcp_port,
            None => !self.settings.mcp_enabled,
        };
        if in_line {
            return McpStep { stop: false, start: None };
        }
        self.mcp = None;
        let start: Option<u16> = if self.settings.mcp_enabled {
            Some(self.settings.mcp_port)
        } else {
            None
        };
        McpStep { stop: current.is_some(), start }
    }

    /// Take the outcome of starting the control server. A server that cannot
    /// start is switched off in the settings, which the shell then stores, so
    /// that it is not tried again with every frame.
    pub fn after_mcp_start(&mut self, port: u16, outcome: Result<(), String>)
        requires
            old(self).wf(),
        ensures
            final(self).wf(),
            final(self)@ == server_started(old(self)@, port, outcome),
    {
        match outcome {
            Ok(_) => {
                self.mcp = Some(port);
                self.state.status = text::join2(
                    "MCP server on 127.0.0.1:",
                    text::dec(port as u64).as_str(),
                );
            },
            Err(e) => {
                self.error = Some(text::join2("MCP: ", e.as_str()));
                self.settings.mcp_enabled = false;
            },
        }
    }
}

/// Whatever came of it, once the control server was brought in line with the
/// settings there is nothing more to do.
pub proof fn law_sync_settles(g: GuiV, outcome: Result<(), String>)
    ensures
        ({
            let (after, step) = synced(g);
            let settled = match step.start {
                Some(port) => server_started(after, port, outcome),
                None => after,
            };
            synced(settled) == (settled, McpStep { stop: false, start: None })
        }),
{
}

// ---------------------------------------------------------------------------
// Settings, code generation, the file browser
// ---------------------------------------------------------------------------

/// What happens in the code-generation window.
#[derive(Clone, Copy, Debug, PartialEq, Eq, Structural)]
pub enum CodegenEvent {
    /// It is shown.
    Shown,
    /// A language was picked.
    Pick(Language),
    /// The text is asked for again.
    Regenerate,
}

impl ReClassApp {
    /// Make a change in the settings; the shell then stores them.
    pub fn change_setting(&mut self, c: Change)
        requires
            old(self).wf(),
        ensures
            final(self).wf(),
            final(self)@ == (GuiV {
                settings: changed(old(self)@.settings, c),
                state: AppV {
                    array_limit: changed(old(self)@.settings, c).array_cap as nat,
                    ..old(self)@.state
                },
                ..old(self)@
            }),
    {
        self.settings.change(c);
        self.state.array_limit = self.settings.array_cap;
    }

    /// Take an event of the code-generation window. Returns whether the text is
    /// to be generated.
    pub fn codegen_event(&mut self, e: CodegenEvent) -> (r: bool)
        requires
            old(self).wf(),
        ensures
            final(self).wf(),
            final(self)@ == (GuiV {
                codegen_lang: match e {
                    CodegenEvent::Pick(lang) => lang,
                    _ => old(self)@.codegen_lang,
                },
                ..old(self)@
            }),
            r == (!(e is Shown) || old(self)@.codegen_cache.len() == 0),
    {
        let empty = text::chars_of(self.codegen_cache.as_str()).len() == 0;
        match e {
            CodegenEvent::Shown => empty,
            CodegenEvent::Pick(lang) => {
                self.codegen_lang = lang;
                true
            },
            CodegenEvent::Regenerate => true,
        }
    }

    /// Open the file browser. Starts in the current project's directory where
    /// that exists (`parent`), else at home, else here; Save mode fills in the
    /// current file name.
    pub fn open_file_dialog(
        &mut self,
        mode: FileMode,
        parent: Option<String>,
        home: Option<String>,
        file_name: Option<String>,
    )
        requires
            old(self).wf(),
        ensures
            final(self).wf(),
            final(self)@ == (GuiV {
                file_dialog: Some(
                    dialog_opened(
                        mode,
                        text::opt_view(parent),
                        text::opt_view(home),
                        text::opt_view(file_name),
                    ),
                ),
                ..old(self)@
            }),
    {
        let dir = match parent {
            Some(p) => p,
            None => match home {
                Some(h) => h,
                None => ".".to_owned(),
            },
        };
        let filename = match mode {
            FileMode::Save => match file_name {
                Some(f) => f,
                None => "project.ron".to_owned(),
            },
            _ => no_text(),
        };
        self.file_dialog = Some(FileDialog { mode, dir, filename, error: None });
    }
}

// ---------------------------------------------------------------------------
// Frames
// ---------------------------------------------------------------------------

/// What a row shows, as far as a change of it is highlighted.
pub open spec fn signature(row: Row) -> ShownV {
    ShownV {
        spot: (row.root as int, row.path@),
        sig: row.value@ + seq!['\u{1}'] + row.hex@,
    }
}

/// What the rows show.
pub fn shown_rows(rows: &Vec<Row>) -> (r: Vec<Shown>)
    ensures
        crate::flash::shown_view(r@) == Seq::new(rows@.len(), |i: int| signature(rows@[i])),
{
    let mut out: Vec<Shown> = Vec::new();
    let mut i: usize = 0;
    while i < rows.len()
        invariant
            i <= rows@.len(),
            out@.len() == i,
            forall|k: int| 0 <= k < i ==> (#[trigger] out@[k])@ == signature(rows@[k]),
        decreases rows@.len() - i,
    {
        let row = &rows[i];
        let mut sig = row.value.clone();
        sig.push('\u{1}');
        sig.append(row.hex.as_str());
        proof {
            assert(sig@ =~= row.value@ + seq!['\u{1}'] + row.hex@);
        }
        out.push(Shown { root: row.root, path: crate::expand::dup_path(&row.path), sig });
        i = i + 1;
    }
    proof {
        assert(crate::flash::shown_view(out@) =~= Seq::new(
            rows@.len(),
            |i: int| signature(rows@[i]),
        ));
    }
    out
}

impl ReClassApp {
    /// How often per second the table is drawn: at least once.
    pub fn refresh_hz(&self) -> (r: u32)
        ensures
            r == if self@.state.project.refresh_hz >= 1 {
                self@.state.project.refresh_hz
            } else {
                1
            },
    {
        if self.state.project.refresh_hz >= 1 {
            self.state.project.refresh_hz
        } else {
            1
        }
    }

    /// Note which rows changed, at moment `now`; a highlight that began at
    /// `faded` is over.
    pub fn track_changes(&mut self, rows: &Vec<Row>, now: u64, faded: u64)
        requires
            old(self).wf(),
        ensures
            final(self).wf(),
            final(self)@ == (GuiV {
                flash: crate::flash::updated(
                    old(self)@.flash,
                    Seq::empty(),
                    Seq::new(rows@.len(), |i: int| signature(rows@[i])),
                    now,
                    faded,
                ),
                ..old(self)@
            }),
    {
        let shown = shown_rows(rows);
        self.flash.update(&shown, now, faded);
    }
}

// ---------------------------------------------------------------------------
// Laws
// ---------------------------------------------------------------------------

/// A value is written to the row that was edited: the first one at that place of
/// that view.
pub proof fn law_edit_goes_to_its_row(rows: Seq<Row>, root: usize, path: Seq<PathSeg>, i: int)
    ensures
        0 <= i < rows.len() && rows[i].root == root && rows[i].path@ == path && (forall|k: int|
            0 <= k < i ==> !((#[trigger] rows[k]).root == root && rows[k].path@ == path)) ==> row_at(
            rows,
            root,
            path,
        ) == Some(rows[i]),
        (forall|k: int|
            0 <= k < rows.len() ==> !((#[trigger] rows[k]).root == root && rows[k].path@ == path))
            ==> row_at(rows, root, path) is None,
    decreases rows.len(),
{
    if rows.len() > 0 && !(rows[0].root == root && rows[0].path@ == path) {
        let rest = rows.skip(1);
        law_edit_goes_to_its_row(rest, root, path, i - 1);
        if 0 <= i < rows.len() && rows[i].root == root && rows[i].path@ == path {
            assert(i > 0 && rest[i - 1] == rows[i]);
            if forall|k: int|
                0 <= k < i ==> !((#[trigger] rows[k]).root == root && rows[k].path@ == path) {
                assert forall|k: int| 0 <= k < i - 1 implies !((#[trigger] rest[k]).root == root
                    && rest[k].path@ == path) by {
                    assert(rest[k] == rows[k + 1]);
                }
            }
        }
        if forall|k: int|
            0 <= k < rows.len() ==> !((#[trigger] rows[k]).root == root && rows[k].path@ == path) {
            assert forall|k: int| 0 <= k < rest.len() implies !((#[trigger] rest[k]).root == root
                && rest[k].path@ == path) by {
                assert(rest[k] == rows[k + 1]);
            }
        }
    }
}

/// The control server follows the settings: where it is wanted on a port and not
/// running there, what runs is stopped and one is started on that port; where it
/// is not wanted, what runs is stopped; where all is as wanted nothing happens.
pub proof fn law_server_follows_settings(g: GuiV)
    ensures
        g.settings.mcp_enabled && g.mcp != Some(g.settings.mcp_port) ==> synced(g).1 == (McpStep {
            stop: g.mcp is Some,
            start: Some(g.settings.mcp_port),
        }),
        !g.settings.mcp_enabled && g.mcp is Some ==> synced(g).1 == (McpStep {
            stop: true,
            start: None,
        }),
        g.settings.mcp_enabled && g.mcp == Some(g.settings.mcp_port) ==> synced(g) == (
            g,
            McpStep { stop: false, start: None },
        ),
        !g.settings.mcp_enabled && g.mcp is None ==> synced(g) == (
            g,
            McpStep { stop: false, start: None },
        ),
        synced(g).0.state == g.state,
{
}

/// A server that starts is known by its port; one that does not is switched off
/// in the settings, and the reason is shown.
pub proof fn law_server_start_is_noted(g: GuiV, port: u16, why: String)
    ensures
        server_started(g, port, Ok(())).mcp == Some(port),
        server_started(g, port, Ok(())).settings == g.settings,
        server_started(g, port, Err(why)).mcp == g.mcp,
        !server_started(g, port, Err(why)).settings.mcp_enabled,
        server_started(g, port, Err(why)).error == Some("MCP: "@ + why@),
        server_started(g, port, Ok(())).state.project == g.state.project,
        server_started(g, port, Err(why)).state == g.state,
{
}

/// Attaching makes the target's memory known and keeps its name for the next
/// time; it takes the last error away and changes no class.
pub proof fn law_attaching_keeps_the_project(g: GuiV, pid: i32, a: Attached)
    ensures
        attached_to(g, pid, a).state.attached,
        attached_to(g, pid, a).state.regions == regions_read(a.regions),
        attached_to(g, pid, a).state.project.attach_name == text::opt_view(a.name),
        attached_to(g, pid, a).state.project.registry == g.state.project.registry,
        attached_to(g, pid, a).state.project.views == g.state.project.views,
        attached_to(g, pid, a).state.history == g.state.history,
        attached_to(g, pid, a).error is None,
{
}

/// A loaded project is the one read: it replaces the classes and views, starts a
/// new timeline, and is the first of the recent ones. Attaching to its process
/// again changes nothing of it, whether the process is found or not.
pub proof fn law_loaded_project_is_shown(
    g: GuiV,
    path: Seq<char>,
    p: ProjectV,
    name: Seq<char>,
    found: Option<Option<Vec<Region>>>,
)
    ensures
        ({
            let h = loaded_from(g, path, p);
            &&& h.state.project == p
            &&& h.state.history.undo.len() == 0 && h.state.history.redo.len() == 0
            &&& h.state.selected_view == 0
            &&& h.save_path == path
            &&& h.recent.len() > 0 && h.recent[0] == path
            &&& h.selected.len() == 0
            &&& h.settings == g.settings
        }),
        reattached(g, path, name, found).state.project == g.state.project,
        found is Some ==> reattached(g, path, name, found).state.attached,
        found is None ==> reattached(g, path, name, found).state.attached == g.state.attached,
        found matches Some(r) ==> reattached(g, path, name, found).state.regions == regions_read(r),
{
    crate::settings::law_remembered(g.recent, path);
}

/// A row flashes when its value or its bytes change: rows differ in what is
/// watched of them exactly when one of the two differs, as long as neither holds
/// the character that keeps the two apart.
pub proof fn law_flash_watches_value_and_bytes(a: Row, b: Row)
    requires
        forall|k: int| 0 <= k < a.value@.len() ==> #[trigger] a.value@[k] != '\u{1}',
        forall|k: int| 0 <= k < b.value@.len() ==> #[trigger] b.value@[k] != '\u{1}',
    ensures
        signature(a).spot == (a.root as int, a.path@),
        signature(a).sig == signature(b).sig <==> a.value@ == b.value@ && a.hex@ == b.hex@,
{
    let x = a.value@;
    let y = b.value@;
    let s = signature(a).sig;
    let t = signature(b).sig;
    if s == t {
        if x.len() < y.len() {
            assert(s[x.len() as int] == '\u{1}');
            assert(t[x.len() as int] == y[x.len() as int]);
        } else if y.len() < x.len() {
            assert(t[y.len() as int] == '\u{1}');
            assert(s[y.len() as int] == x[y.len() as int]);
        }
        assert(s.take(x.len() as int) =~= x);
        assert(t.take(y.len() as int) =~= y);
        assert(s.skip(x.len() as int + 1) =~= a.hex@);
        assert(t.skip(y.len() as int + 1) =~= b.hex@);
    }
}

/// The front-end starts with one class, shown, seeded as the settings say and at
/// the address given on the command line; nothing is attached and nothing is
/// selected or being edited.
pub proof fn law_front_end_starts_with_a_class(
    settings: Settings,
    addr: Option<Seq<char>>,
    ps: Seq<ProcInfoV>,
    recent: Seq<Seq<char>>,
)
    ensures
        ({
            let g = first_gui(settings, addr, ps, recent);
            let v = g.state.project.registry;
            let c = v.classes[0];
            &&& v.classes.len() == 1
            &&& c.name == "Class1"@
            &&& c.nodes.len() == settings.seed_rows
            &&& forall|i: int|
                0 <= i < c.nodes.len() ==> (#[trigger] c.nodes[i]).kind == settings.default_kind
            &&& addr matches Some(e) ==> c.address_expr == e
            &&& addr is None ==> c.address_expr.len() == 0
            &&& g.state.selected_class() == Some(c.id)
            &&& g.state.array_limit == settings.array_cap
            &&& !g.state.attached
            &&& g.selected.len() == 0 && g.editing is None && g.error is None
            &&& g.processes == ps && g.recent == recent
        }),
{
    let empty = AppV { array_limit: settings.array_cap as nat, ..empty_state() };
    let v0 = empty.project.registry;
    let v1 = v0.with_class("Class1"@);
    crate::app_state::law_opened_class_is_shown(empty.snapped().with_registry(v1), 0);
    assert(v1.classes[0].id == 0);
    crate::registry::lemma_place(v1.classes, v1.next_id, 0);
    let fields = seed_fields(settings.default_kind, settings.seed_rows as nat);
    assert(v1.nodes(0) + fields =~= fields);
    lemma_other_fields(v1, 0, fields);
    let v2 = v1.with_nodes(0, fields);
    assert(v2.classes[0].id == 0);
    crate::registry::lemma_place(v2.classes, v2.next_id, 0);
    match addr {
        Some(e) => {
            let c = ClassV { address_expr: e, ..class_at(v2.classes, 0) };
            lemma_class_set(v2, 0, c);
            assert(v2.put(c).classes[0] == c);
        },
        None => {},
    }
}

/// A project just saved or loaded is the first of the recent ones and where it is
/// saved next; the others stay behind it. A failure is shown and changes nothing
/// else; a status line says no more than it says.
pub proof fn law_recent_errors_and_status(g: GuiV, text: Seq<char>)
    ensures
        g.recalling(text).save_path == text,
        g.recalling(text).recent.len() > 0 && g.recalling(text).recent[0] == text,
        g.recalling(text).state == g.state,
        g.failed(text) == (GuiV { error: Some(text), ..g }),
        g.telling(text).state.status == text,
        g.telling(text).state.project == g.state.project,
        g.telling(text).error == g.error,
{
    crate::settings::law_remembered(g.recent, text);
}

/// The file browser as it opens: beside the project, or at home; to save, with
/// the project's file name.
pub open spec fn dialog_opened(
    mode: FileMode,
    parent: Option<Seq<char>>,
    home: Option<Seq<char>>,
    file_name: Option<Seq<char>>,
) -> FileDialogV {
    FileDialogV {
        mode,
        dir: match parent {
            Some(p) => p,
            None => match home {
                Some(h) => h,
                None => "."@,
            },
        },
        filename: match mode {
            FileMode::Save => match file_name {
                Some(f) => f,
                None => "project.ron"@,
            },
            _ => Seq::empty(),
        },
        error: None,
    }
}

/// The file browser opens where the project lies, before home; it proposes the
/// project's own file name to save, and none otherwise.
pub proof fn law_browser_opens_at_the_project(
    mode: FileMode,
    parent: Option<Seq<char>>,
    home: Option<Seq<char>>,
    dir: Seq<char>,
    name: Option<Seq<char>>,
    file: Seq<char>,
)
    ensures
        dialog_opened(mode, Some(dir), home, name).dir == dir,
        dialog_opened(mode, None, Some(dir), name).dir == dir,
        dialog_opened(mode, None, None, name).dir == "."@,
        dialog_opened(FileMode::Save, parent, home, Some(file)).filename == file,
        dialog_opened(FileMode::Save, parent, home, None).filename == "project.ron"@,
        mode != FileMode::Save ==> dialog_opened(mode, parent, home, name).filename.len() == 0,
        dialog_opened(mode, parent, home, name).mode == mode,
        dialog_opened(mode, parent, home, name).error is None,
{
}

} // verus!
