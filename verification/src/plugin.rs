//! Plugins: which builds may be loaded, which of them run, what becomes of one
//! that misbehaves, and the requests that they make.
//!
//! The plugin objects themselves live elsewhere, each under a handle; a plugin
//! only ever asks for changes, which the host applies in its own time.

use crate::lists;
use crate::node::{ClassId, NodeKind};
use crate::project::dup_opt;
use crate::text;
use crate::updater::PKG_VERSION;
use vstd::prelude::*;

verus! {

/// The C-ABI symbol every plugin exports.
pub const CREATE_SYMBOL: &'static str = "reclass_plugin_create";

/// The C-ABI symbol that a bundle of plugins exports.
pub const CREATE_ALL_SYMBOL: &'static str = "reclass_plugin_create_all";

/// The C-ABI symbol carrying a plugin's toolchain fingerprint.
pub const ABI_SYMBOL: &'static str = "reclass_plugin_abi";

/// A mutation a plugin asks the host to perform.
#[derive(Debug)]
pub enum PluginAction {
    /// Create a class and open it in a view.
    AddClass { name: String },
    /// Append a node to a class.
    PushNode { class: ClassId, kind: NodeKind, name: String },
    /// Insert a node after `after_idx` in a class.
    InsertNode { class: ClassId, after_idx: usize, kind: NodeKind, name: String },
    /// Remove node `idx` from a class.
    RemoveNode { class: ClassId, idx: usize },
    /// Change node `idx`'s kind.
    SetKind { class: ClassId, idx: usize, kind: NodeKind },
    /// Set an array node's element count.
    SetArrayCount { class: ClassId, idx: usize, count: usize },
    /// Rename node `idx`.
    RenameNode { class: ClassId, idx: usize, name: String },
    /// Set node `idx`'s comment.
    SetComment { class: ClassId, idx: usize, comment: String },
    /// Set a class's address expression.
    SetAddressExpr { class: ClassId, expr: String },
    /// Attach to a process by pid.
    AttachPid(i32),
    /// Write a value to an address, parsed by `kind`.
    WriteValue { addr: u64, kind: NodeKind, text: String },
    /// Save the project to a file.
    SaveProject { path: String },
    /// Load a project from a file.
    LoadProject { path: String },
    /// Copy a text to the system clipboard.
    SetClipboard(String),
}

// ---------------------------------------------------------------------------
// Which builds may be loaded
// ---------------------------------------------------------------------------

/// `s` without the NULs at its end.
pub open spec fn without_nul(s: Seq<char>) -> Seq<char>
    decreases s.len(),
{
    if s.len() > 0 && s.last() == '\0' {
        without_nul(s.drop_last())
    } else {
        s
    }
}

/// What a build is known by: the crate's version and the compiler that made it.
pub open spec fn fingerprint(rustc: Seq<char>) -> Seq<char> {
    without_nul("reclass "@ + PKG_VERSION@ + "; "@ + rustc)
}

/// What this build is known by, compiled by `rustc`.
pub fn abi_fingerprint(rustc: &str) -> (r: String)
    ensures
        r@ == fingerprint(rustc@),
{
    let head = text::join3("reclass ", PKG_VERSION, "; ");
    let all = text::join2(head.as_str(), rustc);
    let v = text::chars_of(all.as_str());
    let mut n: usize = v.len();
    proof {
        assert(v@.take(v@.len() as int) =~= v@);
    }
    while n > 0 && v[n - 1] == '\0'
        invariant
            n <= v@.len(),
            without_nul(v@.take(n as int)) == without_nul(v@),
        decreases n,
    {
        proof {
            assert(v@.take(n as int).drop_last() =~= v@.take(n - 1));
            assert(v@.take(n as int).last() == v@[n - 1]);
        }
        n = n - 1;
    }
    proof {
        if n > 0 {
            assert(v@.take(n as int).last() == v@[n - 1]);
        }
    }
    let kept = text::part(&v, 0, n);
    proof {
        assert(kept@ =~= v@.take(n as int));
    }
    text::string_of(&kept)
}

/// What the compiler's report of itself comes to: its lines, or `unknown` where
/// there is none.
pub fn toolchain(report: Option<String>) -> (r: String)
    ensures
        r@ == match report {
            Some(v) => lists::joined(lists::lines(v@), "; "@),
            None => "unknown"@,
        },
{
    match report {
        Some(v) => lists::join(&lists::trimmed_lines(v.as_str()), "; "),
        None => "unknown".to_owned(),
    }
}

/// Why a plugin library was not loaded.
#[derive(Debug)]
pub enum PluginError {
    /// The library could not be opened.
    Load { path: String, source: String },
    /// The library has no entry point.
    MissingSymbol { path: String, source: String },
    /// The entry point returned nothing: construction panicked.
    NullPlugin { path: String },
    /// The library does not say which toolchain built it.
    MissingAbi { path: String },
    /// The plugin was built by a different toolchain or version.
    AbiMismatch { path: String, host: String, plugin: String },
}

/// What a [`PluginError`] says.
pub enum PluginErrorV {
    Load { path: Seq<char>, source: Seq<char> },
    MissingSymbol { path: Seq<char>, source: Seq<char> },
    NullPlugin { path: Seq<char> },
    MissingAbi { path: Seq<char> },
    AbiMismatch { path: Seq<char>, host: Seq<char>, plugin: Seq<char> },
}

impl View for PluginError {
    type V = PluginErrorV;

    open spec fn view(&self) -> PluginErrorV {
        match self {
            PluginError::Load { path, source } => PluginErrorV::Load {
                path: path@,
                source: source@,
            },
            PluginError::MissingSymbol { path, source } => PluginErrorV::MissingSymbol {
                path: path@,
                source: source@,
            },
            PluginError::NullPlugin { path } => PluginErrorV::NullPlugin { path: path@ },
            PluginError::MissingAbi { path } => PluginErrorV::MissingAbi { path: path@ },
            PluginError::AbiMismatch { path, host, plugin } => PluginErrorV::AbiMismatch {
                path: path@,
                host: host@,
                plugin: plugin@,
            },
        }
    }
}

/// How a [`PluginError`] is shown.
pub open spec fn plugin_error_text(e: PluginErrorV) -> Seq<char> {
    match e {
        PluginErrorV::Load { path, source } => "load "@ + path + ": "@ + source,
        PluginErrorV::MissingSymbol { path, source } => path + ": missing '"@ + CREATE_SYMBOL@
            + "' symbol"@,
        PluginErrorV::NullPlugin { path } => path + ": plugin construction returned null"@,
        PluginErrorV::MissingAbi { path } => path + ": missing '"@ + ABI_SYMBOL@
            + "' symbol — rebuild the plugin against this host"@,
        PluginErrorV::AbiMismatch { path, host, plugin } => path
            + ": ABI mismatch\n  host:   "@ + host + "\n  plugin: "@ + plugin,
    }
}

impl PluginError {
    /// The message.
    pub fn message(&self) -> (r: String)
        ensures
            r@ == plugin_error_text(self@),
    {
        match self {
            PluginError::Load { path, source } => {
                let head = text::join3("load ", path.as_str(), ": ");
                text::join2(head.as_str(), source.as_str())
            },
            PluginError::MissingSymbol { path, source: _ } => {
                let head = text::join3(path.as_str(), ": missing '", CREATE_SYMBOL);
                text::join2(head.as_str(), "' symbol")
            },
            PluginError::NullPlugin { path } => text::join2(
                path.as_str(),
                ": plugin construction returned null",
            ),
            PluginError::MissingAbi { path } => {
                let head = text::join3(path.as_str(), ": missing '", ABI_SYMBOL);
                text::join2(head.as_str(), "' symbol — rebuild the plugin against this host")
            },
            PluginError::AbiMismatch { path, host, plugin } => {
                let head = text::join3(path.as_str(), ": ABI mismatch\n  host:   ", host.as_str());
                text::join3(head.as_str(), "\n  plugin: ", plugin.as_str())
            },
        }
    }
}

/// What an attempt to load says.
pub open spec fn load_view<T>(r: Result<T, PluginError>) -> Result<T, PluginErrorV> {
    match r {
        Ok(v) => Ok(v),
        Err(e) => Err(e@),
    }
}

/// Whether a library with this fingerprint may be loaded.
pub open spec fn abi_checked(path: Seq<char>, host: Seq<char>, reported: Option<Seq<char>>) -> Result<
    (),
    PluginErrorV,
> {
    match reported {
        None => Err(PluginErrorV::MissingAbi { path }),
        Some(plugin) => if plugin == host {
            Ok(())
        } else {
            Err(PluginErrorV::AbiMismatch { path, host, plugin })
        },
    }
}

/// Reject a library whose toolchain fingerprint does not match `host`, this
/// build's own. `reported` is what the library reports, if anything.
pub fn check_abi(path: &str, host: &str, reported: Option<String>) -> (r: Result<(), PluginError>)
    ensures
        load_view(r) == abi_checked(path@, host@, text::opt_view(reported)),
{
    match reported {
        None => Err(PluginError::MissingAbi { path: path.to_owned() }),
        Some(plugin) => if text::str_eq(plugin.as_str(), host) {
            Ok(())
        } else {
            Err(
                PluginError::AbiMismatch {
                    path: path.to_owned(),
                    host: host.to_owned(),
                    plugin,
                },
            )
        },
    }
}

/// What is known of a library while it is being opened.
#[derive(Debug)]
pub enum Probe {
    /// Opening it failed.
    NotLoaded(String),
    /// It is open and reports this fingerprint, if any.
    Loaded(Option<String>),
    /// It has a bundle entry point, which returned something or nothing.
    Bundle(bool),
    /// It has no bundle entry point; the single one returned something or
    /// nothing, or is missing.
    Single(Result<bool, String>),
}

/// What to do with a library next.
#[derive(Clone, Copy, Debug, PartialEq, Eq, Structural)]
pub enum Next {
    /// Look for an entry point, the bundle one first, and call it.
    Create,
    /// Take what the entry point returned.
    Take,
}

/// What a probe of a library comes to. No entry point is touched before the
/// fingerprint was found to match.
pub open spec fn opened(path: Seq<char>, host: Seq<char>, p: Probe) -> Result<Next, PluginErrorV> {
    match p {
        Probe::NotLoaded(source) => Err(PluginErrorV::Load { path, source: source@ }),
        Probe::Loaded(abi) => match abi_checked(path, host, text::opt_view(abi)) {
            Ok(_) => Ok(Next::Create),
            Err(e) => Err(e),
        },
        Probe::Bundle(some) => if some {
            Ok(Next::Take)
        } else {
            Err(PluginErrorV::NullPlugin { path })
        },
        Probe::Single(Err(source)) => Err(PluginErrorV::MissingSymbol { path, source: source@ }),
        Probe::Single(Ok(some)) => if some {
            Ok(Next::Take)
        } else {
            Err(PluginErrorV::NullPlugin { path })
        },
    }
}

/// Decide on a library that is being opened.
pub fn open(path: &str, host: &str, p: Probe) -> (r: Result<Next, PluginError>)
    ensures
        load_view(r) == opened(path@, host@, p),
{
    match p {
        Probe::NotLoaded(source) => Err(PluginError::Load { path: path.to_owned(), source }),
        Probe::Loaded(abi) => match check_abi(path, host, abi) {
            Ok(_) => Ok(Next::Create),
            Err(e) => Err(e),
        },
        Probe::Bundle(some) => if some {
            Ok(Next::Take)
        } else {
            Err(PluginError::NullPlugin { path: path.to_owned() })
        },
        Probe::Single(Err(source)) => Err(
            PluginError::MissingSymbol { path: path.to_owned(), source },
        ),
        Probe::Single(Ok(some)) => if some {
            Ok(Next::Take)
        } else {
            Err(PluginError::NullPlugin { path: path.to_owned() })
        },
    }
}

/// Whether a file with this extension is a plugin library.
pub fn is_library(extension: Option<&str>) -> (r: bool)
    ensures
        r == match extension {
            Some(e) => e@ == "so"@ || e@ == "dylib"@ || e@ == "dll"@,
            None => false,
        },
{
    match extension {
        Some(e) => text::str_eq(e, "so") || text::str_eq(e, "dylib") || text::str_eq(e, "dll"),
        None => false,
    }
}

/// A file of the plugin directory: its path, and its extension if it has one.
#[derive(Debug)]
pub struct PluginFile {
    pub path: String,
    pub extension: Option<String>,
}

/// Whether a file is a plugin library.
pub open spec fn is_plugin(f: PluginFile) -> bool {
    match f.extension {
        Some(e) => e@ == "so"@ || e@ == "dylib"@ || e@ == "dll"@,
        None => false,
    }
}

/// The paths of the plugin libraries among `files`.
pub open spec fn libraries(files: Seq<PluginFile>) -> Seq<Seq<char>>
    decreases files.len(),
{
    if files.len() == 0 {
        Seq::empty()
    } else {
        let head = libraries(files.drop_last());
        if is_plugin(files.last()) {
            head.push(files.last().path@)
        } else {
            head
        }
    }
}

// ---------------------------------------------------------------------------
// The loaded plugins
// ---------------------------------------------------------------------------

/// One loaded plugin.
#[derive(Debug)]
pub struct Loaded {
    /// Under which the plugin object is found.
    pub handle: u64,
    pub name: String,
    pub version: (u32, u32),
    pub path: String,
    pub enabled: bool,
    pub window_open: bool,
    pub error: Option<String>,
}

/// What a [`Loaded`] says.
pub struct LoadedV {
    pub handle: u64,
    pub name: Seq<char>,
    pub version: (u32, u32),
    pub path: Seq<char>,
    pub enabled: bool,
    pub window_open: bool,
    pub error: Option<Seq<char>>,
}

impl View for Loaded {
    type V = LoadedV;

    open spec fn view(&self) -> LoadedV {
        LoadedV {
            handle: self.handle,
            name: self.name@,
            version: self.version,
            path: self.path@,
            enabled: self.enabled,
            window_open: self.window_open,
            error: text::opt_view(self.error),
        }
    }
}

/// What a list of plugins says.
pub open spec fn loaded_view(s: Seq<Loaded>) -> Seq<LoadedV> {
    Seq::new(s.len(), |i: int| s[i]@)
}

/// A plugin just made: where its object is, and what it says of itself.
#[derive(Debug)]
pub struct Created {
    pub handle: u64,
    pub name: String,
    pub version: (u32, u32),
}

/// A fresh plugin: enabled, without a window and without an error.
pub open spec fn fresh(c: Created, path: Seq<char>) -> LoadedV {
    LoadedV {
        handle: c.handle,
        name: c.name@,
        version: c.version,
        path,
        enabled: true,
        window_open: false,
        error: None,
    }
}

/// The error recorded for a plugin that panicked.
pub open spec fn panic_text(name: Seq<char>, message: Seq<char>) -> Seq<char> {
    "panic in plugin '"@ + name + "': "@ + message
}

/// Metadata and UI state of one loaded plugin, for the manager window and the
/// context menu.
#[derive(Debug)]
pub struct PluginInfo {
    /// Index in the manager's plugin list.
    pub idx: usize,
    pub name: String,
    pub version: (u32, u32),
    /// Source library path.
    pub path: String,
    /// Whether hooks fire for this plugin.
    pub enabled: bool,
    /// Whether the plugin contributes a window.
    pub has_window: bool,
    pub window_open: bool,
    /// Last panic/error message, if the plugin misbehaved.
    pub error: Option<String>,
    /// Context-menu entries `(id, label)`.
    pub menu_entries: Vec<(String, String)>,
}

/// What a [`PluginInfo`] says.
pub struct PluginInfoV {
    pub idx: int,
    pub name: Seq<char>,
    pub version: (u32, u32),
    pub path: Seq<char>,
    pub enabled: bool,
    pub has_window: bool,
    pub window_open: bool,
    pub error: Option<Seq<char>>,
    pub menu_entries: Seq<(Seq<char>, Seq<char>)>,
}

/// What a list of menu entries says.
pub open spec fn entries_view(s: Seq<(String, String)>) -> Seq<(Seq<char>, Seq<char>)> {
    Seq::new(s.len(), |i: int| (s[i].0@, s[i].1@))
}

impl View for PluginInfo {
    type V = PluginInfoV;

    open spec fn view(&self) -> PluginInfoV {
        PluginInfoV {
            idx: self.idx as int,
            name: self.name@,
            version: self.version,
            path: self.path@,
            enabled: self.enabled,
            has_window: self.has_window,
            window_open: self.window_open,
            error: text::opt_view(self.error),
            menu_entries: entries_view(self.menu_entries@),
        }
    }
}

/// What a list of plugin infos says.
pub open spec fn infos_view(s: Seq<PluginInfo>) -> Seq<PluginInfoV> {
    Seq::new(s.len(), |i: int| s[i]@)
}

/// What a plugin object says of itself: whether it has a window, and its
/// context-menu entries.
#[derive(Debug)]
pub struct Facts {
    pub has_window: bool,
    pub menu_entries: Vec<(String, String)>,
}

/// The outcome of running a hook on a plugin: the actions it returned, or the
/// message it panicked with.
pub type HookOutcome = Result<Vec<PluginAction>, String>;

/// The loaded plugins.
#[derive(Debug)]
pub struct PluginManager {
    pub plugins: Vec<Loaded>,
}

impl View for PluginManager {
    type V = Seq<LoadedV>;

    open spec fn view(&self) -> Seq<LoadedV> {
        loaded_view(self.plugins@)
    }
}

/// The plugins that a hook runs on: position and handle of each enabled one, in
/// order.
pub open spec fn hooked(ps: Seq<LoadedV>) -> Seq<(usize, u64)>
    decreases ps.len(),
{
    if ps.len() == 0 {
        Seq::empty()
    } else {
        let head = hooked(ps.drop_last());
        if ps.last().enabled {
            head.push(((ps.len() - 1) as usize, ps.last().handle))
        } else {
            head
        }
    }
}

/// A plugin once guarded work of it is done: one that panicked, with this
/// message, is disabled and its panic recorded.
pub open spec fn after_guard(p: LoadedV, panic: Option<Seq<char>>) -> LoadedV {
    match panic {
        Some(msg) => LoadedV { enabled: false, error: Some(panic_text(p.name, msg)), ..p },
        None => p,
    }
}

/// A plugin once a hook ran on it.
pub open spec fn after_hook(p: LoadedV, o: HookOutcome) -> LoadedV {
    after_guard(
        p,
        match o {
            Ok(_) => None,
            Err(msg) => Some(msg@),
        },
    )
}

/// A plugin once its window was shown and is `open` or not.
pub open spec fn after_window(p: LoadedV, open: bool, panic: Option<Seq<char>>) -> LoadedV {
    LoadedV { window_open: open, ..after_guard(p, panic) }
}

/// With plugin `idx` switched on or off; what went wrong before is forgotten
/// when it is switched on.
pub open spec fn switched(ps: Seq<LoadedV>, idx: usize, enabled: bool) -> Seq<LoadedV> {
    if idx < ps.len() {
        ps.update(
            idx as int,
            LoadedV {
                enabled,
                error: if enabled {
                    None
                } else {
                    ps[idx as int].error
                },
                ..ps[idx as int]
            },
        )
    } else {
        ps
    }
}

/// With the window of plugin `idx` open or shut.
pub open spec fn window_set(ps: Seq<LoadedV>, idx: usize, open: bool) -> Seq<LoadedV> {
    if idx < ps.len() {
        ps.update(idx as int, LoadedV { window_open: open, ..ps[idx as int] })
    } else {
        ps
    }
}

/// The plugins once a hook ran on those at `at`.
pub open spec fn after_hooks(ps: Seq<LoadedV>, at: Seq<usize>, os: Seq<HookOutcome>) -> Seq<LoadedV>
    decreases at.len(),
{
    if at.len() == 0 || os.len() == 0 {
        ps
    } else {
        after_hooks(
            ps.update(at[0] as int, after_hook(ps[at[0] as int], os[0])),
            at.skip(1),
            os.skip(1),
        )
    }
}

/// The actions that the hooks returned, in order; a plugin that panicked
/// returned none.
pub open spec fn hook_actions(os: Seq<HookOutcome>) -> Seq<PluginAction>
    decreases os.len(),
{
    if os.len() == 0 {
        Seq::empty()
    } else {
        (match os[0] {
            Ok(v) => v@,
            Err(_) => Seq::empty(),
        }) + hook_actions(os.skip(1))
    }
}

/// What outlives a plugin: whether it is enabled, whether its window is open,
/// and what it stores of itself.
#[derive(Debug)]
pub struct PluginSettings {
    pub enabled: bool,
    pub window_open: bool,
    pub config: Option<String>,
}

/// What a [`PluginSettings`] says.
pub struct PluginSettingsV {
    pub enabled: bool,
    pub window_open: bool,
    pub config: Option<Seq<char>>,
}

impl View for PluginSettings {
    type V = PluginSettingsV;

    open spec fn view(&self) -> PluginSettingsV {
        PluginSettingsV {
            enabled: self.enabled,
            window_open: self.window_open,
            config: text::opt_view(self.config),
        }
    }
}

/// The settings of the plugin of this name.
#[derive(Debug)]
pub struct Saved {
    pub name: String,
    pub settings: PluginSettings,
}

/// What a [`Saved`] says.
pub struct SavedV {
    pub name: Seq<char>,
    pub settings: PluginSettingsV,
}

impl View for Saved {
    type V = SavedV;

    open spec fn view(&self) -> SavedV {
        SavedV { name: self.name@, settings: self.settings@ }
    }
}

/// What a list of settings says.
pub open spec fn saved_view(s: Seq<Saved>) -> Seq<SavedV> {
    Seq::new(s.len(), |i: int| s[i]@)
}

/// The first settings saved under `name`, if any were.
pub open spec fn saved_for(s: Seq<SavedV>, name: Seq<char>) -> Option<PluginSettingsV>
    decreases s.len(),
{
    if s.len() == 0 {
        None
    } else if s[0].name == name {
        Some(s[0].settings)
    } else {
        saved_for(s.skip(1), name)
    }
}

/// What is saved of a plugin that stores `config` of itself.
pub open spec fn kept_of(p: LoadedV, config: Option<Seq<char>>) -> SavedV {
    SavedV {
        name: p.name,
        settings: PluginSettingsV { enabled: p.enabled, window_open: p.window_open, config },
    }
}

/// A plugin with the settings saved under its name. One that panicked when it
/// was started stays disabled.
pub open spec fn restored(p: LoadedV, s: Seq<SavedV>) -> LoadedV {
    match saved_for(s, p.name) {
        Some(x) => LoadedV {
            enabled: x.enabled && p.error is None,
            window_open: x.window_open,
            ..p
        },
        None => p,
    }
}

/// Whether a plugin of this name did not take what was saved for it.
pub open spec fn refused(ps: Seq<LoadedV>, accepted: Seq<bool>, name: Seq<char>) -> bool {
    exists|i: int| 0 <= i < ps.len() && (#[trigger] ps[i]).name == name && !accepted[i]
}

/// What is saved of the plugins of library `path`; `configs` is what each
/// plugin stores of itself.
pub open spec fn kept_from(
    ps: Seq<LoadedV>,
    configs: Seq<Option<Seq<char>>>,
    path: Seq<char>,
) -> Seq<SavedV>
    decreases ps.len(),
{
    if ps.len() == 0 {
        Seq::empty()
    } else {
        let n = ps.len() - 1;
        let head = kept_from(ps.drop_last(), configs, path);
        if ps[n].path == path {
            head.push(kept_of(ps[n], configs[n]))
        } else {
            head
        }
    }
}

/// What a list of stored texts says.
pub open spec fn configs_view(s: Seq<Option<String>>) -> Seq<Option<Seq<char>>> {
    Seq::new(s.len(), |i: int| text::opt_view(s[i]))
}

/// The plugins of other libraries than `path`.
pub open spec fn others(ps: Seq<LoadedV>, path: Seq<char>) -> Seq<LoadedV>
    decreases ps.len(),
{
    if ps.len() == 0 {
        Seq::empty()
    } else {
        let head = others(ps.drop_last(), path);
        if ps.last().path == path {
            head
        } else {
            head.push(ps.last())
        }
    }
}

/// The library that is to be reloaded, and what is carried over.
#[derive(Debug)]
pub struct Reload {
    pub path: String,
    pub saved: Vec<Saved>,
}

impl PluginManager {
    /// No plugin.
    pub fn new() -> (r: PluginManager)
        ensures
            r@ == Seq::<LoadedV>::empty(),
    {
        let r = PluginManager { plugins: Vec::new() };
        proof {
            assert(r@ =~= Seq::<LoadedV>::empty());
        }
        r
    }

    /// Whether no plugin is loaded.
    pub fn is_empty(&self) -> (r: bool)
        ensures
            r == (self@.len() == 0),
    {
        self.plugins.len() == 0
    }

    /// The libraries of the plugin directory that are to be loaded, one by one, in
    /// the order in which the files were found.
    pub fn load_dir(files: &Vec<PluginFile>) -> (r: Vec<String>)
        ensures
            text::texts(r@) == libraries(files@),
    {
        let ghost all = files@;
        let mut out: Vec<String> = Vec::new();
        let mut i: usize = 0;
        proof {
            assert(all.take(0) =~= Seq::<PluginFile>::empty());
            assert(text::texts(out@) =~= Seq::<Seq<char>>::empty());
        }
        while i < files.len()
            invariant
                i <= files@.len(),
                all == files@,
                text::texts(out@) == libraries(all.take(i as int)),
            decreases files@.len() - i,
        {
            let f = &files[i];
            proof {
                let k = all.take(i as int + 1);
                assert(k.drop_last() =~= all.take(i as int));
                assert(k.last() == *f);
            }
            let found = match &f.extension {
                Some(e) => is_library(Some(e.as_str())),
                None => false,
            };
            if found {
                text::push_text(&mut out, f.path.as_str());
            }
            i = i + 1;
        }
        proof {
            assert(all.take(i as int) =~= all);
        }
        out
    }

    /// Take the plugins that library `path` made. Returns the position of the
    /// first; each of them is to be initialised.
    pub fn load_file(&mut self, path: &str, created: Vec<Created>) -> (start: usize)
        ensures
            start == old(self)@.len(),
            final(self)@ == old(self)@ + Seq::new(
                created@.len(),
                |i: int| fresh(created@[i], path@),
            ),
    {
        let ghost before = self@;
        let start: usize = self.plugins.len();
        let mut i: usize = 0;
        while i < created.len()
            invariant
                i <= created@.len(),
                before.len() == start,
                self.plugins@.len() == start + i,
                forall|k: int| 0 <= k < start ==> (#[trigger] self.plugins@[k])@ == before[k],
                forall|k: int|
                    start <= k < start + i ==> (#[trigger] self.plugins@[k])@ == fresh(
                        created@[k - start],
                        path@,
                    ),
            decreases created@.len() - i,
        {
            let c = &created[i];
            self.plugins.push(
                Loaded {
                    handle: c.handle,
                    name: c.name.clone(),
                    version: c.version,
                    path: path.to_owned(),
                    enabled: true,
                    window_open: false,
                    error: None,
                },
            );
            i = i + 1;
        }
        proof {
            assert(self@ =~= before + Seq::new(
                created@.len(),
                |i: int| fresh(created@[i], path@),
            ));
        }
        start
    }

    /// Take the outcome of guarded work of plugin `idx`: one that panicked is
    /// disabled, with the panic recorded.
    pub fn guarded(&mut self, idx: usize, panic: Option<String>)
        requires
            idx < old(self)@.len(),
        ensures
            final(self)@ == old(self)@.update(
                idx as int,
                after_guard(old(self)@[idx as int], text::opt_view(panic)),
            ),
    {
        let ghost before = self@;
        match panic {
            Some(msg) => {
                let head = text::join3(
                    "panic in plugin '",
                    self.plugins[idx].name.as_str(),
                    "': ",
                );
                let e = text::join2(head.as_str(), msg.as_str());
                self.plugins[idx].error = Some(e);
                self.plugins[idx].enabled = false;
                proof {
                    assert(self@ =~= before.update(
                        idx as int,
                        after_guard(before[idx as int], Some(msg@)),
                    ));
                }
            },
            None => {
                proof {
                    assert(self@ =~= before.update(idx as int, before[idx as int]));
                }
            },
        }
    }

    /// The plugins that a hook runs on: position and handle of each enabled
    /// one, in order.
    pub fn hook_targets(&self) -> (r: Vec<(usize, u64)>)
        ensures
            r@ == hooked(self@),
    {
        let ghost all = self@;
        let mut out: Vec<(usize, u64)> = Vec::new();
        let mut i: usize = 0;
        proof {
            assert(all.take(0) =~= Seq::<LoadedV>::empty());
        }
        while i < self.plugins.len()
            invariant
                i <= self.plugins@.len(),
                all == loaded_view(self.plugins@),
                out@ == hooked(all.take(i as int)),
            decreases self.plugins@.len() - i,
        {
            proof {
                let k = all.take(i as int + 1);
                assert(k.drop_last() =~= all.take(i as int));
                assert(k.last() == self.plugins@[i as int]@);
            }
            if self.plugins[i].enabled {
                out.push((i, self.plugins[i].handle));
            }
            i = i + 1;
        }
        proof {
            assert(all.take(i as int) =~= all);
        }
        out
    }

    /// Take the outcomes of a hook that ran on the plugins at `at`, in order:
    /// collect the actions they returned behind those `queued` from elsewhere,
    /// and disable any plugin that panicked.
    pub fn run_hook(
        &mut self,
        queued: Vec<PluginAction>,
        at: &Vec<usize>,
        outcomes: Vec<HookOutcome>,
    ) -> (out: Vec<PluginAction>)
        requires
            at@.len() == outcomes@.len(),
            forall|k: int| 0 <= k < at@.len() ==> #[trigger] at@[k] < old(self)@.len(),
        ensures
            final(self)@ == after_hooks(old(self)@, at@, outcomes@),
            out@ == queued@ + hook_actions(outcomes@),
    {
        let ghost start = self@;
        let ghost all = outcomes@;
        let mut out = queued;
        let mut rest = outcomes;
        let mut k: usize = 0;
        proof {
            assert(at@.skip(0) =~= at@);
            assert(all.skip(0) =~= all);
        }
        while rest.len() > 0
            invariant
                k <= at@.len(),
                at@.len() == all.len(),
                rest@ == all.skip(k as int),
                self@.len() == start.len(),
                forall|i: int| 0 <= i < at@.len() ==> #[trigger] at@[i] < start.len(),
                after_hooks(self@, at@.skip(k as int), all.skip(k as int)) == after_hooks(
                    start,
                    at@,
                    all,
                ),
                out@ + hook_actions(all.skip(k as int)) == queued@ + hook_actions(all),
            decreases rest@.len(),
        {
            assert(rest@.len() == all.len() - k);
            assert(k < at.len());
            let idx: usize = at[k];
            let ghost ps = self@;
            let ghost done = out@;
            let o: HookOutcome = rest.remove(0);
            proof {
                assert(o == all[k as int]);
                assert(rest@ =~= all.skip(k as int + 1));
                assert(at@.skip(k as int)[0] == idx);
                assert(at@.skip(k as int).skip(1) =~= at@.skip(k as int + 1));
                assert(all.skip(k as int)[0] == o);
                assert(all.skip(k as int).skip(1) =~= all.skip(k as int + 1));
            }
            match o {
                Ok(actions) => {
                    let mut actions = actions;
                    let ghost more = actions@;
                    out.append(&mut actions);
                    proof {
                        assert(out@ =~= done + more);
                        assert(out@ + hook_actions(all.skip(k as int + 1)) =~= done + (more
                            + hook_actions(all.skip(k as int + 1))));
                        assert(ps.update(idx as int, ps[idx as int]) =~= ps);
                    }
                },
                Err(msg) => {
                    self.guarded(idx, Some(msg));
                    proof {
                        assert(self@ == ps.update(idx as int, after_hook(ps[idx as int], o)));
                        assert(Seq::<PluginAction>::empty() + hook_actions(all.skip(k as int + 1))
                            =~= hook_actions(all.skip(k as int + 1)));
                    }
                },
            }
            k = k + 1;
        }
        proof {
            assert(k == at@.len());
            assert(out@ + Seq::<PluginAction>::empty() =~= out@);
            assert(all.skip(k as int) =~= Seq::<HookOutcome>::empty());
        }
        out
    }

    /// [`PluginManager::run_hook`] for the hook that follows every snapshot.
    pub fn on_snapshot(
        &mut self,
        queued: Vec<PluginAction>,
        at: &Vec<usize>,
        outcomes: Vec<HookOutcome>,
    ) -> (out: Vec<PluginAction>)
        requires
            at@.len() == outcomes@.len(),
            forall|k: int| 0 <= k < at@.len() ==> #[trigger] at@[k] < old(self)@.len(),
        ensures
            final(self)@ == after_hooks(old(self)@, at@, outcomes@),
            out@ == queued@ + hook_actions(outcomes@),
    {
        self.run_hook(queued, at, outcomes)
    }

    /// [`PluginManager::run_hook`] for the hook before actions are applied.
    pub fn on_pre_apply(
        &mut self,
        queued: Vec<PluginAction>,
        at: &Vec<usize>,
        outcomes: Vec<HookOutcome>,
    ) -> (out: Vec<PluginAction>)
        requires
            at@.len() == outcomes@.len(),
            forall|k: int| 0 <= k < at@.len() ==> #[trigger] at@[k] < old(self)@.len(),
        ensures
            final(self)@ == after_hooks(old(self)@, at@, outcomes@),
            out@ == queued@ + hook_actions(outcomes@),
    {
        self.run_hook(queued, at, outcomes)
    }

    /// The plugins whose window is shown, if they have one: position and handle
    /// of each that is enabled and has its window open.
    pub fn window_targets(&self) -> (r: Vec<(usize, u64)>)
        ensures
            forall|i: int, h: u64|
                0 <= i < self@.len() ==> (#[trigger] r@.contains((i as usize, h)) == (
                self@[i].enabled && self@[i].window_open && self@[i].handle == h)),
            forall|k: int| 0 <= k < r@.len() ==> (#[trigger] r@[k]).0 < self@.len(),
            forall|k: int, m: int|
                0 <= k < m < r@.len() ==> (#[trigger] r@[k]).0 < (#[trigger] r@[m]).0,
    {
        let mut out: Vec<(usize, u64)> = Vec::new();
        let mut n: usize = 0;
        while n < self.plugins.len()
            invariant
                n <= self.plugins@.len(),
                forall|i: int, h: u64|
                    0 <= i < n ==> (#[trigger] out@.contains((i as usize, h)) == (self@[i].enabled
                        && self@[i].window_open && self@[i].handle == h)),
                forall|k: int| 0 <= k < out@.len() ==> (#[trigger] out@[k]).0 < n,
                forall|k: int, m: int|
                    0 <= k < m < out@.len() ==> (#[trigger] out@[k]).0 < (#[trigger] out@[m]).0,
            decreases self.plugins@.len() - n,
        {
            let p = &self.plugins[n];
            let ghost before = out@;
            if p.enabled && p.window_open {
                out.push((n, p.handle));
            }
            proof {
                assert forall|i: int, h: u64| 0 <= i < n + 1 implies (#[trigger] out@.contains(
                    (i as usize, h),
                ) == (self@[i].enabled && self@[i].window_open && self@[i].handle == h)) by {
                    let e = (i as usize, h);
                    if out@.contains(e) {
                        let k = choose|k: int| 0 <= k < out@.len() && out@[k] == e;
                        if k < before.len() {
                            assert(before[k] == e);
                            assert(before[k].0 < n);
                            assert(before.contains(e));
                        }
                    }
                    if i < n && before.contains(e) {
                        let k = choose|k: int| 0 <= k < before.len() && before[k] == e;
                        assert(out@[k] == e);
                    }
                    if i == n && self@[i].enabled && self@[i].window_open && self@[i].handle == h {
                        assert(out@[before.len() as int] == e);
                    }
                }
            }
            n = n + 1;
        }
        out
    }

    /// Take the outcome of showing plugin `idx`'s window: whether it is still
    /// open, and the message it panicked with, if it did; it is disabled then.
    pub fn show_window(&mut self, idx: usize, open: bool, panic: Option<String>)
        requires
            idx < old(self)@.len(),
        ensures
            final(self)@ == old(self)@.update(
                idx as int,
                after_window(old(self)@[idx as int], open, text::opt_view(panic)),
            ),
    {
        let ghost before = self@;
        self.guarded(idx, panic);
        let ghost mid = self@;
        assert(mid.len() == before.len());
        assert(self.plugins@.len() == mid.len());
        self.plugins[idx].window_open = open;
        proof {
            assert(self@ =~= mid.update(
                idx as int,
                LoadedV { window_open: open, ..mid[idx as int] },
            ));
            assert(self@ =~= before.update(idx as int, self@[idx as int]));
        }
    }

    /// The handle of plugin `idx`, where a context-menu activation is delivered
    /// to it: it exists and is enabled.
    pub fn context_target(&self, idx: usize) -> (r: Option<u64>)
        ensures
            r == if idx < self@.len() && self@[idx as int].enabled {
                Some(self@[idx as int].handle)
            } else {
                None
            },
    {
        if idx < self.plugins.len() && self.plugins[idx].enabled {
            Some(self.plugins[idx].handle)
        } else {
            None
        }
    }

    /// Take the outcome of a context-menu activation of plugin `idx`. One that
    /// panicked is disabled, with the panic recorded.
    pub fn on_context_menu(&mut self, idx: usize, outcome: HookOutcome) -> (out: Vec<PluginAction>)
        requires
            idx < old(self)@.len(),
        ensures
            out@ == match outcome {
                Ok(v) => v@,
                Err(_) => Seq::empty(),
            },
            final(self)@ == old(self)@.update(
                idx as int,
                after_hook(old(self)@[idx as int], outcome),
            ),
    {
        match outcome {
            Ok(actions) => {
                self.guarded(idx, None);
                actions
            },
            Err(msg) => {
                self.guarded(idx, Some(msg));
                Vec::new()
            },
        }
    }

    /// Snapshot of every plugin for the manager window and the context menu;
    /// `facts` is what each plugin says of itself. A disabled plugin has no
    /// menu entries.
    pub fn infos(&self, facts: &Vec<Facts>) -> (r: Vec<PluginInfo>)
        requires
            facts@.len() == self@.len(),
        ensures
            infos_view(r@) == plugins_told(self@, facts@),
    {
        let ghost want = Seq::new(
            self@.len(),
            |i: int|
                PluginInfoV {
                    idx: i,
                    name: self@[i].name,
                    version: self@[i].version,
                    path: self@[i].path,
                    enabled: self@[i].enabled,
                    has_window: facts@[i].has_window,
                    window_open: self@[i].window_open,
                    error: self@[i].error,
                    menu_entries: if self@[i].enabled {
                        entries_view(facts@[i].menu_entries@)
                    } else {
                        Seq::empty()
                    },
                },
        );
        let mut out: Vec<PluginInfo> = Vec::new();
        let mut i: usize = 0;
        while i < self.plugins.len()
            invariant
                i <= self.plugins@.len(),
                facts@.len() == self@.len(),
                want.len() == self@.len(),
                forall|k: int|
                    0 <= k < want.len() ==> #[trigger] want[k] == (PluginInfoV {
                        idx: k,
                        name: self@[k].name,
                        version: self@[k].version,
                        path: self@[k].path,
                        enabled: self@[k].enabled,
                        has_window: facts@[k].has_window,
                        window_open: self@[k].window_open,
                        error: self@[k].error,
                        menu_entries: if self@[k].enabled {
                            entries_view(facts@[k].menu_entries@)
                        } else {
                            Seq::empty()
                        },
                    }),
                out@.len() == i,
                forall|k: int| 0 <= k < i ==> (#[trigger] out@[k])@ == want[k],
            decreases self.plugins@.len() - i,
        {
            let p = &self.plugins[i];
            let entries = if p.enabled {
                dup_entries(&facts[i].menu_entries)
            } else {
                let none: Vec<(String, String)> = Vec::new();
                proof {
                    assert(entries_view(none@) =~= Seq::<(Seq<char>, Seq<char>)>::empty());
                }
                none
            };
            let info = PluginInfo {
                idx: i,
                name: p.name.clone(),
                version: p.version,
                path: p.path.clone(),
                enabled: p.enabled,
                has_window: facts[i].has_window,
                window_open: p.window_open,
                error: dup_opt(&p.error),
                menu_entries: entries,
            };
            proof {
                assert(info@ == want[i as int]);
            }
            out.push(info);
            i = i + 1;
        }
        proof {
            assert(infos_view(out@) =~= want);
        }
        out
    }

    /// Enable or disable plugin `idx`. Clears the recorded error when
    /// re-enabling so a recovered plugin can run again.
    pub fn set_enabled(&mut self, idx: usize, enabled: bool)
        ensures
            final(self)@ == switched(old(self)@, idx, enabled),
    {
        let ghost before = self@;
        if idx < self.plugins.len() {
            self.plugins[idx].enabled = enabled;
            if enabled {
                self.plugins[idx].error = None;
            }
            proof {
                assert(self@ =~= before.update(idx as int, self@[idx as int]));
            }
        }
    }

    /// Open or close plugin `idx`'s window.
    pub fn set_window_open(&mut self, idx: usize, open: bool)
        ensures
            final(self)@ == window_set(old(self)@, idx, open),
    {
        let ghost before = self@;
        if idx < self.plugins.len() {
            self.plugins[idx].window_open = open;
            proof {
                assert(self@ =~= before.update(idx as int, self@[idx as int]));
            }
        }
    }

    /// What is saved of every plugin; `configs` is what each stores of itself.
    pub fn settings_snapshot(&self, configs: &Vec<Option<String>>) -> (r: Vec<Saved>)
        requires
            configs@.len() == self@.len(),
        ensures
            saved_view(r@) == Seq::new(
                self@.len(),
                |i: int| kept_of(self@[i], text::opt_view(configs@[i])),
            ),
    {
        let mut out: Vec<Saved> = Vec::new();
        let mut i: usize = 0;
        while i < self.plugins.len()
            invariant
                i <= self.plugins@.len(),
                configs@.len() == self@.len(),
                out@.len() == i,
                forall|k: int|
                    0 <= k < i ==> (#[trigger] out@[k])@ == kept_of(
                        self@[k],
                        text::opt_view(configs@[k]),
                    ),
            decreases self.plugins@.len() - i,
        {
            out.push(keep(&self.plugins[i], &configs[i]));
            i = i + 1;
        }
        proof {
            assert(saved_view(out@) =~= Seq::new(
                self@.len(),
                |i: int| kept_of(self@[i], text::opt_view(configs@[i])),
            ));
        }
        out
    }

    /// What each plugin is to be handed back of what it stored, if anything.
    pub fn pending_configs(&self, saved: &Vec<Saved>) -> (r: Vec<Option<String>>)
        ensures
            configs_view(r@) == Seq::new(
                self@.len(),
                |i: int|
                    match saved_for(saved_view(saved@), self@[i].name) {
                        Some(x) => x.config,
                        None => None,
                    },
            ),
    {
        let ghost s = saved_view(saved@);
        let mut out: Vec<Option<String>> = Vec::new();
        let mut i: usize = 0;
        while i < self.plugins.len()
            invariant
                i <= self.plugins@.len(),
                s == saved_view(saved@),
                out@.len() == i,
                forall|k: int|
                    0 <= k < i ==> text::opt_view(#[trigger] out@[k]) == match saved_for(
                        s,
                        self@[k].name,
                    ) {
                        Some(x) => x.config,
                        None => None,
                    },
            decreases self.plugins@.len() - i,
        {
            let c = match find_saved(saved, self.plugins[i].name.as_str()) {
                Some(n) => dup_opt(&saved[n].settings.config),
                None => None,
            };
            out.push(c);
            i = i + 1;
        }
        proof {
            assert(configs_view(out@) =~= Seq::new(
                self@.len(),
                |i: int|
                    match saved_for(s, self@[i].name) {
                        Some(x) => x.config,
                        None => None,
                    },
            ));
        }
        out
    }

    /// Give the plugins of library `path` their saved flags back, or all where
    /// no library is given.
    fn restore_flags(&mut self, saved: &Vec<Saved>, path: Option<&str>)
        ensures
            final(self)@ == Seq::new(
                old(self)@.len(),
                |i: int|
                    match path {
                        Some(p) => if old(self)@[i].path == p@ {
                            restored(old(self)@[i], saved_view(saved@))
                        } else {
                            old(self)@[i]
                        },
                        None => restored(old(self)@[i], saved_view(saved@)),
                    },
            ),
    {
        let ghost before = self@;
        let ghost s = saved_view(saved@);
        let mut i: usize = 0;
        while i < self.plugins.len()
            invariant
                i <= self.plugins@.len(),
                s == saved_view(saved@),
                self.plugins@.len() == before.len(),
                forall|k: int|
                    0 <= k < i ==> (#[trigger] self.plugins@[k])@ == match path {
                        Some(p) => if before[k].path == p@ {
                            restored(before[k], s)
                        } else {
                            before[k]
                        },
                        None => restored(before[k], s),
                    },
                forall|k: int|
                    i <= k < before.len() ==> (#[trigger] self.plugins@[k])@ == before[k],
            decreases self.plugins@.len() - i,
        {
            let concerned = match path {
                Some(p) => text::str_eq(self.plugins[i].path.as_str(), p),
                None => true,
            };
            if concerned {
                match find_saved(saved, self.plugins[i].name.as_str()) {
                    Some(n) => {
                        self.plugins[i].enabled = saved[n].settings.enabled
                            && self.plugins[i].error.is_none();
                        self.plugins[i].window_open = saved[n].settings.window_open;
                    },
                    None => {},
                }
            }
            i = i + 1;
        }
        proof {
            assert(self@ =~= Seq::new(
                before.len(),
                |i: int|
                    match path {
                        Some(p) => if before[i].path == p@ {
                            restored(before[i], s)
                        } else {
                            before[i]
                        },
                        None => restored(before[i], s),
                    },
            ));
        }
    }

    /// Take saved settings; `accepted` says of each plugin whether it took what
    /// it had stored. The flags are the host's own and apply in any case. What
    /// a plugin refused is dropped; settings of plugins that are not here stay
    /// as they are, for a later install.
    pub fn apply_settings(&mut self, saved: &mut Vec<Saved>, accepted: &Vec<bool>)
        requires
            accepted@.len() == old(self)@.len(),
        ensures
            final(self)@ == Seq::new(
                old(self)@.len(),
                |i: int| restored(old(self)@[i], saved_view(old(saved)@)),
            ),
            saved_view(final(saved)@) == Seq::new(
                old(saved)@.len(),
                |k: int|
                    if refused(old(self)@, accepted@, saved_view(old(saved)@)[k].name) {
                        SavedV {
                            name: saved_view(old(saved)@)[k].name,
                            settings: PluginSettingsV {
                                config: None,
                                ..saved_view(old(saved)@)[k].settings
                            },
                        }
                    } else {
                        saved_view(old(saved)@)[k]
                    },
            ),
    {
        let ghost ps = self@;
        let ghost s = saved_view(saved@);
        self.restore_flags(&*saved, None);
        proof {
            assert(self@ =~= Seq::new(ps.len(), |i: int| restored(ps[i], s)));
            assert forall|i: int| 0 <= i < ps.len() implies (#[trigger] self@[i]).name
                == ps[i].name by {}
        }
        let mut k: usize = 0;
        while k < saved.len()
            invariant
                k <= saved@.len(),
                saved@.len() == s.len(),
                accepted@.len() == ps.len(),
                self@.len() == ps.len(),
                self@ == Seq::new(ps.len(), |i: int| restored(ps[i], s)),
                forall|i: int| 0 <= i < ps.len() ==> (#[trigger] self@[i]).name == ps[i].name,
                forall|j: int|
                    0 <= j < k ==> (#[trigger] saved@[j])@ == if refused(
                        ps,
                        accepted@,
                        s[j].name,
                    ) {
                        SavedV {
                            name: s[j].name,
                            settings: PluginSettingsV { config: None, ..s[j].settings },
                        }
                    } else {
                        s[j]
                    },
                forall|j: int| k <= j < s.len() ==> (#[trigger] saved@[j])@ == s[j],
            decreases saved@.len() - k,
        {
            if self.is_refused(accepted, saved[k].name.as_str()) {
                proof {
                    let i = choose|i: int|
                        0 <= i < self@.len() && (#[trigger] self@[i]).name == s[k as int].name
                            && !accepted@[i];
                    assert(ps[i].name == s[k as int].name);
                }
                saved[k].settings.config = None;
            } else {
                proof {
                    if refused(ps, accepted@, s[k as int].name) {
                        let i = choose|i: int|
                            0 <= i < ps.len() && (#[trigger] ps[i]).name == s[k as int].name
                                && !accepted@[i];
                        assert(self@[i].name == s[k as int].name);
                    }
                }
            }
            k = k + 1;
        }
        proof {
            assert(saved_view(saved@) =~= Seq::new(
                s.len(),
                |k: int|
                    if refused(ps, accepted@, s[k].name) {
                        SavedV {
                            name: s[k].name,
                            settings: PluginSettingsV { config: None, ..s[k].settings },
                        }
                    } else {
                        s[k]
                    },
            ));
        }
    }

    /// Whether a plugin of this name did not take what was saved for it.
    fn is_refused(&self, accepted: &Vec<bool>, name: &str) -> (r: bool)
        requires
            accepted@.len() == self@.len(),
        ensures
            r == refused(self@, accepted@, name@),
    {
        let mut i: usize = 0;
        while i < self.plugins.len()
            invariant
                i <= self.plugins@.len(),
                accepted@.len() == self@.len(),
                forall|k: int|
                    0 <= k < i ==> !((#[trigger] self@[k]).name == name@ && !accepted@[k]),
            decreases self.plugins@.len() - i,
        {
            if !accepted[i] && text::str_eq(self.plugins[i].name.as_str(), name) {
                proof {
                    assert(self@[i as int].name == name@);
                }
                return true;
            }
            i = i + 1;
        }
        false
    }

    /// Begin to reload the library behind plugin `idx`: every plugin of it
    /// goes, and its state is remembered; `configs` is what each plugin stores
    /// of itself. Does nothing where there is no such plugin.
    pub fn begin_reload(&mut self, idx: usize, configs: &Vec<Option<String>>) -> (r: Option<Reload>)
        requires
            configs@.len() == old(self)@.len(),
        ensures
            r is Some == (idx < old(self)@.len()),
            r is None ==> final(self)@ == old(self)@,
            r matches Some(x) ==> {
                let path = old(self)@[idx as int].path;
                &&& x.path@ == path
                &&& saved_view(x.saved@) == kept_from(old(self)@, configs_view(configs@), path)
                &&& final(self)@ == others(old(self)@, path)
            },
    {
        if idx >= self.plugins.len() {
            return None;
        }
        let path = self.plugins[idx].path.clone();
        let ghost all = self@;
        let ghost cs = configs_view(configs@);
        let mut saved: Vec<Saved> = Vec::new();
        let mut kept: Vec<Loaded> = Vec::new();
        let mut n: usize = 0;
        proof {
            assert(all.take(0) =~= Seq::<LoadedV>::empty());
            assert(saved_view(saved@) =~= Seq::<SavedV>::empty());
            assert(loaded_view(kept@) =~= Seq::<LoadedV>::empty());
        }
        while n < self.plugins.len()
            invariant
                n <= self.plugins@.len(),
                all == loaded_view(self.plugins@),
                cs == configs_view(configs@),
                configs@.len() == all.len(),
                saved_view(saved@) == kept_from(all.take(n as int), cs, path@),
                loaded_view(kept@) == others(all.take(n as int), path@),
            decreases self.plugins@.len() - n,
        {
            let p = &self.plugins[n];
            let ghost o = saved@;
            let ghost q = kept@;
            proof {
                let k = all.take(n as int + 1);
                assert(k.drop_last() =~= all.take(n as int));
                assert(k.last() == p@);
                assert(k[n as int] == p@);
            }
            if text::str_eq(p.path.as_str(), path.as_str()) {
                saved.push(keep(p, &configs[n]));
                proof {
                    assert(saved_view(saved@) =~= saved_view(o).push(kept_of(p@, cs[n as int])));
                }
            } else {
                kept.push(
                    Loaded {
                        handle: p.handle,
                        name: p.name.clone(),
                        version: p.version,
                        path: p.path.clone(),
                        enabled: p.enabled,
                        window_open: p.window_open,
                        error: dup_opt(&p.error),
                    },
                );
                proof {
                    assert(loaded_view(kept@) =~= loaded_view(q).push(p@));
                }
            }
            n = n + 1;
        }
        proof {
            assert(all.take(n as int) =~= all);
        }
        self.plugins = kept;
        Some(Reload { path, saved })
    }

    /// Finish a reload: plugins of the reloaded library get their flags back,
    /// by name. What they had stored is handed back to them as
    /// [`PluginManager::pending_configs`] says.
    pub fn finish_reload(&mut self, reload: &Reload)
        ensures
            final(self)@ == Seq::new(
                old(self)@.len(),
                |i: int|
                    if old(self)@[i].path == reload.path@ {
                        restored(old(self)@[i], saved_view(reload.saved@))
                    } else {
                        old(self)@[i]
                    },
            ),
    {
        let ghost before = self@;
        self.restore_flags(&reload.saved, Some(reload.path.as_str()));
        proof {
            assert(self@ =~= Seq::new(
                before.len(),
                |i: int|
                    if before[i].path == reload.path@ {
                        restored(before[i], saved_view(reload.saved@))
                    } else {
                        before[i]
                    },
            ));
        }
    }
}

/// What is saved of a plugin that stores `config` of itself.
fn keep(p: &Loaded, config: &Option<String>) -> (r: Saved)
    ensures
        r@ == kept_of(p@, text::opt_view(*config)),
{
    Saved {
        name: p.name.clone(),
        settings: PluginSettings {
            enabled: p.enabled,
            window_open: p.window_open,
            config: dup_opt(config),
        },
    }
}

/// Where the settings of `name` stand.
fn find_saved(saved: &Vec<Saved>, name: &str) -> (r: Option<usize>)
    ensures
        match r {
            Some(n) => n < saved@.len() && saved_for(saved_view(saved@), name@) == Some(
                saved@[n as int].settings@,
            ),
            None => saved_for(saved_view(saved@), name@) is None,
        },
{
    let ghost all = saved_view(saved@);
    let mut i: usize = 0;
    proof {
        assert(all.skip(0) =~= all);
    }
    while i < saved.len()
        invariant
            i <= saved@.len(),
            all == saved_view(saved@),
            saved_for(all.skip(i as int), name@) == saved_for(all, name@),
        decreases saved@.len() - i,
    {
        proof {
            assert(all.skip(i as int)[0] == saved@[i as int]@);
            assert(all.skip(i as int).skip(1) =~= all.skip(i as int + 1));
        }
        if text::str_eq(saved[i].name.as_str(), name) {
            return Some(i);
        }
        i = i + 1;
    }
    None
}

/// A copy of a list of menu entries.
fn dup_entries(v: &Vec<(String, String)>) -> (r: Vec<(String, String)>)
    ensures
        entries_view(r@) == entries_view(v@),
{
    let mut out: Vec<(String, String)> = Vec::new();
    let mut i: usize = 0;
    while i < v.len()
        invariant
            i <= v@.len(),
            out@.len() == i,
            forall|k: int|
                0 <= k < i ==> (#[trigger] out@[k]).0@ == v@[k].0@ && out@[k].1@ == v@[k].1@,
        decreases v@.len() - i,
    {
        out.push((v[i].0.clone(), v[i].1.clone()));
        i = i + 1;
    }
    proof {
        assert(entries_view(out@) =~= entries_view(v@));
    }
    out
}

// ---------------------------------------------------------------------------
// Laws
// ---------------------------------------------------------------------------

/// No entry point of a library is called unless its fingerprint is this
/// build's own.
pub proof fn law_only_own_builds_are_created(path: Seq<char>, host: Seq<char>, p: Probe)
    requires
        opened(path, host, p) == Ok::<Next, PluginErrorV>(Next::Create),
    ensures
        p matches Probe::Loaded(Some(abi)) && abi@ == host,
{
}

/// Settings that were saved of a plugin and given back leave it as it was,
/// unless it panicked when it was started.
pub proof fn law_settings_round_trip(p: LoadedV, fresh: LoadedV, config: Option<Seq<char>>)
    requires
        fresh.name == p.name,
        fresh.error is None,
    ensures
        restored(fresh, seq![kept_of(p, config)]).enabled == p.enabled,
        restored(fresh, seq![kept_of(p, config)]).window_open == p.window_open,
        saved_for(seq![kept_of(p, config)], p.name) == Some(kept_of(p, config).settings),
{
}

/// A hook runs on exactly the enabled plugins.
pub proof fn law_hooks_run_on_enabled(ps: Seq<LoadedV>, k: int)
    requires
        0 <= k < hooked(ps).len(),
        ps.len() <= usize::MAX,
    ensures
        hooked(ps)[k].0 < ps.len(),
        ps[hooked(ps)[k].0 as int].enabled,
        ps[hooked(ps)[k].0 as int].handle == hooked(ps)[k].1,
    decreases ps.len(),
{
    if ps.len() > 0 {
        if k < hooked(ps.drop_last()).len() {
            law_hooks_run_on_enabled(ps.drop_last(), k);
        }
    }
}

/// What becomes of a plugin at `idx` that panicked and is `p` now: it is disabled
/// with the panic recorded, and neither hook, window nor menu reaches it.
pub open spec fn shut_out(ps: Seq<LoadedV>, idx: int, p: LoadedV, msg: Seq<char>) -> bool {
    &&& !p.enabled
    &&& p.error == Some(panic_text(ps[idx].name, msg))
    &&& forall|k: int|
        0 <= k < hooked(ps.update(idx, p)).len() ==> (#[trigger] hooked(ps.update(idx, p))[k]).0
            != idx
}

proof fn lemma_shut_out(ps: Seq<LoadedV>, idx: int, p: LoadedV, msg: Seq<char>)
    requires
        0 <= idx < ps.len() <= usize::MAX,
        !p.enabled,
        p.error == Some(panic_text(ps[idx].name, msg)),
    ensures
        shut_out(ps, idx, p, msg),
{
    let now = ps.update(idx, p);
    assert forall|k: int| 0 <= k < hooked(now).len() implies (#[trigger] hooked(now)[k]).0
        != idx by {
        law_hooks_run_on_enabled(now, k);
    }
}

/// A plugin that panics is disabled with the panic recorded, whichever of its
/// entries it was: when it was started, in a hook, in its window or its menu.
pub proof fn law_panicking_plugin_is_disabled(ps: Seq<LoadedV>, idx: int, msg: String, open: bool)
    requires
        0 <= idx < ps.len() <= usize::MAX,
    ensures
        shut_out(ps, idx, after_guard(ps[idx], Some(msg@)), msg@),
        shut_out(ps, idx, after_hook(ps[idx], Err(msg)), msg@),
        shut_out(ps, idx, after_window(ps[idx], open, Some(msg@)), msg@),
{
    lemma_shut_out(ps, idx, after_guard(ps[idx], Some(msg@)), msg@);
    lemma_shut_out(ps, idx, after_hook(ps[idx], Err(msg)), msg@);
    lemma_shut_out(ps, idx, after_window(ps[idx], open, Some(msg@)), msg@);
}

/// Settings do not bring back a plugin that panicked when it was started.
pub proof fn law_settings_enable_no_panicked_plugin(p: LoadedV, msg: Seq<char>, s: Seq<SavedV>)
    ensures
        !restored(after_guard(p, Some(msg)), s).enabled,
{
}

/// The libraries of a directory are its files with the ending of one, in the
/// order in which they were listed; nothing else is loaded.
pub proof fn law_libraries_go_by_their_ending(files: Seq<PluginFile>, path: Seq<char>)
    ensures
        libraries(files).contains(path) <==> exists|k: int|
            0 <= k < files.len() && (#[trigger] files[k]).path@ == path && (files[k].extension
                matches Some(e) && (e@ == "so"@ || e@ == "dylib"@ || e@ == "dll"@)),
    decreases files.len(),
{
    if files.len() > 0 {
        let head = files.drop_last();
        let n = files.len() - 1;
        law_libraries_go_by_their_ending(head, path);
        let a = libraries(head);
        let b = libraries(files);
        assert(files[n] == files.last());
        if b.contains(path) {
            let k = choose|k: int| 0 <= k < b.len() && b[k] == path;
            if k < a.len() {
                assert(a[k] == path);
                let m = choose|m: int|
                    0 <= m < head.len() && (#[trigger] head[m]).path@ == path && (head[m].extension
                        matches Some(e) && (e@ == "so"@ || e@ == "dylib"@ || e@ == "dll"@));
                assert(files[m] == head[m]);
            }
        }
        if exists|k: int|
            0 <= k < files.len() && (#[trigger] files[k]).path@ == path && (files[k].extension
                matches Some(e) && (e@ == "so"@ || e@ == "dylib"@ || e@ == "dll"@)) {
            let k = choose|k: int|
                0 <= k < files.len() && (#[trigger] files[k]).path@ == path && (files[k].extension
                    matches Some(e) && (e@ == "so"@ || e@ == "dylib"@ || e@ == "dll"@));
            if k < n {
                assert(head[k] == files[k]);
                let m = choose|m: int| 0 <= m < a.len() && a[m] == path;
                assert(b[m] == path);
            } else {
                assert(b[a.len() as int] == path);
            }
        }
    }
}

/// What plugins ask for in a hook is done in the order in which they ran, each
/// one's requests in its own order; a plugin that panicked asks for nothing.
pub proof fn law_requests_come_in_order(first: HookOutcome, rest: Seq<HookOutcome>)
    ensures
        hook_actions(Seq::empty()).len() == 0,
        first matches Ok(v) ==> hook_actions(seq![first] + rest) == v@ + hook_actions(rest),
        first is Err ==> hook_actions(seq![first] + rest) == hook_actions(rest),
{
    let all = seq![first] + rest;
    assert(all.skip(1) =~= rest);
    assert(all[0] == first);
    if first is Err {
        assert(Seq::<PluginAction>::empty() + hook_actions(rest) =~= hook_actions(rest));
    }
}

/// A hook changes a plugin only by its panic: one that returns is as it was, one
/// that panics is disabled with the panic recorded, and keeps the rest.
pub proof fn law_hook_leaves_a_plugin_as_it_was(p: LoadedV, o: HookOutcome)
    ensures
        o is Ok ==> after_hook(p, o) == p,
        o matches Err(msg) ==> {
            let q = after_hook(p, o);
            &&& !q.enabled
            &&& q.error is Some
            &&& q == (LoadedV { enabled: false, error: q.error, ..p })
        },
{
}

/// Settings are kept by a plugin's name: the first entry of that name counts, and
/// a plugin without one stays as it is.
pub proof fn law_saved_settings_go_by_name(s: Seq<SavedV>, name: Seq<char>, i: int)
    ensures
        0 <= i < s.len() && s[i].name == name && (forall|k: int|
            0 <= k < i ==> (#[trigger] s[k]).name != name) ==> saved_for(s, name) == Some(
            s[i].settings,
        ),
        (forall|k: int| 0 <= k < s.len() ==> (#[trigger] s[k]).name != name) ==> saved_for(s, name)
            is None,
    decreases s.len(),
{
    if s.len() > 0 && s[0].name != name {
        let rest = s.skip(1);
        law_saved_settings_go_by_name(rest, name, i - 1);
        if 0 <= i < s.len() && s[i].name == name {
            assert(i > 0 && rest[i - 1] == s[i]);
            if forall|k: int| 0 <= k < i ==> (#[trigger] s[k]).name != name {
                assert forall|k: int| 0 <= k < i - 1 implies (#[trigger] rest[k]).name != name by {
                    assert(rest[k] == s[k + 1]);
                }
            }
        }
        if forall|k: int| 0 <= k < s.len() ==> (#[trigger] s[k]).name != name {
            assert forall|k: int| 0 <= k < rest.len() implies (#[trigger] rest[k]).name != name by {
                assert(rest[k] == s[k + 1]);
            }
        }
    }
}

/// Reloading a library touches its own plugins alone: exactly those of other
/// libraries stay, and exactly its own are kept for the reload, each with its
/// settings.
pub proof fn law_reload_touches_one_library(
    ps: Seq<LoadedV>,
    configs: Seq<Option<Seq<char>>>,
    path: Seq<char>,
    p: LoadedV,
    i: int,
)
    requires
        configs.len() == ps.len(),
    ensures
        others(ps, path).contains(p) <==> ps.contains(p) && p.path != path,
        0 <= i < ps.len() && ps[i].path == path ==> kept_from(ps, configs, path).contains(
            SavedV {
                name: ps[i].name,
                settings: PluginSettingsV {
                    enabled: ps[i].enabled,
                    window_open: ps[i].window_open,
                    config: configs[i],
                },
            },
        ),
        others(ps, path).len() + kept_from(ps, configs, path).len() == ps.len(),
    decreases ps.len(),
{
    if ps.len() > 0 {
        let n = ps.len() - 1;
        let head = ps.drop_last();
        let less = configs.drop_last();
        law_reload_touches_one_library(head, less, path, p, i);
        lemma_kept_from_needs_its_own(head, less, configs, path);
        let a = others(head, path);
        let b = others(ps, path);
        if b.contains(p) {
            let k = choose|k: int| 0 <= k < b.len() && b[k] == p;
            if k < a.len() {
                assert(a[k] == p);
                let m = choose|m: int| 0 <= m < head.len() && head[m] == p;
                assert(ps[m] == p);
            } else {
                assert(ps[n] == p);
            }
        }
        if ps.contains(p) && p.path != path {
            let k = choose|k: int| 0 <= k < ps.len() && ps[k] == p;
            if k < n {
                assert(head[k] == p);
                assert(a.contains(p));
                let m = choose|m: int| 0 <= m < a.len() && a[m] == p;
                assert(b[m] == p);
            } else {
                assert(b[a.len() as int] == p);
            }
        }
        if 0 <= i < ps.len() && ps[i].path == path {
            let c = kept_from(head, configs, path);
            let d = kept_from(ps, configs, path);
            let want = SavedV {
                name: ps[i].name,
                settings: PluginSettingsV {
                    enabled: ps[i].enabled,
                    window_open: ps[i].window_open,
                    config: configs[i],
                },
            };
            if i < n {
                assert(head[i] == ps[i]);
                assert(less[i] == configs[i]);
                assert(c.contains(want));
                let m = choose|m: int| 0 <= m < c.len() && c[m] == want;
                assert(d[m] == want);
            } else {
                assert(d[c.len() as int] == want);
            }
        }
    }
}

/// What is kept of plugins does not depend on the configurations of later ones.
proof fn lemma_kept_from_needs_its_own(
    ps: Seq<LoadedV>,
    few: Seq<Option<Seq<char>>>,
    many: Seq<Option<Seq<char>>>,
    path: Seq<char>,
)
    requires
        few.len() <= many.len(),
        ps.len() <= few.len(),
        forall|k: int| 0 <= k < few.len() ==> #[trigger] few[k] == many[k],
    ensures
        kept_from(ps, few, path) == kept_from(ps, many, path),
    decreases ps.len(),
{
    if ps.len() > 0 {
        lemma_kept_from_needs_its_own(ps.drop_last(), few, many, path);
        assert(few[ps.len() - 1] == many[ps.len() - 1]);
    }
}

/// Builds of different toolchains have different fingerprints.
pub proof fn law_fingerprints_tell_toolchains_apart(a: Seq<char>, b: Seq<char>)
    requires
        a.len() > 0 && a.last() != '\0',
        b.len() > 0 && b.last() != '\0',
        fingerprint(a) == fingerprint(b),
    ensures
        a == b,
{
    let head = "reclass "@ + PKG_VERSION@ + "; "@;
    let x = head + a;
    let y = head + b;
    assert(x.last() == a.last());
    assert(y.last() == b.last());
    assert(x.skip(head.len() as int) =~= a);
    assert(y.skip(head.len() as int) =~= b);
}

/// Switching a plugin on or off concerns that plugin alone, and switching it on
/// forgets why it was off; so does opening or shutting its window. A plugin that
/// is switched off is in no hook, one that is switched on is in the next.
pub proof fn law_switching_concerns_one_plugin(ps: Seq<LoadedV>, idx: usize, on: bool, k: int)
    requires
        idx < ps.len() <= usize::MAX,
        0 <= k < ps.len(),
    ensures
        ({
            let qs = switched(ps, idx, on);
            &&& qs.len() == ps.len()
            &&& k != idx ==> qs[k] == ps[k]
            &&& qs[idx as int].enabled == on
            &&& on ==> qs[idx as int].error is None
            &&& !on ==> qs[idx as int].error == ps[idx as int].error
            &&& qs[idx as int].window_open == ps[idx as int].window_open
            &&& hooked(qs).contains((idx, ps[idx as int].handle)) == on
        }),
        ({
            let qs = window_set(ps, idx, on);
            &&& qs.len() == ps.len()
            &&& k != idx ==> qs[k] == ps[k]
            &&& qs[idx as int] == (LoadedV { window_open: on, ..ps[idx as int] })
        }),
{
    let qs = switched(ps, idx, on);
    lemma_hooked_is_enabled(qs, idx);
}

/// A hook has a plugin exactly when it is enabled.
proof fn lemma_hooked_is_enabled(ps: Seq<LoadedV>, idx: usize)
    requires
        idx < ps.len() <= usize::MAX,
    ensures
        hooked(ps).contains((idx, ps[idx as int].handle)) == ps[idx as int].enabled,
        forall|k: int| 0 <= k < hooked(ps).len() ==> (#[trigger] hooked(ps)[k]).0 < ps.len(),
    decreases ps.len(),
{
    let head = ps.drop_last();
    let n = (ps.len() - 1) as usize;
    let want = (idx, ps[idx as int].handle);
    let a = hooked(head);
    let b = hooked(ps);
    if head.len() > 0 {
        lemma_hooked_is_enabled(
            head,
            if idx < n {
                idx
            } else {
                0
            },
        );
    }
    if idx < n {
        assert(head[idx as int] == ps[idx as int]);
        if a.contains(want) {
            let k = choose|k: int| 0 <= k < a.len() && a[k] == want;
            assert(b[k] == want);
        }
        if b.contains(want) {
            let k = choose|k: int| 0 <= k < b.len() && b[k] == want;
            assert(a[k] == want);
        }
    } else {
        if ps.last().enabled {
            assert(b[a.len() as int] == want);
        } else if b.contains(want) {
            let k = choose|k: int| 0 <= k < b.len() && b[k] == want;
            assert(a[k].0 < head.len());
        }
    }
}

/// The outcome of a hook reaches the plugin that it came from: each of the
/// plugins that ran is as its own outcome leaves it, and the others are as they
/// were.
pub proof fn law_outcomes_reach_their_plugins(
    ps: Seq<LoadedV>,
    at: Seq<usize>,
    os: Seq<HookOutcome>,
    k: int,
    other: int,
)
    requires
        at.len() == os.len(),
        forall|i: int| 0 <= i < at.len() ==> (#[trigger] at[i]) < ps.len(),
        at.no_duplicates(),
    ensures
        after_hooks(ps, at, os).len() == ps.len(),
        0 <= k < at.len() ==> after_hooks(ps, at, os)[at[k] as int] == after_hook(
            ps[at[k] as int],
            os[k],
        ),
        0 <= other < ps.len() && (forall|i: int|
            0 <= i < at.len() ==> (#[trigger] at[i]) != other) ==> after_hooks(ps, at, os)[other]
            == ps[other],
    decreases at.len(),
{
    if at.len() > 0 {
        let now = ps.update(at[0] as int, after_hook(ps[at[0] as int], os[0]));
        let rest = at.skip(1);
        assert forall|i: int| 0 <= i < rest.len() implies (#[trigger] rest[i]) < now.len() by {
            assert(rest[i] == at[i + 1]);
        }
        assert(rest.no_duplicates()) by {
            assert forall|i: int, j: int|
                0 <= i < rest.len() && 0 <= j < rest.len() && i != j implies rest[i] != rest[j] by {
                assert(rest[i] == at[i + 1] && rest[j] == at[j + 1]);
            }
        }
        if k == 0 {
            assert forall|i: int| 0 <= i < rest.len() implies (#[trigger] rest[i]) != at[0] by {
                assert(rest[i] == at[i + 1]);
            }
            law_outcomes_reach_their_plugins(now, rest, os.skip(1), 0, at[0] as int);
        } else if 0 < k < at.len() {
            law_outcomes_reach_their_plugins(now, rest, os.skip(1), k - 1, other);
            assert(rest[k - 1] == at[k]);
            assert(os.skip(1)[k - 1] == os[k]);
            assert(at[k] != at[0]);
        }
        law_outcomes_reach_their_plugins(now, rest, os.skip(1), k - 1, other);
        if 0 <= other < ps.len() && (forall|i: int|
            0 <= i < at.len() ==> (#[trigger] at[i]) != other) {
            assert(at[0] != other);
            assert forall|i: int| 0 <= i < rest.len() implies (#[trigger] rest[i]) != other by {
                assert(rest[i] == at[i + 1]);
            }
        }
    }
}

/// What is told of every plugin.
pub open spec fn plugins_told(ps: Seq<LoadedV>, facts: Seq<Facts>) -> Seq<PluginInfoV> {
    Seq::new(
        ps.len(),
        |i: int|
            PluginInfoV {
                idx: i,
                name: ps[i].name,
                version: ps[i].version,
                path: ps[i].path,
                enabled: ps[i].enabled,
                has_window: facts[i].has_window,
                window_open: ps[i].window_open,
                error: ps[i].error,
                menu_entries: if ps[i].enabled {
                    entries_view(facts[i].menu_entries@)
                } else {
                    Seq::empty()
                },
            },
    )
}

/// Every plugin is told at its own place, as it is. Only one that is enabled has
/// its menu entries told, each with its name and its label.
pub proof fn law_plugins_are_told_as_they_are(ps: Seq<LoadedV>, facts: Seq<Facts>, i: int, k: int)
    requires
        0 <= i < ps.len(),
        facts.len() == ps.len(),
    ensures
        plugins_told(ps, facts).len() == ps.len(),
        ({
            let told = plugins_told(ps, facts)[i];
            &&& told.idx == i
            &&& told.name == ps[i].name && told.path == ps[i].path
            &&& told.version == ps[i].version
            &&& told.enabled == ps[i].enabled
            &&& told.window_open == ps[i].window_open
            &&& told.has_window == facts[i].has_window
            &&& told.error == ps[i].error
            &&& !ps[i].enabled ==> told.menu_entries.len() == 0
            &&& ps[i].enabled ==> told.menu_entries.len() == facts[i].menu_entries@.len()
            &&& ps[i].enabled && 0 <= k < facts[i].menu_entries@.len() ==> told.menu_entries[k] == (
            facts[i].menu_entries@[k].0@, facts[i].menu_entries@[k].1@)
        }),
{
}

} // verus!
