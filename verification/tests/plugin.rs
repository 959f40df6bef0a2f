//! Plugins: which are loaded, which run, and what becomes of a bad one.

use reclass::plugin::{
    abi_fingerprint, check_abi, is_library, open, toolchain, Created, Facts,
    HookOutcome, Next, PluginAction, PluginError, PluginFile, PluginManager, PluginSettings, Probe,
    Saved,
};
use reclass::app_state::AppState;
use reclass::node::{IntWidth, NodeKind};
use reclass::requests::{can_grant, grant, Errand};

/// In-process plugin that records which hooks fired, in order.
struct Recorder {
    log: Vec<String>,
    panic_on_snapshot: bool,
}

impl Recorder {
    fn on_snapshot(&mut self) -> HookOutcome {
        if self.panic_on_snapshot {
            return Err("boom".to_string());
        }
        self.log.push("on_snapshot".into());
        Ok(vec![PluginAction::AddClass {
            name: "FromSnapshot".into(),
        }])
    }

    fn on_pre_apply(&mut self) -> HookOutcome {
        self.log.push("on_pre_apply".into());
        Ok(Vec::new())
    }

    fn on_context_menu(&mut self, id: &str) -> HookOutcome {
        self.log.push(format!("ctx:{id}"));
        Ok(Vec::new())
    }
}

fn facts() -> Vec<Facts> {
    vec![Facts {
        has_window: false,
        menu_entries: vec![("greet".to_string(), "Greet".to_string())],
    }]
}

/// A manager with one plugin, and what the plugin asked for when initialised.
fn with_recorder(panic_on_snapshot: bool) -> (PluginManager, Recorder, Vec<PluginAction>) {
    let mut mgr = PluginManager::new();
    let start = mgr.load_file(
        "<test>",
        vec![Created {
            handle: 1,
            name: "Recorder".into(),
            version: (1, 0),
        }],
    );
    assert_eq!(start, 0);
    let plugin = Recorder {
        log: vec!["init".into()],
        panic_on_snapshot,
    };
    let queued = vec![PluginAction::AddClass {
        name: "FromInit".into(),
    }];
    (mgr, plugin, queued)
}

/// Run the snapshot hook on every plugin that it is meant for.
fn snapshot(
    mgr: &mut PluginManager,
    plugin: &mut Recorder,
    queued: Vec<PluginAction>,
) -> Vec<PluginAction> {
    let at: Vec<usize> = mgr.hook_targets().iter().map(|t| t.0).collect();
    let outcomes = at.iter().map(|_| plugin.on_snapshot()).collect();
    mgr.on_snapshot(queued, &at, outcomes)
}

#[test]
fn hooks_fire_in_order() {
    let (mut mgr, mut plugin, queued) = with_recorder(false);
    let snap = snapshot(&mut mgr, &mut plugin, queued);
    let at: Vec<usize> = mgr.hook_targets().iter().map(|t| t.0).collect();
    let outcomes = at.iter().map(|_| plugin.on_pre_apply()).collect();
    let pre = mgr.on_pre_apply(Vec::new(), &at, outcomes);
    assert_eq!(mgr.context_target(0), Some(1));
    let ctx = mgr.on_context_menu(0, plugin.on_context_menu("greet"));

    assert_eq!(
        plugin.log,
        vec!["init", "on_snapshot", "on_pre_apply", "ctx:greet"]
    );
    // init enqueued one action; it surfaces on the next hook drain.
    assert!(matches!(
        snap.as_slice(),
        [
            PluginAction::AddClass { name: n1 },
            PluginAction::AddClass { name: n2 }
        ] if n1 == "FromInit" && n2 == "FromSnapshot"
    ));
    assert!(pre.is_empty() && ctx.is_empty());
}

#[test]
fn panicking_hook_is_caught_and_disables_plugin() {
    let (mut mgr, mut plugin, queued) = with_recorder(true);
    let out = snapshot(&mut mgr, &mut plugin, queued);
    assert!(out
        .iter()
        .any(|a| matches!(a, PluginAction::AddClass { .. }))); // the init enqueue still drained
    let info = &mgr.infos(&facts())[0];
    assert!(!info.enabled, "panicking plugin should be disabled");
    assert!(info.error.as_deref().unwrap().contains("boom"));
    assert_eq!(
        info.error.as_deref(),
        Some("panic in plugin 'Recorder': boom")
    );
    // once disabled, its hooks no longer fire.
    assert!(snapshot(&mut mgr, &mut plugin, Vec::new()).is_empty());
    assert_eq!(mgr.context_target(0), None);
    // enabling it again forgets the error
    mgr.set_enabled(0, true);
    assert_eq!(mgr.infos(&facts())[0].error, None);
}

#[test]
fn context_menu_entries_surface_in_infos() {
    let (mgr, _plugin, _queued) = with_recorder(false);
    let entries = &mgr.infos(&facts())[0].menu_entries;
    assert_eq!(entries, &[("greet".to_string(), "Greet".to_string())]);
}

#[test]
fn a_disabled_plugin_has_no_menu_entries() {
    let (mut mgr, _plugin, _queued) = with_recorder(false);
    mgr.set_enabled(0, false);
    assert!(mgr.infos(&facts())[0].menu_entries.is_empty());
}

#[test]
fn a_panicking_menu_entry_disables_the_plugin() {
    let (mut mgr, _plugin, _queued) = with_recorder(false);
    assert!(mgr.on_context_menu(0, Err("oops".to_string())).is_empty());
    let info = &mgr.infos(&facts())[0];
    assert!(!info.enabled);
    assert!(info.menu_entries.is_empty());
    assert_eq!(mgr.context_target(0), None);
    assert_eq!(
        info.error.as_deref(),
        Some("panic in plugin 'Recorder': oops")
    );
}

#[test]
fn rejects_plugin_without_an_abi_fingerprint() {
    // The entry point would return nothing here, so if the loader called it the
    // error would be `NullPlugin`. Getting `MissingAbi` shows that the
    // fingerprint is looked at *before* any entry point is touched.
    let host = abi_fingerprint("rustc 1.88.0");
    let mgr = PluginManager::new();
    let err = open("libno_abi_plugin.so", &host, Probe::Loaded(None)).expect_err("must be rejected");
    assert!(
        matches!(err, PluginError::MissingAbi { .. }),
        "expected MissingAbi, got {err:?}"
    );
    assert!(mgr.is_empty());
}

#[test]
fn rejects_plugin_built_by_a_different_toolchain() {
    let own = abi_fingerprint("rustc 1.88.0");
    let reported = "reclass 0.0.0; rustc 1.0.0 (deadbeef 1970-01-01)".to_string();
    let mgr = PluginManager::new();
    let err = open(
        "libskewed_plugin.so",
        &own,
        Probe::Loaded(Some(reported)),
    )
    .expect_err("must be rejected");
    match err {
        PluginError::AbiMismatch { host, plugin, .. } => {
            assert_eq!(plugin, "reclass 0.0.0; rustc 1.0.0 (deadbeef 1970-01-01)");
            assert_eq!(host, own);
            assert_ne!(host, plugin);
        }
        other => panic!("expected AbiMismatch, got {other:?}"),
    }
    assert!(mgr.is_empty());
}

#[test]
fn a_library_is_opened_step_by_step() {
    let host = abi_fingerprint("rustc 1.88.0");
    assert_eq!(host, "reclass 0.9.1; rustc 1.88.0");
    assert_eq!(abi_fingerprint("rustc\0\0"), "reclass 0.9.1; rustc");
    assert!(check_abi("p.so", &host, Some(host.clone())).is_ok());
    assert_eq!(
        open("p.so", &host, Probe::Loaded(Some(host.clone()))).unwrap(),
        Next::Create
    );
    assert_eq!(open("p.so", &host, Probe::Bundle(true)).unwrap(), Next::Take);
    assert_eq!(
        open("p.so", &host, Probe::Single(Ok(true))).unwrap(),
        Next::Take
    );
    let message = |p: Probe| open("p.so", &host, p).unwrap_err().message();
    assert_eq!(
        message(Probe::NotLoaded("no such file".into())),
        "load p.so: no such file"
    );
    assert_eq!(
        message(Probe::Bundle(false)),
        "p.so: plugin construction returned null"
    );
    assert_eq!(
        message(Probe::Single(Ok(false))),
        "p.so: plugin construction returned null"
    );
    assert_eq!(
        message(Probe::Single(Err("undefined symbol".into()))),
        "p.so: missing 'reclass_plugin_create' symbol"
    );
    assert_eq!(
        message(Probe::Loaded(None)),
        "p.so: missing 'reclass_plugin_abi' symbol — rebuild the plugin against this host"
    );
    assert_eq!(
        message(Probe::Loaded(Some("other".into()))),
        "p.so: ABI mismatch\n  host:   reclass 0.9.1; rustc 1.88.0\n  plugin: other"
    );
}

#[test]
fn the_toolchain_is_one_line() {
    assert_eq!(
        toolchain(Some("rustc 1.88.0\nbinary: rustc\n\n  host: x86_64  \n".into())),
        "rustc 1.88.0; binary: rustc; host: x86_64"
    );
    assert_eq!(toolchain(None), "unknown");
}

#[test]
fn only_libraries_are_loaded_from_a_directory() {
    let file = |p: &str, e: Option<&str>| PluginFile {
        path: p.to_string(),
        extension: e.map(|x| x.to_string()),
    };
    let files = vec![
        file("a.so", Some("so")),
        file("b.txt", Some("txt")),
        file("c", None),
        file("d.dll", Some("dll")),
        file("e.dylib", Some("dylib")),
    ];
    assert_eq!(PluginManager::load_dir(&files), vec!["a.so", "d.dll", "e.dylib"]);
    assert!(!is_library(Some("SO")));
}

fn created(handle: u64, name: &str) -> Created {
    Created {
        handle,
        name: name.to_string(),
        version: (0, 1),
    }
}

fn saved(name: &str, enabled: bool, window_open: bool, config: Option<&str>) -> Saved {
    Saved {
        name: name.to_string(),
        settings: PluginSettings {
            enabled,
            window_open,
            config: config.map(|c| c.to_string()),
        },
    }
}

#[test]
fn saved_settings_come_back_and_survive_a_reload() {
    let mut mgr = PluginManager::new();
    mgr.load_file("bundle.so", vec![created(1, "Auto-attach"), created(2, "Hex Dump")]);
    mgr.load_file("other.so", vec![created(3, "Other")]);
    let mut store = vec![
        saved("Auto-attach", true, true, Some("{\"target\":\"mygame\"}")),
        saved("Hex Dump", false, false, Some("{\"addr_input\":42}")),
        saved("Not Installed", false, true, Some("opaque")),
    ];
    assert_eq!(
        mgr.pending_configs(&store),
        vec![
            Some("{\"target\":\"mygame\"}".to_string()),
            Some("{\"addr_input\":42}".to_string()),
            None
        ]
    );
    // the second plugin refuses what it is handed
    mgr.apply_settings(&mut store, &vec![true, false, true]);
    assert_eq!(store[1].settings.config, None);
    assert_eq!(store[0].settings.config.as_deref(), Some("{\"target\":\"mygame\"}"));
    assert_eq!(store[2].settings.config.as_deref(), Some("opaque"));
    assert!(store[2].settings.window_open);
    // the host's own flags apply in any case
    assert!(mgr.plugins[0].window_open && mgr.plugins[0].enabled);
    assert!(!mgr.plugins[1].enabled);

    let configs = vec![
        Some("{\"target\":\"mygame\"}".to_string()),
        Some("{}".to_string()),
        None,
    ];
    let snap = mgr.settings_snapshot(&configs);
    assert_eq!(snap.len(), 3);
    assert_eq!(snap[0].name, "Auto-attach");
    assert!(snap[0].settings.window_open);
    assert_eq!(snap[1].settings.config.as_deref(), Some("{}"));

    // reload the bundle: fresh instances, the same state
    let reload = mgr.begin_reload(0, &configs).unwrap();
    assert_eq!(reload.path, "bundle.so");
    assert_eq!(mgr.plugins.len(), 1);
    mgr.load_file("bundle.so", vec![created(4, "Auto-attach"), created(5, "Hex Dump")]);
    mgr.finish_reload(&reload);
    assert_eq!(
        mgr.plugins.iter().map(|p| p.handle).collect::<Vec<_>>(),
        vec![3, 4, 5]
    );
    assert!(mgr.plugins[1].window_open && mgr.plugins[1].enabled);
    assert!(!mgr.plugins[2].enabled);
    assert_eq!(
        mgr.pending_configs(&reload.saved)[1].as_deref(),
        Some("{\"target\":\"mygame\"}")
    );
    assert!(mgr.begin_reload(9, &vec![None, None, None]).is_none());
}

#[test]
fn windows_are_shown_and_closed() {
    let (mut mgr, _plugin, _queued) = with_recorder(false);
    assert!(mgr.window_targets().is_empty());
    mgr.set_window_open(0, true);
    assert_eq!(mgr.window_targets(), vec![(0, 1)]);
    mgr.show_window(0, false, None);
    assert!(mgr.window_targets().is_empty());
    mgr.show_window(0, true, Some("bad".to_string()));
    // the window is still open, but no longer shown
    assert!(mgr.infos(&facts())[0].window_open);
    assert!(!mgr.infos(&facts())[0].enabled);
    assert!(mgr.window_targets().is_empty());
    assert_eq!(
        mgr.plugins[0].error.as_deref(),
        Some("panic in plugin 'Recorder': bad")
    );
}

#[test]
fn a_plugin_that_panics_when_started_stays_disabled() {
    let (mut mgr, _plugin, _queued) = with_recorder(false);
    mgr.guarded(0, None);
    assert_eq!(mgr.hook_targets(), vec![(0, 1)]);
    mgr.guarded(0, Some("no".to_string()));
    assert!(mgr.hook_targets().is_empty());
    assert_eq!(
        mgr.plugins[0].error.as_deref(),
        Some("panic in plugin 'Recorder': no")
    );
    // what was saved of it opens its window, and does not enable it
    let mut kept = vec![saved("Recorder", true, true, None)];
    mgr.apply_settings(&mut kept, &vec![true]);
    assert!(!mgr.plugins[0].enabled && mgr.plugins[0].window_open);
    // the user can
    mgr.set_enabled(0, true);
    assert_eq!(mgr.hook_targets(), vec![(0, 1)]);
}

#[test]
fn what_plugins_edit_can_be_undone() {
    let mut state = AppState::new();
    let ask = |state: &mut AppState, a: PluginAction| {
        assert!(can_grant(state, &a));
        grant(state, a)
    };
    let made = ask(&mut state, PluginAction::AddClass { name: "C".into() });
    assert!(matches!(made, Ok(Errand::Nothing)));
    let c = state.selected_class().unwrap();
    for a in [
        PluginAction::PushNode {
            class: c,
            kind: NodeKind::Int(IntWidth::W32),
            name: "hp".into(),
        },
        PluginAction::InsertNode {
            class: c,
            after_idx: 0,
            kind: NodeKind::Float32,
            name: "x".into(),
        },
        PluginAction::SetComment {
            class: c,
            idx: 1,
            comment: "here".into(),
        },
        PluginAction::RenameNode {
            class: c,
            idx: 0,
            name: "health".into(),
        },
        PluginAction::SetAddressExpr {
            class: c,
            expr: "0x1000".into(),
        },
    ] {
        assert!(matches!(ask(&mut state, a), Ok(Errand::Nothing)));
    }
    let class = state.registry().get(c).unwrap();
    assert_eq!(class.nodes[0].name, "health");
    assert_eq!(class.nodes[1].name, "x");
    assert_eq!(class.nodes[1].comment, "here");
    assert_eq!(class.address_expr, "0x1000");
    // an inline cycle is refused
    let looped = PluginAction::SetKind {
        class: c,
        idx: 0,
        kind: NodeKind::ClassInstance { class_id: c },
    };
    assert_eq!(
        ask(&mut state, looped).unwrap_err().message(),
        "would create an inline class cycle"
    );
    let depth = state.undo_depth();
    assert!(ask(&mut state, PluginAction::RemoveNode { class: c, idx: 0 }).is_ok());
    assert_eq!(state.registry().get(c).unwrap().nodes.len(), 1);
    assert_eq!(state.undo_depth(), depth + 1);
    assert!(state.undo());
    assert_eq!(state.registry().get(c).unwrap().nodes[0].name, "health");
}

#[test]
fn errands_are_left_to_the_shell() {
    let mut state = AppState::new();
    let done = grant(&mut state, PluginAction::AttachPid(7));
    assert!(matches!(done, Ok(Errand::Attach(7))));
    let done = grant(&mut state, PluginAction::SetClipboard("t".into()));
    assert!(matches!(done, Ok(Errand::Copy(t)) if t == "t"));
    let done = grant(&mut state, PluginAction::SaveProject { path: "p".into() });
    assert!(matches!(done, Ok(Errand::Save(p)) if p == "p"));
    let done = grant(&mut state, PluginAction::LoadProject { path: "p".into() });
    assert!(matches!(done, Ok(Errand::Load(p)) if p == "p"));
    let write = PluginAction::WriteValue {
        addr: 16,
        kind: NodeKind::Bool,
        text: "true".into(),
    };
    let done = grant(&mut state, write);
    assert!(matches!(done, Ok(Errand::Write { addr: 16, text, .. }) if text == "true"));
    assert!(!state.can_undo());
}
