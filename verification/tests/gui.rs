//! The desktop front-end: its actions, its panels and its settings.

use reclass::app_state::{AppError, AppState};
use reclass::flash::{FlashTracker, Shown};
use reclass::gui::{Action, EditField, Effect, FileMode, ReClassApp};
use reclass::lists::{join, sort, trimmed_lines};
use reclass::mcp_args::Language;
use reclass::memory::{Perms, Region};
use reclass::node::{IntWidth, NodeKind, PathSeg};
use reclass::palette::{
    array_elem_kinds, asm_size_kinds, kind_label, quick_kinds, scalar_kinds, seed_class,
    strip_quotes,
};
use reclass::panels::{class_action, map_heading, map_row, proc_label, ClassPick, DirEntry};
use reclass::processes::ProcInfo;
use reclass::rows::Row;
use reclass::selection::{select_row, Mods};
use reclass::settings::{
    config_dir, join_path, load_recent, recent_file, remember_path, save_recent, settings_file,
    Change, Settings, DEFAULT_FADE, MAX_RECENT,
};
use reclass::shell::{edit_target, Attached, CodegenEvent, McpStep};
use reclass::table::{
    cell_text, edit_action, edit_left, offset_text, step_action, triangle, visible_rows,
    AddressNote, RowPick, ToolPick, TypePick,
};

fn asm_sizes() -> Vec<usize> {
    asm_size_kinds()
        .iter()
        .map(|(_, k)| k.fixed_size())
        .collect()
}

#[test]
fn gui_asm_sizes_match_keywords() {
    assert_eq!(asm_sizes(), vec![1, 2, 4, 8, 10, 16, 32, 64]);
}

#[test]
fn mod_asm_sizes_match_keywords() {
    let sizes: Vec<usize> = asm_size_kinds()
        .iter()
        .map(|(_, k)| k.fixed_size())
        .collect();
    assert_eq!(sizes, vec![1, 2, 4, 8, 10, 16, 32, 64]);
}

fn seeded_with_int32() {
    let mut state = AppState::new();
    let c = state.add_class("C");
    seed_class(&mut state, c, &NodeKind::Int(IntWidth::W32), 5);
    let class = state.project.registry.get(c).unwrap();
    assert_eq!(class.nodes.len(), 5);
    assert!(class
        .nodes
        .iter()
        .all(|n| n.kind == NodeKind::Int(IntWidth::W32)));
    assert_eq!(class.nodes[4].name, "field_4");
}

#[test]
fn gui_seed_class_uses_default_kind() {
    seeded_with_int32();
}

#[test]
fn mod_seed_class_uses_default_kind() {
    seeded_with_int32();
}

// --- flashing ---------------------------------------------------------------

/// A clock in seconds over the tracker's moments.
struct Clock {
    tracker: FlashTracker,
    fade: f64,
}

impl Clock {
    const FADE: f64 = 0.6;

    fn with_fade(fade: f64) -> Clock {
        Clock {
            tracker: FlashTracker::new(),
            fade,
        }
    }

    fn update(&mut self, rows: &[(usize, &[PathSeg], &str)], now: f64) {
        let shown: Vec<Shown> = rows
            .iter()
            .map(|(root, path, sig)| Shown {
                root: *root,
                path: path.to_vec(),
                sig: sig.to_string(),
            })
            .collect();
        self.tracker
            .update(&shown, now.to_bits(), (now - self.fade).to_bits());
    }

    fn factor(&self, root: usize, path: &Vec<PathSeg>, now: f64) -> f32 {
        match self.tracker.since(root, path) {
            Some(at) => {
                let el = (now - f64::from_bits(at)).max(0.0);
                if el < self.fade {
                    (1.0 - el / self.fade) as f32
                } else {
                    0.0
                }
            }
            None => 0.0,
        }
    }

    fn any_active(&self, now: f64) -> bool {
        self.tracker
            .moments()
            .iter()
            .any(|at| now - f64::from_bits(*at) < self.fade)
    }
}

fn fades_after_change() {
    let mut f = Clock::with_fade(Clock::FADE);
    let p = vec![PathSeg::Node(0)];
    let fade = Clock::FADE;

    // first sighting must not flash
    f.update(&[(0usize, p.as_slice(), "1")], 0.0);
    assert_eq!(f.factor(0, &p, 0.0), 0.0);

    // unchanged value: still no flash
    f.update(&[(0usize, p.as_slice(), "1")], 0.1);
    assert_eq!(f.factor(0, &p, 0.1), 0.0);

    // changed value: full flash, then fades linearly to 0
    f.update(&[(0usize, p.as_slice(), "2")], 1.0);
    assert!((f.factor(0, &p, 1.0) - 1.0).abs() < 1e-6);
    assert!((f.factor(0, &p, 1.0 + fade / 2.0) - 0.5).abs() < 0.02);
    assert_eq!(f.factor(0, &p, 1.0 + fade + 0.1), 0.0);
    assert!(f.any_active(1.0));
    assert!(!f.any_active(1.0 + fade + 0.1));

    // row gone -> entry dropped
    f.update(&[], 5.0);
    assert_eq!(f.factor(0, &p, 5.0), 0.0);
}

#[test]
fn gui_flash_tracker_fades_after_change() {
    fades_after_change();
}

#[test]
fn mod_flash_tracker_fades_after_change() {
    fades_after_change();
}

fn custom_fade() {
    let mut f = Clock::with_fade(2.0);
    let p = vec![PathSeg::Node(0)];
    f.update(&[(0usize, p.as_slice(), "a")], 0.0);
    f.update(&[(0usize, p.as_slice(), "b")], 10.0);
    // half-way through the 2s fade
    assert!((f.factor(0, &p, 11.0) - 0.5).abs() < 0.02);
    assert!(f.any_active(11.5));
    assert!(!f.any_active(12.1));
}

#[test]
fn gui_flash_tracker_custom_fade() {
    custom_fade();
}

#[test]
fn mod_flash_tracker_custom_fade() {
    custom_fade();
}

// --- settings ---------------------------------------------------------------

#[test]
fn settings_have_defaults_and_limits() {
    let mut s = Settings::load(None);
    assert!(s.flash_enabled);
    assert_eq!(s.flash_color, (0xFF, 0x40, 0x40));
    assert_eq!(f32::from_bits(s.flash_secs), 0.6);
    assert_eq!(f32::from_bits(DEFAULT_FADE), 0.6);
    assert_eq!(s.default_kind, NodeKind::Hex(IntWidth::W64));
    assert_eq!(s.seed_rows, 16);
    assert_eq!(s.array_cap, 256);
    assert!(!s.mcp_enabled);

    s.change(Change::SeedRows(300));
    assert_eq!(s.seed_rows, 256);
    s.change(Change::ArrayCap(1));
    assert_eq!(s.array_cap, 16);
    // the port cannot be changed while the server is off
    let port = s.mcp_port;
    s.change(Change::McpPort(port + 1));
    assert_eq!(s.mcp_port, port);
    s.change(Change::McpEnabled(true));
    s.change(Change::McpPort(4001));
    assert_eq!(s.mcp_port, 4001);
    s.change(Change::FlashEnabled(false));
    s.change(Change::FlashColor((1, 2, 3)));
    assert_eq!(s.flash_color, (0xFF, 0x40, 0x40));
    let copy = s.dup();
    assert_eq!(copy.mcp_port, 4001);
    s.change(Change::Reset);
    assert_eq!(s.seed_rows, 16);
    assert!(s.flash_enabled);
    let kept = Settings::load(Some(copy));
    assert_eq!(kept.seed_rows, 256);
}

#[test]
fn configuration_lives_under_the_users_home() {
    let some = |s: &str| Some(s.to_string());
    assert_eq!(config_dir(some("/x"), some("/home/u")), "/x/reclass-rs");
    assert_eq!(
        config_dir(None, some("/home/u")),
        "/home/u/.config/reclass-rs"
    );
    assert_eq!(config_dir(None, None), ".reclass-rs");
    assert_eq!(recent_file("/c"), "/c/recent.txt");
    assert_eq!(settings_file("/c/"), "/c/settings.ron");
    for (dir, name) in [("/a", "b"), ("/a/", "b"), ("", "b"), ("/a", "/b"), ("a", "")] {
        assert_eq!(
            join_path(dir, name),
            std::path::Path::new(dir).join(name).to_string_lossy()
        );
    }
}

#[test]
fn recent_projects_are_remembered() {
    let mut recent = Vec::new();
    for i in 0..12 {
        remember_path(&mut recent, &format!("/p/{i}.ron"));
    }
    assert_eq!(recent.len(), MAX_RECENT);
    assert_eq!(recent[0], "/p/11.ron");
    remember_path(&mut recent, "/p/5.ron");
    assert_eq!(recent.len(), MAX_RECENT);
    assert_eq!(recent[0], "/p/5.ron");
    assert_eq!(recent.iter().filter(|p| *p == "/p/5.ron").count(), 1);
    assert_eq!(load_recent(Some(save_recent(&recent))), recent);
    assert_eq!(
        load_recent(Some("  a \r\n\n b\n".to_string())),
        vec!["a", "b"]
    );
    assert!(load_recent(None).is_empty());
}

#[test]
fn lists_of_texts() {
    let v: Vec<String> = ["b", "a", "ab", "B", "a"].iter().map(|s| s.to_string()).collect();
    let mut std = v.clone();
    std.sort();
    assert_eq!(sort(&v), std);
    assert_eq!(join(&v, ", "), v.join(", "));
    assert_eq!(join(&Vec::new(), ", "), "");
    assert_eq!(trimmed_lines(" x \n\n y"), vec!["x", "y"]);
}

#[test]
fn values_are_edited_without_their_quotes() {
    assert_eq!(strip_quotes("  \"hello\" "), "hello");
    assert_eq!(strip_quotes("\""), "\"");
    assert_eq!(strip_quotes("12"), "12");
}

#[test]
fn kinds_are_labelled() {
    assert_eq!(scalar_kinds().len(), 24);
    assert_eq!(array_elem_kinds().len(), 8);
    assert_eq!(quick_kinds().len(), 5);
    for (label, kind) in scalar_kinds() {
        assert_eq!(kind_label(&kind), label);
    }
    assert_eq!(
        kind_label(&NodeKind::ClassPtr { class_id: 3 }),
        "(custom)"
    );
}

// --- actions ----------------------------------------------------------------

fn app() -> ReClassApp {
    ReClassApp::new(
        Settings::load(None),
        false,
        Some("0x5000".to_string()),
        vec![
            ProcInfo {
                pid: 1,
                name: "systemd".to_string(),
            },
            ProcInfo {
                pid: 4242,
                name: "GÄME".to_string(),
            },
        ],
        vec!["/old.ron".to_string()],
    )
}

fn names(app: &ReClassApp, c: u32) -> Vec<String> {
    app.state
        .registry()
        .get(c)
        .unwrap()
        .nodes
        .iter()
        .map(|n| n.name.clone())
        .collect()
}

fn done(app: &mut ReClassApp, a: Action) {
    assert!(app.can_apply(&a));
    match app.apply(a) {
        Effect::Nothing => {}
        other => panic!("{other:?}"),
    }
}

fn row(root: usize, path: Vec<PathSeg>, kind: NodeKind, value: &str) -> Row {
    Row {
        depth: 0,
        root,
        offset: 0x1c,
        address: 0x501c,
        type_label: "T".to_string(),
        name: "n".to_string(),
        value: value.to_string(),
        hex: "00".to_string(),
        kind,
        comment: "c".to_string(),
        expandable: true,
        expanded: false,
        path,
        readable: true,
    }
}

#[test]
fn the_front_end_starts_with_a_seeded_class() {
    let app = app();
    assert_eq!(app.state.registry().name_of(0), Some("Class1"));
    assert_eq!(names(&app, 0).len(), 16);
    assert_eq!(app.state.registry().get(0).unwrap().address_expr, "0x5000");
    assert_eq!(app.state.array_limit, 256);
    assert_eq!(app.save_path, "project.ron");
    assert_eq!(app.refresh_hz(), 4);
    assert_eq!(app.status_line(), "⚪ detached");
    assert_eq!(app.error_line(), None);
}

#[test]
fn an_added_class_is_one_undo_step() {
    let mut app = app();
    let before = app.state.undo_depth();
    done(&mut app, Action::AddClass);
    assert_eq!(app.state.registry().name_of(1), Some("Class2"));
    assert_eq!(names(&app, 1).len(), 16);
    assert_eq!(app.state.undo_depth(), before + 1);
    app.new_class_name = "Player".to_string();
    done(&mut app, Action::AddClass);
    assert_eq!(app.state.registry().name_of(2), Some("Player"));
    assert_eq!(app.new_class_name, "");
    assert!(app.state.undo());
    assert!(app.state.registry().get(2).is_none());
}

#[test]
fn fields_are_pushed_inserted_and_deleted() {
    let mut app = app();
    done(&mut app, Action::PushNode(0, NodeKind::Bool));
    assert_eq!(names(&app, 0)[16], "field_80");
    done(&mut app, Action::InsertAfter(0, 2, NodeKind::Bool));
    assert_eq!(names(&app, 0)[3], "field_2");
    done(&mut app, Action::DeleteNode(0, 3));
    assert_eq!(names(&app, 0).len(), 17);
    done(&mut app, Action::AddBytes(0, 9));
    assert_eq!(names(&app, 0).len(), 19);
    assert_eq!(app.error, None);
    // a failing edit shows its error
    done(&mut app, Action::PushNode(9, NodeKind::Bool));
    assert!(app.error.is_some());
    assert!(app.error_line().unwrap().starts_with("⚠ "));
    // an inline cycle is refused
    app.error = None;
    done(
        &mut app,
        Action::ChangeKind(0, 0, NodeKind::ClassInstance { class_id: 0 }),
    );
    assert!(app.error.is_some());
    done(&mut app, Action::AddArray(0, NodeKind::Hex(IntWidth::W8), 4));
    done(&mut app, Action::SetArrayCount(0, 19, 7));
    assert!(matches!(
        app.state.registry().get(0).unwrap().nodes[19].kind,
        NodeKind::Array { count: 7, .. }
    ));
}

#[test]
fn selected_rows_are_deleted_together() {
    let mut app = app();
    let rows: Vec<Row> = (0..4)
        .map(|i| row(0, vec![PathSeg::Node(i)], NodeKind::Hex(IntWidth::W64), "0"))
        .collect();
    let visible: Vec<&Row> = rows.iter().collect();
    let plain = Mods {
        shift: false,
        command: false,
    };
    let shift = Mods {
        shift: true,
        command: false,
    };
    let ctrl = Mods {
        shift: false,
        command: true,
    };
    select_row(&mut app.selected, &mut app.sel_anchor, &visible, 1, plain);
    assert_eq!(app.selected.len(), 1);
    select_row(&mut app.selected, &mut app.sel_anchor, &visible, 3, shift);
    assert_eq!(app.selected.len(), 3);
    select_row(&mut app.selected, &mut app.sel_anchor, &visible, 2, ctrl);
    assert_eq!(app.selected.len(), 2);
    assert_eq!(app.delete_rows_label().as_deref(), Some("Delete selected (2)"));
    let before = app.state.undo_depth();
    let action = app.delete_key().unwrap();
    done(&mut app, action);
    assert_eq!(names(&app, 0)[..3], ["field_0", "field_2", "field_4"]);
    assert!(app.selected.is_empty());
    assert_eq!(app.state.undo_depth(), before + 1);
    assert!(app.delete_key().is_none());
    assert_eq!(app.delete_rows_label(), None);
}

#[test]
fn texts_are_edited_in_place() {
    let mut app = app();
    let r = row(0, vec![PathSeg::Node(1)], NodeKind::Hex(IntWidth::W64), "\"v\"");
    done(&mut app, edit_action(&r, EditField::Name, "n"));
    assert!(app.is_editing(&r, EditField::Name));
    assert!(!app.is_editing(&r, EditField::Value));
    app.editing.as_mut().unwrap().buf = "health".to_string();
    let a = edit_left(false, true).unwrap();
    done(&mut app, a);
    assert_eq!(names(&app, 0)[1], "health");
    assert!(app.editing.is_none());

    done(&mut app, edit_action(&r, EditField::Comment, ""));
    let a = edit_left(true, true).unwrap();
    done(&mut app, a);
    assert!(app.editing.is_none());
    assert!(edit_left(false, false).is_none());

    // a value is written by the shell
    done(&mut app, edit_action(&r, EditField::Value, &r.value));
    assert_eq!(app.editing.as_ref().unwrap().buf, "v");
    match app.apply(Action::CommitEdit) {
        Effect::Write { root, path, text } => {
            assert_eq!((root, text.as_str()), (0, "v"));
            let rows = vec![row(0, vec![PathSeg::Node(0)], NodeKind::Bool, ""), r];
            assert_eq!(
                edit_target(&rows, root, &path),
                Some((0x501c, NodeKind::Hex(IntWidth::W64)))
            );
            assert_eq!(edit_target(&rows, 1, &path), None);
        }
        other => panic!("{other:?}"),
    }
    app.after_write(Err(AppError::NotAttached));
    assert!(app.error.is_some());
}

#[test]
fn classes_are_clicked_renamed_and_removed() {
    let mut app = app();
    done(&mut app, Action::AddClass);
    done(&mut app, Action::AddClass);
    let entries = app.class_entries();
    assert_eq!(entries.len(), 3);
    assert_eq!(entries[0].label, "Class1  (0x80)");
    let plain = Mods {
        shift: false,
        command: false,
    };
    match app.click_entry(0, plain) {
        Some(Action::OpenView(0)) => {}
        other => panic!("{other:?}"),
    }
    let shift = Mods {
        shift: true,
        command: false,
    };
    assert!(app.click_entry(1, shift).is_none());
    assert_eq!(app.selected_classes, vec![0, 1]);
    assert!(app.class_entries()[1].selected);
    assert_eq!(
        app.delete_classes_label().as_deref(),
        Some("Delete selected (2)")
    );
    done(&mut app, class_action(2, ClassPick::Rename));
    assert!(app.class_entries()[2].renaming);
    app.renaming_class.as_mut().unwrap().buf = "Third".to_string();
    for a in app.rename_left(false) {
        done(&mut app, a);
    }
    assert_eq!(app.state.registry().name_of(2), Some("Third"));
    assert!(app.renaming_class.is_none());
    done(&mut app, class_action(0, ClassPick::DeleteSelected));
    assert_eq!(app.state.registry().len(), 1);
    assert_eq!(app.state.registry().name_of(2), Some("Third"));
    assert!(app.selected_classes.is_empty());
    done(&mut app, class_action(2, ClassPick::Delete));
    assert!(app.state.registry().is_empty());
    assert!(app.class_bar().is_none());
    assert_eq!(app.class_name(2), "?");
}

#[test]
fn tabs_and_the_address_bar() {
    let mut app = app();
    done(&mut app, Action::AddClass);
    let tabs = app.tabs();
    assert_eq!(tabs.len(), 2);
    assert!(!tabs[0].selected && tabs[1].selected);
    done(&mut app, Action::SelectView(0));
    let bar = app.class_bar().unwrap();
    assert_eq!(bar.name, "Class1");
    assert_eq!(bar.size_label, "size 0x80");
    assert_eq!(bar.expr, "0x5000");
    app.state.view_status[0].base = 0x5000;
    match app.class_bar().unwrap().note {
        AddressNote::Base {
            label,
            readable,
            unmapped,
        } => {
            assert_eq!(label, "= 0x5000");
            assert!(!readable && unmapped);
        }
        other => panic!("{other:?}"),
    }
    app.state.view_status[0].error = Some("no module".to_string());
    match app.class_bar().unwrap().note {
        AddressNote::Failed(e) => assert_eq!(e, "no module"),
        other => panic!("{other:?}"),
    }
    done(&mut app, Action::CloseView(0));
    assert_eq!(app.tabs().len(), 1);
}

#[test]
fn the_toolbar_asks_for_fields() {
    let mut app = app();
    match app.tool_action(0, ToolPick::Quick(2)) {
        Some(Action::PushNode(0, k)) => assert_eq!(k, NodeKind::Int(IntWidth::W32)),
        other => panic!("{other:?}"),
    }
    match app.tool_action(0, ToolPick::Asm(4)) {
        Some(Action::PushNode(0, k)) => assert_eq!(k, NodeKind::Unknown(10)),
        other => panic!("{other:?}"),
    }
    assert!(app.tool_action(0, ToolPick::More(24)).is_none());
    assert!(matches!(
        app.tool_action(0, ToolPick::AddBytes),
        Some(Action::AddBytes(0, 1024))
    ));
    assert!(matches!(step_action(5, 3), Some(Action::AddBytes(5, 4096))));
    assert!(step_action(5, 4).is_none());
    app.array_elem = 99;
    match app.tool_action(0, ToolPick::AddArray) {
        Some(Action::AddArray(0, k, 8)) => assert_eq!(k, NodeKind::Pointer),
        other => panic!("{other:?}"),
    }
}

#[test]
fn menus_of_a_row() {
    let mut app = app();
    let r = row(0, vec![PathSeg::Node(2)], NodeKind::Pointer, "");
    match app.triangle_action(0, &r) {
        Some(Action::ExpandPointer { owner, idx, .. }) => assert_eq!((owner, idx), (0, 2)),
        other => panic!("{other:?}"),
    }
    match app.type_action(0, &r, TypePick::Array(0)) {
        Some(Action::ChangeKind(0, 2, NodeKind::Array { count: 8, .. })) => {}
        other => panic!("{other:?}"),
    }
    assert!(app.type_action(0, &r, TypePick::Length).is_none());
    let arr = row(
        0,
        vec![PathSeg::Node(2)],
        NodeKind::Array {
            element: Box::new(NodeKind::Bool),
            count: 3,
        },
        "",
    );
    assert!(matches!(
        app.type_action(0, &arr, TypePick::Length),
        Some(Action::SetArrayCount(0, 2, 8))
    ));
    assert!(matches!(
        app.triangle_action(0, &arr),
        Some(Action::ToggleCollapse(0, _))
    ));
    assert_eq!(app.array_label("byte"), "byte × 8");
    assert_eq!(app.length_label(), "Set length = 8");

    let ptr = row(0, vec![PathSeg::Node(2)], NodeKind::ClassPtr { class_id: 0 }, "");
    assert!(matches!(
        app.triangle_action(0, &ptr),
        Some(Action::Toggle(0, _))
    ));
    match app.menu_actions(0, &ptr, RowPick::ViewAsRoot).as_slice() {
        [Action::SetExpr(0, e), Action::OpenView(0)] => assert_eq!(e, "[0x501C]"),
        other => panic!("{other:?}"),
    }
    let inst = row(
        0,
        vec![PathSeg::Node(2)],
        NodeKind::ClassInstance { class_id: 0 },
        "",
    );
    match app.menu_actions(0, &inst, RowPick::ViewAsRoot).as_slice() {
        [Action::SetExpr(0, e), Action::OpenView(0)] => assert_eq!(e, "0x501C"),
        other => panic!("{other:?}"),
    }
    assert!(app.menu_actions(0, &r, RowPick::ViewAsRoot).is_empty());
    assert!(matches!(
        app.menu_actions(0, &inst, RowPick::GrowTarget(1)).as_slice(),
        [Action::AddBytes(0, 256)]
    ));
    assert!(matches!(
        app.menu_actions(0, &r, RowPick::InsertBelow).as_slice(),
        [Action::InsertAfter(0, 2, NodeKind::Int(IntWidth::W32))]
    ));
    let lost = row(0, vec![PathSeg::Node(99)], NodeKind::Bool, "");
    assert!(app.menu_actions(0, &lost, RowPick::Delete).is_empty());
    assert!(app.menu_actions(0, &r, RowPick::DeleteSelected).is_empty());
    app.selected.push(vec![PathSeg::Node(2)]);
    assert!(matches!(
        app.menu_actions(0, &r, RowPick::DeleteSelected).as_slice(),
        [Action::DeleteSelected]
    ));
}

#[test]
fn cells_of_a_row() {
    let rows = vec![
        row(0, vec![PathSeg::Node(0)], NodeKind::Bool, ""),
        row(1, vec![PathSeg::Node(0)], NodeKind::Bool, ""),
    ];
    assert_eq!(visible_rows(&rows, 1).len(), 1);
    assert_eq!(offset_text(0x1c), "0x001C");
    assert_eq!(triangle(&rows[0]), Some("▶"));
    assert_eq!(cell_text(""), "—");
    assert_eq!(cell_text("x"), "x");
}

#[test]
fn processes_are_filtered_whatever_their_case() {
    let mut app = app();
    assert_eq!(app.shown_processes(), vec![0, 1]);
    app.proc_filter = "gäm".to_string();
    assert_eq!(app.shown_processes(), vec![1]);
    app.proc_filter = "nothing".to_string();
    assert!(app.shown_processes().is_empty());
    assert_eq!(proc_label(&app.processes[1]), "   4242  GÄME");
    app.pid_input = " 77 ".to_string();
    assert!(matches!(app.attach_input(), Some(Action::AttachPid(77))));
    app.pid_input = "x".to_string();
    assert!(app.attach_input().is_none());
    assert_eq!(app.error.as_deref(), Some("bad pid"));
}

#[test]
fn attaching_is_told() {
    let mut app = app();
    assert!(matches!(app.apply(Action::AttachPid(7)), Effect::Attach(7)));
    app.after_attach(7, Err("no such process".to_string()));
    assert_eq!(
        app.error.as_deref(),
        Some("attach pid 7: no such process")
    );
    let region = Region {
        start: 0x5000,
        end: 0x6000,
        perms: Perms {
            read: true,
            write: false,
            execute: true,
            shared: false,
        },
        path: None,
    };
    app.after_attach(
        7,
        Ok(Attached {
            regions: Some(vec![region]),
            name: Some("game".to_string()),
        }),
    );
    assert_eq!(app.error, None);
    assert_eq!(app.status_line(), "🟢 attached to game (pid 7)");
    assert_eq!(app.state.project.attach_name.as_deref(), Some("game"));
    assert!(app.state.addr_is_readable(0x5000));
    assert_eq!(map_heading(&app.state.regions), "1 regions");
    let line = map_row(&app.state.regions[0]);
    assert_eq!(line.start, "0x000000005000");
    assert_eq!(line.perms, "r-xp");
    assert_eq!(line.path, "");
    assert!(matches!(app.apply(Action::RefreshRegions), Effect::Refresh));
    app.after_refresh(Vec::new(), None);
    assert!(app.processes.is_empty() && app.state.regions.is_empty());
}

#[test]
fn projects_are_saved_and_loaded() {
    let mut app = app();
    assert!(matches!(app.save_action(), Some(Action::Save(p)) if p == "project.ron"));
    assert!(matches!(app.recent_action(0), Some(Action::Load(p)) if p == "/old.ron"));
    assert!(app.recent_action(1).is_none());
    match app.apply(Action::Save("/p.ron".to_string())) {
        Effect::Save(p) => app.after_save(&p, Ok(())),
        other => panic!("{other:?}"),
    }
    assert_eq!(app.state.status, "saved /p.ron");
    assert_eq!(app.save_path, "/p.ron");
    assert_eq!(app.recent, vec!["/p.ron", "/old.ron"]);
    app.after_save("/q.ron", Err(AppError::Project("disk full".to_string())));
    assert!(app.error.as_deref().unwrap().contains("disk full"));
    assert_eq!(app.save_path, "/p.ron");

    let mut project = app.state.project.dup();
    project.attach_name = Some("game".to_string());
    let name = app.after_load("/old.ron", Ok(project));
    assert_eq!(name.as_deref(), Some("game"));
    assert!(!app.state.can_undo());
    assert_eq!(app.recent, vec!["/old.ron", "/p.ron"]);
    app.after_reattach("/old.ron", "game", None);
    assert_eq!(app.state.status, "loaded /old.ron; 'game' not running");
    app.after_reattach("/old.ron", "game", Some(None));
    assert_eq!(app.state.status, "loaded /old.ron; attached to game");
    assert!(app.state.attached());
    assert_eq!(app.after_load("/x", Err(AppError::Project("bad".into()))), None);

    app.after_generate("/gen", Ok(3));
    assert_eq!(app.state.status, "generated project (3 files) in /gen");
    assert_eq!(app.error, None);
    app.after_generate("/gen", Err(AppError::NotAttached));
    assert!(app.error.as_deref().unwrap().starts_with("generate project: "));
}

#[test]
fn the_file_browser() {
    let mut app = app();
    app.open_file_dialog(FileMode::Save, None, Some("/home/u".to_string()), None);
    let entry = |n: &str, d: bool| DirEntry {
        name: n.to_string(),
        is_dir: d,
    };
    {
        let fd = app.file_dialog.as_mut().unwrap();
        assert_eq!(fd.title(), "Save project as");
        assert_eq!(fd.confirm_label(), "Save");
        assert_eq!(fd.filename, "project.ron");
        let (dirs, files) = fd.list(Ok(vec![
            entry("z", true),
            entry(".hidden", true),
            entry("b.ron", false),
            entry("a.ron", false),
            entry("notes.txt", false),
            entry("a", true),
        ]));
        assert_eq!(dirs, vec!["a", "z"]);
        assert_eq!(files, vec!["a.ron", "b.ron"]);
        let (dirs, _) = fd.list(Err("denied".to_string()));
        assert!(dirs.is_empty());
        assert_eq!(fd.error.as_deref(), Some("cannot read directory: denied"));
        fd.enter("sub");
        assert_eq!(fd.dir, "/home/u/sub");
        fd.filename = "  mine ".to_string();
    }
    match app.dialog_drawn(true, false, true) {
        Some(Action::Save(p)) => assert_eq!(p, "/home/u/sub/mine.ron"),
        other => panic!("{other:?}"),
    }
    assert!(app.file_dialog.is_none());

    app.open_file_dialog(FileMode::Open, Some("/p".to_string()), None, None);
    // nothing to open yet: the browser stays
    assert!(app.dialog_drawn(true, false, true).is_none());
    assert!(app.file_dialog.is_some());
    assert!(app.dialog_drawn(true, true, false).is_none());
    assert!(app.file_dialog.is_none());

    app.open_file_dialog(FileMode::GenProject, None, None, None);
    app.file_dialog.as_mut().unwrap().go_up(None);
    assert!(matches!(
        app.dialog_drawn(true, false, true),
        Some(Action::GenerateProject(d)) if d == "."
    ));
}

#[test]
fn the_control_server_follows_the_settings() {
    let mut app = app();
    let keep = McpStep {
        stop: false,
        start: None,
    };
    assert_eq!(app.sync_mcp(), keep);
    app.change_setting(Change::McpEnabled(true));
    app.change_setting(Change::McpPort(4001));
    assert_eq!(app.sync_mcp().start, Some(4001));
    app.after_mcp_start(4001, Ok(()));
    assert_eq!(app.state.status, "MCP server on 127.0.0.1:4001");
    assert_eq!(app.sync_mcp(), keep);
    app.change_setting(Change::McpPort(4002));
    assert_eq!(
        app.sync_mcp(),
        McpStep {
            stop: true,
            start: Some(4002)
        }
    );
    app.after_mcp_start(4002, Err("port busy".to_string()));
    assert_eq!(app.error.as_deref(), Some("MCP: port busy"));
    assert!(!app.settings.mcp_enabled);
    assert_eq!(app.sync_mcp(), keep);
    app.change_setting(Change::ArrayCap(512));
    assert_eq!(app.state.array_limit, 512);
}

#[test]
fn code_is_generated_when_asked_for() {
    let mut app = app();
    assert!(app.codegen_event(CodegenEvent::Shown));
    app.codegen_cache = "struct A;".to_string();
    assert!(!app.codegen_event(CodegenEvent::Shown));
    assert!(app.codegen_event(CodegenEvent::Pick(Language::Cpp)));
    assert_eq!(app.codegen_lang, Language::Cpp);
    assert!(app.codegen_event(CodegenEvent::Regenerate));
}

#[test]
fn changed_values_are_tracked() {
    let mut app = app();
    let p = vec![PathSeg::Node(0)];
    let rows = |v: &str| vec![row(0, vec![PathSeg::Node(0)], NodeKind::Bool, v)];
    app.track_changes(&rows("1"), 10, 4);
    assert_eq!(app.flash.since(0, &p), Some(4));
    app.track_changes(&rows("1"), 11, 5);
    assert_eq!(app.flash.since(0, &p), Some(4));
    app.track_changes(&rows("2"), 12, 6);
    assert_eq!(app.flash.since(0, &p), Some(12));
    app.track_changes(&Vec::new(), 13, 7);
    assert_eq!(app.flash.since(0, &p), None);
}

#[test]
fn pointers_are_followed_through_the_triangle() {
    let mut app = app();
    done(&mut app, Action::ChangeKind(0, 0, NodeKind::Pointer));
    let r = row(0, vec![PathSeg::Node(0)], NodeKind::Pointer, "");
    let a = app.triangle_action(0, &r).unwrap();
    done(&mut app, a);
    assert!(matches!(
        app.state.registry().get(0).unwrap().nodes[0].kind,
        NodeKind::ClassPtr { class_id: 1 }
    ));
    assert!(app.state.expand.is_expanded(0, &r.path));
    done(&mut app, Action::Toggle(0, vec![PathSeg::Node(0)]));
    assert!(!app.state.expand.is_expanded(0, &r.path));
    done(&mut app, Action::ExpandAll);
    assert!(app.state.expand.is_expanded(0, &r.path));
    done(&mut app, Action::CollapseAll);
    assert!(!app.state.expand.is_expanded(0, &r.path));
    done(&mut app, Action::OpenView(1));
    assert_eq!(app.state.selected_class(), Some(1));
    assert!(!app.can_apply(&Action::InsertAfter(0, usize::MAX, NodeKind::Bool)));
    assert!(!app.can_apply(&Action::AddBytes(0, usize::MAX)));
}
