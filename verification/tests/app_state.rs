//! The application state: edits, undo, copy and paste, views, expressions.

use reclass::app_state::{AppError, AppState, ViewStatus};
use reclass::history::History;
use reclass::live::{evaluated_status, Resolve};
use reclass::memory::{AddrResolver, Perms, Region};
use reclass::node::{ClassId, IntWidth, Node, NodeKind, PathSeg};
use reclass::registry::RegistryError;

fn region(start: u64, end: u64, path: Option<&str>) -> Region {
    Region {
        start,
        end,
        perms: Perms {
            read: true,
            write: true,
            execute: false,
            shared: false,
        },
        path: path.map(|p| p.to_string()),
    }
}

fn attached_state() -> AppState {
    let mut st = AppState::new();
    st.set_backend(Some(vec![region(0x5000, 0x6000, Some("/game"))]));
    st
}

/// What the expressions of these tests stand for: an address, or an offset from
/// the module `game` at 0x4000.
fn evaluate(expr: &str) -> Result<u64, String> {
    let number = |s: &str| u64::from_str_radix(s.trim().trim_start_matches("0x"), 16);
    match expr.split_once('+') {
        Some((module, offset)) if module.trim() == "<game>" => number(offset)
            .map(|n| 0x4000 + n)
            .map_err(|e| e.to_string()),
        Some((module, _)) => Err(format!("unknown module {module}")),
        None => number(expr).map_err(|e| e.to_string()),
    }
}

/// Resolve every view once, as a frame does: expressions are parsed where the
/// cache does not know them, and evaluated.
fn tick(st: &mut AppState, asts: &mut Vec<String>) -> usize {
    let mut parses = 0;
    let jobs = st.begin_rows();
    for (i, (class, expr)) in jobs.into_iter().enumerate() {
        let status = loop {
            match st.resolve_cached(class, &expr) {
                Resolve::Done(status) => break status,
                Resolve::Parse => {
                    parses += 1;
                    asts.push(expr.clone());
                    let handle = asts.len() as u64 - 1;
                    st.remember_parse(class, &expr, Ok(handle));
                }
                Resolve::Eval(handle) => {
                    break evaluated_status(evaluate(&asts[handle as usize]));
                }
            }
        };
        st.set_view_status(i, status);
    }
    parses
}

fn field_names(st: &AppState, c: ClassId) -> Vec<String> {
    st.registry()
        .get(c)
        .map(|cl| cl.nodes.iter().map(|n| n.name.clone()).collect())
        .unwrap_or_default()
}

fn hex8(name: &str) -> Node {
    Node::new(name, NodeKind::Hex(IntWidth::W8))
}

#[test]
fn expand_pointer_creates_and_follows_target() {
    let mut st = AppState::new();
    st.set_backend(Some(vec![
        region(0x5000, 0x5100, None),
        region(0x7000, 0x7100, None),
    ]));
    let c = st.add_class("C");
    st.push_node(c, Node::new("ptr", NodeKind::Pointer))
        .unwrap();
    st.set_address_expr(c, "0x5000".to_string()).unwrap();

    // before expansion: a single field, still a Pointer
    assert_eq!(field_names(&st, c), ["ptr"]);
    assert!(matches!(
        st.registry().get(c).unwrap().nodes[0].kind,
        NodeKind::Pointer
    ));
    let path = vec![PathSeg::Node(0)];
    assert!(!st.expand.is_expanded(0, &path));

    // expand: converts to ClassPtr over a fresh class and follows it
    st.expand_pointer(c, 0, 0, vec![PathSeg::Node(0)]).unwrap();
    let target = match st.registry().get(c).unwrap().nodes[0].kind {
        NodeKind::ClassPtr { class_id } => class_id,
        _ => panic!("the pointer was not converted"),
    };
    assert!(st.expand.is_expanded(0, &path));
    let fields = &st.registry().get(target).unwrap().nodes;
    assert!(fields.len() > 1, "pointer did not expand into target fields");
    // the fields cover the 128 bytes of the target
    assert_eq!(st.registry().size_of(target), 128);
    assert_eq!(st.registry().name_of(target), Some("Auto1"));
    assert_eq!(fields[1].name, "field_8");
    assert_eq!(fields[15].name, "field_78");
}

#[test]
fn delete_many_removes_descending_without_shift_bugs() {
    let mut st = AppState::new();
    let c = st.add_class("C");
    for i in 0..6 {
        st.push_node(c, hex8(&format!("f{i}"))).unwrap();
    }
    // delete indices 1, 3, 4 (order/dupes shouldn't matter)
    st.delete_many(&vec![(c, 3), (c, 1), (c, 4), (c, 3)])
        .unwrap();
    let names: Vec<String> = st
        .project
        .registry
        .get(c)
        .unwrap()
        .nodes
        .iter()
        .map(|n| n.name.clone())
        .collect();
    assert_eq!(names, vec!["f0", "f2", "f5"]);
}

#[test]
fn add_bytes_grows_class_in_bulk() {
    let mut st = AppState::new();
    let c = st.add_class("C");
    st.add_bytes(c, 20).unwrap(); // 2 x Hex64 (16) + 4 x Hex8 (4)
    assert_eq!(st.project.registry.size_of(c), 20);
    assert_eq!(st.project.registry.get(c).unwrap().nodes.len(), 6);
    st.add_bytes(c, 1024).unwrap();
    assert_eq!(st.project.registry.size_of(c), 20 + 1024);
}

#[test]
fn added_bytes_are_named_by_their_offsets() {
    let mut st = AppState::new();
    let c = st.add_class("C");
    st.add_bytes(c, 18).unwrap();
    assert_eq!(field_names(&st, c), ["field_0", "field_8", "field_10", "field_11"]);
}

#[test]
fn add_array_appends_one_collapsible_node() {
    let mut st = AppState::new();
    let c = st.add_class("C");
    st.add_array(c, NodeKind::Hex(IntWidth::W8), 72).unwrap();
    let class = st.project.registry.get(c).unwrap();
    assert_eq!(class.nodes.len(), 1);
    assert!(matches!(
        class.nodes[0].kind,
        NodeKind::Array { count: 72, .. }
    ));
    assert_eq!(st.project.registry.size_of(c), 72);
    assert_eq!(class.nodes[0].name, "arr_0");
}

#[test]
fn expand_all_and_collapse_all_toggle_aggregates() {
    let mut st = attached_state();
    let c = st.add_class("C");
    st.push_node(
        c,
        Node::new(
            "arr",
            NodeKind::Array {
                element: Box::new(NodeKind::Int(IntWidth::W32)),
                count: 3,
            },
        ),
    )
    .unwrap();
    st.set_address_expr(c, "0x5000".to_string()).unwrap();
    let arr = vec![PathSeg::Node(0)];

    // default expanded
    assert!(!st.expand.is_collapsed(0, &arr));
    st.collapse_all();
    assert!(st.expand.is_collapsed(0, &arr));
    st.expand_all();
    assert!(!st.expand.is_collapsed(0, &arr));
}

#[test]
fn expand_all_follows_pointers_and_collapse_all_stops() {
    let mut st = AppState::new();
    let inner = st.add_class("Inner");
    st.push_node(inner, hex8("x")).unwrap();
    let outer = st.add_class("Outer");
    st.push_node(outer, Node::new("p", NodeKind::ClassPtr { class_id: inner }))
        .unwrap();
    let p = vec![PathSeg::Node(0)];
    st.expand_all();
    assert!(st.expand.is_expanded(1, &p));
    st.collapse_all();
    assert!(!st.expand.is_expanded(1, &p));
}

#[test]
fn change_kind_converts_field_to_array() {
    let mut st = AppState::new();
    let c = st.add_class("C");
    st.push_node(c, Node::new("blob", NodeKind::Hex(IntWidth::W64)))
        .unwrap();
    st.change_kind(
        c,
        0,
        NodeKind::Array {
            element: Box::new(NodeKind::Hex(IntWidth::W8)),
            count: 13,
        },
    )
    .unwrap();
    let class = st.project.registry.get(c).unwrap();
    assert!(matches!(
        class.nodes[0].kind,
        NodeKind::Array { count: 13, .. }
    ));
    assert_eq!(st.project.registry.size_of(c), 13);
}

#[test]
fn remove_class_drops_class_and_its_views() {
    let mut st = AppState::new();
    let a = st.add_class("A");
    let b = st.add_class("B");
    assert_eq!(st.project.registry.len(), 2);
    assert_eq!(st.project.views.len(), 2);
    st.remove_class(a);
    assert_eq!(st.project.registry.len(), 1);
    assert!(st.project.registry.name_of(a).is_none());
    assert_eq!(st.project.registry.name_of(b), Some("B"));
    // the view showing A is gone; B's view remains and selection stays valid
    assert_eq!(st.project.views.len(), 1);
    assert_eq!(st.selected_class(), Some(b));
}

#[test]
fn a_value_is_written_only_to_a_target() {
    let st = AppState::new();
    assert!(matches!(
        st.write_value(Ok(vec![1, 2])),
        Err(AppError::NotAttached)
    ));
    let st = attached_state();
    assert_eq!(st.write_value(Ok(vec![9, 3, 0, 0])).unwrap(), vec![9, 3, 0, 0]);
    match st.write_value(Err("not a number".to_string())) {
        Err(AppError::Edit(e)) => assert_eq!(e, "not a number"),
        other => panic!("{other:?}"),
    }
}

#[test]
fn bad_expr_sets_error_no_panic() {
    let mut st = attached_state();
    let c = st.add_class("C");
    st.set_address_expr(c, "<missing> + 1".to_string()).unwrap();
    tick(&mut st, &mut Vec::new());
    assert!(st.view_status[0].error.is_some());
}

#[test]
fn resolve_owner_through_nested_and_array() {
    let mut st = AppState::new();
    let inner = st.project.registry.add_class("Inner");
    st.push_node(inner, Node::new("x", NodeKind::Int(IntWidth::W32)))
        .unwrap();
    let outer = st.add_class("Outer");
    st.push_node(outer, Node::new("a", NodeKind::Hex(IntWidth::W32)))
        .unwrap();
    st.push_node(
        outer,
        Node::new("inner", NodeKind::ClassInstance { class_id: inner }),
    )
    .unwrap();

    // path to Outer.inner.x  =>  [Node(1), Node(0)] resolves to (inner, 0)
    let owner = st.resolve_owner(outer, &vec![PathSeg::Node(1), PathSeg::Node(0)]);
    assert_eq!(owner, Some((inner, 0)));
    // path to Outer.a => (outer, 0)
    assert_eq!(
        st.resolve_owner(outer, &vec![PathSeg::Node(0)]),
        Some((outer, 0))
    );
}

#[test]
fn change_kind_rejects_cycle() {
    let mut st = AppState::new();
    let a = st.add_class("A");
    st.push_node(a, Node::new("self", NodeKind::Hex(IntWidth::W32)))
        .unwrap();
    let err = st.change_kind(a, 0, NodeKind::ClassInstance { class_id: a });
    assert!(err.is_err());
}

#[test]
fn addr_readability_check() {
    let st = attached_state();
    assert!(st.addr_is_readable(0x5500));
    assert!(!st.addr_is_readable(0x9999));
}

#[test]
fn close_view_keeps_selection_valid() {
    let mut st = AppState::new();
    let a = st.add_class("A");
    let b = st.add_class("B");
    assert_eq!(st.project.views.len(), 2);
    st.close_view(0);
    assert_eq!(st.project.views.len(), 1);
    assert_eq!(st.selected_class(), Some(b));
    let _ = a;
}

#[test]
fn add_array_rejects_inline_cycle() {
    let mut st = AppState::new();
    let a = st.add_class("A");
    // array of inline-A inside A would recurse forever — must be refused
    assert!(st
        .add_array(a, NodeKind::ClassInstance { class_id: a }, 4)
        .is_err());
    // a ClassPtr element is a read boundary and is allowed
    assert!(st
        .add_array(a, NodeKind::ClassPtr { class_id: a }, 4)
        .is_ok());
}

#[test]
fn expr_cache_reparses_after_edit() {
    let mut st = AppState::new();
    st.set_backend(None);
    let c = st.add_class("C");
    st.push_node(c, Node::new("f", NodeKind::Hex(IntWidth::W64)))
        .unwrap();
    let mut asts = Vec::new();
    let _ = st.set_address_expr(c, "<game> + 0x10".to_string());
    assert_eq!(tick(&mut st, &mut asts), 1);
    assert_eq!(st.view_status[0].base, 0x4010);
    // unchanged: the parse is remembered
    assert_eq!(tick(&mut st, &mut asts), 0);
    // editing the expression must discard the cached AST and re-parse
    let _ = st.set_address_expr(c, "<game> + 0x20".to_string());
    assert_eq!(tick(&mut st, &mut asts), 1);
    assert_eq!(st.view_status[0].base, 0x4020);
}

#[test]
fn undo_reverses_one_edit_and_redo_reapplies_it() {
    let mut st = AppState::new();
    let c = st.add_class("Player");
    st.push_node(c, Node::new("hp", NodeKind::Int(IntWidth::W32)))
        .unwrap();
    st.push_node(c, Node::new("mp", NodeKind::Int(IntWidth::W32)))
        .unwrap();
    assert_eq!(field_names(&st, c), ["hp", "mp"]);

    assert!(st.undo());
    assert_eq!(field_names(&st, c), ["hp"]);
    assert!(st.undo());
    assert_eq!(field_names(&st, c), Vec::<String>::new());

    assert!(st.redo());
    assert_eq!(field_names(&st, c), ["hp"]);
    assert!(st.redo());
    assert_eq!(field_names(&st, c), ["hp", "mp"]);
    assert!(!st.redo(), "redo past the tip must be a no-op");
}

#[test]
fn a_multi_select_delete_is_one_undo_step() {
    // `delete_many` used to loop through `delete_node`; each iteration would
    // have taken its own snapshot, so undoing a 3-row delete would restore
    // one row per Ctrl+Z.
    let mut st = AppState::new();
    let c = st.add_class("S");
    for i in 0..4 {
        st.push_node(c, hex8(&format!("f{i}"))).unwrap();
    }
    let before = st.undo_depth();
    st.delete_many(&vec![(c, 0), (c, 1), (c, 2)]).unwrap();
    assert_eq!(field_names(&st, c), ["f3"]);
    assert_eq!(st.undo_depth(), before + 1, "one action, one undo step");
    assert!(st.undo());
    assert_eq!(field_names(&st, c), ["f0", "f1", "f2", "f3"]);
}

#[test]
fn add_array_is_one_undo_step() {
    let mut st = AppState::new();
    let c = st.add_class("S");
    let before = st.undo_depth();
    st.add_array(c, NodeKind::Hex(IntWidth::W32), 8).unwrap();
    assert_eq!(st.undo_depth(), before + 1);
    assert!(st.undo());
    assert!(field_names(&st, c).is_empty());
}

#[test]
fn undo_restores_references_a_class_removal_rewrote() {
    // `remove_class` rewrites every reference to the dead class across the
    // whole registry, which is why undo snapshots the project rather than
    // journalling an inverse operation.
    let mut st = AppState::new();
    let inner = st.add_class("Inner");
    st.push_node(inner, Node::new("x", NodeKind::Hex(IntWidth::W32)))
        .unwrap();
    let outer = st.add_class("Outer");
    st.push_node(
        outer,
        Node::new("i", NodeKind::ClassInstance { class_id: inner }),
    )
    .unwrap();
    assert_eq!(st.registry().size_of(outer), 4);

    st.remove_class(inner);
    assert!(st.registry().get(inner).is_none());
    // the inline instance became same-size Unknown, preserving layout
    assert_eq!(st.registry().size_of(outer), 4);

    assert!(st.undo());
    assert!(st.registry().get(inner).is_some());
    assert_eq!(
        st.registry().get(outer).unwrap().nodes[0].kind,
        NodeKind::ClassInstance { class_id: inner },
        "the rewritten reference came back"
    );
}

#[test]
fn a_new_edit_discards_the_redo_branch() {
    let mut st = AppState::new();
    let c = st.add_class("S");
    st.push_node(c, hex8("a")).unwrap();
    assert!(st.undo());
    assert!(st.can_redo());
    st.push_node(c, hex8("b")).unwrap();
    assert!(!st.can_redo(), "branching forward must drop the old future");
    assert_eq!(field_names(&st, c), ["b"]);
}

#[test]
fn undo_on_a_fresh_state_is_a_no_op() {
    let mut st = AppState::new();
    assert!(!st.can_undo());
    assert!(!st.undo());
    assert!(!st.redo());
}

#[test]
fn a_large_project_trades_undo_depth_for_memory() {
    // Depth alone is not a memory bound. Once the node budget binds, the stack
    // must stop growing well short of DEPTH.
    let mut st = AppState::new();
    let c = st.add_class("Big");
    let wide = History::MAX_NODES / 8;
    st.add_bytes(c, wide * 8).unwrap();
    assert!(st.registry().get(c).unwrap().nodes.len() >= wide);

    for i in 0..20 {
        st.rename_node(c, 0, format!("n{i}")).unwrap();
    }
    assert!(
        st.undo_depth() < History::DEPTH,
        "node budget never bound: depth {}",
        st.undo_depth()
    );
    // the most recent edit is always undoable, however big the project
    assert!(st.can_undo());
    assert!(st.undo());
    assert_eq!(st.registry().get(c).unwrap().nodes[0].name, "n18");
}

#[test]
fn one_oversized_snapshot_is_still_undoable() {
    // A single project bigger than the whole budget must not trim itself
    // away: the edit that just happened would become unundoable.
    let mut st = AppState::new();
    let c = st.add_class("Huge");
    st.add_bytes(c, (History::MAX_NODES + 1000) * 8).unwrap();
    st.rename_node(c, 0, "renamed".into()).unwrap();
    assert_eq!(st.undo_depth(), 1);
    assert!(st.undo());
    assert_ne!(st.registry().get(c).unwrap().nodes[0].name, "renamed");
}

#[test]
fn the_history_depth_is_bounded() {
    let mut st = AppState::new();
    let c = st.add_class("S");
    for i in 0..(History::DEPTH * 2) {
        st.push_node(c, hex8(&format!("f{i}"))).unwrap();
    }
    assert_eq!(st.undo_depth(), History::DEPTH);
    // unwinding the whole stack must not panic or restore a half-state
    while st.undo() {}
    assert!(!st.can_undo());
    assert_eq!(field_names(&st, c).len(), History::DEPTH);
}

#[test]
fn undo_keeps_the_view_cursor_in_range() {
    // `add_class` opens a view; undoing it removes that view, and a stale
    // `selected_view` would index past the end.
    let mut st = AppState::new();
    st.add_class("A");
    st.add_class("B");
    assert_eq!(st.selected_view, 1);
    assert!(st.undo());
    assert_eq!(st.project.views.len(), 1);
    assert_eq!(st.selected_view, 0);
    assert!(st.selected_class().is_some());
    tick(&mut st, &mut Vec::new());
}

#[test]
fn loading_a_project_clears_the_history() {
    let mut st = AppState::new();
    let c = st.add_class("S");
    st.push_node(c, hex8("a")).unwrap();
    let saved = st.project.dup();

    let mut other = AppState::new();
    other.add_class("Different");
    other.load(saved);
    // undoing across a load would splice one project's classes into
    // another's views
    assert!(!other.can_undo());
    assert!(!other.can_redo());
    assert_eq!(field_names(&other, c), ["a"]);
}

#[test]
fn copy_and_paste_moves_fields_between_classes() {
    let mut st = AppState::new();
    let src = st.add_class("Src");
    st.push_node(src, Node::new("hp", NodeKind::Int(IntWidth::W32)))
        .unwrap();
    st.push_node(src, Node::new("mp", NodeKind::Float32))
        .unwrap();
    let dst = st.add_class("Dst");
    st.push_node(dst, hex8("head")).unwrap();

    assert_eq!(st.copy_nodes(&vec![(src, 0), (src, 1)]), 2);
    assert_eq!(st.paste_nodes(dst, Some(0)).unwrap(), 2);
    assert_eq!(field_names(&st, dst), ["head", "hp", "mp"]);
    // the source is untouched — this is copy, not move
    assert_eq!(field_names(&st, src), ["hp", "mp"]);
    // and the kinds came across, not just the names
    assert_eq!(
        st.registry().get(dst).unwrap().nodes[2].kind,
        NodeKind::Float32
    );
}

#[test]
fn paste_appends_when_no_anchor_is_given() {
    let mut st = AppState::new();
    let c = st.add_class("S");
    st.push_node(c, hex8("a")).unwrap();
    st.copy_nodes(&vec![(c, 0)]);
    st.paste_nodes(c, None).unwrap();
    assert_eq!(field_names(&st, c), ["a", "a"]);
}

#[test]
fn a_copied_block_keeps_its_layout_order() {
    // Selection has no order of its own, so the copy must impose one or a
    // three-row block pastes back scrambled.
    let mut st = AppState::new();
    let c = st.add_class("S");
    for n in ["a", "b", "c"] {
        st.push_node(c, hex8(n)).unwrap();
    }
    // targets deliberately out of order
    assert_eq!(st.copy_nodes(&vec![(c, 2), (c, 0), (c, 1)]), 3);
    st.paste_nodes(c, Some(2)).unwrap();
    assert_eq!(field_names(&st, c), ["a", "b", "c", "a", "b", "c"]);
}

#[test]
fn paste_is_one_undo_step() {
    let mut st = AppState::new();
    let c = st.add_class("S");
    for n in ["a", "b", "c"] {
        st.push_node(c, hex8(n)).unwrap();
    }
    st.copy_nodes(&vec![(c, 0), (c, 1), (c, 2)]);
    let before = st.undo_depth();
    st.paste_nodes(c, None).unwrap();
    assert_eq!(st.undo_depth(), before + 1);
    assert!(st.undo());
    assert_eq!(field_names(&st, c), ["a", "b", "c"]);
}

#[test]
fn pasting_a_self_instance_is_refused_whole() {
    let mut st = AppState::new();
    let a = st.add_class("A");
    let b = st.add_class("B");
    st.push_node(b, hex8("x")).unwrap();
    // Not a cycle yet: A holds nothing. B holds an inline A; copying that
    // out of B and pasting it into A is what closes the loop.
    st.push_node(b, Node::new("a", NodeKind::ClassInstance { class_id: a }))
        .unwrap();
    st.copy_nodes(&vec![(b, 0), (b, 1)]);
    let before = field_names(&st, a);
    assert!(matches!(st.paste_nodes(a, None), Err(AppError::Cycle)));
    // nothing landed: a partial paste is worse than none
    assert_eq!(field_names(&st, a), before);
}

#[test]
fn pasting_a_reference_to_a_deleted_class_is_refused() {
    // The clipboard lives outside the registry, so `remove_class`'s
    // reference rewrite cannot reach it.
    let mut st = AppState::new();
    let gone = st.add_class("Gone");
    let holder = st.add_class("Holder");
    st.push_node(
        holder,
        Node::new("p", NodeKind::ClassPtr { class_id: gone }),
    )
    .unwrap();
    st.copy_nodes(&vec![(holder, 0)]);
    st.remove_class(gone);

    let dst = st.add_class("Dst");
    assert!(matches!(
        st.paste_nodes(dst, None),
        Err(AppError::Registry(RegistryError::DanglingRef { .. }))
    ));
    assert!(field_names(&st, dst).is_empty());
}

#[test]
fn copying_a_stale_index_skips_it_instead_of_failing() {
    let mut st = AppState::new();
    let c = st.add_class("S");
    st.push_node(c, hex8("only")).unwrap();
    assert_eq!(st.copy_nodes(&vec![(c, 0), (c, 99), (404, 0)]), 1);
    assert_eq!(st.clipboard()[0].name, "only");
}

#[test]
fn pasting_an_empty_clipboard_changes_nothing() {
    let mut st = AppState::new();
    let c = st.add_class("S");
    let before = st.undo_depth();
    assert_eq!(st.paste_nodes(c, None).unwrap(), 0);
    assert_eq!(st.undo_depth(), before, "no-op must not burn an undo step");
}

#[test]
fn a_refused_edit_names_what_is_missing() {
    let mut st = AppState::new();
    let c = st.add_class("S");
    assert!(matches!(
        st.push_node(7, hex8("x")),
        Err(AppError::Registry(RegistryError::NotFound(7)))
    ));
    assert!(matches!(
        st.delete_node(c, 3),
        Err(AppError::Registry(RegistryError::NoSuchNode { class: 0, idx: 3 }))
    ));
    st.push_node(c, hex8("x")).unwrap();
    assert!(matches!(
        st.set_array_count(c, 0, 4),
        Err(AppError::Registry(RegistryError::NotAnArray { .. }))
    ));
}

#[test]
fn a_status_says_what_evaluating_gave() {
    let s: ViewStatus = evaluated_status(Ok(0x1234));
    assert_eq!(s.base, 0x1234);
    assert!(s.error.is_none());
    let s = evaluated_status(Err("no such module".to_string()));
    assert_eq!(s.base, 0);
    assert_eq!(s.error.as_deref(), Some("no such module"));
}

#[test]
fn addresses_are_described_by_their_region() {
    let regions = vec![region(0x5000, 0x6000, Some("/usr/lib/game.so"))];
    let r = AddrResolver { regions: &regions };
    assert_eq!(r.describe(0x9000), None);
    let d = r.describe(0x5010).unwrap();
    assert!(d.contains("game.so"), "{d}");
    assert!(d.contains("10"), "{d}");
}

#[test]
fn removing_an_array_of_instances_keeps_the_layout() {
    let mut st = AppState::new();
    let inner = st.add_class("Inner");
    st.push_node(inner, Node::new("x", NodeKind::Hex(IntWidth::W64)))
        .unwrap();
    st.push_node(inner, hex8("y")).unwrap();
    let outer = st.add_class("Outer");
    st.add_array(outer, NodeKind::ClassInstance { class_id: inner }, 3)
        .unwrap();
    st.push_node(outer, hex8("after")).unwrap();
    assert_eq!(st.registry().size_of(outer), 28);
    assert_eq!(st.registry().offsets(outer), vec![0, 27]);
    st.remove_class(inner);
    assert_eq!(st.registry().size_of(outer), 28);
    assert_eq!(st.registry().offsets(outer), vec![0, 27]);
}

#[test]
fn an_inline_chain_is_guarded_at_any_length() {
    let mut st = AppState::new();
    let a = st.add_class("A");
    let b = st.add_class("B");
    let c = st.add_class("C");
    st.push_node(a, hex8("x")).unwrap();
    st.push_node(b, Node::new("a", NodeKind::ClassInstance { class_id: a }))
        .unwrap();
    st.push_node(c, Node::new("b", NodeKind::ClassInstance { class_id: b }))
        .unwrap();
    let depth = st.undo_depth();
    let r = st.change_kind(
        a,
        0,
        NodeKind::Array {
            element: Box::new(NodeKind::ClassInstance { class_id: c }),
            count: 2,
        },
    );
    assert!(matches!(r, Err(AppError::Cycle)));
    // a refusal is no undo step
    assert_eq!(st.undo_depth(), depth);
    // a pointer closes no loop
    st.change_kind(a, 0, NodeKind::ClassPtr { class_id: c })
        .unwrap();
}
