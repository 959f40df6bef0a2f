//! The terminal front-end, the command lines, and the memory dump.

use reclass::app_state::AppError;
use reclass::cli::{attach_target, hexdump, parse_opt, parse_pid, wants_help, wants_tui, Whom};
use reclass::node::{NodeKind, PathSeg};
use reclass::rows::Row;
use reclass::tui::{type_text, Input, Key, Tui, TuiEffect};

fn row(i: usize) -> Row {
    Row {
        depth: 1,
        root: 0,
        offset: 8 * i,
        address: 0x1000 + 8 * i as u64,
        type_label: "Hex64".to_string(),
        name: format!("f{i}"),
        value: "0".to_string(),
        hex: String::new(),
        kind: NodeKind::Pointer,
        comment: String::new(),
        expandable: i == 0,
        expanded: false,
        path: vec![PathSeg::Node(i)],
        readable: true,
    }
}

fn press(t: &mut Tui, key: Key, rows: &[Row]) -> TuiEffect {
    let refs: Vec<&Row> = rows.iter().collect();
    t.handle_key(key, &refs, true)
}

fn press_all(t: &mut Tui, keys: &str, rows: &[Row]) {
    for c in keys.chars() {
        press(t, Key::Char(c), rows);
    }
}

#[test]
fn the_terminal_starts_with_sixteen_words() {
    let t = Tui::new(Some("0x5000".to_string()));
    let class = t.state.registry().get(0).unwrap();
    assert_eq!(class.nodes.len(), 16);
    assert_eq!(class.nodes[15].name, "field_78");
    assert_eq!(class.address_expr, "0x5000");
    assert_eq!(
        t.header(),
        (" Class1 ".to_string(), "expr=[0x5000] base=0x0".to_string())
    );
    assert!(t.status_text().starts_with("detached  |  q quit"));
}

#[test]
fn keys_move_the_cursor() {
    let rows: Vec<Row> = (0..3).map(row).collect();
    let mut t = Tui::new(None);
    press(&mut t, Key::Down, &rows);
    press(&mut t, Key::Char('j'), &rows);
    press(&mut t, Key::Down, &rows);
    assert_eq!(t.selected, 2);
    press(&mut t, Key::Up, &rows);
    press(&mut t, Key::Char('k'), &rows);
    press(&mut t, Key::Up, &rows);
    assert_eq!(t.selected, 0);
    t.selected = 7;
    t.keep_on_rows(3);
    assert_eq!(t.selected, 2);
    t.keep_on_rows(0);
    assert_eq!(t.selected, 0);
}

#[test]
fn tabs_go_round_the_corner() {
    let mut t = Tui::new(None);
    t.state.add_class("B");
    t.state.add_class("C");
    assert_eq!(t.state.selected_view, 2);
    press(&mut t, Key::Right, &[]);
    assert_eq!(t.state.selected_view, 0);
    press(&mut t, Key::Left, &[]);
    assert_eq!(t.state.selected_view, 2);
    press(&mut t, Key::Left, &[]);
    assert_eq!(t.state.selected_view, 1);
    press(&mut t, Key::Tab, &[]);
    assert_eq!(t.state.selected_view, 2);
    // beyond the views
    t.state.selected_view = usize::MAX;
    press(&mut t, Key::Right, &[]);
    assert!(t.state.selected_view < 3);
}

#[test]
fn a_value_is_typed() {
    let rows: Vec<Row> = (0..2).map(row).collect();
    let mut t = Tui::new(None);
    press(&mut t, Key::Down, &rows);
    press(&mut t, Key::Char('e'), &rows);
    assert_eq!(t.input, Input::Value);
    press_all(&mut t, "127", &rows);
    press(&mut t, Key::Backspace, &rows);
    assert_eq!(t.status_text(), "edit value > 12_");
    match press(&mut t, Key::Enter, &rows) {
        TuiEffect::Write { addr, kind, text } => {
            assert_eq!((addr, text.as_str()), (0x1008, "12"));
            assert_eq!(kind, NodeKind::Pointer);
        }
        other => panic!("{other:?}"),
    }
    assert_eq!(t.input, Input::Idle);
    t.after_write(Ok(()));
    assert_eq!(t.state.status, "wrote value");
    t.after_write(Err(AppError::NotAttached));
    assert!(t.state.status.starts_with("edit error: "));
}

#[test]
fn an_expression_is_typed() {
    let mut t = Tui::new(Some("0x10".to_string()));
    press(&mut t, Key::Char('a'), &[]);
    assert_eq!(t.buffer, "0x10");
    press_all(&mut t, "0", &[]);
    press(&mut t, Key::Enter, &[]);
    assert_eq!(t.state.registry().get(0).unwrap().address_expr, "0x100");
    press(&mut t, Key::Char('a'), &[]);
    press(&mut t, Key::Esc, &[]);
    assert_eq!(t.input, Input::Idle);
    assert_eq!(t.buffer, "");
    assert!(!t.quit);
    press(&mut t, Key::Esc, &[]);
    assert!(t.quit);
}

#[test]
fn other_keys() {
    let rows: Vec<Row> = (0..2).map(row).collect();
    let mut t = Tui::new(None);
    press(&mut t, Key::Char(' '), &rows);
    assert!(t.state.expand.is_expanded(0, &rows[0].path));
    press(&mut t, Key::Down, &rows);
    press(&mut t, Key::Enter, &rows);
    assert!(!t.state.expand.is_expanded(0, &rows[1].path));
    press(&mut t, Key::Char('m'), &rows);
    assert!(t.show_map);
    assert!(matches!(
        press(&mut t, Key::Char('r'), &rows),
        TuiEffect::Refresh
    ));
    press(&mut t, Key::Other, &rows);
    assert_eq!(type_text(&rows[0]), "  ▶ Hex64");
    assert_eq!(type_text(&rows[1]), "  Hex64");
    t.after_attach(7, Err("denied".to_string()));
    assert_eq!(t.state.status, "attach failed: denied");
    t.after_attach(7, Ok(None));
    assert_eq!(t.state.status, "attached pid 7");
    assert!(t.state.attached());
}

fn args(a: &[&str]) -> Vec<String> {
    a.iter().map(|s| s.to_string()).collect()
}

#[test]
fn flags_are_parsed() {
    let a = args(&["--pid", "42", "--addr=<game> + 1", "--project", "p.ron"]);
    assert_eq!(parse_pid(&a), Some(42));
    assert_eq!(parse_opt(&a, "--addr").as_deref(), Some("<game> + 1"));
    assert_eq!(parse_opt(&a, "--project").as_deref(), Some("p.ron"));
    assert_eq!(parse_opt(&a, "--other"), None);
    assert_eq!(parse_pid(&args(&["--pid=x"])), None);
    assert_eq!(parse_opt(&args(&["--pid"]), "--pid"), None);
    assert!(wants_help(&args(&["x", "-h"])));
    assert!(!wants_help(&a));
    assert!(wants_tui(&args(&["--pid", "7", "--tui"])));
    assert!(!wants_tui(&a));
}

#[test]
fn a_target_is_a_number_or_a_name() {
    assert!(matches!(attach_target("12"), Whom::Pid(12)));
    assert!(matches!(attach_target("game"), Whom::Name(n) if n == "game"));
}

#[test]
fn memory_is_dumped_in_lines() {
    let bytes: Vec<u8> = (0..18).map(|i| 0x38 + i).collect();
    let lines = hexdump(0x1000, &bytes);
    assert_eq!(lines.len(), 2);
    assert_eq!(
        lines[0],
        "0x000000001000  38 39 3a 3b 3c 3d 3e 3f 40 41 42 43 44 45 46 47  89:;<=>?@ABCDEFG"
    );
    assert_eq!(
        lines[1],
        format!("0x000000001010  {:<48} HI", "48 49 ")
    );
    assert_eq!(hexdump(0, &vec![0x20, 0x7f])[0].chars().last(), Some('.'));
    assert!(hexdump(0, &Vec::new()).is_empty());
    // the last line may end at the top of the address space
    assert_eq!(hexdump(u64::MAX - 15, &vec![0x41; 16]).len(), 1);
}
