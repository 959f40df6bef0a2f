//! Filtering the rows and going to an address.

use reclass::node::{NodeKind, PathSeg};
use reclass::rows::{filter_rows, find_row, parse_goto, Row};

fn row(depth: u32, offset: usize, address: u64, name: &str, value: &str) -> Row {
    Row {
        depth,
        root: 0,
        offset,
        address,
        type_label: "Hex32".into(),
        name: name.into(),
        value: value.into(),
        hex: String::new(),
        kind: NodeKind::Pointer,
        comment: String::new(),
        expandable: false,
        expanded: false,
        path: vec![PathSeg::Node(offset)],
        readable: true,
    }
}

fn tree() -> Vec<Row> {
    vec![
        row(0, 0, 0x1000, "hp", "100"),
        row(0, 4, 0x1004, "weapon", "0x2000"),
        row(1, 0, 0x2000, "ammo", "30"),
        row(1, 4, 0x2004, "clip", "7"),
        row(0, 12, 0x100C, "mana", "50"),
    ]
}

fn refs(rows: &[Row]) -> Vec<&Row> {
    rows.iter().collect()
}

#[test]
fn an_empty_query_keeps_everything() {
    let t = tree();
    assert_eq!(filter_rows(&refs(&t), "").len(), 5);
    assert_eq!(filter_rows(&refs(&t), "   ").len(), 5);
}

#[test]
fn a_match_brings_its_ancestors_along() {
    // `ammo` is nested under `weapon`; showing it alone would be a nameless
    // value at an unexplained indent.
    let t = tree();
    let got = filter_rows(&refs(&t), "ammo");
    let names: Vec<&str> = got.iter().map(|r| r.name.as_str()).collect();
    assert_eq!(names, ["weapon", "ammo"]);
}

#[test]
fn matching_is_case_insensitive_across_every_column() {
    let t = tree();
    assert_eq!(filter_rows(&refs(&t), "HP").len(), 1);
    // by rendered value
    assert_eq!(filter_rows(&refs(&t), "50")[0].name, "mana");
    // by type label
    assert_eq!(filter_rows(&refs(&t), "hex32").len(), 5);
}

#[test]
fn offsets_and_addresses_are_searchable_as_text() {
    let t = tree();
    assert_eq!(filter_rows(&refs(&t), "0x100c")[0].name, "mana");
    // 0xc is the offset of mana; the ancestor rule adds nothing at depth 0
    let by_off = filter_rows(&refs(&t), "0xc");
    assert!(by_off.iter().any(|r| r.name == "mana"), "{by_off:?}");
}

#[test]
fn a_query_matching_nothing_yields_nothing() {
    let t = tree();
    assert!(filter_rows(&refs(&t), "zzzz").is_empty());
}

#[test]
fn a_matching_parent_does_not_drag_in_its_children() {
    // Only ancestors are implied, not descendants: matching `weapon` should
    // not dump its whole subtree back into the results.
    let t = tree();
    let names: Vec<&str> = filter_rows(&refs(&t), "weapon")
        .iter()
        .map(|r| r.name.as_str())
        .collect();
    assert_eq!(names, ["weapon"]);
}

#[test]
fn goto_parses_hex_forms_and_decimal_suffix() {
    assert_eq!(parse_goto("0x1004"), Some(0x1004));
    assert_eq!(parse_goto("  0X20 "), Some(0x20));
    assert_eq!(parse_goto("1004"), Some(0x1004), "bare digits are hex");
    assert_eq!(parse_goto("16d"), Some(16), "the d suffix means decimal");
    assert_eq!(parse_goto(""), None);
    assert_eq!(parse_goto("nonsense"), None);
}

#[test]
fn goto_lands_in_the_field_containing_the_address() {
    // 0x1006 is inside `weapon` (0x1004..0x100C), not an exact row address.
    let t = tree();
    let r = refs(&t);
    assert_eq!(
        find_row(&r, 0x1006).map(|i| r[i].name.as_str()),
        Some("weapon")
    );
    assert_eq!(find_row(&r, 0x1000).map(|i| r[i].name.as_str()), Some("hp"));
}

#[test]
fn goto_falls_back_to_offsets_when_detached() {
    // Detached: every address is 0, so only offsets are meaningful.
    let t: Vec<Row> = tree()
        .into_iter()
        .map(|mut r| {
            r.address = 0;
            r
        })
        .collect();
    let r = refs(&t);
    assert_eq!(find_row(&r, 4).map(|i| r[i].name.as_str()), Some("clip"));
    assert_eq!(find_row(&r, 0xC).map(|i| r[i].name.as_str()), Some("mana"));
}

#[test]
fn goto_before_the_first_row_and_on_an_empty_table() {
    let t = tree();
    let r = refs(&t);
    // below every address, but offset 0 still matches the first row
    assert_eq!(find_row(&r, 0).map(|i| r[i].name.as_str()), Some("hp"));
    assert_eq!(find_row(&vec![], 0x1000), None);
}

#[test]
fn goto_reads_a_prefixed_number_as_hex_whatever_its_last_digit() {
    assert_eq!(parse_goto("0x100d"), Some(0x100d));
    assert_eq!(parse_goto(" 0X2D "), Some(0x2d));
    assert_eq!(parse_goto("0xd"), Some(0xd));
    assert_eq!(parse_goto("100d"), Some(100));
    assert_eq!(parse_goto("100 D"), Some(100));
    assert_eq!(parse_goto("0x"), None);
    // without the prefix a final d is the suffix, so what is before it is decimal
    assert_eq!(parse_goto("fd"), None);
}

#[test]
fn goto_finds_a_nested_field_above_a_lower_one() {
    let t = tree();
    let r = refs(&t);
    assert_eq!(find_row(&r, 0x2002), Some(2));
    assert_eq!(find_row(&r, 0x2004), Some(3));
    assert_eq!(find_row(&r, 0x9000), Some(3));
    assert_eq!(find_row(&r, 0x1FFF), Some(4));
    assert_eq!(find_row(&r, 0xFFF), Some(0));
}

#[test]
fn filtering_again_and_in_other_spellings_changes_nothing() {
    let t = tree();
    let names = |v: &Vec<&Row>| v.iter().map(|r| r.name.clone()).collect::<Vec<String>>();
    for query in ["ammo", "0x100c", "hex32", "zzzz", "", "7"] {
        let once = filter_rows(&refs(&t), query);
        assert_eq!(names(&filter_rows(&once, query)), names(&once));
        let loud = query.to_ascii_uppercase();
        assert_eq!(names(&filter_rows(&refs(&t), &loud)), names(&once));
        let wide = format!(" \t{query}\u{a0}");
        assert_eq!(names(&filter_rows(&refs(&t), &wide)), names(&once));
    }
    assert_eq!(names(&filter_rows(&refs(&t), " AMMO ")), ["weapon", "ammo"]);
}
