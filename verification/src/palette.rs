//! The kinds of field that the menus offer, the fields that a fresh class gets,
//! and what an edited value is made from.

use crate::app_state::{AppState, AppV};
use crate::node::{
    fixed_bytes, nodes_view, plain_node, ClassId, IntWidth, Node, NodeKind, NodeV, TextEncoding,
};
use crate::registry::pushed;
use crate::text;
use vstd::prelude::*;

verus! {

/// A menu entry: its label and the kind that it stands for.
pub type Choice = (Seq<char>, NodeKind);

/// What a list of menu entries says.
pub open spec fn choices(v: Seq<(&'static str, NodeKind)>) -> Seq<Choice> {
    Seq::new(v.len(), |i: int| (v[i].0@, v[i].1))
}

/// Every scalar kind.
pub open spec fn scalars() -> Seq<Choice> {
    seq![
        ("Hex8"@, NodeKind::Hex(IntWidth::W8)),
        ("Hex16"@, NodeKind::Hex(IntWidth::W16)),
        ("Hex32"@, NodeKind::Hex(IntWidth::W32)),
        ("Hex64"@, NodeKind::Hex(IntWidth::W64)),
        ("Int8"@, NodeKind::Int(IntWidth::W8)),
        ("Int16"@, NodeKind::Int(IntWidth::W16)),
        ("Int32"@, NodeKind::Int(IntWidth::W32)),
        ("Int64"@, NodeKind::Int(IntWidth::W64)),
        ("UInt8"@, NodeKind::UInt(IntWidth::W8)),
        ("UInt16"@, NodeKind::UInt(IntWidth::W16)),
        ("UInt32"@, NodeKind::UInt(IntWidth::W32)),
        ("UInt64"@, NodeKind::UInt(IntWidth::W64)),
        ("Float"@, NodeKind::Float32),
        ("Double"@, NodeKind::Float64),
        ("Bool"@, NodeKind::Bool),
        ("Vec2"@, NodeKind::Vec2),
        ("Vec3"@, NodeKind::Vec3),
        ("Vec4"@, NodeKind::Vec4),
        ("Text[32]"@, NodeKind::Text { encoding: TextEncoding::Utf8, len: 32 }),
        ("WText[32]"@, NodeKind::Text { encoding: TextEncoding::Utf16, len: 32 }),
        ("Pointer"@, NodeKind::Pointer),
        ("FnPtr"@, NodeKind::FunctionPtr),
        ("Padding[8]"@, NodeKind::Padding(8)),
        ("Unknown[8]"@, NodeKind::Unknown(8)),
    ]
}

/// Every scalar kind.
pub fn scalar_kinds() -> (r: Vec<(&'static str, NodeKind)>)
    ensures
        choices(r@) == scalars(),
{
    let mut r: Vec<(&'static str, NodeKind)> = Vec::new();
    r.push(("Hex8", NodeKind::Hex(IntWidth::W8)));
    r.push(("Hex16", NodeKind::Hex(IntWidth::W16)));
    r.push(("Hex32", NodeKind::Hex(IntWidth::W32)));
    r.push(("Hex64", NodeKind::Hex(IntWidth::W64)));
    r.push(("Int8", NodeKind::Int(IntWidth::W8)));
    r.push(("Int16", NodeKind::Int(IntWidth::W16)));
    r.push(("Int32", NodeKind::Int(IntWidth::W32)));
    r.push(("Int64", NodeKind::Int(IntWidth::W64)));
    r.push(("UInt8", NodeKind::UInt(IntWidth::W8)));
    r.push(("UInt16", NodeKind::UInt(IntWidth::W16)));
    r.push(("UInt32", NodeKind::UInt(IntWidth::W32)));
    r.push(("UInt64", NodeKind::UInt(IntWidth::W64)));
    r.push(("Float", NodeKind::Float32));
    r.push(("Double", NodeKind::Float64));
    r.push(("Bool", NodeKind::Bool));
    r.push(("Vec2", NodeKind::Vec2));
    r.push(("Vec3", NodeKind::Vec3));
    r.push(("Vec4", NodeKind::Vec4));
    r.push(("Text[32]", NodeKind::Text { encoding: TextEncoding::Utf8, len: 32 }));
    r.push(("WText[32]", NodeKind::Text { encoding: TextEncoding::Utf16, len: 32 }));
    r.push(("Pointer", NodeKind::Pointer));
    r.push(("FnPtr", NodeKind::FunctionPtr));
    r.push(("Padding[8]", NodeKind::Padding(8)));
    r.push(("Unknown[8]", NodeKind::Unknown(8)));
    proof {
        assert(choices(r@) =~= scalars());
    }
    r
}

/// Assembly data-size keywords as fields of a fixed size.
pub open spec fn asm_sizes() -> Seq<Choice> {
    seq![
        ("byte / DB (1)"@, NodeKind::Hex(IntWidth::W8)),
        ("word / DW (2)"@, NodeKind::Hex(IntWidth::W16)),
        ("dword / DD (4)"@, NodeKind::Hex(IntWidth::W32)),
        ("qword / DQ (8)"@, NodeKind::Hex(IntWidth::W64)),
        ("tword / DT (10)"@, NodeKind::Unknown(10)),
        ("oword / DO (16)"@, NodeKind::Unknown(16)),
        ("yword / DY (32)"@, NodeKind::Unknown(32)),
        ("zword / DZ (64)"@, NodeKind::Unknown(64)),
    ]
}

/// Assembly data-size keywords as fields of a fixed size: 1/2/4/8 bytes map to
/// editable `Hex` words, 10/16/32/64 to raw `Unknown` blocks.
pub fn asm_size_kinds() -> (r: Vec<(&'static str, NodeKind)>)
    ensures
        choices(r@) == asm_sizes(),
{
    let mut r: Vec<(&'static str, NodeKind)> = Vec::new();
    r.push(("byte / DB (1)", NodeKind::Hex(IntWidth::W8)));
    r.push(("word / DW (2)", NodeKind::Hex(IntWidth::W16)));
    r.push(("dword / DD (4)", NodeKind::Hex(IntWidth::W32)));
    r.push(("qword / DQ (8)", NodeKind::Hex(IntWidth::W64)));
    r.push(("tword / DT (10)", NodeKind::Unknown(10)));
    r.push(("oword / DO (16)", NodeKind::Unknown(16)));
    r.push(("yword / DY (32)", NodeKind::Unknown(32)));
    r.push(("zword / DZ (64)", NodeKind::Unknown(64)));
    proof {
        assert(choices(r@) =~= asm_sizes());
    }
    r
}

/// Element types offered by the array builder.
pub open spec fn array_elems() -> Seq<Choice> {
    seq![
        ("byte"@, NodeKind::Hex(IntWidth::W8)),
        ("word"@, NodeKind::Hex(IntWidth::W16)),
        ("dword"@, NodeKind::Hex(IntWidth::W32)),
        ("qword"@, NodeKind::Hex(IntWidth::W64)),
        ("Int32"@, NodeKind::Int(IntWidth::W32)),
        ("UInt32"@, NodeKind::UInt(IntWidth::W32)),
        ("Float"@, NodeKind::Float32),
        ("Pointer"@, NodeKind::Pointer),
    ]
}

/// Element types offered by the array builder.
pub fn array_elem_kinds() -> (r: Vec<(&'static str, NodeKind)>)
    ensures
        choices(r@) == array_elems(),
{
    let mut r: Vec<(&'static str, NodeKind)> = Vec::new();
    r.push(("byte", NodeKind::Hex(IntWidth::W8)));
    r.push(("word", NodeKind::Hex(IntWidth::W16)));
    r.push(("dword", NodeKind::Hex(IntWidth::W32)));
    r.push(("qword", NodeKind::Hex(IntWidth::W64)));
    r.push(("Int32", NodeKind::Int(IntWidth::W32)));
    r.push(("UInt32", NodeKind::UInt(IntWidth::W32)));
    r.push(("Float", NodeKind::Float32));
    r.push(("Pointer", NodeKind::Pointer));
    proof {
        assert(choices(r@) =~= array_elems());
    }
    r
}

/// The kinds with a button of their own.
pub open spec fn quick_picks() -> Seq<Choice> {
    seq![
        ("Hex32"@, NodeKind::Hex(IntWidth::W32)),
        ("Hex64"@, NodeKind::Hex(IntWidth::W64)),
        ("Int32"@, NodeKind::Int(IntWidth::W32)),
        ("Float"@, NodeKind::Float32),
        ("Pointer"@, NodeKind::Pointer),
    ]
}

/// The kinds with a button of their own.
pub fn quick_kinds() -> (r: Vec<(&'static str, NodeKind)>)
    ensures
        choices(r@) == quick_picks(),
{
    let mut r: Vec<(&'static str, NodeKind)> = Vec::new();
    r.push(("Hex32", NodeKind::Hex(IntWidth::W32)));
    r.push(("Hex64", NodeKind::Hex(IntWidth::W64)));
    r.push(("Int32", NodeKind::Int(IntWidth::W32)));
    r.push(("Float", NodeKind::Float32));
    r.push(("Pointer", NodeKind::Pointer));
    proof {
        assert(choices(r@) =~= quick_picks());
    }
    r
}

/// The sizes offered by the buttons that append bytes.
pub fn byte_steps() -> (r: Vec<usize>)
    ensures
        r@ == seq![64usize, 256usize, 1024usize, 4096usize],
{
    let mut r: Vec<usize> = Vec::new();
    r.push(64);
    r.push(256);
    r.push(1024);
    r.push(4096);
    proof {
        assert(r@ =~= seq![64usize, 256usize, 1024usize, 4096usize]);
    }
    r
}

/// Whether two kinds are the same.
pub open spec fn alike(a: NodeKind, b: NodeKind) -> bool
    decreases a,
{
    match (a, b) {
        (
            NodeKind::Array { element: x, count: n },
            NodeKind::Array { element: y, count: m },
        ) => n == m && alike(*x, *y),
        (NodeKind::Other { size: n, text: s }, NodeKind::Other { size: m, text: t }) => n == m && s@
            == t@,
        _ => a == b,
    }
}

/// The label of the first entry of `s` that stands for `kind`.
pub open spec fn label_in(s: Seq<Choice>, kind: NodeKind) -> Seq<char>
    decreases s.len(),
{
    if s.len() == 0 {
        "(custom)"@
    } else if alike(s[0].1, kind) {
        s[0].0
    } else {
        label_in(s.skip(1), kind)
    }
}

/// Whether two kinds are the same.
pub fn same_kind(a: &NodeKind, b: &NodeKind) -> (r: bool)
    ensures
        r == alike(*a, *b),
    decreases a,
{
    match (a, b) {
        (NodeKind::Array { element: x, count: n }, NodeKind::Array { element: y, count: m }) => {
            *n == *m && same_kind(&**x, &**y)
        },
        (NodeKind::Array { .. }, _) => false,
        (_, NodeKind::Array { .. }) => false,
        (NodeKind::Hex(x), NodeKind::Hex(y)) => *x == *y,
        (NodeKind::Int(x), NodeKind::Int(y)) => *x == *y,
        (NodeKind::UInt(x), NodeKind::UInt(y)) => *x == *y,
        (NodeKind::Float32, NodeKind::Float32) => true,
        (NodeKind::Float64, NodeKind::Float64) => true,
        (NodeKind::Bool, NodeKind::Bool) => true,
        (NodeKind::Vec2, NodeKind::Vec2) => true,
        (NodeKind::Vec3, NodeKind::Vec3) => true,
        (NodeKind::Vec4, NodeKind::Vec4) => true,
        (
            NodeKind::Text { encoding: x, len: n },
            NodeKind::Text { encoding: y, len: m },
        ) => *x == *y && *n == *m,
        (NodeKind::Pointer, NodeKind::Pointer) => true,
        (NodeKind::FunctionPtr, NodeKind::FunctionPtr) => true,
        (NodeKind::Padding(x), NodeKind::Padding(y)) => *x == *y,
        (NodeKind::Unknown(x), NodeKind::Unknown(y)) => *x == *y,
        (NodeKind::ClassInstance { class_id: x }, NodeKind::ClassInstance { class_id: y }) => *x
            == *y,
        (NodeKind::ClassPtr { class_id: x }, NodeKind::ClassPtr { class_id: y }) => *x == *y,
        (
            NodeKind::Other { size: n, text: s },
            NodeKind::Other { size: m, text: t },
        ) => *n == *m && text::str_eq(s.as_str(), t.as_str()),
        _ => false,
    }
}

/// The label of a scalar kind; `(custom)` for any other.
pub fn kind_label(kind: &NodeKind) -> (r: &'static str)
    ensures
        r@ == label_in(scalars(), *kind),
{
    let all = scalar_kinds();
    let ghost s = choices(all@);
    let mut i: usize = 0;
    proof {
        assert(s.skip(0) =~= s);
    }
    while i < all.len()
        invariant
            i <= all@.len(),
            s == choices(all@),
            s == scalars(),
            label_in(s.skip(i as int), *kind) == label_in(s, *kind),
        decreases all@.len() - i,
    {
        proof {
            assert(s.skip(i as int)[0] == (all@[i as int].0@, all@[i as int].1));
            assert(s.skip(i as int).skip(1) =~= s.skip(i as int + 1));
        }
        if same_kind(&all[i].1, kind) {
            return all[i].0;
        }
        i = i + 1;
    }
    "(custom)"
}

/// The sizes that the assembly keywords stand for, one entry each.
pub proof fn law_asm_sizes()
    ensures
        asm_sizes().len() == 8,
        forall|i: int|
            0 <= i < 8 ==> fixed_bytes(#[trigger] asm_sizes()[i].1) == seq![
                1nat,
                2nat,
                4nat,
                8nat,
                10nat,
                16nat,
                32nat,
                64nat,
            ][i],
{
}

// ---------------------------------------------------------------------------
// Values and fresh classes
// ---------------------------------------------------------------------------

/// `s` trimmed and without the quotes around it.
pub open spec fn unquoted(s: Seq<char>) -> Seq<char> {
    let t = text::trim(s);
    if t.len() >= 2 && t[0] == '"' && t.last() == '"' {
        t.subrange(1, t.len() - 1)
    } else {
        t
    }
}

/// `s` trimmed and without the quotes around it.
pub fn strip_quotes(s: &str) -> (r: String)
    ensures
        r@ == unquoted(s@),
{
    let t = text::trim_chars(&text::chars_of(s));
    if t.len() >= 2 && t[0] == '"' && t[t.len() - 1] == '"' {
        text::string_of(&text::part(&t, 1, t.len() - 1))
    } else {
        text::string_of(&t)
    }
}

/// The fields that a fresh class is seeded with.
pub open spec fn seed_fields(kind: NodeKind, rows: nat) -> Seq<NodeV> {
    Seq::new(rows, |i: int| plain_node("field_"@ + text::written(i as nat, 10, false), kind))
}

/// The state with class `cid` seeded; no undo step of its own.
pub open spec fn seeded(s: AppV, cid: ClassId, kind: NodeKind, rows: nat) -> AppV {
    s.with_registry(pushed(s.project.registry, cid, seed_fields(kind, rows)).0)
}

/// Seed `cid` with `rows` fields of `kind` so a fresh class shows memory at
/// once.
pub fn seed_class(state: &mut AppState, cid: ClassId, kind: &NodeKind, rows: usize)
    requires
        old(state).wf(),
    ensures
        final(state).wf(),
        final(state)@ == seeded(old(state)@, cid, *kind, rows as nat),
{
    let mut nodes: Vec<Node> = Vec::new();
    let mut i: usize = 0;
    while i < rows
        invariant
            i <= rows,
            nodes_view(nodes@) =~= seed_fields(*kind, i as nat),
        decreases rows - i,
    {
        let name = text::join2("field_", text::dec(i as u64).as_str());
        let ghost before = nodes_view(nodes@);
        nodes.push(Node::new(name.as_str(), kind.dup()));
        proof {
            assert(nodes_view(nodes@) =~= before.push(
                plain_node("field_"@ + text::written(i as nat, 10, false), *kind),
            ));
        }
        i = i + 1;
    }
    let _ = state.project.registry.push_nodes(cid, nodes);
}

/// Quotes around an edited value do not count, nor does white space outside of
/// them; a value without quotes is only trimmed.
pub proof fn law_quotes_are_taken_off(before: Seq<char>, s: Seq<char>, after: Seq<char>)
    requires
        text::all_white(before),
        text::all_white(after),
    ensures
        unquoted(before + (seq!['"'] + s + seq!['"']) + after) == s,
        text::trim(s) == s && (s.len() == 0 || s[0] != '"') ==> unquoted(before + s + after) == s,
{
    let q = seq!['"'] + s + seq!['"'];
    assert(q[0] == '"');
    assert(q.last() == '"');
    text::lemma_trim_padded(before, q, after);
    assert(q.subrange(1, q.len() - 1) =~= s);
    if text::trim(s) == s {
        text::lemma_trim_ends(s);
        text::lemma_trim_padded(before, s, after);
    }
}

/// A fresh class is seeded behind what it has, with as many fields of the kind
/// as asked for, without comments; nothing else changes.
pub proof fn law_seeding_appends_fields(kind: NodeKind, rows: nat, i: int)
    requires
        0 <= i < rows,
    ensures
        seed_fields(kind, rows).len() == rows,
        seed_fields(kind, rows)[i].kind == kind,
        seed_fields(kind, rows)[i].comment.len() == 0,
        seed_fields(kind, rows)[i].name == "field_"@ + text::written(i as nat, 10, false),
{
}

/// The label of a kind on the menu is the one that stands beside it there; a
/// kind that is on no menu is called custom.
pub proof fn law_menu_labels_their_kinds(s: Seq<Choice>, i: int, kind: NodeKind)
    ensures
        0 <= i < s.len() && alike(s[i].1, kind) && (forall|k: int|
            0 <= k < i ==> !alike((#[trigger] s[k]).1, kind)) ==> label_in(s, kind) == s[i].0,
        (forall|k: int| 0 <= k < s.len() ==> !alike((#[trigger] s[k]).1, kind)) ==> label_in(
            s,
            kind,
        ) == "(custom)"@,
    decreases s.len(),
{
    if s.len() > 0 && !alike(s[0].1, kind) {
        let rest = s.skip(1);
        law_menu_labels_their_kinds(rest, i - 1, kind);
        if 0 <= i < s.len() && alike(s[i].1, kind) {
            assert(i > 0 && rest[i - 1] == s[i]);
            if forall|k: int| 0 <= k < i ==> !alike((#[trigger] s[k]).1, kind) {
                assert forall|k: int| 0 <= k < i - 1 implies !alike((#[trigger] rest[k]).1, kind) by {
                    assert(rest[k] == s[k + 1]);
                }
            }
        }
        if forall|k: int| 0 <= k < s.len() ==> !alike((#[trigger] s[k]).1, kind) {
            assert forall|k: int| 0 <= k < rest.len() implies !alike((#[trigger] rest[k]).1, kind) by {
                assert(rest[k] == s[k + 1]);
            }
        }
    }
}

/// Kinds are alike exactly when they are the same, however deep; what a carried
/// kind is written as counts by its characters.
pub proof fn law_alike_means_the_same(a: NodeKind, b: NodeKind)
    ensures
        a == b ==> alike(a, b),
        alike(a, b) ==> fixed_bytes(a) == fixed_bytes(b),
        alike(a, b) && !(a is Array) && !(a is Other) ==> a == b,
    decreases a,
{
    match (a, b) {
        (
            NodeKind::Array { element: x, count: n },
            NodeKind::Array { element: y, count: m },
        ) => {
            law_alike_means_the_same(*x, *y);
        },
        _ => {},
    }
}

} // verus!
