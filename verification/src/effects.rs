//! What the edits come to, field by field: what they name changes as asked, and
//! everything else stays as it was. This holds of the remote agent's tools and
//! of what plugins ask for.

use crate::app_state::AppV;
use crate::catalog::{
    law_every_advertised_tool_is_handled, tool_props, tool_required, Tool,
};
use crate::json::{law_members_are_found_by_name, JsonV};
use crate::mcp::{
    agent_attached, attach_answer, codegen_answer, kind_arg, named_step, read_answer,
    regions_taken, resource_step, tool_step, write_answer, EffectV, StepV,
};
use crate::mcp_args::{
    bytes_arg, bytes_of, hex_text, i32_arg, language_of, law_hex_round_trip,
    law_written_digits_are_small, str_arg, u32_arg, u64_arg, usize_arg, Arg, Language,
};
use crate::memory::{regions_view, Region};
use crate::node::{ClassId, NodeKind, NodeV};
use crate::plugin::PluginAction;
use crate::project::ProjectV;
use crate::registry::{
    class_at, class_set, detached, lemma_place, lemma_put_wf, lemma_with_nodes, node_set, place,
    would_cycle, ClassV, RegistryV,
};
use crate::requests::{errand_of, granted, ErrandV};
use crate::state_json::{class_of, classes_of};
use vstd::prelude::*;

verus! {

// ---------------------------------------------------------------------------
// What stays
// ---------------------------------------------------------------------------

/// Nothing but class `c` differs between `v` and `w`: no class has come, gone or
/// moved, and every other one is as it was.
pub open spec fn same_but_class(v: RegistryV, w: RegistryV, c: ClassId) -> bool {
    &&& w.classes.len() == v.classes.len()
    &&& w.next_id == v.next_id
    &&& w.pointer_bytes == v.pointer_bytes
    &&& forall|k: int|
        0 <= k < v.classes.len() ==> (#[trigger] w.classes[k]).id == v.classes[k].id
    &&& forall|k: int|
        0 <= k < v.classes.len() && v.classes[k].id != c ==> #[trigger] w.classes[k] == v.classes[k]
}

/// Nothing but fields of class `c` differ between `v` and `w`.
pub open spec fn same_but_fields(v: RegistryV, w: RegistryV, c: ClassId) -> bool {
    &&& same_but_class(v, w, c)
    &&& forall|k: int|
        0 <= k < v.classes.len() ==> (#[trigger] w.classes[k]).name == v.classes[k].name
            && w.classes[k].address_expr == v.classes[k].address_expr
}

/// Nothing but field `i` of class `c` differs between `v` and `w`.
pub open spec fn same_but_field(v: RegistryV, w: RegistryV, c: ClassId, i: int) -> bool {
    &&& same_but_fields(v, w, c)
    &&& w.nodes(c).len() == v.nodes(c).len()
    &&& forall|j: int|
        0 <= j < v.nodes(c).len() && j != i ==> #[trigger] w.nodes(c)[j] == v.nodes(c)[j]
}

/// Nothing but the classes, and what can be undone, differs between `s` and `t`.
pub open spec fn same_but_classes(s: AppV, t: AppV) -> bool {
    t == (AppV {
        project: ProjectV { registry: t.project.registry, ..s.project },
        history: t.history,
        ..s
    })
}

// ---------------------------------------------------------------------------
// The edits of the registry
// ---------------------------------------------------------------------------

/// Other fields of one class.
pub proof fn lemma_other_fields(v: RegistryV, c: ClassId, nodes: Seq<NodeV>)
    requires
        v.wf(),
        v.has(c),
    ensures
        same_but_fields(v, v.with_nodes(c, nodes), c),
        v.with_nodes(c, nodes).nodes(c) == nodes,
        v.with_nodes(c, nodes).wf(),
{
    lemma_with_nodes(v, c, nodes);
    let w = v.with_nodes(c, nodes);
    let i = place(v.classes, c);
    assert(v.classes[i].id == c);
    assert forall|k: int| 0 <= k < v.classes.len() && v.classes[k].id != c implies #[trigger]
        w.classes[k] == v.classes[k] by {
        assert(k != i);
    }
}

/// Another field in place of one.
pub proof fn lemma_field_set(v: RegistryV, c: ClassId, i: usize, n: NodeV)
    requires
        v.wf(),
    ensures
        v.has(c) && i < v.nodes(c).len() ==> {
            let e = node_set(v, c, i, n);
            &&& e.1 is Ok
            &&& same_but_field(v, e.0, c, i as int)
            &&& e.0.nodes(c)[i as int] == n
        },
        !(v.has(c) && i < v.nodes(c).len()) ==> node_set(v, c, i, n).1 is Err && node_set(
            v,
            c,
            i,
            n,
        ).0 == v,
{
    if v.has(c) && i < v.nodes(c).len() {
        lemma_other_fields(v, c, v.nodes(c).update(i as int, n));
    }
}

/// Another class in place of one.
pub proof fn lemma_class_set(v: RegistryV, c: ClassId, n: ClassV)
    requires
        v.wf(),
        v.has(c) ==> n.id == c,
    ensures
        v.has(c) ==> {
            let e = class_set(v, c, n);
            &&& e.1 is Ok
            &&& same_but_class(v, e.0, c)
            &&& class_at(e.0.classes, c) == n
        },
        !v.has(c) ==> class_set(v, c, n).1 is Err && class_set(v, c, n).0 == v,
{
    if v.has(c) {
        lemma_put_wf(v, n);
        let i = place(v.classes, c);
        assert(v.classes[i].id == c);
        let w = v.put(n);
        assert forall|k: int| 0 <= k < v.classes.len() && v.classes[k].id != c implies #[trigger]
            w.classes[k] == v.classes[k] by {
            assert(k != i);
        }
    }
}

/// A class is found under its id, with the id.
proof fn lemma_found_has_id(v: RegistryV, c: ClassId)
    requires
        v.has(c),
    ensures
        class_at(v.classes, c).id == c,
{
    let i = place(v.classes, c);
    assert(v.classes[i].id == c);
}

// ---------------------------------------------------------------------------
// The remote agent's tools
// ---------------------------------------------------------------------------

/// `set_node_comment` sets the comment of the field named, to the text given,
/// and nothing else; where there is no such field it fails and changes no class.
pub proof fn law_tool_sets_a_comment(
    s: AppV,
    a: JsonV,
    decoded: Arg<NodeKind>,
    c: ClassId,
    i: usize,
    comment: Seq<char>,
)
    requires
        s.wf(),
        u32_arg(a, "class_id"@) == Ok::<u32, Seq<char>>(c),
        usize_arg(a, "index"@) == Ok::<usize, Seq<char>>(i),
        str_arg(a, "comment"@) == Ok::<Seq<char>, Seq<char>>(comment),
    ensures
        ({
            let v = s.project.registry;
            let (t, step) = named_step(s, "set_node_comment"@, a, decoded);
            let w = t.project.registry;
            &&& same_but_classes(s, t)
            &&& v.has(c) && i < v.nodes(c).len() ==> {
                &&& step == StepV::Reply(Ok(JsonV::Obj(seq![("ok"@, JsonV::Bool(true))])))
                &&& w.nodes(c)[i as int].comment == comment
                &&& w.nodes(c)[i as int].name == v.nodes(c)[i as int].name
                &&& w.nodes(c)[i as int].kind == v.nodes(c)[i as int].kind
                &&& same_but_field(v, w, c, i as int)
            }
            &&& !(v.has(c) && i < v.nodes(c).len()) ==> w == v && (step matches StepV::Reply(r) && r
                is Err)
        }),
{
    let v = s.project.registry;
    law_every_advertised_tool_is_handled(Tool::SetNodeComment);
    lemma_field_set(v, c, i, NodeV { comment, ..v.nodes(c)[i as int] });
}

/// `set_node_name` sets the name of the field named, to the text given, and
/// nothing else; where there is no such field it fails and changes no class.
pub proof fn law_tool_renames_a_field(
    s: AppV,
    a: JsonV,
    decoded: Arg<NodeKind>,
    c: ClassId,
    i: usize,
    name: Seq<char>,
)
    requires
        s.wf(),
        u32_arg(a, "class_id"@) == Ok::<u32, Seq<char>>(c),
        usize_arg(a, "index"@) == Ok::<usize, Seq<char>>(i),
        str_arg(a, "name"@) == Ok::<Seq<char>, Seq<char>>(name),
    ensures
        ({
            let v = s.project.registry;
            let (t, step) = named_step(s, "set_node_name"@, a, decoded);
            let w = t.project.registry;
            &&& same_but_classes(s, t)
            &&& v.has(c) && i < v.nodes(c).len() ==> {
                &&& step == StepV::Reply(Ok(JsonV::Obj(seq![("ok"@, JsonV::Bool(true))])))
                &&& w.nodes(c)[i as int].name == name
                &&& w.nodes(c)[i as int].comment == v.nodes(c)[i as int].comment
                &&& w.nodes(c)[i as int].kind == v.nodes(c)[i as int].kind
                &&& same_but_field(v, w, c, i as int)
            }
            &&& !(v.has(c) && i < v.nodes(c).len()) ==> w == v && (step matches StepV::Reply(r) && r
                is Err)
        }),
{
    let v = s.project.registry;
    law_every_advertised_tool_is_handled(Tool::SetNodeName);
    lemma_field_set(v, c, i, NodeV { name, ..v.nodes(c)[i as int] });
}

/// `set_node_kind` sets the kind of the field named, to the one given, and
/// nothing else. Where that would make a class contain itself, or there is no
/// such field, it fails and changes no class.
pub proof fn law_tool_retypes_a_field(
    s: AppV,
    a: JsonV,
    decoded: Arg<NodeKind>,
    c: ClassId,
    i: usize,
    kind: NodeKind,
)
    requires
        s.wf(),
        u32_arg(a, "class_id"@) == Ok::<u32, Seq<char>>(c),
        usize_arg(a, "index"@) == Ok::<usize, Seq<char>>(i),
        kind_arg(a, decoded) == Ok::<NodeKind, Seq<char>>(kind),
    ensures
        ({
            let v = s.project.registry;
            let (t, step) = named_step(s, "set_node_kind"@, a, decoded);
            let w = t.project.registry;
            let good = v.has(c) && i < v.nodes(c).len() && !would_cycle(v.classes, c, kind);
            &&& same_but_classes(s, t)
            &&& good ==> {
                &&& step == StepV::Reply(Ok(JsonV::Obj(seq![("ok"@, JsonV::Bool(true))])))
                &&& w.nodes(c)[i as int].kind == kind
                &&& w.nodes(c)[i as int].name == v.nodes(c)[i as int].name
                &&& w.nodes(c)[i as int].comment == v.nodes(c)[i as int].comment
                &&& same_but_field(v, w, c, i as int)
            }
            &&& !good ==> w == v && (step matches StepV::Reply(r) && r is Err)
        }),
{
    let v = s.project.registry;
    law_every_advertised_tool_is_handled(Tool::SetNodeKind);
    lemma_field_set(v, c, i, NodeV { kind, ..v.nodes(c)[i as int] });
}

/// `set_array_count` sets the element count of the array named, to the number
/// given, and nothing else. Where there is no such field, or it is no array, it
/// fails and changes no class.
pub proof fn law_tool_counts_an_array(
    s: AppV,
    a: JsonV,
    decoded: Arg<NodeKind>,
    c: ClassId,
    i: usize,
    count: usize,
)
    requires
        s.wf(),
        u32_arg(a, "class_id"@) == Ok::<u32, Seq<char>>(c),
        usize_arg(a, "index"@) == Ok::<usize, Seq<char>>(i),
        usize_arg(a, "count"@) == Ok::<usize, Seq<char>>(count),
    ensures
        ({
            let v = s.project.registry;
            let (t, step) = named_step(s, "set_array_count"@, a, decoded);
            let w = t.project.registry;
            let good = v.has(c) && i < v.nodes(c).len() && v.nodes(c)[i as int].kind is Array;
            &&& same_but_classes(s, t)
            &&& good ==> {
                &&& step == StepV::Reply(Ok(JsonV::Obj(seq![("ok"@, JsonV::Bool(true))])))
                &&& w.nodes(c)[i as int].kind == (NodeKind::Array {
                    element: v.nodes(c)[i as int].kind->element,
                    count,
                })
                &&& w.nodes(c)[i as int].name == v.nodes(c)[i as int].name
                &&& w.nodes(c)[i as int].comment == v.nodes(c)[i as int].comment
                &&& same_but_field(v, w, c, i as int)
            }
            &&& !good ==> w == v && (step matches StepV::Reply(r) && r is Err)
        }),
{
    let v = s.project.registry;
    let n = v.nodes(c)[i as int];
    law_every_advertised_tool_is_handled(Tool::SetArrayCount);
    lemma_field_set(
        v,
        c,
        i,
        NodeV { kind: NodeKind::Array { element: n.kind->element, count }, ..n },
    );
}

/// `remove_node` takes the field named out of its class and nothing else: the
/// fields before it stay, those behind it move up.
pub proof fn law_tool_removes_a_field(
    s: AppV,
    a: JsonV,
    decoded: Arg<NodeKind>,
    c: ClassId,
    i: usize,
)
    requires
        s.wf(),
        u32_arg(a, "class_id"@) == Ok::<u32, Seq<char>>(c),
        usize_arg(a, "index"@) == Ok::<usize, Seq<char>>(i),
    ensures
        ({
            let v = s.project.registry;
            let (t, step) = named_step(s, "remove_node"@, a, decoded);
            let w = t.project.registry;
            &&& same_but_classes(s, t)
            &&& v.has(c) && i < v.nodes(c).len() ==> {
                &&& step == StepV::Reply(Ok(JsonV::Obj(seq![("ok"@, JsonV::Bool(true))])))
                &&& same_but_fields(v, w, c)
                &&& w.nodes(c).len() == v.nodes(c).len() - 1
                &&& forall|j: int| 0 <= j < i ==> #[trigger] w.nodes(c)[j] == v.nodes(c)[j]
                &&& forall|j: int|
                    i <= j < w.nodes(c).len() ==> #[trigger] w.nodes(c)[j] == v.nodes(c)[j + 1]
            }
            &&& !(v.has(c) && i < v.nodes(c).len()) ==> w == v && (step matches StepV::Reply(r) && r
                is Err)
        }),
{
    let v = s.project.registry;
    law_every_advertised_tool_is_handled(Tool::RemoveNode);
    if v.has(c) && i < v.nodes(c).len() {
        lemma_other_fields(v, c, v.nodes(c).remove(i as int));
    }
}

/// `insert_node` puts one field of the kind given before the field named, or at
/// the end, and moves those from there on; it changes nothing else. The field
/// has the name given, and no comment. Where the kind would make a class contain
/// itself, or there is no such place, it fails and changes no class.
pub proof fn law_tool_inserts_a_field(
    s: AppV,
    a: JsonV,
    decoded: Arg<NodeKind>,
    c: ClassId,
    i: usize,
    kind: NodeKind,
)
    requires
        s.wf(),
        u32_arg(a, "class_id"@) == Ok::<u32, Seq<char>>(c),
        usize_arg(a, "index"@) == Ok::<usize, Seq<char>>(i),
        kind_arg(a, decoded) == Ok::<NodeKind, Seq<char>>(kind),
    ensures
        ({
            let v = s.project.registry;
            let (t, step) = named_step(s, "insert_node"@, a, decoded);
            let w = t.project.registry;
            let good = v.has(c) && i <= v.nodes(c).len() && !would_cycle(v.classes, c, kind);
            &&& same_but_classes(s, t)
            &&& good ==> {
                &&& step == StepV::Reply(Ok(JsonV::Obj(seq![("ok"@, JsonV::Bool(true))])))
                &&& same_but_fields(v, w, c)
                &&& w.nodes(c).len() == v.nodes(c).len() + 1
                &&& w.nodes(c)[i as int].kind == kind
                &&& w.nodes(c)[i as int].comment.len() == 0
                &&& a.str_at("name"@) matches Some(name) ==> w.nodes(c)[i as int].name == name
                &&& forall|j: int| 0 <= j < i ==> #[trigger] w.nodes(c)[j] == v.nodes(c)[j]
                &&& forall|j: int|
                    i < j < w.nodes(c).len() ==> #[trigger] w.nodes(c)[j] == v.nodes(c)[j - 1]
            }
            &&& !good ==> w == v && (step matches StepV::Reply(r) && r is Err)
        }),
{
    let v = s.project.registry;
    law_every_advertised_tool_is_handled(Tool::InsertNode);
    if v.has(c) && i <= v.nodes(c).len() {
        let name = match a.str_at("name"@) {
            Some(n) => n,
            None => "field_"@ + crate::text::written(i as nat, 10, false),
        };
        lemma_other_fields(
            v,
            c,
            v.nodes(c).insert(i as int, crate::node::plain_node(name, kind)),
        );
    }
}

/// `add_node` puts one field of the kind given behind the others of the class,
/// answers with its number, and changes nothing else. The field has the name and
/// the comment given. Where the kind would make a class contain itself, or there
/// is no such class, it fails and changes nothing.
pub proof fn law_tool_appends_a_field(
    s: AppV,
    a: JsonV,
    decoded: Arg<NodeKind>,
    c: ClassId,
    kind: NodeKind,
)
    requires
        s.wf(),
        u32_arg(a, "class_id"@) == Ok::<u32, Seq<char>>(c),
        kind_arg(a, decoded) == Ok::<NodeKind, Seq<char>>(kind),
    ensures
        ({
            let v = s.project.registry;
            let (t, step) = named_step(s, "add_node"@, a, decoded);
            let w = t.project.registry;
            let n = v.nodes(c).len() as int;
            let good = v.has(c) && !would_cycle(v.classes, c, kind);
            &&& same_but_classes(s, t)
            &&& good ==> {
                &&& step == StepV::Reply(
                    Ok(JsonV::Obj(seq![("index"@, JsonV::num(v.nodes(c).len()))])),
                )
                &&& same_but_fields(v, w, c)
                &&& w.nodes(c).len() == n + 1
                &&& w.nodes(c)[n].kind == kind
                &&& a.str_at("name"@) matches Some(name) ==> w.nodes(c)[n].name == name
                &&& w.nodes(c)[n].comment == (match a.str_at("comment"@) {
                    Some(comment) => comment,
                    None => Seq::empty(),
                })
                &&& forall|j: int| 0 <= j < n ==> #[trigger] w.nodes(c)[j] == v.nodes(c)[j]
            }
            &&& !good ==> t == s && (step matches StepV::Reply(r) && r is Err)
        }),
{
    let v = s.project.registry;
    law_every_advertised_tool_is_handled(Tool::AddNode);
    if v.has(c) {
        let node = NodeV {
            name: match a.str_at("name"@) {
                Some(n) => n,
                None => crate::edits::field_name(
                    crate::node::capped(v.class_bytes(c)) as nat,
                ),
            },
            comment: match a.str_at("comment"@) {
                Some(c) => c,
                None => Seq::empty(),
            },
            kind,
        };
        lemma_other_fields(v, c, v.nodes(c) + seq![node]);
    }
}

/// `add_bytes` puts fields behind those of the class and changes nothing else:
/// eight-byte hexadecimal ones first, as many as fit, then one-byte ones, so that
/// together they take the bytes asked for.
pub proof fn law_tool_appends_bytes(
    s: AppV,
    a: JsonV,
    decoded: Arg<NodeKind>,
    c: ClassId,
    count: usize,
)
    requires
        s.wf(),
        u32_arg(a, "class_id"@) == Ok::<u32, Seq<char>>(c),
        usize_arg(a, "count"@) == Ok::<usize, Seq<char>>(count),
    ensures
        ({
            let v = s.project.registry;
            let (t, step) = named_step(s, "add_bytes"@, a, decoded);
            let w = t.project.registry;
            let n = v.nodes(c).len() as int;
            &&& same_but_classes(s, t)
            &&& v.has(c) ==> {
                &&& step == StepV::Reply(Ok(JsonV::Obj(seq![("ok"@, JsonV::Bool(true))])))
                &&& same_but_fields(v, w, c)
                &&& w.nodes(c).len() == n + count / 8 + count % 8
                &&& forall|j: int| 0 <= j < n ==> #[trigger] w.nodes(c)[j] == v.nodes(c)[j]
                &&& forall|j: int|
                    n <= j < n + count / 8 ==> (#[trigger] w.nodes(c)[j]).kind == NodeKind::Hex(
                        crate::node::IntWidth::W64,
                    )
                &&& forall|j: int|
                    n + count / 8 <= j < w.nodes(c).len() ==> (#[trigger] w.nodes(c)[j]).kind
                        == NodeKind::Hex(crate::node::IntWidth::W8)
            }
            &&& !v.has(c) ==> w == v && (step matches StepV::Reply(r) && r is Err)
        }),
{
    let v = s.project.registry;
    law_every_advertised_tool_is_handled(Tool::AddBytes);
    if v.has(c) {
        let more = crate::edits::byte_fields(
            crate::node::capped(v.class_bytes(c)) as nat,
            count as nat,
        );
        lemma_other_fields(v, c, v.nodes(c) + more);
    }
}

/// `rename_class` sets the name of the class named, to the text given, and
/// nothing else; where there is no such class it fails and changes none.
pub proof fn law_tool_renames_a_class(
    s: AppV,
    a: JsonV,
    decoded: Arg<NodeKind>,
    c: ClassId,
    name: Seq<char>,
)
    requires
        s.wf(),
        u32_arg(a, "id"@) == Ok::<u32, Seq<char>>(c),
        str_arg(a, "name"@) == Ok::<Seq<char>, Seq<char>>(name),
    ensures
        ({
            let v = s.project.registry;
            let (t, step) = named_step(s, "rename_class"@, a, decoded);
            let w = t.project.registry;
            &&& same_but_classes(s, t)
            &&& v.has(c) ==> {
                &&& step == StepV::Reply(Ok(JsonV::Obj(seq![("ok"@, JsonV::Bool(true))])))
                &&& same_but_class(v, w, c)
                &&& class_at(w.classes, c).name == name
                &&& class_at(w.classes, c).address_expr == class_at(v.classes, c).address_expr
                &&& w.nodes(c) == v.nodes(c)
            }
            &&& !v.has(c) ==> w == v && (step matches StepV::Reply(r) && r is Err)
        }),
{
    let v = s.project.registry;
    law_every_advertised_tool_is_handled(Tool::RenameClass);
    if v.has(c) {
        lemma_found_has_id(v, c);
    }
    lemma_class_set(v, c, ClassV { name, ..class_at(v.classes, c) });
}

/// `set_address_expr` sets the address expression of the class named, to the
/// text given, and nothing else; where there is no such class it fails and
/// changes none.
pub proof fn law_tool_sets_an_expression(
    s: AppV,
    a: JsonV,
    decoded: Arg<NodeKind>,
    c: ClassId,
    expr: Seq<char>,
)
    requires
        s.wf(),
        u32_arg(a, "id"@) == Ok::<u32, Seq<char>>(c),
        str_arg(a, "expr"@) == Ok::<Seq<char>, Seq<char>>(expr),
    ensures
        ({
            let v = s.project.registry;
            let (t, step) = named_step(s, "set_address_expr"@, a, decoded);
            let w = t.project.registry;
            &&& same_but_classes(s, t)
            &&& v.has(c) ==> {
                &&& step == StepV::Reply(Ok(JsonV::Obj(seq![("ok"@, JsonV::Bool(true))])))
                &&& same_but_class(v, w, c)
                &&& class_at(w.classes, c).address_expr == expr
                &&& class_at(w.classes, c).name == class_at(v.classes, c).name
                &&& w.nodes(c) == v.nodes(c)
            }
            &&& !v.has(c) ==> w == v && (step matches StepV::Reply(r) && r is Err)
        }),
{
    let v = s.project.registry;
    law_every_advertised_tool_is_handled(Tool::SetAddressExpr);
    if v.has(c) {
        lemma_found_has_id(v, c);
    }
    lemma_class_set(v, c, ClassV { address_expr: expr, ..class_at(v.classes, c) });
}

/// `create_class` makes one class, empty and without an address expression,
/// behind the others, which stay as they are. It answers with the id, which no
/// class had before, and the class is shown. It has the name given, where that
/// is more than white space.
pub proof fn law_tool_creates_a_class(s: AppV, a: JsonV, decoded: Arg<NodeKind>)
    requires
        s.wf(),
        s.project.registry.next_id < u32::MAX,
    ensures
        ({
            let v = s.project.registry;
            let (t, step) = named_step(s, "create_class"@, a, decoded);
            let w = t.project.registry;
            let id = v.next_id;
            &&& step == StepV::Reply(Ok(JsonV::Obj(seq![("id"@, JsonV::num(id as nat))])))
            &&& !v.has(id)
            &&& w.has(id)
            &&& w.nodes(id).len() == 0
            &&& class_at(w.classes, id).address_expr.len() == 0
            &&& a.str_at("name"@) matches Some(name) ==> crate::text::trim(name).len() > 0
                ==> class_at(w.classes, id).name == name
            &&& w.classes.len() == v.classes.len() + 1
            &&& w.next_id == id + 1
            &&& w.pointer_bytes == v.pointer_bytes
            &&& forall|k: int|
                0 <= k < v.classes.len() ==> #[trigger] w.classes[k] == v.classes[k]
            &&& t.selected_class() == Some(id)
        }),
{
    let v = s.project.registry;
    law_every_advertised_tool_is_handled(Tool::CreateClass);
    let t = named_step(s, "create_class"@, a, decoded).0;
    let w = t.project.registry;
    let n = v.classes.len() as int;
    assert(w.classes[n].id == v.next_id);
    assert forall|i: int, j: int| 0 <= i < j < w.classes.len() implies (#[trigger] w.classes[i]).id
        < (#[trigger] w.classes[j]).id by {
        if j < n {
            assert(v.classes[i].id < v.classes[j].id);
        } else {
            assert(v.classes[i].id < v.next_id);
        }
    }
    assert forall|i: int| 0 <= i < w.classes.len() implies (#[trigger] w.classes[i]).id
        < w.next_id by {
        if i < n {
            assert(v.classes[i].id < v.next_id);
        }
    }
    lemma_place(w.classes, w.next_id, n);
    if v.has(v.next_id) {
        let k = place(v.classes, v.next_id);
        assert(v.classes[k].id < v.next_id);
    }
    crate::app_state::law_opened_class_is_shown(
        s.snapped().with_registry(w),
        v.next_id,
    );
}

/// Whether `kind` leads to class `c`, itself or through the elements of arrays.
pub open spec fn leads_to(kind: NodeKind, c: ClassId) -> bool
    decreases kind,
{
    match kind {
        NodeKind::ClassInstance { class_id } => class_id == c,
        NodeKind::ClassPtr { class_id } => class_id == c,
        NodeKind::Array { element, count } => leads_to(*element, c),
        _ => false,
    }
}

/// A kind that does not lead to a class is not rewritten for its sake.
proof fn lemma_unrelated_kind_stays(kind: NodeKind, c: ClassId, bytes: usize)
    requires
        !leads_to(kind, c),
    ensures
        detached(kind, c, bytes) == kind,
    decreases kind,
{
    match kind {
        NodeKind::Array { element, count } => {
            lemma_unrelated_kind_stays(*element, c, bytes);
        },
        _ => {},
    }
}

/// Removing a class takes it away and no other: the others stay in their order,
/// under their ids and names, with as many fields as before and these under
/// their names and with their comments. A field that does not lead to the class
/// keeps its kind; a pointer to it becomes a plain pointer, an instance of it as
/// many unknown bytes, and so do the elements of an array.
pub proof fn law_removed_class_is_gone(v: RegistryV, c: ClassId, k: int, j: int)
    requires
        v.wf(),
        v.has(c),
    ensures
        ({
            let w = v.without_class(c);
            &&& !w.has(c)
            &&& w.next_id == v.next_id
            &&& w.pointer_bytes == v.pointer_bytes
            &&& w.classes.len() == v.classes.len() - 1
            &&& 0 <= k < w.classes.len() ==> {
                let from = if v.classes[k].id < c {
                    v.classes[k]
                } else {
                    v.classes[k + 1]
                };
                let to = w.classes[k];
                &&& to.id == from.id
                &&& to.name == from.name
                &&& to.address_expr == from.address_expr
                &&& to.nodes.len() == from.nodes.len()
                &&& 0 <= j < from.nodes.len() ==> {
                    let n = from.nodes[j];
                    let m = to.nodes[j];
                    &&& m.name == n.name
                    &&& m.comment == n.comment
                    &&& !leads_to(n.kind, c) ==> m.kind == n.kind
                    &&& n.kind == (NodeKind::ClassPtr { class_id: c }) ==> m.kind
                        == NodeKind::Pointer
                    &&& n.kind == (NodeKind::ClassInstance { class_id: c }) ==> m.kind
                        == NodeKind::Unknown(crate::node::capped(v.class_bytes(c)))
                    &&& n.kind is Array ==> m.kind is Array && m.kind->count == n.kind->count
                    &&& n.kind is Array && *n.kind->element == (NodeKind::ClassPtr { class_id: c })
                        ==> *m.kind->element == NodeKind::Pointer
                }
            }
        }),
{
    let w = v.without_class(c);
    let p = place(v.classes, c);
    assert(v.classes[p].id == c);
    let bytes = crate::node::capped(v.class_bytes(c));
    if w.has(c) {
        let q = place(w.classes, c);
        assert(w.classes[q].id == c);
        if q < p {
            assert(v.classes[q].id < v.classes[p].id);
        } else {
            assert(v.classes[p].id < v.classes[q + 1].id);
        }
    }
    if 0 <= k < w.classes.len() {
        if k < p {
            assert(v.classes[k].id < v.classes[p].id);
        } else if p < k {
            assert(v.classes[p].id < v.classes[k].id);
        }
        let from = if v.classes[k].id < c {
            v.classes[k]
        } else {
            v.classes[k + 1]
        };
        assert(v.classes.remove(p)[k] == from);
        if 0 <= j < from.nodes.len() && !leads_to(from.nodes[j].kind, c) {
            lemma_unrelated_kind_stays(from.nodes[j].kind, c, bytes);
        }
        reveal_with_fuel(detached, 3);
    }
}

/// `remove_class` removes the class named, as removing a class does, and answers
/// that it has; without such a class no class changes.
pub proof fn law_tool_removes_a_class(s: AppV, a: JsonV, decoded: Arg<NodeKind>, c: ClassId)
    requires
        s.wf(),
        u32_arg(a, "id"@) == Ok::<u32, Seq<char>>(c),
    ensures
        ({
            let v = s.project.registry;
            let (t, step) = named_step(s, "remove_class"@, a, decoded);
            &&& step == StepV::Reply(Ok(JsonV::Obj(seq![("ok"@, JsonV::Bool(true))])))
            &&& !t.project.registry.has(c)
            &&& t.project.registry == v.without_class(c)
            &&& !v.has(c) ==> t.project.registry == v
            &&& !s.project.views.contains(c) ==> t.project.views == s.project.views
        }),
{
    law_every_advertised_tool_is_handled(Tool::RemoveClass);
    if s.project.registry.has(c) {
        law_removed_class_is_gone(s.project.registry, c, 0, 0);
    }
    crate::app_state::lemma_first_view_found(s.project.views, c);
}

/// The memory tools ask for exactly what the agent does: so many bytes from that
/// address, a megabyte at most, or those bytes to that address. Without a target
/// they fail. The state stays as it is.
pub proof fn law_tools_reach_memory(
    s: AppV,
    a: JsonV,
    decoded: Arg<NodeKind>,
    addr: u64,
    size: usize,
    bytes: Seq<u8>,
)
    requires
        u64_arg(a, "address"@) == Ok::<u64, Seq<char>>(addr),
    ensures
        named_step(s, "read_memory"@, a, decoded).0 == s,
        named_step(s, "write_memory"@, a, decoded).0 == s,
        usize_arg(a, "size"@) == Ok::<usize, Seq<char>>(size) && s.attached && size <= 0x10_0000
            ==> named_step(s, "read_memory"@, a, decoded).1 == StepV::Need(
            EffectV::ReadMemory { addr, size },
        ),
        usize_arg(a, "size"@) == Ok::<usize, Seq<char>>(size) && s.attached && size > 0x10_0000
            ==> named_step(s, "read_memory"@, a, decoded).1 == StepV::Need(
            EffectV::ReadMemory { addr, size: 0x10_0000 },
        ),
        bytes_arg(a) == Ok::<Seq<u8>, Seq<char>>(bytes) && s.attached ==> named_step(
            s,
            "write_memory"@,
            a,
            decoded,
        ).1 == StepV::Need(EffectV::WriteMemory { addr, bytes }),
        !s.attached ==> (named_step(s, "read_memory"@, a, decoded).1 matches StepV::Reply(r) && r
            is Err),
        !s.attached ==> (named_step(s, "write_memory"@, a, decoded).1 matches StepV::Reply(r) && r
            is Err),
{
    law_every_advertised_tool_is_handled(Tool::ReadMemory);
    law_every_advertised_tool_is_handled(Tool::WriteMemory);
}

/// The tools that work on processes and files ask for what their names say, with
/// the argument that they were given.
pub proof fn law_tools_reach_outside(
    s: AppV,
    a: JsonV,
    decoded: Arg<NodeKind>,
    pid: i32,
    path: Seq<char>,
    lang: Language,
)
    ensures
        i32_arg(a, "pid"@) == Ok::<i32, Seq<char>>(pid) ==> named_step(
            s,
            "attach_pid"@,
            a,
            decoded,
        ).1 == StepV::Need(EffectV::Attach { pid }),
        str_arg(a, "path"@) == Ok::<Seq<char>, Seq<char>>(path) ==> named_step(
            s,
            "save_project"@,
            a,
            decoded,
        ).1 == StepV::Need(EffectV::Save { path }),
        str_arg(a, "path"@) == Ok::<Seq<char>, Seq<char>>(path) ==> named_step(
            s,
            "load_project"@,
            a,
            decoded,
        ).1 == StepV::Need(EffectV::Load { path }),
        named_step(s, "list_regions"@, a, decoded).1 == StepV::Need(EffectV::Regions),
        named_step(s, "list_processes"@, a, decoded).1 == StepV::Need(EffectV::Processes),
        named_step(s, "get_rows"@, a, decoded).1 == StepV::Need(EffectV::Rows),
        str_arg(a, "lang"@) == Ok::<Seq<char>, Seq<char>>(path) && language_of(path) == Ok::<
            Language,
            Seq<char>,
        >(lang) ==> named_step(s, "codegen"@, a, decoded).1 == StepV::Need(
            EffectV::Codegen { lang, label: Some(path) },
        ),
{
    law_every_advertised_tool_is_handled(Tool::AttachPid);
    law_every_advertised_tool_is_handled(Tool::SaveProject);
    law_every_advertised_tool_is_handled(Tool::LoadProject);
    law_every_advertised_tool_is_handled(Tool::ListRegions);
    law_every_advertised_tool_is_handled(Tool::ListProcesses);
    law_every_advertised_tool_is_handled(Tool::GetRows);
    law_every_advertised_tool_is_handled(Tool::Codegen);
}

// ---------------------------------------------------------------------------
// What plugins ask for
// ---------------------------------------------------------------------------

/// A plugin renames, comments on or retypes exactly the field that it names, and
/// nothing else; a kind that would make a class contain itself is refused.
pub proof fn law_plugin_edits_one_field(
    s: AppV,
    c: ClassId,
    i: usize,
    text: String,
    kind: NodeKind,
    count: usize,
)
    requires
        s.wf(),
        s.project.registry.has(c),
        i < s.project.registry.nodes(c).len(),
    ensures
        ({
            let v = s.project.registry;
            let n = v.nodes(c)[i as int];
            let renamed = granted(s, PluginAction::RenameNode { class: c, idx: i, name: text });
            let w = renamed.0.project.registry;
            let m = w.nodes(c)[i as int];
            &&& renamed.1 is Ok
            &&& same_but_classes(s, renamed.0)
            &&& same_but_field(v, w, c, i as int)
            &&& m.name == text@ && m.comment == n.comment && m.kind == n.kind
        }),
        ({
            let v = s.project.registry;
            let n = v.nodes(c)[i as int];
            let noted = granted(s, PluginAction::SetComment { class: c, idx: i, comment: text });
            let w = noted.0.project.registry;
            let m = w.nodes(c)[i as int];
            &&& noted.1 is Ok
            &&& same_but_classes(s, noted.0)
            &&& same_but_field(v, w, c, i as int)
            &&& m.comment == text@ && m.name == n.name && m.kind == n.kind
        }),
        ({
            let v = s.project.registry;
            let n = v.nodes(c)[i as int];
            let retyped = granted(s, PluginAction::SetKind { class: c, idx: i, kind });
            let w = retyped.0.project.registry;
            let m = w.nodes(c)[i as int];
            &&& would_cycle(v.classes, c, kind) ==> retyped.1 is Err && retyped.0 == s
            &&& !would_cycle(v.classes, c, kind) ==> {
                &&& retyped.1 is Ok
                &&& same_but_classes(s, retyped.0)
                &&& same_but_field(v, w, c, i as int)
                &&& m.kind == kind && m.name == n.name && m.comment == n.comment
            }
        }),
        ({
            let v = s.project.registry;
            let n = v.nodes(c)[i as int];
            let counted = granted(s, PluginAction::SetArrayCount { class: c, idx: i, count });
            let w = counted.0.project.registry;
            let m = w.nodes(c)[i as int];
            &&& !(n.kind is Array) ==> counted.1 is Err && w == v
            &&& n.kind is Array ==> {
                &&& counted.1 is Ok
                &&& same_but_classes(s, counted.0)
                &&& same_but_field(v, w, c, i as int)
                &&& m.kind == (NodeKind::Array { element: n.kind->element, count })
                &&& m.name == n.name && m.comment == n.comment
            }
        }),
{
    let v = s.project.registry;
    let n = v.nodes(c)[i as int];
    lemma_field_set(v, c, i, NodeV { name: text@, ..n });
    lemma_field_set(v, c, i, NodeV { comment: text@, ..n });
    lemma_field_set(v, c, i, NodeV { kind, ..n });
    lemma_field_set(
        v,
        c,
        i,
        NodeV { kind: NodeKind::Array { element: n.kind->element, count }, ..n },
    );
}

/// A plugin appends a field behind the others, inserts one behind the one that
/// it names, or removes the one that it names; the other fields keep their
/// order, and everything else stays. A field so made has the name and the kind
/// asked for, and no comment.
pub proof fn law_plugin_adds_and_removes_fields(
    s: AppV,
    c: ClassId,
    i: usize,
    name: String,
    kind: NodeKind,
)
    requires
        s.wf(),
        s.project.registry.has(c),
        i < s.project.registry.nodes(c).len() < usize::MAX,
    ensures
        ({
            let v = s.project.registry;
            let n = v.nodes(c).len() as int;
            let out = granted(s, PluginAction::PushNode { class: c, kind, name });
            let w = out.0.project.registry;
            &&& out.1 is Ok
            &&& same_but_classes(s, out.0)
            &&& same_but_fields(v, w, c)
            &&& w.nodes(c).len() == n + 1
            &&& w.nodes(c)[n].name == name@
            &&& w.nodes(c)[n].kind == kind
            &&& w.nodes(c)[n].comment.len() == 0
            &&& forall|j: int| 0 <= j < n ==> #[trigger] w.nodes(c)[j] == v.nodes(c)[j]
        }),
        ({
            let v = s.project.registry;
            let n = v.nodes(c).len() as int;
            let out = granted(s, PluginAction::InsertNode { class: c, after_idx: i, kind, name });
            let w = out.0.project.registry;
            &&& out.1 is Ok
            &&& same_but_classes(s, out.0)
            &&& same_but_fields(v, w, c)
            &&& w.nodes(c).len() == n + 1
            &&& w.nodes(c)[i + 1].name == name@
            &&& w.nodes(c)[i + 1].kind == kind
            &&& w.nodes(c)[i + 1].comment.len() == 0
            &&& forall|j: int| 0 <= j <= i ==> #[trigger] w.nodes(c)[j] == v.nodes(c)[j]
            &&& forall|j: int| i + 1 < j <= n ==> #[trigger] w.nodes(c)[j] == v.nodes(c)[j - 1]
        }),
        ({
            let v = s.project.registry;
            let n = v.nodes(c).len() as int;
            let out = granted(s, PluginAction::RemoveNode { class: c, idx: i });
            let w = out.0.project.registry;
            &&& out.1 is Ok
            &&& same_but_classes(s, out.0)
            &&& same_but_fields(v, w, c)
            &&& w.nodes(c).len() == n - 1
            &&& forall|j: int| 0 <= j < i ==> #[trigger] w.nodes(c)[j] == v.nodes(c)[j]
            &&& forall|j: int| i <= j < n - 1 ==> #[trigger] w.nodes(c)[j] == v.nodes(c)[j + 1]
        }),
{
    let v = s.project.registry;
    let node = crate::node::plain_node(name@, kind);
    lemma_other_fields(v, c, v.nodes(c) + seq![node]);
    lemma_other_fields(v, c, v.nodes(c).insert(i + 1, node));
    lemma_other_fields(v, c, v.nodes(c).remove(i as int));
}

/// A plugin sets the address expression of the class that it names and nothing
/// else; a class that it adds is empty, has the name asked for and is shown.
pub proof fn law_plugin_works_on_classes(s: AppV, c: ClassId, text: String)
    requires
        s.wf(),
        s.project.registry.has(c),
        s.project.registry.next_id < u32::MAX,
    ensures
        ({
            let v = s.project.registry;
            let out = granted(s, PluginAction::SetAddressExpr { class: c, expr: text });
            let w = out.0.project.registry;
            &&& out.1 is Ok
            &&& same_but_classes(s, out.0)
            &&& same_but_class(v, w, c)
            &&& class_at(w.classes, c).address_expr == text@
            &&& class_at(w.classes, c).name == class_at(v.classes, c).name
            &&& w.nodes(c) == v.nodes(c)
        }),
        ({
            let v = s.project.registry;
            let out = granted(s, PluginAction::AddClass { name: text });
            let w = out.0.project.registry;
            let made = w.classes[v.classes.len() as int];
            &&& out.1 is Ok
            &&& w.classes.len() == v.classes.len() + 1
            &&& forall|k: int|
                0 <= k < v.classes.len() ==> #[trigger] w.classes[k] == v.classes[k]
            &&& made.id == v.next_id
            &&& made.name == text@
            &&& made.nodes.len() == 0
            &&& made.address_expr.len() == 0
            &&& out.0.selected_class() == Some(v.next_id)
        }),
{
    let v = s.project.registry;
    lemma_found_has_id(v, c);
    lemma_class_set(v, c, ClassV { address_expr: text@, ..class_at(v.classes, c) });
    crate::app_state::law_opened_class_is_shown(
        s.snapped().with_registry(v.with_class(text@)),
        v.next_id,
    );
}

/// What a plugin asks of the outside world reaches the shell as it was asked, and
/// changes nothing by itself.
pub proof fn law_plugin_errands_are_passed_on(
    s: AppV,
    pid: i32,
    addr: u64,
    kind: NodeKind,
    text: String,
)
    ensures
        errand_of(PluginAction::AttachPid(pid)) == ErrandV::Attach(pid),
        errand_of(PluginAction::WriteValue { addr, kind, text }) == (ErrandV::Write {
            addr,
            kind,
            text: text@,
        }),
        errand_of(PluginAction::SaveProject { path: text }) == ErrandV::Save(text@),
        errand_of(PluginAction::LoadProject { path: text }) == ErrandV::Load(text@),
        errand_of(PluginAction::SetClipboard(text)) == ErrandV::Copy(text@),
        granted(s, PluginAction::AttachPid(pid)).0 == s,
        granted(s, PluginAction::WriteValue { addr, kind, text }).0 == s,
        granted(s, PluginAction::SaveProject { path: text }).0 == s,
        granted(s, PluginAction::LoadProject { path: text }).0 == s,
        granted(s, PluginAction::SetClipboard(text)).0 == s,
{
}

// ---------------------------------------------------------------------------
// What tools need and tell
// ---------------------------------------------------------------------------

/// A tool does without none of the arguments that it is advertised to require:
/// where one is missing it fails and changes nothing.
pub proof fn law_required_arguments_are_required(
    s: AppV,
    t: Tool,
    a: JsonV,
    decoded: Arg<NodeKind>,
    i: int,
)
    requires
        0 <= i < tool_required(t).len(),
        a.get(tool_required(t)[i]) is None,
    ensures
        tool_step(s, t, a, decoded).0 == s,
        tool_step(s, t, a, decoded).1 matches StepV::Reply(r) && r is Err,
{
    let key = tool_required(t)[i];
    match t {
        Tool::GetClass | Tool::RemoveClass | Tool::RenameClass | Tool::SetAddressExpr => {
            lemma_class_tool_needs(s, t, a, decoded, key);
        },
        Tool::AddNode | Tool::InsertNode | Tool::SetNodeKind => {
            lemma_kind_tool_needs(s, t, a, decoded, key);
        },
        Tool::RemoveNode | Tool::SetNodeName | Tool::SetNodeComment | Tool::SetArrayCount
        | Tool::AddBytes => {
            lemma_field_tool_needs(s, t, a, decoded, key);
        },
        _ => {
            lemma_outside_tool_needs(s, t, a, decoded, key);
        },
    }
}

proof fn lemma_class_tool_needs(
    s: AppV,
    t: Tool,
    a: JsonV,
    decoded: Arg<NodeKind>,
    key: Seq<char>,
)
    requires
        t is GetClass || t is RemoveClass || t is RenameClass || t is SetAddressExpr,
        tool_required(t).contains(key),
        a.get(key) is None,
    ensures
        tool_step(s, t, a, decoded).0 == s,
        tool_step(s, t, a, decoded).1 matches StepV::Reply(r) && r is Err,
{
    let i = choose|i: int| 0 <= i < tool_required(t).len() && tool_required(t)[i] == key;
}

proof fn lemma_kind_tool_needs(
    s: AppV,
    t: Tool,
    a: JsonV,
    decoded: Arg<NodeKind>,
    key: Seq<char>,
)
    requires
        t is AddNode || t is InsertNode || t is SetNodeKind,
        tool_required(t).contains(key),
        a.get(key) is None,
    ensures
        tool_step(s, t, a, decoded).0 == s,
        tool_step(s, t, a, decoded).1 matches StepV::Reply(r) && r is Err,
{
    let i = choose|i: int| 0 <= i < tool_required(t).len() && tool_required(t)[i] == key;
}

/// The tools on one field need its class, and most of them its number and what
/// is to become of it.
proof fn lemma_field_arguments(s: AppV, a: JsonV)
    ensures
        a.get("class_id"@) is None || a.get("index"@) is None ==> {
            &&& crate::mcp::remove_node(s, a).0 == s
            &&& crate::mcp::remove_node(s, a).1 is Err
            &&& crate::mcp::set_node_name(s, a).0 == s
            &&& crate::mcp::set_node_name(s, a).1 is Err
            &&& crate::mcp::set_node_comment(s, a).0 == s
            &&& crate::mcp::set_node_comment(s, a).1 is Err
            &&& crate::mcp::set_array_count(s, a).0 == s
            &&& crate::mcp::set_array_count(s, a).1 is Err
        },
        a.get("name"@) is None ==> crate::mcp::set_node_name(s, a).0 == s
            && crate::mcp::set_node_name(s, a).1 is Err,
        a.get("comment"@) is None ==> crate::mcp::set_node_comment(s, a).0 == s
            && crate::mcp::set_node_comment(s, a).1 is Err,
        a.get("count"@) is None ==> crate::mcp::set_array_count(s, a).0 == s
            && crate::mcp::set_array_count(s, a).1 is Err,
        a.get("class_id"@) is None || a.get("count"@) is None ==> crate::mcp::add_bytes(s, a).0 == s
            && crate::mcp::add_bytes(s, a).1 is Err,
{
}

proof fn lemma_field_tool_needs(
    s: AppV,
    t: Tool,
    a: JsonV,
    decoded: Arg<NodeKind>,
    key: Seq<char>,
)
    requires
        t is RemoveNode || t is SetNodeName || t is SetNodeComment || t is SetArrayCount
            || t is AddBytes,
        tool_required(t).contains(key),
        a.get(key) is None,
    ensures
        tool_step(s, t, a, decoded).0 == s,
        tool_step(s, t, a, decoded).1 matches StepV::Reply(r) && r is Err,
{
    lemma_field_arguments(s, a);
    let i = choose|i: int| 0 <= i < tool_required(t).len() && tool_required(t)[i] == key;
}

proof fn lemma_outside_tool_needs(
    s: AppV,
    t: Tool,
    a: JsonV,
    decoded: Arg<NodeKind>,
    key: Seq<char>,
)
    requires
        t is ReadMemory || t is WriteMemory || t is AttachPid || t is Codegen || t is SaveProject
            || t is LoadProject,
        tool_required(t).contains(key),
        a.get(key) is None,
    ensures
        tool_step(s, t, a, decoded).0 == s,
        tool_step(s, t, a, decoded).1 matches StepV::Reply(r) && r is Err,
{
    let i = choose|i: int| 0 <= i < tool_required(t).len() && tool_required(t)[i] == key;
}

/// Every argument that a tool is advertised to require is among those that it is
/// advertised to take.
pub proof fn law_required_arguments_are_described(t: Tool, i: int)
    requires
        0 <= i < tool_required(t).len(),
    ensures
        exists|k: int|
            0 <= k < tool_props(t).len() && (#[trigger] tool_props(t)[k]).0 == tool_required(t)[i],
{
    let p = tool_props(t);
    let r = tool_required(t)[i];
    assert(p.len() > 0 ==> p[0] == p[0]);
    assert(p.len() > 1 ==> p[1] == p[1]);
    assert(p.len() > 2 ==> p[2] == p[2]);
    if p[0].0 != r && p[1].0 != r {
        assert(p[2].0 == r);
    }
}

/// `get_class` tells the class of the id given, and says so where there is none;
/// `list_classes` tells them all.
pub proof fn law_tools_tell_classes(s: AppV, a: JsonV, decoded: Arg<NodeKind>, c: ClassId)
    ensures
        u32_arg(a, "id"@) == Ok::<u32, Seq<char>>(c) && s.project.registry.has(c) ==> named_step(
            s,
            "get_class"@,
            a,
            decoded,
        ) == (s, StepV::Reply(Ok(class_of(s.project.registry, c)))),
        u32_arg(a, "id"@) == Ok::<u32, Seq<char>>(c) && !s.project.registry.has(c) ==> (named_step(
            s,
            "get_class"@,
            a,
            decoded,
        ).1 matches StepV::Reply(r) && r is Err),
        named_step(s, "list_classes"@, a, decoded) == (
            s,
            StepV::Reply(
                Ok(JsonV::Obj(seq![("classes"@, classes_of(s.project.registry))])),
            ),
        ),
{
    law_every_advertised_tool_is_handled(Tool::GetClass);
    law_every_advertised_tool_is_handled(Tool::ListClasses);
}

/// Memory that was read is told with its address and size, and with digits that
/// read back as the very bytes; memory that was written with its size. A failure
/// is told with its reason.
pub proof fn law_memory_answers_tell_the_bytes(
    addr: u64,
    size: usize,
    bytes: Seq<u8>,
    why: Seq<char>,
)
    ensures
        read_answer(addr, size, Ok(bytes)) matches Ok(j) && j.get("address"@) == Some(
            JsonV::num(addr as nat),
        ) && j.get("size"@) == Some(JsonV::num(size as nat)) && (j.get("hex"@) matches Some(h) && (h
            matches JsonV::Str(digits) && bytes_of(digits) == Ok::<Seq<u8>, Seq<char>>(bytes))),
        write_answer(size, Ok(())) matches Ok(j) && j.get("written"@) == Some(
            JsonV::num(size as nat),
        ),
        read_answer(addr, size, Err(why)) == Err::<JsonV, Seq<char>>(why),
        write_answer(size, Err(why)) == Err::<JsonV, Seq<char>>(why),
{
    reveal_strlit("address");
    reveal_strlit("size");
    reveal_strlit("hex");
    assert("address"@.len() == 7 && "size"@.len() == 4 && "hex"@.len() == 3);
    let digits = hex_text(bytes);
    let none = Seq::<char>::empty();
    law_written_digits_are_small(bytes);
    law_hex_round_trip(bytes, digits, none, none);
    assert(none + digits + none =~= digits);
    let ms = read_answer(addr, size, Ok(bytes))->Ok_0->Obj_0;
    law_members_are_found_by_name(ms, "address"@, 0);
    law_members_are_found_by_name(ms, "size"@, 1);
    law_members_are_found_by_name(ms, "hex"@, 2);
}

/// Attaching makes the target's memory known and keeps its name; it changes no
/// class and no view, and is answered with the process. Regions read without a
/// target are not kept.
pub proof fn law_agent_attaches(
    s: AppV,
    pid: i32,
    regions: Vec<Region>,
    name: Option<Seq<char>>,
)
    ensures
        ({
            let t = agent_attached(s, pid, Some(regions), name);
            &&& t.attached
            &&& t.regions == regions_view(regions@)
            &&& t.project == (ProjectV { attach_name: name, ..s.project })
            &&& t.history == s.history
            &&& t.clipboard == s.clipboard
            &&& t.expand == s.expand
        }),
        attach_answer(pid, name).get("pid"@) == Some(JsonV::whole(pid as int)),
        s.attached ==> regions_taken(s, Some(regions)) == (AppV {
            regions: regions_view(regions@),
            ..s
        }),
        !s.attached ==> regions_taken(s, Some(regions)).regions.len() == 0,
        regions_taken(s, None).regions.len() == 0,
        regions_taken(s, Some(regions)).project == s.project,
{
}

/// Generated source is told as it is, with the language where one was named.
pub proof fn law_generated_source_is_told(label: Seq<char>, source: Seq<char>)
    ensures
        codegen_answer(Some(label), source).get("lang"@) == Some(JsonV::Str(label)),
        codegen_answer(Some(label), source).get("source"@) == Some(JsonV::Str(source)),
        codegen_answer(None, source).get("source"@) == Some(JsonV::Str(source)),
{
    reveal_strlit("lang");
    reveal_strlit("source");
    assert("lang"@.len() == 4 && "source"@.len() == 6);
    law_members_are_found_by_name(codegen_answer(Some(label), source)->Obj_0, "source"@, 1);
}

/// A resource is read by its address: the classes as they are, the regions and
/// rows once they are at hand, the source in the language that the address ends
/// with. Anything else is no resource.
pub proof fn law_resources_go_by_their_address(s: AppV, uri: Seq<char>)
    ensures
        resource_step(s, "reclass://classes"@) == StepV::Reply(
            Ok(JsonV::Obj(seq![("classes"@, classes_of(s.project.registry))])),
        ),
        resource_step(s, "reclass://regions"@) == StepV::Need(EffectV::Regions),
        resource_step(s, "reclass://rows"@) == StepV::Need(EffectV::Rows),
        resource_step(s, "reclass://codegen/rust"@) == StepV::Need(
            EffectV::Codegen { lang: Language::Rust, label: None },
        ),
        resource_step(s, "reclass://codegen/cpp"@) == StepV::Need(
            EffectV::Codegen { lang: Language::Cpp, label: None },
        ),
        !seq![
            "reclass://classes"@,
            "reclass://regions"@,
            "reclass://rows"@,
            "reclass://codegen/rust"@,
            "reclass://codegen/cpp"@,
        ].contains(uri) ==> (resource_step(s, uri) matches StepV::Reply(r) && r is Err),
{
    reveal_strlit("reclass://classes");
    reveal_strlit("reclass://regions");
    reveal_strlit("reclass://rows");
    reveal_strlit("reclass://codegen/rust");
    reveal_strlit("reclass://codegen/cpp");
    assert("reclass://classes"@[10] == 'c' && "reclass://classes"@.len() == 17);
    assert("reclass://regions"@[10] == 'r' && "reclass://regions"@.len() == 17);
    assert("reclass://rows"@.len() == 14);
    assert("reclass://codegen/rust"@.len() == 22);
    assert("reclass://codegen/cpp"@.len() == 21);
    let known = seq![
        "reclass://classes"@,
        "reclass://regions"@,
        "reclass://rows"@,
        "reclass://codegen/rust"@,
        "reclass://codegen/cpp"@,
    ];
    assert(known[0] == "reclass://classes"@ && known[1] == "reclass://regions"@);
    assert(known[2] == "reclass://rows"@ && known[3] == "reclass://codegen/rust"@);
    assert(known[4] == "reclass://codegen/cpp"@);
}

/// What the agent gives no name gets one: a class the next number among the
/// classes, a field appended the offset at which it begins, in hexadecimal, and
/// a field inserted its number.
pub proof fn law_tools_name_what_has_no_name(
    s: AppV,
    a: JsonV,
    decoded: Arg<NodeKind>,
    c: ClassId,
    i: usize,
    kind: NodeKind,
)
    requires
        s.wf(),
        s.project.registry.next_id < u32::MAX,
        a.get("name"@) is None,
        u32_arg(a, "class_id"@) == Ok::<u32, Seq<char>>(c),
        usize_arg(a, "index"@) == Ok::<usize, Seq<char>>(i),
        kind_arg(a, decoded) == Ok::<NodeKind, Seq<char>>(kind),
        s.project.registry.has(c),
        i <= s.project.registry.nodes(c).len(),
        !would_cycle(s.project.registry.classes, c, kind),
    ensures
        ({
            let v = s.project.registry;
            let w = named_step(s, "create_class"@, a, decoded).0.project.registry;
            w.classes[v.classes.len() as int].name == "Class"@ + crate::text::written(
                v.classes.len() + 1,
                10,
                false,
            )
        }),
        ({
            let v = s.project.registry;
            let w = named_step(s, "add_node"@, a, decoded).0.project.registry;
            v.class_bytes(c) <= usize::MAX ==> w.nodes(c)[v.nodes(c).len() as int].name
                == "field_"@ + crate::text::written(v.class_bytes(c), 16, true)
        }),
        ({
            let w = named_step(s, "insert_node"@, a, decoded).0.project.registry;
            w.nodes(c)[i as int].name == "field_"@ + crate::text::written(i as nat, 10, false)
        }),
{
    let v = s.project.registry;
    law_every_advertised_tool_is_handled(Tool::CreateClass);
    law_every_advertised_tool_is_handled(Tool::AddNode);
    law_every_advertised_tool_is_handled(Tool::InsertNode);
    let off = crate::node::capped(v.class_bytes(c)) as nat;
    let node = NodeV {
        name: crate::edits::field_name(off),
        comment: match a.str_at("comment"@) {
            Some(c) => c,
            None => Seq::empty(),
        },
        kind,
    };
    lemma_other_fields(v, c, v.nodes(c) + seq![node]);
    let name = "field_"@ + crate::text::written(i as nat, 10, false);
    lemma_other_fields(v, c, v.nodes(c).insert(i as int, crate::node::plain_node(name, kind)));
}

} // verus!
