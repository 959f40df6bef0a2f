//! The remote agent's requests against the application state: each tool and
//! each resource, and the work that a request needs done elsewhere before it
//! can be answered.

use crate::app_state::{AppError, AppState, AppV};
use crate::catalog::{find_tool, tool_named, Tool};
use crate::edits::{field_name, kind_changed, name_field};
use crate::json::{obj1, obj2, obj3, parsed_view, Json, JsonV};
use crate::mcp_args::{
    arg_i32, arg_str, arg_u32, arg_u64, arg_usize, arg_view, bytes_arg, bytes_view, hex_encode,
    hex_text,
    i32_arg, can_read_hex, hex_readable, kind_of, language_of, parse_kind, parse_lang, str_arg,
    u32_arg, u64_arg, usize_arg, write_bytes, Arg, Language,
};
use crate::memory::{regions_view, Region};
use crate::messages::error_text;
use crate::node::{capped, plain_node, ClassId, Node, NodeKind, NodeV};
use crate::processes::{procs_view, ProcInfo};
use crate::project::{Project, ProjectV};
use crate::registry::{
    array_counted, class_at, class_set, inserted, node_set, pushed, removed, would_cycle, ClassV,
};
use crate::rows::Row;
use crate::state_json::{
    class_json, class_of, classes_json, classes_of, processes_json, processes_of, regions_json,
    regions_of, rows_json, rows_of, rows_view,
};
use crate::text;
use vstd::prelude::*;

verus! {

/// Most bytes that one request reads.
pub const MAX_READ: usize = 0x10_0000;

/// What a request wants done.
#[derive(Debug)]
pub enum Op {
    /// Run tool `name` with `args`.
    Tool { name: String, args: Json },
    /// Read resource `uri`.
    Resource { uri: String },
}

/// Work that a request needs done before it can be answered.
#[derive(Debug)]
pub enum Effect {
    ReadMemory { addr: u64, size: usize },
    WriteMemory { addr: u64, bytes: Vec<u8> },
    /// Read the target's mapped regions.
    Regions,
    Processes,
    Attach { pid: i32 },
    /// Render the rows.
    Rows,
    /// Write the classes out; the answer names the language where `label` does.
    Codegen { lang: Language, label: Option<String> },
    Save { path: String },
    Load { path: String },
}

/// What an [`Effect`] says.
pub enum EffectV {
    ReadMemory { addr: u64, size: usize },
    WriteMemory { addr: u64, bytes: Seq<u8> },
    Regions,
    Processes,
    Attach { pid: i32 },
    Rows,
    Codegen { lang: Language, label: Option<Seq<char>> },
    Save { path: Seq<char> },
    Load { path: Seq<char> },
}

impl View for Effect {
    type V = EffectV;

    open spec fn view(&self) -> EffectV {
        match self {
            Effect::ReadMemory { addr, size } => EffectV::ReadMemory { addr: *addr, size: *size },
            Effect::WriteMemory { addr, bytes } => EffectV::WriteMemory {
                addr: *addr,
                bytes: bytes@,
            },
            Effect::Regions => EffectV::Regions,
            Effect::Processes => EffectV::Processes,
            Effect::Attach { pid } => EffectV::Attach { pid: *pid },
            Effect::Rows => EffectV::Rows,
            Effect::Codegen { lang, label } => EffectV::Codegen {
                lang: *lang,
                label: text::opt_view(*label),
            },
            Effect::Save { path } => EffectV::Save { path: path@ },
            Effect::Load { path } => EffectV::Load { path: path@ },
        }
    }
}

/// What a request comes to: an answer, or work to be done first.
#[derive(Debug)]
pub enum Step {
    Reply(Result<Json, String>),
    Need(Effect),
}

/// What a [`Step`] says.
pub enum StepV {
    Reply(Arg<JsonV>),
    Need(EffectV),
}

impl View for Step {
    type V = StepV;

    open spec fn view(&self) -> StepV {
        match self {
            Step::Reply(r) => StepV::Reply(parsed_view(*r)),
            Step::Need(e) => StepV::Need(e@),
        }
    }
}

// ---------------------------------------------------------------------------
// What each tool does
// ---------------------------------------------------------------------------

/// `{"ok": true}`.
pub open spec fn ok_json() -> JsonV {
    JsonV::Obj(seq![("ok"@, JsonV::Bool(true))])
}

/// The answer to an edit.
pub open spec fn edit_reply(r: Result<(), AppError>) -> Arg<JsonV> {
    match r {
        Ok(_) => Ok(ok_json()),
        Err(e) => Err(error_text(e)),
    }
}

/// A state and an answer.
pub type Answer = (AppV, Arg<JsonV>);

/// An edit and its answer.
pub open spec fn answered(e: (AppV, Result<(), AppError>)) -> Answer {
    (e.0, edit_reply(e.1))
}

/// The definition of one class.
pub open spec fn get_class(s: AppV, a: JsonV) -> Answer {
    match u32_arg(a, "id"@) {
        Err(e) => (s, Err(e)),
        Ok(id) => if s.project.registry.has(id) {
            (s, Ok(class_of(s.project.registry, id)))
        } else {
            (s, Err("no such class"@))
        },
    }
}

/// The name of a class to be made: the one given, or one by its number.
pub open spec fn new_class_name(s: AppV, a: JsonV) -> Seq<char> {
    match a.str_at("name"@) {
        Some(n) => if text::trim(n).len() > 0 {
            n
        } else {
            "Class"@ + text::written(s.project.registry.classes.len() + 1, 10, false)
        },
        None => "Class"@ + text::written(s.project.registry.classes.len() + 1, 10, false),
    }
}

/// A class made and opened.
pub open spec fn create_class(s: AppV, a: JsonV) -> Answer {
    let id = s.project.registry.next_id;
    (
        s.snapped().with_registry(
            s.project.registry.with_class(new_class_name(s, a)),
        ).opened(id),
        Ok(JsonV::Obj(seq![("id"@, JsonV::num(id as nat))])),
    )
}

/// A class removed.
pub open spec fn remove_class(s: AppV, a: JsonV) -> Answer {
    match u32_arg(a, "id"@) {
        Err(e) => (s, Err(e)),
        Ok(id) => (s.without_class(id), Ok(ok_json())),
    }
}

/// A class renamed.
pub open spec fn rename_class(s: AppV, a: JsonV) -> Answer {
    match u32_arg(a, "id"@) {
        Err(e) => (s, Err(e)),
        Ok(id) => match str_arg(a, "name"@) {
            Err(e) => (s, Err(e)),
            Ok(name) => answered(
                s.edited(
                    class_set(
                        s.project.registry,
                        id,
                        ClassV { name, ..class_at(s.project.registry.classes, id) },
                    ),
                ),
            ),
        },
    }
}

/// A class's address expression set.
pub open spec fn set_address_expr(s: AppV, a: JsonV) -> Answer {
    match u32_arg(a, "id"@) {
        Err(e) => (s, Err(e)),
        Ok(id) => match str_arg(a, "expr"@) {
            Err(e) => (s, Err(e)),
            Ok(address_expr) => answered(
                s.edited(
                    class_set(
                        s.project.registry,
                        id,
                        ClassV { address_expr, ..class_at(s.project.registry.classes, id) },
                    ),
                ),
            ),
        },
    }
}

/// The kind that member `kind` names.
pub open spec fn kind_arg(a: JsonV, decoded: Arg<NodeKind>) -> Arg<NodeKind> {
    match a.get("kind"@) {
        None => Err("missing 'kind'"@),
        Some(v) => kind_of(v, decoded),
    }
}

/// A field appended: guarded against cycles, named by its offset unless a name
/// is given.
pub open spec fn add_node(s: AppV, a: JsonV, decoded: Arg<NodeKind>) -> Answer {
    let v = s.project.registry;
    match u32_arg(a, "class_id"@) {
        Err(e) => (s, Err(e)),
        Ok(cid) => match kind_arg(a, decoded) {
            Err(e) => (s, Err(e)),
            Ok(kind) => if would_cycle(v.classes, cid, kind) {
                (s, Err("would create an inline class cycle"@))
            } else if !v.has(cid) {
                (s, Err("no such class"@))
            } else {
                let node = NodeV {
                    name: match a.str_at("name"@) {
                        Some(n) => n,
                        None => field_name(capped(v.class_bytes(cid)) as nat),
                    },
                    comment: match a.str_at("comment"@) {
                        Some(c) => c,
                        None => Seq::empty(),
                    },
                    kind,
                };
                (
                    s.edited(pushed(v, cid, seq![node])).0,
                    Ok(JsonV::Obj(seq![("index"@, JsonV::num(v.nodes(cid).len()))])),
                )
            },
        },
    }
}

/// A field inserted: guarded against cycles, named by its number unless a name
/// is given.
pub open spec fn insert_node(s: AppV, a: JsonV, decoded: Arg<NodeKind>) -> Answer {
    let v = s.project.registry;
    match u32_arg(a, "class_id"@) {
        Err(e) => (s, Err(e)),
        Ok(cid) => match usize_arg(a, "index"@) {
            Err(e) => (s, Err(e)),
            Ok(index) => match kind_arg(a, decoded) {
                Err(e) => (s, Err(e)),
                Ok(kind) => if would_cycle(v.classes, cid, kind) {
                    (s, Err("would create an inline class cycle"@))
                } else {
                    let name = match a.str_at("name"@) {
                        Some(n) => n,
                        None => "field_"@ + text::written(index as nat, 10, false),
                    };
                    answered(s.edited(inserted(v, cid, index, plain_node(name, kind))))
                },
            },
        },
    }
}

/// A field deleted.
pub open spec fn remove_node(s: AppV, a: JsonV) -> Answer {
    match u32_arg(a, "class_id"@) {
        Err(e) => (s, Err(e)),
        Ok(cid) => match usize_arg(a, "index"@) {
            Err(e) => (s, Err(e)),
            Ok(index) => answered(s.edited(removed(s.project.registry, cid, index))),
        },
    }
}

/// A field given another kind.
pub open spec fn set_node_kind(s: AppV, a: JsonV, decoded: Arg<NodeKind>) -> Answer {
    match kind_arg(a, decoded) {
        Err(e) => (s, Err(e)),
        Ok(kind) => match u32_arg(a, "class_id"@) {
            Err(e) => (s, Err(e)),
            Ok(cid) => match usize_arg(a, "index"@) {
                Err(e) => (s, Err(e)),
                Ok(index) => answered(kind_changed(s, cid, index, kind)),
            },
        },
    }
}

/// A field renamed.
pub open spec fn set_node_name(s: AppV, a: JsonV) -> Answer {
    match u32_arg(a, "class_id"@) {
        Err(e) => (s, Err(e)),
        Ok(cid) => match usize_arg(a, "index"@) {
            Err(e) => (s, Err(e)),
            Ok(index) => match str_arg(a, "name"@) {
                Err(e) => (s, Err(e)),
                Ok(name) => answered(
                    s.edited(
                        node_set(
                            s.project.registry,
                            cid,
                            index,
                            NodeV { name, ..s.project.registry.nodes(cid)[index as int] },
                        ),
                    ),
                ),
            },
        },
    }
}

/// A field given another comment.
pub open spec fn set_node_comment(s: AppV, a: JsonV) -> Answer {
    match u32_arg(a, "class_id"@) {
        Err(e) => (s, Err(e)),
        Ok(cid) => match usize_arg(a, "index"@) {
            Err(e) => (s, Err(e)),
            Ok(index) => match str_arg(a, "comment"@) {
                Err(e) => (s, Err(e)),
                Ok(comment) => answered(
                    s.edited(
                        node_set(
                            s.project.registry,
                            cid,
                            index,
                            NodeV { comment, ..s.project.registry.nodes(cid)[index as int] },
                        ),
                    ),
                ),
            },
        },
    }
}

/// An array given another element count.
pub open spec fn set_array_count(s: AppV, a: JsonV) -> Answer {
    match u32_arg(a, "class_id"@) {
        Err(e) => (s, Err(e)),
        Ok(cid) => match usize_arg(a, "index"@) {
            Err(e) => (s, Err(e)),
            Ok(index) => match usize_arg(a, "count"@) {
                Err(e) => (s, Err(e)),
                Ok(count) => answered(
                    s.edited(array_counted(s.project.registry, cid, index, count)),
                ),
            },
        },
    }
}

/// A class grown.
pub open spec fn add_bytes(s: AppV, a: JsonV) -> Answer {
    let v = s.project.registry;
    match u32_arg(a, "class_id"@) {
        Err(e) => (s, Err(e)),
        Ok(cid) => match usize_arg(a, "count"@) {
            Err(e) => (s, Err(e)),
            Ok(n) => answered(
                s.edited(
                    pushed(
                        v,
                        cid,
                        crate::edits::byte_fields(capped(v.class_bytes(cid)) as nat, n as nat),
                    ),
                ),
            ),
        },
    }
}

/// What reading memory needs, or why it cannot be.
pub open spec fn read_memory(s: AppV, a: JsonV) -> StepV {
    match u64_arg(a, "address"@) {
        Err(e) => StepV::Reply(Err(e)),
        Ok(addr) => match usize_arg(a, "size"@) {
            Err(e) => StepV::Reply(Err(e)),
            Ok(n) => if s.attached {
                StepV::Need(
                    EffectV::ReadMemory {
                        addr,
                        size: if n <= MAX_READ {
                            n
                        } else {
                            MAX_READ
                        },
                    },
                )
            } else {
                StepV::Reply(Err("not attached"@))
            },
        },
    }
}

/// What writing memory needs, or why it cannot be.
pub open spec fn write_memory(s: AppV, a: JsonV) -> StepV {
    match u64_arg(a, "address"@) {
        Err(e) => StepV::Reply(Err(e)),
        Ok(addr) => match bytes_arg(a) {
            Err(e) => StepV::Reply(Err(e)),
            Ok(bytes) => if s.attached {
                StepV::Need(EffectV::WriteMemory { addr, bytes })
            } else {
                StepV::Reply(Err("not attached"@))
            },
        },
    }
}

/// What writing the classes out needs, or why it cannot be.
pub open spec fn codegen(a: JsonV) -> StepV {
    match str_arg(a, "lang"@) {
        Err(e) => StepV::Reply(Err(e)),
        Ok(label) => match language_of(label) {
            Err(e) => StepV::Reply(Err(e)),
            Ok(lang) => StepV::Need(EffectV::Codegen { lang, label: Some(label) }),
        },
    }
}

/// An answer as the outcome of a request.
pub open spec fn replied(a: Answer) -> (AppV, StepV) {
    (a.0, StepV::Reply(a.1))
}

/// What tool `t` does with arguments `a`, whose kind object, if there is one,
/// decodes to `decoded`.
pub open spec fn tool_step(s: AppV, t: Tool, a: JsonV, decoded: Arg<NodeKind>) -> (AppV, StepV) {
    match t {
        Tool::ListClasses => replied(
            (s, Ok(JsonV::Obj(seq![("classes"@, classes_of(s.project.registry))]))),
        ),
        Tool::GetClass => replied(get_class(s, a)),
        Tool::CreateClass => replied(create_class(s, a)),
        Tool::RemoveClass => replied(remove_class(s, a)),
        Tool::RenameClass => replied(rename_class(s, a)),
        Tool::SetAddressExpr => replied(set_address_expr(s, a)),
        Tool::AddNode => replied(add_node(s, a, decoded)),
        Tool::InsertNode => replied(insert_node(s, a, decoded)),
        Tool::RemoveNode => replied(remove_node(s, a)),
        Tool::SetNodeKind => replied(set_node_kind(s, a, decoded)),
        Tool::SetNodeName => replied(set_node_name(s, a)),
        Tool::SetNodeComment => replied(set_node_comment(s, a)),
        Tool::SetArrayCount => replied(set_array_count(s, a)),
        Tool::AddBytes => replied(add_bytes(s, a)),
        Tool::ReadMemory => (s, read_memory(s, a)),
        Tool::WriteMemory => (s, write_memory(s, a)),
        Tool::ListRegions => (s, StepV::Need(EffectV::Regions)),
        Tool::ListProcesses => (s, StepV::Need(EffectV::Processes)),
        Tool::AttachPid => (
            s,
            match i32_arg(a, "pid"@) {
                Err(e) => StepV::Reply(Err(e)),
                Ok(pid) => StepV::Need(EffectV::Attach { pid }),
            },
        ),
        Tool::GetRows => (s, StepV::Need(EffectV::Rows)),
        Tool::Codegen => (s, codegen(a)),
        Tool::SaveProject => (
            s,
            match str_arg(a, "path"@) {
                Err(e) => StepV::Reply(Err(e)),
                Ok(path) => StepV::Need(EffectV::Save { path }),
            },
        ),
        Tool::LoadProject => (
            s,
            match str_arg(a, "path"@) {
                Err(e) => StepV::Reply(Err(e)),
                Ok(path) => StepV::Need(EffectV::Load { path }),
            },
        ),
    }
}

/// What the tool named `name` does.
pub open spec fn named_step(s: AppV, name: Seq<char>, a: JsonV, decoded: Arg<NodeKind>) -> (
    AppV,
    StepV,
) {
    match tool_named(name) {
        Some(t) => tool_step(s, t, a, decoded),
        None => (s, StepV::Reply(Err("unknown tool: "@ + name))),
    }
}

/// Whether the offsets of the bytes to add to a class fit.
pub open spec fn bytes_fit(s: AppV, a: JsonV) -> bool {
    (u32_arg(a, "class_id"@) is Ok && usize_arg(a, "count"@) is Ok) ==> capped(
        s.project.registry.class_bytes(u32_arg(a, "class_id"@)->Ok_0),
    ) + usize_arg(a, "count"@)->Ok_0 <= usize::MAX
}

/// Whether the digits to write to memory part no character.
pub open spec fn digits_fit(a: JsonV) -> bool {
    (u64_arg(a, "address"@) is Ok && a.str_at("hex"@) is Some) ==> hex_readable(
        a.str_at("hex"@)->0,
    )
}

/// Whether what is asked can be done: a class id is left to hand out, the
/// offsets fit, and the digits part no character.
pub open spec fn answerable(s: AppV, name: Seq<char>, a: JsonV) -> bool {
    match tool_named(name) {
        Some(Tool::CreateClass) => s.project.registry.next_id < u32::MAX,
        Some(Tool::AddBytes) => bytes_fit(s, a),
        Some(Tool::WriteMemory) => digits_fit(a),
        _ => true,
    }
}

/// Whether what is asked can be done.
pub fn can_answer(state: &AppState, name: &str, a: &Json) -> (r: bool)
    requires
        state.wf(),
    ensures
        r == answerable(state@, name@, a@),
{
    match find_tool(name) {
        Some(Tool::CreateClass) => state.project.registry.next_id < u32::MAX,
        Some(Tool::AddBytes) => match (arg_u32(a, "class_id"), arg_usize(a, "count")) {
            (Ok(cid), Ok(n)) => state.project.registry.size_of(cid) <= usize::MAX - n,
            _ => true,
        },
        Some(Tool::WriteMemory) => match (arg_u64(a, "address"), a.str_at("hex")) {
            (Ok(_), Some(h)) => can_read_hex(h),
            _ => true,
        },
        _ => true,
    }
}

// ---------------------------------------------------------------------------
// The tools
// ---------------------------------------------------------------------------

/// `{"ok": true}`.
fn ok_reply() -> (r: Json)
    ensures
        r@ == ok_json(),
{
    obj1("ok", Json::Bool(true))
}

/// The answer to an edit.
fn reply_of(r: Result<(), AppError>) -> (o: Result<Json, String>)
    ensures
        parsed_view(o) == edit_reply(r),
{
    match r {
        Ok(_) => Ok(ok_reply()),
        Err(e) => Err(e.message()),
    }
}

/// The kind that member `kind` names.
fn arg_kind(a: &Json, decoded: Result<NodeKind, String>) -> (r: Result<NodeKind, String>)
    ensures
        arg_view(r) == kind_arg(a@, arg_view(decoded)),
{
    match a.get("kind") {
        None => Err("missing 'kind'".to_owned()),
        Some(v) => parse_kind(v, decoded),
    }
}

/// Refuse a kind that would make a class contain itself.
fn guard_cycle(state: &AppState, class: ClassId, kind: &NodeKind) -> (r: Result<(), String>)
    requires
        state.wf(),
    ensures
        r is Err == would_cycle(state@.project.registry.classes, class, *kind),
        r is Err ==> (r->Err_0)@ == "would create an inline class cycle"@,
{
    if state.project.registry.kind_would_cycle(class, kind) {
        Err("would create an inline class cycle".to_owned())
    } else {
        Ok(())
    }
}

/// The number of fields of a class.
fn class_len(state: &AppState, class: ClassId) -> (r: Result<usize, String>)
    requires
        state.wf(),
    ensures
        r is Ok == state@.project.registry.has(class),
        r is Ok ==> r->Ok_0 == state@.project.registry.nodes(class).len(),
        r is Err ==> (r->Err_0)@ == "no such class"@,
{
    match state.project.registry.get(class) {
        Some(c) => Ok(c.nodes.len()),
        None => Err("no such class".to_owned()),
    }
}

fn tool_get_class(state: &AppState, a: &Json) -> (r: Result<Json, String>)
    requires
        state.wf(),
    ensures
        (state@, parsed_view(r)) == get_class(state@, a@),
{
    match arg_u32(a, "id") {
        Err(e) => Err(e),
        Ok(id) => match class_json(&state.project.registry, id) {
            Some(j) => Ok(j),
            None => Err("no such class".to_owned()),
        },
    }
}

fn tool_create_class(state: &mut AppState, a: &Json) -> (r: Result<Json, String>)
    requires
        old(state).wf(),
        old(state)@.project.registry.next_id < u32::MAX,
    ensures
        final(state).wf(),
        (final(state)@, parsed_view(r)) == create_class(old(state)@, a@),
{
    let given: Option<&str> = match a.str_at("name") {
        Some(n) => if text::is_blank(n) {
            None
        } else {
            Some(n)
        },
        None => None,
    };
    let id: ClassId = match given {
        Some(n) => state.add_class(n),
        None => {
            let n: usize = state.project.registry.len();
            proof {
                let v = state@.project.registry;
                crate::registry::lemma_class_count(v.classes, v.next_id);
            }
            let name = text::join2("Class", text::dec(n as u64 + 1).as_str());
            state.add_class(name.as_str())
        },
    };
    Ok(obj1("id", Json::num(id as u64)))
}

fn tool_remove_class(state: &mut AppState, a: &Json) -> (r: Result<Json, String>)
    requires
        old(state).wf(),
    ensures
        final(state).wf(),
        (final(state)@, parsed_view(r)) == remove_class(old(state)@, a@),
{
    match arg_u32(a, "id") {
        Err(e) => Err(e),
        Ok(id) => {
            state.remove_class(id);
            Ok(ok_reply())
        },
    }
}

fn tool_rename_class(state: &mut AppState, a: &Json) -> (r: Result<Json, String>)
    requires
        old(state).wf(),
    ensures
        final(state).wf(),
        (final(state)@, parsed_view(r)) == rename_class(old(state)@, a@),
{
    match arg_u32(a, "id") {
        Err(e) => Err(e),
        Ok(id) => match arg_str(a, "name") {
            Err(e) => Err(e),
            Ok(name) => reply_of(state.rename_class(id, name)),
        },
    }
}

fn tool_set_address_expr(state: &mut AppState, a: &Json) -> (r: Result<Json, String>)
    requires
        old(state).wf(),
    ensures
        final(state).wf(),
        (final(state)@, parsed_view(r)) == set_address_expr(old(state)@, a@),
{
    match arg_u32(a, "id") {
        Err(e) => Err(e),
        Ok(id) => match arg_str(a, "expr") {
            Err(e) => Err(e),
            Ok(expr) => reply_of(state.set_address_expr(id, expr)),
        },
    }
}

fn tool_add_node(state: &mut AppState, a: &Json, decoded: Result<NodeKind, String>) -> (r: Result<
    Json,
    String,
>)
    requires
        old(state).wf(),
    ensures
        final(state).wf(),
        (final(state)@, parsed_view(r)) == add_node(old(state)@, a@, arg_view(decoded)),
{
    let cid: ClassId = match arg_u32(a, "class_id") {
        Err(e) => {
            return Err(e);
        },
        Ok(c) => c,
    };
    let kind = match arg_kind(a, decoded) {
        Err(e) => {
            return Err(e);
        },
        Ok(k) => k,
    };
    match guard_cycle(state, cid, &kind) {
        Err(e) => {
            return Err(e);
        },
        Ok(_) => {},
    }
    let idx: usize = match class_len(state, cid) {
        Err(e) => {
            return Err(e);
        },
        Ok(n) => n,
    };
    let off: usize = state.project.registry.size_of(cid);
    let name = match a.str_at("name") {
        Some(n) => n.to_owned(),
        None => name_field(off as u64),
    };
    let comment = match a.str_at("comment") {
        Some(c) => c.to_owned(),
        None => String::new(),
    };
    proof {
        assert(a@.str_at("comment"@) is None ==> comment@ =~= Seq::<char>::empty());
    }
    let node = Node { name, comment, kind };
    match state.push_node(cid, node) {
        Ok(_) => Ok(obj1("index", Json::num(idx as u64))),
        Err(e) => Err(e.message()),
    }
}

fn tool_insert_node(
    state: &mut AppState,
    a: &Json,
    decoded: Result<NodeKind, String>,
) -> (r: Result<Json, String>)
    requires
        old(state).wf(),
    ensures
        final(state).wf(),
        (final(state)@, parsed_view(r)) == insert_node(old(state)@, a@, arg_view(decoded)),
{
    let cid: ClassId = match arg_u32(a, "class_id") {
        Err(e) => {
            return Err(e);
        },
        Ok(c) => c,
    };
    let index: usize = match arg_usize(a, "index") {
        Err(e) => {
            return Err(e);
        },
        Ok(i) => i,
    };
    let kind = match arg_kind(a, decoded) {
        Err(e) => {
            return Err(e);
        },
        Ok(k) => k,
    };
    match guard_cycle(state, cid, &kind) {
        Err(e) => {
            return Err(e);
        },
        Ok(_) => {},
    }
    let name = match a.str_at("name") {
        Some(n) => n.to_owned(),
        None => text::join2("field_", text::dec(index as u64).as_str()),
    };
    let node = Node::new(name.as_str(), kind);
    state.snapshot();
    reply_of(crate::app_state::lift(state.project.registry.insert_node(cid, index, node)))
}

fn tool_remove_node(state: &mut AppState, a: &Json) -> (r: Result<Json, String>)
    requires
        old(state).wf(),
    ensures
        final(state).wf(),
        (final(state)@, parsed_view(r)) == remove_node(old(state)@, a@),
{
    match arg_u32(a, "class_id") {
        Err(e) => Err(e),
        Ok(cid) => match arg_usize(a, "index") {
            Err(e) => Err(e),
            Ok(index) => reply_of(state.delete_node(cid, index)),
        },
    }
}

fn tool_set_node_kind(
    state: &mut AppState,
    a: &Json,
    decoded: Result<NodeKind, String>,
) -> (r: Result<Json, String>)
    requires
        old(state).wf(),
    ensures
        final(state).wf(),
        (final(state)@, parsed_view(r)) == set_node_kind(old(state)@, a@, arg_view(decoded)),
{
    match arg_kind(a, decoded) {
        Err(e) => Err(e),
        Ok(kind) => match arg_u32(a, "class_id") {
            Err(e) => Err(e),
            Ok(cid) => match arg_usize(a, "index") {
                Err(e) => Err(e),
                Ok(index) => reply_of(state.change_kind(cid, index, kind)),
            },
        },
    }
}

fn tool_set_node_name(state: &mut AppState, a: &Json) -> (r: Result<Json, String>)
    requires
        old(state).wf(),
    ensures
        final(state).wf(),
        (final(state)@, parsed_view(r)) == set_node_name(old(state)@, a@),
{
    match arg_u32(a, "class_id") {
        Err(e) => Err(e),
        Ok(cid) => match arg_usize(a, "index") {
            Err(e) => Err(e),
            Ok(index) => match arg_str(a, "name") {
                Err(e) => Err(e),
                Ok(name) => reply_of(state.rename_node(cid, index, name)),
            },
        },
    }
}

fn tool_set_node_comment(state: &mut AppState, a: &Json) -> (r: Result<Json, String>)
    requires
        old(state).wf(),
    ensures
        final(state).wf(),
        (final(state)@, parsed_view(r)) == set_node_comment(old(state)@, a@),
{
    match arg_u32(a, "class_id") {
        Err(e) => Err(e),
        Ok(cid) => match arg_usize(a, "index") {
            Err(e) => Err(e),
            Ok(index) => match arg_str(a, "comment") {
                Err(e) => Err(e),
                Ok(comment) => reply_of(state.set_comment(cid, index, comment)),
            },
        },
    }
}

fn tool_set_array_count(state: &mut AppState, a: &Json) -> (r: Result<Json, String>)
    requires
        old(state).wf(),
    ensures
        final(state).wf(),
        (final(state)@, parsed_view(r)) == set_array_count(old(state)@, a@),
{
    match arg_u32(a, "class_id") {
        Err(e) => Err(e),
        Ok(cid) => match arg_usize(a, "index") {
            Err(e) => Err(e),
            Ok(index) => match arg_usize(a, "count") {
                Err(e) => Err(e),
                Ok(count) => reply_of(state.set_array_count(cid, index, count)),
            },
        },
    }
}

fn tool_add_bytes(state: &mut AppState, a: &Json) -> (r: Result<Json, String>)
    requires
        old(state).wf(),
        bytes_fit(old(state)@, a@),
    ensures
        final(state).wf(),
        (final(state)@, parsed_view(r)) == add_bytes(old(state)@, a@),
{
    match arg_u32(a, "class_id") {
        Err(e) => Err(e),
        Ok(cid) => match arg_usize(a, "count") {
            Err(e) => Err(e),
            Ok(n) => reply_of(state.add_bytes(cid, n)),
        },
    }
}

fn tool_read_memory(state: &AppState, a: &Json) -> (r: Step)
    ensures
        r@ == read_memory(state@, a@),
{
    match arg_u64(a, "address") {
        Err(e) => Step::Reply(Err(e)),
        Ok(addr) => match arg_usize(a, "size") {
            Err(e) => Step::Reply(Err(e)),
            Ok(n) => if state.attached {
                Step::Need(
                    Effect::ReadMemory {
                        addr,
                        size: if n <= MAX_READ {
                            n
                        } else {
                            MAX_READ
                        },
                    },
                )
            } else {
                Step::Reply(Err("not attached".to_owned()))
            },
        },
    }
}

fn tool_write_memory(state: &AppState, a: &Json) -> (r: Step)
    requires
        digits_fit(a@),
    ensures
        r@ == write_memory(state@, a@),
{
    match arg_u64(a, "address") {
        Err(e) => Step::Reply(Err(e)),
        Ok(addr) => match write_bytes(a) {
            Err(e) => Step::Reply(Err(e)),
            Ok(bytes) => if state.attached {
                Step::Need(Effect::WriteMemory { addr, bytes })
            } else {
                Step::Reply(Err("not attached".to_owned()))
            },
        },
    }
}

fn tool_codegen(a: &Json) -> (r: Step)
    ensures
        r@ == codegen(a@),
{
    match arg_str(a, "lang") {
        Err(e) => Step::Reply(Err(e)),
        Ok(label) => match parse_lang(label.as_str()) {
            Err(e) => Step::Reply(Err(e)),
            Ok(lang) => Step::Need(Effect::Codegen { lang, label: Some(label) }),
        },
    }
}

/// Run a tool. `decoded` is the outcome of decoding member `kind` where that is
/// an object; it counts for nothing otherwise.
pub fn tool(
    state: &mut AppState,
    name: &str,
    a: &Json,
    decoded: Result<NodeKind, String>,
) -> (r: Step)
    requires
        old(state).wf(),
        answerable(old(state)@, name@, a@),
    ensures
        final(state).wf(),
        (final(state)@, r@) == named_step(old(state)@, name@, a@, arg_view(decoded)),
{
    let t: Tool = match find_tool(name) {
        Some(t) => t,
        None => {
            return Step::Reply(Err(text::join2("unknown tool: ", name)));
        },
    };
    match t {
        Tool::ListClasses => Step::Reply(
            Ok(obj1("classes", classes_json(&state.project.registry))),
        ),
        Tool::GetClass => Step::Reply(tool_get_class(state, a)),
        Tool::CreateClass => Step::Reply(tool_create_class(state, a)),
        Tool::RemoveClass => Step::Reply(tool_remove_class(state, a)),
        Tool::RenameClass => Step::Reply(tool_rename_class(state, a)),
        Tool::SetAddressExpr => Step::Reply(tool_set_address_expr(state, a)),
        Tool::AddNode => Step::Reply(tool_add_node(state, a, decoded)),
        Tool::InsertNode => Step::Reply(tool_insert_node(state, a, decoded)),
        Tool::RemoveNode => Step::Reply(tool_remove_node(state, a)),
        Tool::SetNodeKind => Step::Reply(tool_set_node_kind(state, a, decoded)),
        Tool::SetNodeName => Step::Reply(tool_set_node_name(state, a)),
        Tool::SetNodeComment => Step::Reply(tool_set_node_comment(state, a)),
        Tool::SetArrayCount => Step::Reply(tool_set_array_count(state, a)),
        Tool::AddBytes => Step::Reply(tool_add_bytes(state, a)),
        Tool::ReadMemory => tool_read_memory(state, a),
        Tool::WriteMemory => tool_write_memory(state, a),
        Tool::ListRegions => Step::Need(Effect::Regions),
        Tool::ListProcesses => Step::Need(Effect::Processes),
        Tool::AttachPid => match arg_i32(a, "pid") {
            Err(e) => Step::Reply(Err(e)),
            Ok(pid) => Step::Need(Effect::Attach { pid }),
        },
        Tool::GetRows => Step::Need(Effect::Rows),
        Tool::Codegen => tool_codegen(a),
        Tool::SaveProject => match arg_str(a, "path") {
            Err(e) => Step::Reply(Err(e)),
            Ok(path) => Step::Need(Effect::Save { path }),
        },
        Tool::LoadProject => match arg_str(a, "path") {
            Err(e) => Step::Reply(Err(e)),
            Ok(path) => Step::Need(Effect::Load { path }),
        },
    }
}

/// What reading a resource comes to.
pub open spec fn resource_step(s: AppV, uri: Seq<char>) -> StepV {
    if uri == "reclass://classes"@ {
        StepV::Reply(Ok(JsonV::Obj(seq![("classes"@, classes_of(s.project.registry))])))
    } else if uri == "reclass://regions"@ {
        StepV::Need(EffectV::Regions)
    } else if uri == "reclass://rows"@ {
        StepV::Need(EffectV::Rows)
    } else if uri == "reclass://codegen/rust"@ {
        StepV::Need(EffectV::Codegen { lang: Language::Rust, label: None })
    } else if uri == "reclass://codegen/cpp"@ {
        StepV::Need(EffectV::Codegen { lang: Language::Cpp, label: None })
    } else {
        StepV::Reply(Err("unknown resource: "@ + uri))
    }
}

/// Read a resource.
pub fn resource(state: &AppState, uri: &str) -> (r: Step)
    requires
        state.wf(),
    ensures
        r@ == resource_step(state@, uri@),
{
    if text::str_eq(uri, "reclass://classes") {
        Step::Reply(Ok(obj1("classes", classes_json(&state.project.registry))))
    } else if text::str_eq(uri, "reclass://regions") {
        Step::Need(Effect::Regions)
    } else if text::str_eq(uri, "reclass://rows") {
        Step::Need(Effect::Rows)
    } else if text::str_eq(uri, "reclass://codegen/rust") {
        Step::Need(Effect::Codegen { lang: Language::Rust, label: None })
    } else if text::str_eq(uri, "reclass://codegen/cpp") {
        Step::Need(Effect::Codegen { lang: Language::Cpp, label: None })
    } else {
        Step::Reply(Err(text::join2("unknown resource: ", uri)))
    }
}

/// Execute a request against the state.
pub fn dispatch(state: &mut AppState, op: &Op, decoded: Result<NodeKind, String>) -> (r: Step)
    requires
        old(state).wf(),
        op matches Op::Tool { name, args } ==> answerable(old(state)@, name@, args@),
    ensures
        final(state).wf(),
        (final(state)@, r@) == match op {
            Op::Tool { name, args } => named_step(
                old(state)@,
                name@,
                args@,
                arg_view(decoded),
            ),
            Op::Resource { uri } => (old(state)@, resource_step(old(state)@, uri@)),
        },
{
    match op {
        Op::Tool { name, args } => tool(state, name.as_str(), args, decoded),
        Op::Resource { uri } => resource(state, uri.as_str()),
    }
}

// ---------------------------------------------------------------------------
// Answers once the work is done
// ---------------------------------------------------------------------------

/// The answer to a memory read: where, how much, and the bytes as digits.
pub open spec fn read_answer(addr: u64, size: usize, outcome: Arg<Seq<u8>>) -> Arg<JsonV> {
    match outcome {
        Ok(bytes) => Ok(
            JsonV::Obj(
                seq![
                    ("address"@, JsonV::num(addr as nat)),
                    ("size"@, JsonV::num(size as nat)),
                    ("hex"@, JsonV::Str(hex_text(bytes))),
                ],
            ),
        ),
        Err(e) => Err(e),
    }
}

/// The answer to a memory write: how much was written.
pub open spec fn write_answer(len: usize, outcome: Arg<()>) -> Arg<JsonV> {
    match outcome {
        Ok(_) => Ok(JsonV::Obj(seq![("written"@, JsonV::num(len as nat))])),
        Err(e) => Err(e),
    }
}

/// The state with the target's regions as just read; none where no target is
/// attached or they could not be read.
pub open spec fn regions_taken(s: AppV, regions: Option<Vec<Region>>) -> AppV {
    AppV {
        regions: match regions {
            Some(r) => if s.attached {
                regions_view(r@)
            } else {
                Seq::empty()
            },
            None => Seq::empty(),
        },
        ..s
    }
}

/// The state attached to process `pid`.
pub open spec fn agent_attached(
    s: AppV,
    pid: i32,
    regions: Option<Vec<Region>>,
    name: Option<Seq<char>>,
) -> AppV {
    AppV {
        attached: true,
        regions: match regions {
            Some(r) => regions_view(r@),
            None => Seq::empty(),
        },
        project: ProjectV { attach_name: name, ..s.project },
        status: "attached to pid "@ + text::written_signed(pid as int) + " (via MCP)"@,
        ..s
    }
}

/// The answer to attaching.
pub open spec fn attach_answer(pid: i32, name: Option<Seq<char>>) -> JsonV {
    JsonV::Obj(
        seq![("pid"@, JsonV::whole(pid as int)), ("name"@, JsonV::text_or_null(name))],
    )
}

/// The answer with the classes written out.
pub open spec fn codegen_answer(label: Option<Seq<char>>, source: Seq<char>) -> JsonV {
    match label {
        Some(l) => JsonV::Obj(seq![("lang"@, JsonV::Str(l)), ("source"@, JsonV::Str(source))]),
        None => JsonV::Obj(seq![("source"@, JsonV::Str(source))]),
    }
}

/// The answer to a memory read.
pub fn after_read(addr: u64, size: usize, outcome: Result<Vec<u8>, String>) -> (r: Result<
    Json,
    String,
>)
    ensures
        parsed_view(r) == read_answer(addr, size, bytes_view(outcome)),
{
    match outcome {
        Ok(bytes) => Ok(
            obj3(
                "address",
                Json::num(addr),
                "size",
                Json::num(size as u64),
                "hex",
                Json::text(hex_encode(&bytes).as_str()),
            ),
        ),
        Err(e) => Err(e),
    }
}

/// The answer to a memory write of `len` bytes.
pub fn after_write(len: usize, outcome: Result<(), String>) -> (r: Result<Json, String>)
    ensures
        parsed_view(r) == write_answer(len, arg_view(outcome)),
{
    match outcome {
        Ok(_) => Ok(obj1("written", Json::num(len as u64))),
        Err(e) => Err(e),
    }
}

/// Take the regions just read, and answer with them.
pub fn after_regions(state: &mut AppState, regions: Option<Vec<Region>>) -> (r: Json)
    requires
        old(state).wf(),
    ensures
        final(state).wf(),
        final(state)@ == regions_taken(old(state)@, regions),
        r@ == JsonV::Obj(seq![("regions"@, regions_of(final(state)@.regions))]),
{
    state.refresh_regions(regions);
    obj1("regions", regions_json(&state.regions))
}

/// Answer with the processes.
pub fn after_processes(procs: &Vec<ProcInfo>) -> (r: Json)
    ensures
        r@ == JsonV::Obj(seq![("processes"@, processes_of(procs_view(procs@)))]),
{
    obj1("processes", processes_json(procs))
}

/// Take the outcome of attaching to `pid`: the target's regions if they could
/// be read, and its name if it has one.
pub fn after_attach(
    state: &mut AppState,
    pid: i32,
    outcome: Result<(Option<Vec<Region>>, Option<String>), String>,
) -> (r: Result<Json, String>)
    requires
        old(state).wf(),
    ensures
        final(state).wf(),
        match outcome {
            Err(e) => final(state)@ == old(state)@ && parsed_view(r) == Err::<JsonV, Seq<char>>(e@),
            Ok(x) => {
                let name = text::opt_view(x.1);
                &&& final(state)@ == agent_attached(old(state)@, pid, x.0, name)
                &&& parsed_view(r) == Ok::<JsonV, Seq<char>>(attach_answer(pid, name))
            },
        },
{
    match outcome {
        Err(e) => Err(e),
        Ok((regions, name)) => {
            state.set_backend(regions);
            state.project.attach_name = name;
            state.status = text::join3(
                "attached to pid ",
                text::dec_signed(pid as i64).as_str(),
                " (via MCP)",
            );
            Ok(
                obj2(
                    "pid",
                    Json::whole(pid as i64),
                    "name",
                    Json::text_or_null(&state.project.attach_name),
                ),
            )
        },
    }
}

/// Answer with the rendered rows.
pub fn after_rows(rows: &Vec<Row>) -> (r: Json)
    ensures
        r@ == JsonV::Obj(seq![("rows"@, rows_of(rows_view(rows@)))]),
{
    obj1("rows", rows_json(rows))
}

/// Answer with the classes written out.
pub fn after_codegen(label: Option<String>, source: &str) -> (r: Json)
    ensures
        r@ == codegen_answer(text::opt_view(label), source@),
{
    match label {
        Some(l) => obj2("lang", Json::text(l.as_str()), "source", Json::text(source)),
        None => obj1("source", Json::text(source)),
    }
}

/// The answer to a save.
pub fn after_save(outcome: Result<(), String>) -> (r: Result<Json, String>)
    ensures
        parsed_view(r) == match outcome {
            Ok(_) => Ok(ok_json()),
            Err(e) => Err(e@),
        },
{
    match outcome {
        Ok(_) => Ok(ok_reply()),
        Err(e) => Err(e),
    }
}

/// Take a loaded project, or why there is none.
pub fn after_load(state: &mut AppState, outcome: Result<Project, String>) -> (r: Result<
    Json,
    String,
>)
    requires
        old(state).wf(),
        outcome matches Ok(p) ==> p@.registry.wf(),
    ensures
        final(state).wf(),
        match outcome {
            Ok(p) => final(state)@ == old(state)@.loaded(p@) && parsed_view(r) == Ok::<
                JsonV,
                Seq<char>,
            >(ok_json()),
            Err(e) => final(state)@ == old(state)@ && parsed_view(r) == Err::<JsonV, Seq<char>>(e@),
        },
{
    match outcome {
        Ok(p) => {
            state.load(p);
            Ok(ok_reply())
        },
        Err(e) => Err(e),
    }
}

// ---------------------------------------------------------------------------
// Laws
// ---------------------------------------------------------------------------

/// A tool that does not edit the classes leaves the state as it is; what it
/// needs done comes later, if at all.
pub proof fn law_reading_tools_change_nothing(
    s: AppV,
    t: Tool,
    a: JsonV,
    decoded: Arg<NodeKind>,
)
    requires
        t is ListClasses || t is GetClass || t is ReadMemory || t is WriteMemory || t is ListRegions
            || t is ListProcesses || t is AttachPid || t is GetRows || t is Codegen
            || t is SaveProject || t is LoadProject,
    ensures
        tool_step(s, t, a, decoded).0 == s,
{
}

/// Every edit that the agent makes can be undone: whenever a tool changed the
/// state, undo brings the project back.
pub proof fn law_agent_edits_can_be_undone(s: AppV, t: Tool, a: JsonV, decoded: Arg<NodeKind>)
    requires
        tool_step(s, t, a, decoded).0 != s,
    ensures
        tool_step(s, t, a, decoded).0.undone().project == s.project,
{
    let after = tool_step(s, t, a, decoded).0;
    assert(after.history == s.snapped().history);
    crate::timeline::law_undo_reverses_edit(s, after);
}

/// An unknown tool changes nothing and says so.
pub proof fn law_unknown_tool(s: AppV, name: Seq<char>, a: JsonV, decoded: Arg<NodeKind>)
    requires
        tool_named(name) is None,
    ensures
        named_step(s, name, a, decoded) == (s, StepV::Reply(Err("unknown tool: "@ + name))),
{
}

} // verus!
