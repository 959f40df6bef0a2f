//! The tools and resources that the remote agent can use: their names, what
//! they are for, and the arguments that they take.

use crate::json::{obj1, obj3, Json, JsonV, Members};
use crate::text;
use vstd::prelude::*;

verus! {

/// What a remote agent can ask for.
#[derive(Clone, Copy, Debug, PartialEq, Eq, Structural)]
pub enum Tool {
    ListClasses,
    GetClass,
    CreateClass,
    RemoveClass,
    RenameClass,
    SetAddressExpr,
    AddNode,
    InsertNode,
    RemoveNode,
    SetNodeKind,
    SetNodeName,
    SetNodeComment,
    SetArrayCount,
    AddBytes,
    ReadMemory,
    WriteMemory,
    ListRegions,
    ListProcesses,
    AttachPid,
    GetRows,
    Codegen,
    SaveProject,
    LoadProject,
}

/// Kind-argument documentation shared by every tool that takes one.
pub const KIND_DOC: &'static str =
    "Field type. Shorthand string: u8/u16/u32/u64, i8/i16/i32/i64, f32, f64, bool, ptr, fnptr, hex8/hex16/hex32/hex64 (hex=hex64), vec2/vec3/vec4. Or a full NodeKind JSON object for complex types, e.g. {\"Array\":{\"element\":{\"Hex\":\"W64\"},\"count\":8}}, {\"ClassPtr\":{\"class_id\":3}}, {\"ClassInstance\":{\"class_id\":3}}, {\"Text\":{\"encoding\":\"Utf8\",\"len\":32}}, {\"Padding\":16}.";

/// Every tool, in the order in which they are advertised.
pub open spec fn all_tools() -> Seq<Tool> {
    seq![
        Tool::ListClasses,
        Tool::GetClass,
        Tool::CreateClass,
        Tool::RemoveClass,
        Tool::RenameClass,
        Tool::SetAddressExpr,
        Tool::AddNode,
        Tool::InsertNode,
        Tool::RemoveNode,
        Tool::SetNodeKind,
        Tool::SetNodeName,
        Tool::SetNodeComment,
        Tool::SetArrayCount,
        Tool::AddBytes,
        Tool::ReadMemory,
        Tool::WriteMemory,
        Tool::ListRegions,
        Tool::ListProcesses,
        Tool::AttachPid,
        Tool::GetRows,
        Tool::Codegen,
        Tool::SaveProject,
        Tool::LoadProject,
    ]
}

/// Every tool, in the order in which they are advertised.
pub fn tools() -> (r: Vec<Tool>)
    ensures
        r@ == all_tools(),
{
    let mut v: Vec<Tool> = Vec::new();
    v.push(Tool::ListClasses);
    v.push(Tool::GetClass);
    v.push(Tool::CreateClass);
    v.push(Tool::RemoveClass);
    v.push(Tool::RenameClass);
    v.push(Tool::SetAddressExpr);
    v.push(Tool::AddNode);
    v.push(Tool::InsertNode);
    v.push(Tool::RemoveNode);
    v.push(Tool::SetNodeKind);
    v.push(Tool::SetNodeName);
    v.push(Tool::SetNodeComment);
    v.push(Tool::SetArrayCount);
    v.push(Tool::AddBytes);
    v.push(Tool::ReadMemory);
    v.push(Tool::WriteMemory);
    v.push(Tool::ListRegions);
    v.push(Tool::ListProcesses);
    v.push(Tool::AttachPid);
    v.push(Tool::GetRows);
    v.push(Tool::Codegen);
    v.push(Tool::SaveProject);
    v.push(Tool::LoadProject);
    proof {
        assert(v@ =~= all_tools());
    }
    v
}

/// The name of a tool.
pub open spec fn tool_name(t: Tool) -> Seq<char> {
    match t {
        Tool::ListClasses => "list_classes"@,
        Tool::GetClass => "get_class"@,
        Tool::CreateClass => "create_class"@,
        Tool::RemoveClass => "remove_class"@,
        Tool::RenameClass => "rename_class"@,
        Tool::SetAddressExpr => "set_address_expr"@,
        Tool::AddNode => "add_node"@,
        Tool::InsertNode => "insert_node"@,
        Tool::RemoveNode => "remove_node"@,
        Tool::SetNodeKind => "set_node_kind"@,
        Tool::SetNodeName => "set_node_name"@,
        Tool::SetNodeComment => "set_node_comment"@,
        Tool::SetArrayCount => "set_array_count"@,
        Tool::AddBytes => "add_bytes"@,
        Tool::ReadMemory => "read_memory"@,
        Tool::WriteMemory => "write_memory"@,
        Tool::ListRegions => "list_regions"@,
        Tool::ListProcesses => "list_processes"@,
        Tool::AttachPid => "attach_pid"@,
        Tool::GetRows => "get_rows"@,
        Tool::Codegen => "codegen"@,
        Tool::SaveProject => "save_project"@,
        Tool::LoadProject => "load_project"@,
    }
}

/// What a tool is for.
pub open spec fn tool_doc(t: Tool) -> Seq<char> {
    match t {
        Tool::ListClasses => "List every class: id, name, byte size, field count."@,
        Tool::GetClass => "Full definition of one class: fields with index, name, kind, offset, comment."@,
        Tool::CreateClass => "Create a new empty class and open it in a view. Returns its id."@,
        Tool::RemoveClass => "Delete a class by id."@,
        Tool::RenameClass => "Rename a class."@,
        Tool::SetAddressExpr => "Set a class's address-bar expression (e.g. \"game.exe+0x1234\")."@,
        Tool::AddNode => "Append a field to a class. "@ + KIND_DOC@,
        Tool::InsertNode => "Insert a field at `index` (shifts later fields). "@ + KIND_DOC@,
        Tool::RemoveNode => "Delete field `index` from a class."@,
        Tool::SetNodeKind => "Change field `index`'s type. "@ + KIND_DOC@,
        Tool::SetNodeName => "Rename field `index`."@,
        Tool::SetNodeComment => "Set field `index`'s comment."@,
        Tool::SetArrayCount => "Set the element count of an Array field."@,
        Tool::AddBytes => "Append `count` bytes of fields (hex64 rows + hex8 remainder) to grow a class in bulk."@,
        Tool::ReadMemory => "Read raw bytes from the attached target. Returns lowercase hex. `address` may be a number or 0x-string."@,
        Tool::WriteMemory => "Write raw bytes to the attached target. Provide `hex` (string) or `bytes` (array of u8)."@,
        Tool::ListRegions => "List mapped memory regions of the attached target (start, end, perms, path)."@,
        Tool::ListProcesses => "List processes visible for attaching (pid, name)."@,
        Tool::AttachPid => "Attach reclass to a process by pid."@,
        Tool::GetRows => "Snapshot of the currently rendered rows across all views, with live values."@,
        Tool::Codegen => "Generate source for every class. `lang` is one of: rust, c, cpp."@,
        Tool::SaveProject => "Save the project to a .ron file."@,
        Tool::LoadProject => "Load a project from a .ron file (replaces current state)."@,
    }
}

/// The arguments of a tool, each with its JSON type; an empty one takes any.
pub open spec fn tool_props(t: Tool) -> Seq<(Seq<char>, Seq<char>)> {
    match t {
        Tool::ListClasses => Seq::empty(),
        Tool::GetClass => seq![("id"@, "integer"@)],
        Tool::CreateClass => seq![("name"@, "string"@)],
        Tool::RemoveClass => seq![("id"@, "integer"@)],
        Tool::RenameClass => seq![("id"@, "integer"@), ("name"@, "string"@)],
        Tool::SetAddressExpr => seq![("id"@, "integer"@), ("expr"@, "string"@)],
        Tool::AddNode => seq![("class_id"@, "integer"@), ("kind"@, ""@), ("name"@, "string"@), ("comment"@, "string"@)],
        Tool::InsertNode => seq![("class_id"@, "integer"@), ("index"@, "integer"@), ("kind"@, ""@), ("name"@, "string"@)],
        Tool::RemoveNode => seq![("class_id"@, "integer"@), ("index"@, "integer"@)],
        Tool::SetNodeKind => seq![("class_id"@, "integer"@), ("index"@, "integer"@), ("kind"@, ""@)],
        Tool::SetNodeName => seq![("class_id"@, "integer"@), ("index"@, "integer"@), ("name"@, "string"@)],
        Tool::SetNodeComment => seq![("class_id"@, "integer"@), ("index"@, "integer"@), ("comment"@, "string"@)],
        Tool::SetArrayCount => seq![("class_id"@, "integer"@), ("index"@, "integer"@), ("count"@, "integer"@)],
        Tool::AddBytes => seq![("class_id"@, "integer"@), ("count"@, "integer"@)],
        Tool::ReadMemory => seq![("address"@, ""@), ("size"@, "integer"@)],
        Tool::WriteMemory => seq![("address"@, ""@), ("hex"@, "string"@), ("bytes"@, "array"@)],
        Tool::ListRegions => Seq::empty(),
        Tool::ListProcesses => Seq::empty(),
        Tool::AttachPid => seq![("pid"@, "integer"@)],
        Tool::GetRows => Seq::empty(),
        Tool::Codegen => seq![("lang"@, "string"@)],
        Tool::SaveProject => seq![("path"@, "string"@)],
        Tool::LoadProject => seq![("path"@, "string"@)],
    }
}

/// The arguments that a tool cannot do without.
pub open spec fn tool_required(t: Tool) -> Seq<Seq<char>> {
    match t {
        Tool::ListClasses => Seq::empty(),
        Tool::GetClass => seq!["id"@],
        Tool::CreateClass => Seq::empty(),
        Tool::RemoveClass => seq!["id"@],
        Tool::RenameClass => seq!["id"@, "name"@],
        Tool::SetAddressExpr => seq!["id"@, "expr"@],
        Tool::AddNode => seq!["class_id"@, "kind"@],
        Tool::InsertNode => seq!["class_id"@, "index"@, "kind"@],
        Tool::RemoveNode => seq!["class_id"@, "index"@],
        Tool::SetNodeKind => seq!["class_id"@, "index"@, "kind"@],
        Tool::SetNodeName => seq!["class_id"@, "index"@, "name"@],
        Tool::SetNodeComment => seq!["class_id"@, "index"@, "comment"@],
        Tool::SetArrayCount => seq!["class_id"@, "index"@, "count"@],
        Tool::AddBytes => seq!["class_id"@, "count"@],
        Tool::ReadMemory => seq!["address"@, "size"@],
        Tool::WriteMemory => seq!["address"@],
        Tool::ListRegions => Seq::empty(),
        Tool::ListProcesses => Seq::empty(),
        Tool::AttachPid => seq!["pid"@],
        Tool::GetRows => Seq::empty(),
        Tool::Codegen => seq!["lang"@],
        Tool::SaveProject => seq!["path"@],
        Tool::LoadProject => seq!["path"@],
    }
}

/// The tool of a name.
pub open spec fn tool_named(name: Seq<char>) -> Option<Tool> {
    if name == "list_classes"@ {
        Some(Tool::ListClasses)
    } else if name == "get_class"@ {
        Some(Tool::GetClass)
    } else if name == "create_class"@ {
        Some(Tool::CreateClass)
    } else if name == "remove_class"@ {
        Some(Tool::RemoveClass)
    } else if name == "rename_class"@ {
        Some(Tool::RenameClass)
    } else if name == "set_address_expr"@ {
        Some(Tool::SetAddressExpr)
    } else if name == "add_node"@ {
        Some(Tool::AddNode)
    } else if name == "insert_node"@ {
        Some(Tool::InsertNode)
    } else if name == "remove_node"@ {
        Some(Tool::RemoveNode)
    } else if name == "set_node_kind"@ {
        Some(Tool::SetNodeKind)
    } else if name == "set_node_name"@ {
        Some(Tool::SetNodeName)
    } else if name == "set_node_comment"@ {
        Some(Tool::SetNodeComment)
    } else if name == "set_array_count"@ {
        Some(Tool::SetArrayCount)
    } else if name == "add_bytes"@ {
        Some(Tool::AddBytes)
    } else if name == "read_memory"@ {
        Some(Tool::ReadMemory)
    } else if name == "write_memory"@ {
        Some(Tool::WriteMemory)
    } else if name == "list_regions"@ {
        Some(Tool::ListRegions)
    } else if name == "list_processes"@ {
        Some(Tool::ListProcesses)
    } else if name == "attach_pid"@ {
        Some(Tool::AttachPid)
    } else if name == "get_rows"@ {
        Some(Tool::GetRows)
    } else if name == "codegen"@ {
        Some(Tool::Codegen)
    } else if name == "save_project"@ {
        Some(Tool::SaveProject)
    } else if name == "load_project"@ {
        Some(Tool::LoadProject)
    } else {
        None
    }
}

/// The tool of a name.
pub fn find_tool(name: &str) -> (r: Option<Tool>)
    ensures
        r == tool_named(name@),
{
    if text::str_eq(name, "list_classes") {
        Some(Tool::ListClasses)
    } else if text::str_eq(name, "get_class") {
        Some(Tool::GetClass)
    } else if text::str_eq(name, "create_class") {
        Some(Tool::CreateClass)
    } else if text::str_eq(name, "remove_class") {
        Some(Tool::RemoveClass)
    } else if text::str_eq(name, "rename_class") {
        Some(Tool::RenameClass)
    } else if text::str_eq(name, "set_address_expr") {
        Some(Tool::SetAddressExpr)
    } else if text::str_eq(name, "add_node") {
        Some(Tool::AddNode)
    } else if text::str_eq(name, "insert_node") {
        Some(Tool::InsertNode)
    } else if text::str_eq(name, "remove_node") {
        Some(Tool::RemoveNode)
    } else if text::str_eq(name, "set_node_kind") {
        Some(Tool::SetNodeKind)
    } else if text::str_eq(name, "set_node_name") {
        Some(Tool::SetNodeName)
    } else if text::str_eq(name, "set_node_comment") {
        Some(Tool::SetNodeComment)
    } else if text::str_eq(name, "set_array_count") {
        Some(Tool::SetArrayCount)
    } else if text::str_eq(name, "add_bytes") {
        Some(Tool::AddBytes)
    } else if text::str_eq(name, "read_memory") {
        Some(Tool::ReadMemory)
    } else if text::str_eq(name, "write_memory") {
        Some(Tool::WriteMemory)
    } else if text::str_eq(name, "list_regions") {
        Some(Tool::ListRegions)
    } else if text::str_eq(name, "list_processes") {
        Some(Tool::ListProcesses)
    } else if text::str_eq(name, "attach_pid") {
        Some(Tool::AttachPid)
    } else if text::str_eq(name, "get_rows") {
        Some(Tool::GetRows)
    } else if text::str_eq(name, "codegen") {
        Some(Tool::Codegen)
    } else if text::str_eq(name, "save_project") {
        Some(Tool::SaveProject)
    } else if text::str_eq(name, "load_project") {
        Some(Tool::LoadProject)
    } else {
        None
    }
}

impl Tool {
    /// The name of the tool.
    pub fn name(self) -> (r: &'static str)
        ensures
            r@ == tool_name(self),
    {
        match self {
            Tool::ListClasses => "list_classes",
            Tool::GetClass => "get_class",
            Tool::CreateClass => "create_class",
            Tool::RemoveClass => "remove_class",
            Tool::RenameClass => "rename_class",
            Tool::SetAddressExpr => "set_address_expr",
            Tool::AddNode => "add_node",
            Tool::InsertNode => "insert_node",
            Tool::RemoveNode => "remove_node",
            Tool::SetNodeKind => "set_node_kind",
            Tool::SetNodeName => "set_node_name",
            Tool::SetNodeComment => "set_node_comment",
            Tool::SetArrayCount => "set_array_count",
            Tool::AddBytes => "add_bytes",
            Tool::ReadMemory => "read_memory",
            Tool::WriteMemory => "write_memory",
            Tool::ListRegions => "list_regions",
            Tool::ListProcesses => "list_processes",
            Tool::AttachPid => "attach_pid",
            Tool::GetRows => "get_rows",
            Tool::Codegen => "codegen",
            Tool::SaveProject => "save_project",
            Tool::LoadProject => "load_project",
        }
    }

    /// What the tool is for.
    fn doc(self) -> (r: String)
        ensures
            r@ == tool_doc(self),
    {
        match self {
            Tool::ListClasses => "List every class: id, name, byte size, field count.".to_owned(),
            Tool::GetClass => "Full definition of one class: fields with index, name, kind, offset, comment.".to_owned(),
            Tool::CreateClass => "Create a new empty class and open it in a view. Returns its id.".to_owned(),
            Tool::RemoveClass => "Delete a class by id.".to_owned(),
            Tool::RenameClass => "Rename a class.".to_owned(),
            Tool::SetAddressExpr => "Set a class's address-bar expression (e.g. \"game.exe+0x1234\").".to_owned(),
            Tool::AddNode => text::join2("Append a field to a class. ", KIND_DOC),
            Tool::InsertNode => text::join2("Insert a field at `index` (shifts later fields). ", KIND_DOC),
            Tool::RemoveNode => "Delete field `index` from a class.".to_owned(),
            Tool::SetNodeKind => text::join2("Change field `index`'s type. ", KIND_DOC),
            Tool::SetNodeName => "Rename field `index`.".to_owned(),
            Tool::SetNodeComment => "Set field `index`'s comment.".to_owned(),
            Tool::SetArrayCount => "Set the element count of an Array field.".to_owned(),
            Tool::AddBytes => "Append `count` bytes of fields (hex64 rows + hex8 remainder) to grow a class in bulk.".to_owned(),
            Tool::ReadMemory => "Read raw bytes from the attached target. Returns lowercase hex. `address` may be a number or 0x-string.".to_owned(),
            Tool::WriteMemory => "Write raw bytes to the attached target. Provide `hex` (string) or `bytes` (array of u8).".to_owned(),
            Tool::ListRegions => "List mapped memory regions of the attached target (start, end, perms, path).".to_owned(),
            Tool::ListProcesses => "List processes visible for attaching (pid, name).".to_owned(),
            Tool::AttachPid => "Attach reclass to a process by pid.".to_owned(),
            Tool::GetRows => "Snapshot of the currently rendered rows across all views, with live values.".to_owned(),
            Tool::Codegen => "Generate source for every class. `lang` is one of: rust, c, cpp.".to_owned(),
            Tool::SaveProject => "Save the project to a .ron file.".to_owned(),
            Tool::LoadProject => "Load a project from a .ron file (replaces current state).".to_owned(),
        }
    }

    /// The arguments of the tool, and those that it cannot do without.
    fn schema(self) -> (r: Schema)
        ensures
            r.types() == tool_props(self),
            r.needs() == tool_required(self),
    {
        let mut s = Schema::new();
        match self {
            Tool::ListClasses => {},
            Tool::GetClass => {
                s.takes("id", "integer");
                s.must_have("id");
            },
            Tool::CreateClass => {
                s.takes("name", "string");
            },
            Tool::RemoveClass => {
                s.takes("id", "integer");
                s.must_have("id");
            },
            Tool::RenameClass => {
                s.takes("id", "integer");
                s.takes("name", "string");
                s.must_have("id");
                s.must_have("name");
            },
            Tool::SetAddressExpr => {
                s.takes("id", "integer");
                s.takes("expr", "string");
                s.must_have("id");
                s.must_have("expr");
            },
            Tool::AddNode => {
                s.takes("class_id", "integer");
                s.takes("kind", "");
                s.takes("name", "string");
                s.takes("comment", "string");
                s.must_have("class_id");
                s.must_have("kind");
            },
            Tool::InsertNode => {
                s.takes("class_id", "integer");
                s.takes("index", "integer");
                s.takes("kind", "");
                s.takes("name", "string");
                s.must_have("class_id");
                s.must_have("index");
                s.must_have("kind");
            },
            Tool::RemoveNode => {
                s.takes("class_id", "integer");
                s.takes("index", "integer");
                s.must_have("class_id");
                s.must_have("index");
            },
            Tool::SetNodeKind => {
                s.takes("class_id", "integer");
                s.takes("index", "integer");
                s.takes("kind", "");
                s.must_have("class_id");
                s.must_have("index");
                s.must_have("kind");
            },
            Tool::SetNodeName => {
                s.takes("class_id", "integer");
                s.takes("index", "integer");
                s.takes("name", "string");
                s.must_have("class_id");
                s.must_have("index");
                s.must_have("name");
            },
            Tool::SetNodeComment => {
                s.takes("class_id", "integer");
                s.takes("index", "integer");
                s.takes("comment", "string");
                s.must_have("class_id");
                s.must_have("index");
                s.must_have("comment");
            },
            Tool::SetArrayCount => {
                s.takes("class_id", "integer");
                s.takes("index", "integer");
                s.takes("count", "integer");
                s.must_have("class_id");
                s.must_have("index");
                s.must_have("count");
            },
            Tool::AddBytes => {
                s.takes("class_id", "integer");
                s.takes("count", "integer");
                s.must_have("class_id");
                s.must_have("count");
            },
            Tool::ReadMemory => {
                s.takes("address", "");
                s.takes("size", "integer");
                s.must_have("address");
                s.must_have("size");
            },
            Tool::WriteMemory => {
                s.takes("address", "");
                s.takes("hex", "string");
                s.takes("bytes", "array");
                s.must_have("address");
            },
            Tool::ListRegions => {},
            Tool::ListProcesses => {},
            Tool::AttachPid => {
                s.takes("pid", "integer");
                s.must_have("pid");
            },
            Tool::GetRows => {},
            Tool::Codegen => {
                s.takes("lang", "string");
                s.must_have("lang");
            },
            Tool::SaveProject => {
                s.takes("path", "string");
                s.must_have("path");
            },
            Tool::LoadProject => {
                s.takes("path", "string");
                s.must_have("path");
            },
        }
        proof {
            assert(s.types() =~= tool_props(self));
            assert(s.needs() =~= tool_required(self));
        }
        s
    }
}

/// The arguments of a tool.
struct Schema {
    props: Vec<(String, String)>,
    required: Vec<String>,
}

impl Schema {
    spec fn types(self) -> Seq<(Seq<char>, Seq<char>)> {
        Seq::new(self.props@.len(), |i: int| (self.props@[i].0@, self.props@[i].1@))
    }

    spec fn needs(self) -> Seq<Seq<char>> {
        text::texts(self.required@)
    }

    /// No argument.
    fn new() -> (r: Schema)
        ensures
            r.types() == Seq::<(Seq<char>, Seq<char>)>::empty(),
            r.needs() == Seq::<Seq<char>>::empty(),
    {
        let r = Schema { props: Vec::new(), required: Vec::new() };
        proof {
            assert(r.types() =~= Seq::<(Seq<char>, Seq<char>)>::empty());
            assert(r.needs() =~= Seq::<Seq<char>>::empty());
        }
        r
    }

    /// One more argument, of a JSON type; an empty one takes any.
    fn takes(&mut self, name: &str, kind: &str)
        ensures
            final(self).types() == old(self).types().push((name@, kind@)),
            final(self).needs() == old(self).needs(),
    {
        let ghost before = self.types();
        self.props.push((name.to_owned(), kind.to_owned()));
        proof {
            assert(self.types() =~= before.push((name@, kind@)));
        }
    }

    /// One more argument that cannot be left out.
    fn must_have(&mut self, name: &str)
        ensures
            final(self).types() == old(self).types(),
            final(self).needs() == old(self).needs().push(name@),
    {
        text::push_text(&mut self.required, name);
    }
}

/// The JSON schema of one argument.
pub open spec fn prop_json(kind: Seq<char>) -> JsonV {
    if kind.len() == 0 {
        JsonV::Obj(Seq::empty())
    } else {
        JsonV::Obj(seq![("type"@, JsonV::Str(kind))])
    }
}

/// The JSON schema of a tool's arguments.
pub open spec fn schema_json(t: Tool) -> JsonV {
    let props = tool_props(t);
    let needs = tool_required(t);
    JsonV::Obj(
        seq![
            ("type"@, JsonV::Str("object"@)),
            (
                "properties"@,
                JsonV::Obj(Seq::new(props.len(), |i: int| (props[i].0, prop_json(props[i].1)))),
            ),
            ("required"@, JsonV::Arr(Seq::new(needs.len(), |i: int| JsonV::Str(needs[i])))),
        ],
    )
}

/// How a tool is advertised.
pub open spec fn tool_json(t: Tool) -> JsonV {
    JsonV::Obj(
        seq![
            ("name"@, JsonV::Str(tool_name(t))),
            ("description"@, JsonV::Str(tool_doc(t))),
            ("inputSchema"@, schema_json(t)),
        ],
    )
}

/// How a tool is advertised.
fn tool_entry(t: Tool) -> (r: Json)
    ensures
        r@ == tool_json(t),
{
    let schema = t.schema();
    let ghost types = tool_props(t);
    let ghost needs = tool_required(t);
    let mut props = Members::new();
    let mut i: usize = 0;
    while i < schema.props.len()
        invariant
            i <= schema.props@.len(),
            types == schema.types(),
            props@ =~= Seq::new(i as nat, |k: int| (types[k].0, prop_json(types[k].1))),
        decreases schema.props@.len() - i,
    {
        let kind = schema.props[i].1.as_str();
        let p = if text::str_eq(kind, "") {
            proof {
                reveal_strlit("");
            }
            Members::new().done()
        } else {
            proof {
                reveal_strlit("");
                if kind@.len() == 0 {
                    assert(kind@ =~= ""@);
                }
            }
            obj1("type", Json::text(kind))
        };
        props.put(schema.props[i].0.as_str(), p);
        i = i + 1;
    }
    let mut required: Vec<Json> = Vec::new();
    let mut j: usize = 0;
    while j < schema.required.len()
        invariant
            j <= schema.required@.len(),
            needs == schema.needs(),
            required@.len() == j,
            forall|k: int| 0 <= k < j ==> (#[trigger] required@[k])@ == JsonV::Str(needs[k]),
        decreases schema.required@.len() - j,
    {
        required.push(Json::text(schema.required[j].as_str()));
        j = j + 1;
    }
    let req = Json::array(required);
    proof {
        assert(req@->Arr_0 =~= Seq::new(needs.len(), |i: int| JsonV::Str(needs[i])));
        assert(props@ =~= Seq::new(types.len(), |i: int| (types[i].0, prop_json(types[i].1))));
    }
    obj3(
        "name",
        Json::text(t.name()),
        "description",
        Json::text(t.doc().as_str()),
        "inputSchema",
        obj3("type", Json::text("object"), "properties", props.done(), "required", req),
    )
}

/// The catalog of tools.
pub open spec fn tool_catalog_json() -> JsonV {
    JsonV::Arr(Seq::new(all_tools().len(), |i: int| tool_json(all_tools()[i])))
}

/// The catalog of tools.
pub fn tool_catalog() -> (r: Json)
    ensures
        r@ == tool_catalog_json(),
{
    let ts = tools();
    let mut out: Vec<Json> = Vec::new();
    let mut i: usize = 0;
    while i < ts.len()
        invariant
            i <= ts@.len(),
            ts@ == all_tools(),
            out@.len() == i,
            forall|k: int| 0 <= k < i ==> (#[trigger] out@[k])@ == tool_json(all_tools()[k]),
        decreases ts@.len() - i,
    {
        out.push(tool_entry(ts[i]));
        i = i + 1;
    }
    let r = Json::array(out);
    proof {
        assert(r@->Arr_0 =~= tool_catalog_json()->Arr_0);
    }
    r
}

/// How a resource is advertised.
pub open spec fn resource_json(
    uri: Seq<char>,
    name: Seq<char>,
    doc: Seq<char>,
    mime: Seq<char>,
) -> JsonV {
    JsonV::Obj(
        seq![
            ("uri"@, JsonV::Str(uri)),
            ("name"@, JsonV::Str(name)),
            ("description"@, JsonV::Str(doc)),
            ("mimeType"@, JsonV::Str(mime)),
        ],
    )
}

/// How a resource is advertised.
fn resource_entry(uri: &str, name: &str, doc: &str, mime: &str) -> (r: Json)
    ensures
        r@ == resource_json(uri@, name@, doc@, mime@),
{
    let mut m = Members::new();
    m.put("uri", Json::text(uri));
    m.put("name", Json::text(name));
    m.put("description", Json::text(doc));
    m.put("mimeType", Json::text(mime));
    let r = m.done();
    proof {
        assert(r@->Obj_0 =~= resource_json(uri@, name@, doc@, mime@)->Obj_0);
    }
    r
}

/// The catalog of resources.
pub open spec fn resource_catalog_json() -> JsonV {
    JsonV::Arr(
        seq![
            resource_json("reclass://classes"@, "Classes"@, "All classes and their fields."@, "application/json"@),
            resource_json("reclass://regions"@, "Memory regions"@, "Mapped regions of the attached target."@, "application/json"@),
            resource_json("reclass://rows"@, "Live rows"@, "Currently rendered rows with live values."@, "application/json"@),
            resource_json("reclass://codegen/rust"@, "Generated Rust"@, "Rust struct definitions."@, "text/plain"@),
            resource_json("reclass://codegen/cpp"@, "Generated C++"@, "C++ struct definitions."@, "text/plain"@),
        ],
    )
}

/// The catalog of resources.
pub fn resource_catalog() -> (r: Json)
    ensures
        r@ == resource_catalog_json(),
{
    let mut v: Vec<Json> = Vec::new();
    v.push(resource_entry("reclass://classes", "Classes", "All classes and their fields.", "application/json"));
    v.push(resource_entry("reclass://regions", "Memory regions", "Mapped regions of the attached target.", "application/json"));
    v.push(resource_entry("reclass://rows", "Live rows", "Currently rendered rows with live values.", "application/json"));
    v.push(resource_entry("reclass://codegen/rust", "Generated Rust", "Rust struct definitions.", "text/plain"));
    v.push(resource_entry("reclass://codegen/cpp", "Generated C++", "C++ struct definitions.", "text/plain"));
    let r = Json::array(v);
    proof {
        assert(r@->Arr_0 =~= resource_catalog_json()->Arr_0);
    }
    r
}

/// Every advertised tool is handled under its advertised name.
pub proof fn law_every_advertised_tool_is_handled(t: Tool)
    ensures
        tool_named(tool_name(t)) == Some(t),
{
    reveal_strlit("list_classes");
    reveal_strlit("get_class");
    reveal_strlit("create_class");
    reveal_strlit("remove_class");
    reveal_strlit("rename_class");
    reveal_strlit("set_address_expr");
    reveal_strlit("add_node");
    reveal_strlit("insert_node");
    reveal_strlit("remove_node");
    reveal_strlit("set_node_kind");
    reveal_strlit("set_node_name");
    reveal_strlit("set_node_comment");
    reveal_strlit("set_array_count");
    reveal_strlit("add_bytes");
    reveal_strlit("read_memory");
    reveal_strlit("write_memory");
    reveal_strlit("list_regions");
    reveal_strlit("list_processes");
    reveal_strlit("attach_pid");
    reveal_strlit("get_rows");
    reveal_strlit("codegen");
    reveal_strlit("save_project");
    reveal_strlit("load_project");
    assert("list_classes"@.len() == 12);
    assert("get_class"@.len() == 9);
    assert("create_class"@.len() == 12);
    assert("remove_class"@.len() == 12);
    assert("rename_class"@.len() == 12);
    assert("set_address_expr"@.len() == 16);
    assert("add_node"@.len() == 8);
    assert("insert_node"@.len() == 11);
    assert("remove_node"@.len() == 11);
    assert("set_node_kind"@.len() == 13);
    assert("set_node_name"@.len() == 13);
    assert("set_node_comment"@.len() == 16);
    assert("set_array_count"@.len() == 15);
    assert("add_bytes"@.len() == 9);
    assert("read_memory"@.len() == 11);
    assert("write_memory"@.len() == 12);
    assert("list_regions"@.len() == 12);
    assert("list_processes"@.len() == 14);
    assert("attach_pid"@.len() == 10);
    assert("get_rows"@.len() == 8);
    assert("codegen"@.len() == 7);
    assert("save_project"@.len() == 12);
    assert("load_project"@.len() == 12);
    assert("create_class"@ != "list_classes"@) by {
        assert("create_class"@[0] != "list_classes"@[0]);
    }
    assert("remove_class"@ != "list_classes"@) by {
        assert("remove_class"@[0] != "list_classes"@[0]);
    }
    assert("remove_class"@ != "create_class"@) by {
        assert("remove_class"@[0] != "create_class"@[0]);
    }
    assert("rename_class"@ != "list_classes"@) by {
        assert("rename_class"@[0] != "list_classes"@[0]);
    }
    assert("rename_class"@ != "create_class"@) by {
        assert("rename_class"@[0] != "create_class"@[0]);
    }
    assert("rename_class"@ != "remove_class"@) by {
        assert("rename_class"@[2] != "remove_class"@[2]);
    }
    assert("remove_node"@ != "insert_node"@) by {
        assert("remove_node"@[0] != "insert_node"@[0]);
    }
    assert("set_node_name"@ != "set_node_kind"@) by {
        assert("set_node_name"@[9] != "set_node_kind"@[9]);
    }
    assert("set_node_comment"@ != "set_address_expr"@) by {
        assert("set_node_comment"@[4] != "set_address_expr"@[4]);
    }
    assert("add_bytes"@ != "get_class"@) by {
        assert("add_bytes"@[0] != "get_class"@[0]);
    }
    assert("read_memory"@ != "insert_node"@) by {
        assert("read_memory"@[0] != "insert_node"@[0]);
    }
    assert("read_memory"@ != "remove_node"@) by {
        assert("read_memory"@[2] != "remove_node"@[2]);
    }
    assert("write_memory"@ != "list_classes"@) by {
        assert("write_memory"@[0] != "list_classes"@[0]);
    }
    assert("write_memory"@ != "create_class"@) by {
        assert("write_memory"@[0] != "create_class"@[0]);
    }
    assert("write_memory"@ != "remove_class"@) by {
        assert("write_memory"@[0] != "remove_class"@[0]);
    }
    assert("write_memory"@ != "rename_class"@) by {
        assert("write_memory"@[0] != "rename_class"@[0]);
    }
    assert("list_regions"@ != "list_classes"@) by {
        assert("list_regions"@[5] != "list_classes"@[5]);
    }
    assert("list_regions"@ != "create_class"@) by {
        assert("list_regions"@[0] != "create_class"@[0]);
    }
    assert("list_regions"@ != "remove_class"@) by {
        assert("list_regions"@[0] != "remove_class"@[0]);
    }
    assert("list_regions"@ != "rename_class"@) by {
        assert("list_regions"@[0] != "rename_class"@[0]);
    }
    assert("list_regions"@ != "write_memory"@) by {
        assert("list_regions"@[0] != "write_memory"@[0]);
    }
    assert("get_rows"@ != "add_node"@) by {
        assert("get_rows"@[0] != "add_node"@[0]);
    }
    assert("save_project"@ != "list_classes"@) by {
        assert("save_project"@[0] != "list_classes"@[0]);
    }
    assert("save_project"@ != "create_class"@) by {
        assert("save_project"@[0] != "create_class"@[0]);
    }
    assert("save_project"@ != "remove_class"@) by {
        assert("save_project"@[0] != "remove_class"@[0]);
    }
    assert("save_project"@ != "rename_class"@) by {
        assert("save_project"@[0] != "rename_class"@[0]);
    }
    assert("save_project"@ != "write_memory"@) by {
        assert("save_project"@[0] != "write_memory"@[0]);
    }
    assert("save_project"@ != "list_regions"@) by {
        assert("save_project"@[0] != "list_regions"@[0]);
    }
    assert("load_project"@ != "list_classes"@) by {
        assert("load_project"@[1] != "list_classes"@[1]);
    }
    assert("load_project"@ != "create_class"@) by {
        assert("load_project"@[0] != "create_class"@[0]);
    }
    assert("load_project"@ != "remove_class"@) by {
        assert("load_project"@[0] != "remove_class"@[0]);
    }
    assert("load_project"@ != "rename_class"@) by {
        assert("load_project"@[0] != "rename_class"@[0]);
    }
    assert("load_project"@ != "write_memory"@) by {
        assert("load_project"@[0] != "write_memory"@[0]);
    }
    assert("load_project"@ != "list_regions"@) by {
        assert("load_project"@[1] != "list_regions"@[1]);
    }
    assert("load_project"@ != "save_project"@) by {
        assert("load_project"@[0] != "save_project"@[0]);
    }
    match t {
        Tool::ListClasses => {},
        Tool::GetClass => {},
        Tool::CreateClass => {},
        Tool::RemoveClass => {},
        Tool::RenameClass => {},
        Tool::SetAddressExpr => {},
        Tool::AddNode => {},
        Tool::InsertNode => {},
        Tool::RemoveNode => {},
        Tool::SetNodeKind => {},
        Tool::SetNodeName => {},
        Tool::SetNodeComment => {},
        Tool::SetArrayCount => {},
        Tool::AddBytes => {},
        Tool::ReadMemory => {},
        Tool::WriteMemory => {},
        Tool::ListRegions => {},
        Tool::ListProcesses => {},
        Tool::AttachPid => {},
        Tool::GetRows => {},
        Tool::Codegen => {},
        Tool::SaveProject => {},
        Tool::LoadProject => {},
    }
}

/// Every tool is advertised.
pub proof fn law_every_tool_is_advertised(t: Tool)
    ensures
        all_tools().contains(t),
{
    let all = all_tools();
    assert(all[0] == Tool::ListClasses);
    assert(all[1] == Tool::GetClass);
    assert(all[2] == Tool::CreateClass);
    assert(all[3] == Tool::RemoveClass);
    assert(all[4] == Tool::RenameClass);
    assert(all[5] == Tool::SetAddressExpr);
    assert(all[6] == Tool::AddNode);
    assert(all[7] == Tool::InsertNode);
    assert(all[8] == Tool::RemoveNode);
    assert(all[9] == Tool::SetNodeKind);
    assert(all[10] == Tool::SetNodeName);
    assert(all[11] == Tool::SetNodeComment);
    assert(all[12] == Tool::SetArrayCount);
    assert(all[13] == Tool::AddBytes);
    assert(all[14] == Tool::ReadMemory);
    assert(all[15] == Tool::WriteMemory);
    assert(all[16] == Tool::ListRegions);
    assert(all[17] == Tool::ListProcesses);
    assert(all[18] == Tool::AttachPid);
    assert(all[19] == Tool::GetRows);
    assert(all[20] == Tool::Codegen);
    assert(all[21] == Tool::SaveProject);
    assert(all[22] == Tool::LoadProject);
}

/// A tool is advertised under its name, with a schema that has every argument it
/// takes and lists those that it cannot do without.
pub proof fn law_schema_lists_the_arguments(t: Tool, i: int)
    ensures
        tool_json(t).get("name"@) == Some(JsonV::Str(tool_name(t))),
        tool_json(t).get("inputSchema"@) == Some(schema_json(t)),
        schema_json(t).get("required"@) matches Some(r) && (r matches JsonV::Arr(items)
            && items.len() == tool_required(t).len() && (0 <= i < items.len() ==> items[i]
            == JsonV::Str(tool_required(t)[i]))),
        schema_json(t).get("properties"@) matches Some(p) && (p matches JsonV::Obj(ms) && ms.len()
            == tool_props(t).len() && (0 <= i < ms.len() ==> ms[i].0 == tool_props(t)[i].0)),
        tool_catalog_json() matches JsonV::Arr(items) && items.len() == all_tools().len() && (0 <= i
            < items.len() ==> items[i] == tool_json(all_tools()[i])),
{
    reveal_strlit("name");
    reveal_strlit("description");
    reveal_strlit("inputSchema");
    reveal_strlit("type");
    reveal_strlit("properties");
    reveal_strlit("required");
    assert("name"@.len() == 4 && "description"@.len() == 11 && "inputSchema"@.len() == 11);
    assert("description"@[0] == 'd' && "inputSchema"@[0] == 'i');
    assert("type"@.len() == 4 && "properties"@.len() == 10 && "required"@.len() == 8);
    crate::json::law_members_are_found_by_name(tool_json(t)->Obj_0, "name"@, 0);
    crate::json::law_members_are_found_by_name(tool_json(t)->Obj_0, "inputSchema"@, 2);
    crate::json::law_members_are_found_by_name(schema_json(t)->Obj_0, "properties"@, 1);
    crate::json::law_members_are_found_by_name(schema_json(t)->Obj_0, "required"@, 2);
}

} // verus!
