//! JSON-RPC 2.0: from the text of a message to the text of its reply, and what
//! the server does on the way.

use crate::catalog::{resource_catalog, resource_catalog_json, tool_catalog, tool_catalog_json};
use crate::json::{
    json_line, json_page, json_parsed, json_to_line, json_to_page, law_members_are_found_by_name,
    obj1, obj2, obj3, parse_json, parsed_view, Json, JsonV, Members,
};
use crate::mcp::Op;
use crate::mcp_args::Arg;
use crate::text;
use crate::updater::PKG_VERSION;
use vstd::prelude::*;

verus! {

/// Code and message of a JSON-RPC error.
pub type RpcErr = (i64, String);

/// What a JSON-RPC outcome says.
pub type RpcOutcome = Result<JsonV, (i64, Seq<char>)>;

/// What a JSON-RPC outcome says.
pub open spec fn outcome_view(r: Result<Json, RpcErr>) -> RpcOutcome {
    match r {
        Ok(j) => Ok(j@),
        Err(e) => Err((e.0, e.1@)),
    }
}

/// The reply that carries a result.
pub open spec fn result_json(id: JsonV, result: JsonV) -> JsonV {
    JsonV::Obj(seq![("jsonrpc"@, JsonV::Str("2.0"@)), ("id"@, id), ("result"@, result)])
}

/// The reply that carries an error.
pub open spec fn error_json(id: JsonV, code: i64, message: Seq<char>) -> JsonV {
    JsonV::Obj(
        seq![
            ("jsonrpc"@, JsonV::Str("2.0"@)),
            ("id"@, id),
            (
                "error"@,
                JsonV::Obj(
                    seq![
                        ("code"@, JsonV::whole(code as int)),
                        ("message"@, JsonV::Str(message)),
                    ],
                ),
            ),
        ],
    )
}

/// The text of the reply that carries a result.
pub fn rpc_result(id: Json, result: Json) -> (r: String)
    ensures
        r@ == json_line(result_json(id@, result@)),
{
    json_to_line(&rpc_result_json(id, result))
}

/// The reply that carries a result.
pub fn rpc_result_json(id: Json, result: Json) -> (r: Json)
    ensures
        r@ == result_json(id@, result@),
{
    obj3("jsonrpc", Json::text("2.0"), "id", id, "result", result)
}

/// The text of the reply that carries an error.
pub fn rpc_error(id: Json, code: i64, message: &str) -> (r: String)
    ensures
        r@ == json_line(error_json(id@, code, message@)),
{
    json_to_line(&rpc_error_json(id, code, message))
}

/// The reply that carries an error.
pub fn rpc_error_json(id: Json, code: i64, message: &str) -> (r: Json)
    ensures
        r@ == error_json(id@, code, message@),
{
    obj3(
        "jsonrpc",
        Json::text("2.0"),
        "id",
        id,
        "error",
        obj2("code", Json::whole(code), "message", Json::text(message)),
    )
}

/// The text of a value, for the agent to read.
pub fn to_text(v: &Json) -> (r: String)
    ensures
        r@ == json_page(v@),
{
    json_to_page(v)
}

/// A text as content.
pub open spec fn content_json(s: Seq<char>) -> JsonV {
    JsonV::Obj(seq![("type"@, JsonV::Str("text"@)), ("text"@, JsonV::Str(s))])
}

/// A text as content.
pub fn content(s: &str) -> (r: Json)
    ensures
        r@ == content_json(s@),
{
    obj2("type", Json::text("text"), "text", Json::text(s))
}

/// The protocol version that a client names, or the one this was written
/// against.
pub open spec fn protocol_version(params: JsonV) -> Seq<char> {
    match params.str_at("protocolVersion"@) {
        Some(v) => v,
        None => "2025-06-18"@,
    }
}

/// What the server says of itself.
pub open spec fn initialize_json(params: JsonV) -> JsonV {
    JsonV::Obj(
        seq![
            ("protocolVersion"@, JsonV::Str(protocol_version(params))),
            (
                "capabilities"@,
                JsonV::Obj(
                    seq![
                        ("tools"@, JsonV::Obj(seq![("listChanged"@, JsonV::Bool(false))])),
                        (
                            "resources"@,
                            JsonV::Obj(
                                seq![
                                    ("listChanged"@, JsonV::Bool(false)),
                                    ("subscribe"@, JsonV::Bool(false)),
                                ],
                            ),
                        ),
                    ],
                ),
            ),
            (
                "serverInfo"@,
                JsonV::Obj(
                    seq![
                        ("name"@, JsonV::Str("reclass-rs"@)),
                        ("version"@, JsonV::Str(PKG_VERSION@)),
                    ],
                ),
            ),
        ],
    )
}

/// What the server says of itself.
pub fn initialize_result(params: &Json) -> (r: Json)
    ensures
        r@ == initialize_json(params@),
{
    let ver = match params.str_at("protocolVersion") {
        Some(v) => v,
        None => "2025-06-18",
    };
    let tools = obj1("listChanged", Json::Bool(false));
    let resources = obj2("listChanged", Json::Bool(false), "subscribe", Json::Bool(false));
    obj3(
        "protocolVersion",
        Json::text(ver),
        "capabilities",
        obj2("tools", tools, "resources", resources),
        "serverInfo",
        obj2("name", Json::text("reclass-rs"), "version", Json::text(PKG_VERSION)),
    )
}

/// Where a message goes.
#[derive(Debug)]
pub enum Route {
    /// It is answered at once.
    Answer(Result<Json, RpcErr>),
    /// A tool is to be run.
    CallTool { name: String, args: Json },
    /// A resource is to be read.
    ReadResource { uri: String },
}

/// What a [`Route`] says.
pub enum RouteV {
    Answer(RpcOutcome),
    CallTool { name: Seq<char>, args: JsonV },
    ReadResource { uri: Seq<char> },
}

impl View for Route {
    type V = RouteV;

    open spec fn view(&self) -> RouteV {
        match self {
            Route::Answer(r) => RouteV::Answer(outcome_view(*r)),
            Route::CallTool { name, args } => RouteV::CallTool { name: name@, args: args@ },
            Route::ReadResource { uri } => RouteV::ReadResource { uri: uri@ },
        }
    }
}

/// Where a message with this method and these parameters goes.
pub open spec fn routed(method: Seq<char>, params: JsonV) -> RouteV {
    if method == "initialize"@ {
        RouteV::Answer(Ok(initialize_json(params)))
    } else if method == "ping"@ {
        RouteV::Answer(Ok(JsonV::Obj(Seq::empty())))
    } else if method == "tools/list"@ {
        RouteV::Answer(Ok(JsonV::Obj(seq![("tools"@, tool_catalog_json())])))
    } else if method == "resources/list"@ {
        RouteV::Answer(Ok(JsonV::Obj(seq![("resources"@, resource_catalog_json())])))
    } else if method == "resources/templates/list"@ {
        RouteV::Answer(Ok(JsonV::Obj(seq![("resourceTemplates"@, JsonV::Arr(Seq::empty()))])))
    } else if method == "prompts/list"@ {
        RouteV::Answer(Ok(JsonV::Obj(seq![("prompts"@, JsonV::Arr(Seq::empty()))])))
    } else if method == "tools/call"@ {
        match params.str_at("name"@) {
            None => RouteV::Answer(Err((-32602i64, "missing tool name"@))),
            Some(name) => RouteV::CallTool {
                name,
                args: match params.get("arguments"@) {
                    Some(a) => a,
                    None => JsonV::Obj(Seq::empty()),
                },
            },
        }
    } else if method == "resources/read"@ {
        match params.str_at("uri"@) {
            None => RouteV::Answer(Err((-32602i64, "missing resource uri"@))),
            Some(uri) => RouteV::ReadResource { uri },
        }
    } else if text::begins_with(method, "notifications/"@) {
        RouteV::Answer(Ok(JsonV::Null))
    } else {
        RouteV::Answer(Err((-32601i64, "method not found: "@ + method)))
    }
}

/// An object without members.
fn empty_object() -> (r: Json)
    ensures
        r@ == JsonV::Obj(Seq::empty()),
{
    Members::new().done()
}

/// An array without items.
fn empty_array() -> (r: Json)
    ensures
        r@ == JsonV::Arr(Seq::empty()),
{
    let r = Json::array(Vec::new());
    proof {
        assert(r@->Arr_0 =~= Seq::<JsonV>::empty());
    }
    r
}

/// Where a message with this method and these parameters goes.
pub fn route(method: &str, params: &Json) -> (r: Route)
    ensures
        r@ == routed(method@, params@),
{
    if text::str_eq(method, "initialize") {
        Route::Answer(Ok(initialize_result(params)))
    } else if text::str_eq(method, "ping") {
        Route::Answer(Ok(empty_object()))
    } else if text::str_eq(method, "tools/list") {
        Route::Answer(Ok(obj1("tools", tool_catalog())))
    } else if text::str_eq(method, "resources/list") {
        Route::Answer(Ok(obj1("resources", resource_catalog())))
    } else if text::str_eq(method, "resources/templates/list") {
        Route::Answer(Ok(obj1("resourceTemplates", empty_array())))
    } else if text::str_eq(method, "prompts/list") {
        Route::Answer(Ok(obj1("prompts", empty_array())))
    } else if text::str_eq(method, "tools/call") {
        match params.str_at("name") {
            None => Route::Answer(Err((-32602, "missing tool name".to_owned()))),
            Some(name) => Route::CallTool {
                name: name.to_owned(),
                args: match params.get("arguments") {
                    Some(a) => a.dup(),
                    None => empty_object(),
                },
            },
        }
    } else if text::str_eq(method, "resources/read") {
        match params.str_at("uri") {
            None => Route::Answer(Err((-32602, "missing resource uri".to_owned()))),
            Some(uri) => Route::ReadResource { uri: uri.to_owned() },
        }
    } else if text::starts_with(&text::chars_of(method), &text::chars_of("notifications/")) {
        Route::Answer(Ok(Json::Null))
    } else {
        Route::Answer(Err((-32601, text::join2("method not found: ", method))))
    }
}

/// The result of a tool call: its answer as indented text, or its message,
/// marked as an error. A failed tool is no failed call.
pub open spec fn tool_result(outcome: Arg<JsonV>) -> JsonV {
    let (s, failed) = match outcome {
        Ok(v) => (json_page(v), false),
        Err(e) => (e, true),
    };
    JsonV::Obj(
        seq![("content"@, JsonV::Arr(seq![content_json(s)])), ("isError"@, JsonV::Bool(failed))],
    )
}

/// The result of a tool call whose text is `s`.
pub fn tool_reply_text(s: &str, failed: bool) -> (r: Json)
    ensures
        r@ == JsonV::Obj(
            seq![
                ("content"@, JsonV::Arr(seq![content_json(s@)])),
                ("isError"@, JsonV::Bool(failed)),
            ],
        ),
{
    let mut items: Vec<Json> = Vec::new();
    items.push(content(s));
    let list = Json::array(items);
    proof {
        assert(list@->Arr_0 =~= seq![content_json(s@)]);
    }
    obj2("content", list, "isError", Json::Bool(failed))
}

/// The result of a tool call.
pub fn tool_reply(outcome: Result<Json, String>) -> (r: Json)
    ensures
        r@ == tool_result(parsed_view(outcome)),
{
    match outcome {
        Ok(v) => tool_reply_text(to_text(&v).as_str(), false),
        Err(e) => tool_reply_text(e.as_str(), true),
    }
}

/// The contents of a resource whose text is `s`.
pub open spec fn contents_json(uri: Seq<char>, s: Seq<char>) -> JsonV {
    JsonV::Obj(
        seq![
            (
                "contents"@,
                JsonV::Arr(
                    seq![
                        JsonV::Obj(
                            seq![
                                ("uri"@, JsonV::Str(uri)),
                                ("mimeType"@, JsonV::Str("application/json"@)),
                                ("text"@, JsonV::Str(s)),
                            ],
                        ),
                    ],
                ),
            ),
        ],
    )
}

/// The contents of a resource whose text is `s`.
pub fn contents(uri: &str, s: &str) -> (r: Json)
    ensures
        r@ == contents_json(uri@, s@),
{
    let mut items: Vec<Json> = Vec::new();
    items.push(
        obj3(
            "uri",
            Json::text(uri),
            "mimeType",
            Json::text("application/json"),
            "text",
            Json::text(s),
        ),
    );
    let list = Json::array(items);
    proof {
        assert(list@->Arr_0 =~= contents_json(uri@, s@)->Obj_0[0].1->Arr_0);
    }
    obj1("contents", list)
}

/// The outcome of reading a resource.
pub open spec fn resource_result(uri: Seq<char>, outcome: Arg<JsonV>) -> RpcOutcome {
    match outcome {
        Ok(v) => Ok(contents_json(uri, json_page(v))),
        Err(e) => Err((-32603i64, e)),
    }
}

/// The outcome of reading a resource.
pub fn resource_reply(uri: &str, outcome: Result<Json, String>) -> (r: Result<Json, RpcErr>)
    ensures
        outcome_view(r) == resource_result(uri@, parsed_view(outcome)),
{
    match outcome {
        Ok(v) => Ok(contents(uri, to_text(&v).as_str())),
        Err(e) => Err((-32603, e)),
    }
}

/// A message on its way: who asked, and where it goes.
#[derive(Debug)]
pub struct Pending {
    /// The message's id; a notification has none.
    pub id: Option<Json>,
    pub route: Route,
}

/// What a [`Pending`] says.
pub struct PendingV {
    pub id: Option<JsonV>,
    pub route: RouteV,
}

impl View for Pending {
    type V = PendingV;

    open spec fn view(&self) -> PendingV {
        PendingV {
            id: match self.id {
                Some(j) => Some(j@),
                None => None,
            },
            route: self.route@,
        }
    }
}

/// Who asked, and where the message goes.
pub open spec fn pending_of(v: JsonV) -> PendingV {
    PendingV {
        id: v.get("id"@),
        route: routed(
            match v.str_at("method"@) {
                Some(m) => m,
                None => ""@,
            },
            match v.get("params"@) {
                Some(p) => p,
                None => JsonV::Null,
            },
        ),
    }
}

/// Who asked, and where the message goes.
pub fn begin_message(v: &Json) -> (r: Pending)
    ensures
        r@ == pending_of(v@),
{
    let id = match v.get("id") {
        Some(j) => Some(j.dup()),
        None => None,
    };
    let method = match v.str_at("method") {
        Some(m) => m,
        None => "",
    };
    let route = match v.get("params") {
        Some(p) => route(method, p),
        None => route(method, &Json::Null),
    };
    Pending { id, route }
}

/// Route one JSON-RPC message; a text that is no JSON gets its reply at once.
pub fn handle_rpc(body: &str) -> (r: Result<Pending, String>)
    ensures
        match json_parsed(body@) {
            Ok(v) => r is Ok && (r->Ok_0)@ == pending_of(v),
            Err(e) => r is Err && (r->Err_0)@ == json_line(
                error_json(JsonV::Null, -32700i64, "parse error: "@ + e),
            ),
        },
{
    match parse_json(body) {
        Ok(v) => Ok(begin_message(&v)),
        Err(e) => Err(
            rpc_error(Json::Null, -32700, text::join2("parse error: ", e.as_str()).as_str()),
        ),
    }
}

/// The reply to a message with this id; a notification gets none.
pub open spec fn reply_json(id: Option<JsonV>, outcome: RpcOutcome) -> Option<JsonV> {
    match id {
        None => None,
        Some(i) => Some(
            match outcome {
                Ok(v) => result_json(i, v),
                Err(e) => error_json(i, e.0, e.1),
            },
        ),
    }
}

/// The text of the reply to a message with this id; a notification gets none.
pub fn finish_rpc(id: Option<Json>, outcome: Result<Json, RpcErr>) -> (r: Option<String>)
    ensures
        text::opt_view(r) == match reply_json(
            match id {
                Some(j) => Some(j@),
                None => None,
            },
            outcome_view(outcome),
        ) {
            Some(j) => Some(json_line(j)),
            None => None,
        },
{
    match id {
        None => None,
        Some(i) => match outcome {
            Ok(v) => Some(rpc_result(i, v)),
            Err(e) => Some(rpc_error(i, e.0, e.1.as_str())),
        },
    }
}

// ---------------------------------------------------------------------------
// The server
// ---------------------------------------------------------------------------

/// What the server does with a request that has come in.
#[derive(Debug)]
pub enum Incoming {
    /// Plain text with this status.
    Text { code: u16, body: String },
    /// A JSON reply.
    Json { body: String },
    /// A message on its way.
    Message { pending: Pending },
}

/// What the server does with a request that has come in: only `POST` carries
/// messages, and a message is text.
pub fn take_request(post: bool, body: Option<String>) -> (r: Incoming)
    ensures
        !post ==> (r matches Incoming::Text { code, body } && code == 405 && body@
            == "POST JSON-RPC to this endpoint"@),
        post && body is None ==> (r matches Incoming::Json { body } && body@ == json_line(
            error_json(JsonV::Null, -32700i64, "body not UTF-8"@),
        )),
        post && body is Some ==> match json_parsed((body->0)@) {
            Ok(v) => r matches Incoming::Message { pending } && pending@ == pending_of(v),
            Err(e) => r matches Incoming::Json { body } && body@ == json_line(
                error_json(JsonV::Null, -32700i64, "parse error: "@ + e),
            ),
        },
{
    if !post {
        return Incoming::Text { code: 405, body: "POST JSON-RPC to this endpoint".to_owned() };
    }
    match body {
        None => Incoming::Json { body: rpc_error(Json::Null, -32700, "body not UTF-8") },
        Some(b) => match handle_rpc(b.as_str()) {
            Ok(pending) => Incoming::Message { pending },
            Err(reply) => Incoming::Json { body: reply },
        },
    }
}

/// What the server sends once a message was handled: the reply, or an empty 202
/// for a notification.
pub fn send_reply(reply: Option<String>) -> (r: Incoming)
    ensures
        match reply {
            Some(s) => r matches Incoming::Json { body } && body == s,
            None => r matches Incoming::Text { code, body } && code == 202 && body@ == ""@,
        },
{
    match reply {
        Some(s) => Incoming::Json { body: s },
        None => Incoming::Text { code: 202, body: "".to_owned() },
    }
}

/// What came of waiting for a forwarded request.
#[derive(Debug)]
pub enum Waited {
    Reply(Result<Json, String>),
    /// Nothing yet.
    Timeout,
    /// The other side is gone.
    Disconnected,
}

/// Whether to give up waiting before the next try: the server is being shut
/// down, or the time is up.
pub fn give_up(shutdown: bool, expired: bool) -> (r: Option<String>)
    ensures
        text::opt_view(r) == if shutdown {
            Some("server shutting down"@)
        } else if expired {
            Some("timed out waiting for gui"@)
        } else {
            None
        },
{
    if shutdown {
        Some("server shutting down".to_owned())
    } else if expired {
        Some("timed out waiting for gui".to_owned())
    } else {
        None
    }
}

/// The outcome of a forwarded request, or none yet.
pub fn forwarded(w: Waited) -> (r: Option<Result<Json, String>>)
    ensures
        match w {
            Waited::Reply(o) => r is Some && parsed_view(r->0) == parsed_view(o),
            Waited::Timeout => r is None,
            Waited::Disconnected => r is Some && parsed_view(r->0) == Err::<JsonV, Seq<char>>(
                "gui dropped request"@,
            ),
        },
{
    match w {
        Waited::Reply(o) => Some(o),
        Waited::Timeout => None,
        Waited::Disconnected => Some(Err("gui dropped request".to_owned())),
    }
}

/// The request that a route forwards, if any.
pub fn forwarded_op(route: &Route) -> (r: Option<Op>)
    ensures
        match route@ {
            RouteV::Answer(_) => r is None,
            RouteV::CallTool { name, args } => r matches Some(Op::Tool { name: n, args: a })
                && n@ == name && a@ == args,
            RouteV::ReadResource { uri } => r matches Some(Op::Resource { uri: u }) && u@ == uri,
        },
{
    match route {
        Route::Answer(_) => None,
        Route::CallTool { name, args } => Some(Op::Tool { name: name.clone(), args: args.dup() }),
        Route::ReadResource { uri } => Some(Op::Resource { uri: uri.clone() }),
    }
}

// ---------------------------------------------------------------------------
// Laws
// ---------------------------------------------------------------------------

/// A message without an id gets no reply, whatever came of it; one with an id
/// always gets one that carries that id.
pub proof fn law_notification_gets_no_reply(v: JsonV, outcome: RpcOutcome)
    ensures
        reply_json(pending_of(v).id, outcome) is None == v.get("id"@) is None,
        v.get("id"@) matches Some(id) ==> (reply_json(pending_of(v).id, outcome)->0).get("id"@)
            == Some(id),
{
    reveal_strlit("jsonrpc");
    reveal_strlit("id");
    assert("jsonrpc"@.len() == 7);
    assert("id"@.len() == 2);
    if let Some(id) = v.get("id"@) {
        let ms = reply_json(Some(id), outcome)->0->Obj_0;
        assert(ms.skip(1)[0] == ms[1]);
        assert(member_at_second(ms, "id"@));
    }
}

/// Whether a member is found behind one of another name.
spec fn member_at_second(ms: Seq<(Seq<char>, JsonV)>, key: Seq<char>) -> bool {
    crate::json::member_of(ms, key) == crate::json::member_of(ms.skip(1), key)
}

/// A failed tool is an answered call: its message comes as content that is
/// marked as an error.
pub proof fn law_failed_tool_is_answered(message: Seq<char>)
    ensures
        tool_result(Err(message)) == JsonV::Obj(
            seq![
                ("content"@, JsonV::Arr(seq![content_json(message)])),
                ("isError"@, JsonV::Bool(true)),
            ],
        ),
{
}

/// Each method is answered for what it is: the greeting with the version asked
/// for, a ping with nothing, the lists with their catalogs. A tool is called by
/// the name and with the arguments given, a resource read by its address.
pub proof fn law_methods_are_routed(params: JsonV, name: Seq<char>, args: JsonV)
    ensures
        routed("initialize"@, params) == RouteV::Answer(Ok(initialize_json(params))),
        routed("ping"@, params) == RouteV::Answer(Ok(JsonV::Obj(Seq::empty()))),
        routed("tools/list"@, params) == RouteV::Answer(
            Ok(JsonV::Obj(seq![("tools"@, tool_catalog_json())])),
        ),
        routed("resources/list"@, params) == RouteV::Answer(
            Ok(JsonV::Obj(seq![("resources"@, resource_catalog_json())])),
        ),
        params.str_at("name"@) == Some(name) && params.get("arguments"@) == Some(args) ==> routed(
            "tools/call"@,
            params,
        ) == (RouteV::CallTool { name, args }),
        params.str_at("name"@) == Some(name) && params.get("arguments"@) is None ==> routed(
            "tools/call"@,
            params,
        ) == (RouteV::CallTool { name, args: JsonV::Obj(Seq::empty()) }),
        params.str_at("name"@) is None ==> (routed("tools/call"@, params) matches RouteV::Answer(r)
            && r is Err),
        params.str_at("uri"@) == Some(name) ==> routed("resources/read"@, params) == (
        RouteV::ReadResource { uri: name }),
        params.str_at("uri"@) is None ==> (routed("resources/read"@, params) matches
            RouteV::Answer(r) && r is Err),
{
    reveal_strlit("initialize");
    reveal_strlit("ping");
    reveal_strlit("tools/list");
    reveal_strlit("resources/list");
    reveal_strlit("resources/templates/list");
    reveal_strlit("prompts/list");
    reveal_strlit("tools/call");
    reveal_strlit("resources/read");
    assert("initialize"@[0] == 'i' && "ping"@[0] == 'p');
    assert("tools/list"@[0] == 't' && "tools/list"@[6] == 'l');
    assert("tools/call"@[0] == 't' && "tools/call"@[6] == 'c');
    assert("resources/list"@[0] == 'r' && "resources/list"@[10] == 'l');
    assert("resources/read"@[0] == 'r' && "resources/read"@[10] == 'r');
    assert("resources/templates/list"@[0] == 'r' && "resources/templates/list"@[10] == 't');
    assert("prompts/list"@[0] == 'p' && "prompts/list"@.len() == 12);
    assert("ping"@.len() == 4 && "initialize"@.len() == 10);
}

/// A message is handled by its method and answered under its id: what it asks
/// for goes by its `method` and `params` members.
pub proof fn law_messages_say_what_they_want(v: JsonV, method: Seq<char>, params: JsonV)
    ensures
        v.str_at("method"@) == Some(method) && v.get("params"@) == Some(params) ==> pending_of(
            v,
        ).route == routed(method, params),
        pending_of(v).id == v.get("id"@),
{
}

/// The version of the protocol is the one that the other side asks for.
pub proof fn law_protocol_version_is_echoed(params: JsonV, version: Seq<char>)
    ensures
        params.str_at("protocolVersion"@) == Some(version) ==> initialize_json(params).get(
            "protocolVersion"@,
        ) == Some(JsonV::Str(version)),
{
}

/// Failures are told by the codes of the protocol: a method that is not known, a
/// call without what it needs, a resource that could not be read. A notification
/// is taken without a word, whichever it is.
pub proof fn law_failures_have_their_codes(
    method: Seq<char>,
    rest: Seq<char>,
    params: JsonV,
    uri: Seq<char>,
    why: Seq<char>,
    id: JsonV,
)
    ensures
        !seq![
            "initialize"@,
            "ping"@,
            "tools/list"@,
            "resources/list"@,
            "resources/templates/list"@,
            "prompts/list"@,
            "tools/call"@,
            "resources/read"@,
        ].contains(method) && !(method.len() >= 14 && method.take(14) == "notifications/"@) ==> (
        routed(method, params) matches RouteV::Answer(r) && (r matches Err(e) && e.0 == -32601)),
        routed("notifications/"@ + rest, params) == RouteV::Answer(Ok(JsonV::Null)),
        params.str_at("name"@) is None ==> (routed("tools/call"@, params) matches RouteV::Answer(r)
            && (r matches Err(e) && e.0 == -32602)),
        params.str_at("uri"@) is None ==> (routed("resources/read"@, params) matches
            RouteV::Answer(r) && (r matches Err(e) && e.0 == -32602)),
        resource_result(uri, Err(why)) == Err::<JsonV, (i64, Seq<char>)>((-32603i64, why)),
        reply_json(Some(id), Err((-32601i64, why))) == Some(error_json(id, -32601i64, why)),
{
    law_methods_are_routed(params, uri, id);
    reveal_strlit("initialize");
    reveal_strlit("ping");
    reveal_strlit("tools/list");
    reveal_strlit("resources/list");
    reveal_strlit("resources/templates/list");
    reveal_strlit("prompts/list");
    reveal_strlit("tools/call");
    reveal_strlit("resources/read");
    reveal_strlit("notifications/");
    let known = seq![
        "initialize"@,
        "ping"@,
        "tools/list"@,
        "resources/list"@,
        "resources/templates/list"@,
        "prompts/list"@,
        "tools/call"@,
        "resources/read"@,
    ];
    assert(known[0] == "initialize"@ && known[1] == "ping"@ && known[2] == "tools/list"@);
    assert(known[3] == "resources/list"@ && known[4] == "resources/templates/list"@);
    assert(known[5] == "prompts/list"@ && known[6] == "tools/call"@);
    assert(known[7] == "resources/read"@);
    let note = "notifications/"@ + rest;
    assert(note.take(14) =~= "notifications/"@);
    assert(note[0] == 'n' && "initialize"@[0] == 'i' && "ping"@[0] == 'p');
    assert("tools/list"@[0] == 't' && "tools/call"@[0] == 't' && "prompts/list"@[0] == 'p');
    assert("resources/list"@[0] == 'r' && "resources/read"@[0] == 'r');
    assert("resources/templates/list"@[0] == 'r');
    assert("tools/list"@[6] == 'l' && "tools/call"@[6] == 'c');
    assert("resources/list"@[10] == 'l' && "resources/read"@[10] == 'r');
    assert("tools/call"@.len() == 10 && "resources/read"@.len() == 14);
}

/// A reply carries the id of its message beside the result, or beside the code
/// and the message of the failure. What a resource holds comes under its address;
/// what a tool says comes as a text, with a word on whether it failed.
pub proof fn law_replies_carry_what_is_answered(
    id: JsonV,
    result: JsonV,
    code: i64,
    message: Seq<char>,
    uri: Seq<char>,
    s: Seq<char>,
)
    ensures
        result_json(id, result).get("id"@) == Some(id),
        result_json(id, result).get("result"@) == Some(result),
        result_json(id, result).get("error"@) is None,
        error_json(id, code, message).get("id"@) == Some(id),
        error_json(id, code, message).get("result"@) is None,
        error_json(id, code, message).get("error"@) matches Some(e) && e.get("code"@) == Some(
            JsonV::whole(code as int),
        ) && e.get("message"@) == Some(JsonV::Str(message)),
        contents_json(uri, s).get("contents"@) matches Some(JsonV::Arr(items)) && items.len() == 1
            && items[0].get("uri"@) == Some(JsonV::Str(uri)) && items[0].get("text"@) == Some(
            JsonV::Str(s),
        ),
        content_json(s).get("text"@) == Some(JsonV::Str(s)),
        tool_result(Ok(result)).get("content"@) == Some(
            JsonV::Arr(seq![content_json(json_page(result))]),
        ),
        tool_result(Ok(result)).get("isError"@) == Some(JsonV::Bool(false)),
        tool_result(Err(message)).get("content"@) == Some(JsonV::Arr(seq![content_json(message)])),
        tool_result(Err(message)).get("isError"@) == Some(JsonV::Bool(true)),
{
    reveal_strlit("jsonrpc");
    reveal_strlit("id");
    reveal_strlit("result");
    reveal_strlit("error");
    reveal_strlit("code");
    reveal_strlit("message");
    reveal_strlit("uri");
    reveal_strlit("mimeType");
    reveal_strlit("text");
    reveal_strlit("type");
    reveal_strlit("content");
    reveal_strlit("isError");
    assert("jsonrpc"@.len() == 7 && "id"@.len() == 2 && "result"@.len() == 6);
    assert("error"@.len() == 5 && "code"@.len() == 4 && "message"@.len() == 7);
    assert("uri"@.len() == 3 && "mimeType"@.len() == 8 && "text"@.len() == 4);
    assert("text"@[1] == 'e' && "type"@[1] == 'y');
    assert("content"@[0] == 'c' && "isError"@[0] == 'i');
    let r = result_json(id, result)->Obj_0;
    law_members_are_found_by_name(r, "id"@, 1);
    law_members_are_found_by_name(r, "result"@, 2);
    law_members_are_found_by_name(r, "error"@, 0);
    let e = error_json(id, code, message)->Obj_0;
    law_members_are_found_by_name(e, "id"@, 1);
    law_members_are_found_by_name(e, "error"@, 2);
    law_members_are_found_by_name(e, "result"@, 0);
    let inner = e[2].1->Obj_0;
    law_members_are_found_by_name(inner, "code"@, 0);
    law_members_are_found_by_name(inner, "message"@, 1);
    let items = contents_json(uri, s)->Obj_0[0].1->Arr_0;
    let c = items[0]->Obj_0;
    law_members_are_found_by_name(c, "uri"@, 0);
    law_members_are_found_by_name(c, "text"@, 2);
    law_members_are_found_by_name(content_json(s)->Obj_0, "text"@, 1);
    law_members_are_found_by_name(tool_result(Ok(result))->Obj_0, "isError"@, 1);
    law_members_are_found_by_name(tool_result(Err(message))->Obj_0, "isError"@, 1);
}

} // verus!
