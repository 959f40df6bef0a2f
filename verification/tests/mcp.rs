//! Driving the application from an agent: tools, resources and messages.

use reclass::app_state::AppState;
use reclass::catalog::tools;
use reclass::json::{obj1, obj2, obj3, Json, Members};
use reclass::mcp::{after_read, can_answer, dispatch, resource, tool, Effect, Op, Step};
use reclass::mcp_args::{
    arg_i32, arg_u64, can_read_hex, hex_decode, hex_encode, kind_to_json, parse_kind, parse_lang, parse_u64,
    write_bytes, Language,
};
use reclass::node::{IntWidth, Node, NodeKind};
use reclass::rpc::{finish_rpc, forwarded_op, handle_rpc, take_request, tool_reply, Incoming, Route};

fn no_kind() -> Result<NodeKind, String> {
    Err("not a kind".to_string())
}

/// The kind that an argument object spells out, as far as these tests use it.
fn decoded(a: &Json) -> Result<NodeKind, String> {
    let array = a.get("kind").and_then(|k| k.get("Array"));
    match array.and_then(|x| x.get("count")).and_then(|c| c.as_u64()) {
        Some(n) => Ok(NodeKind::Array {
            element: Box::new(NodeKind::Hex(IntWidth::W64)),
            count: n as usize,
        }),
        None => no_kind(),
    }
}

/// Run a tool that answers from the state alone.
fn run(state: &mut AppState, name: &str, args: &Json) -> Result<Json, String> {
    assert!(can_answer(state, name, args));
    match tool(state, name, args, decoded(args)) {
        Step::Reply(r) => r,
        Step::Need(e) => Err(format!("needs {e:?}")),
    }
}

fn empty() -> Json {
    Members::new().done()
}

#[test]
fn every_advertised_tool_is_handled() {
    // An empty-args call to each tool must not hit the unknown-tool arm.
    let mut state = AppState::new();
    for t in tools() {
        let name = t.name();
        let err = run(&mut state, name, &empty()).err().unwrap_or_default();
        assert_ne!(
            err,
            format!("unknown tool: {name}"),
            "tool `{name}` has no handler"
        );
    }
    assert_eq!(
        run(&mut state, "fly", &empty()).unwrap_err(),
        "unknown tool: fly"
    );
}

#[test]
fn create_add_and_read_back_a_class() {
    let mut state = AppState::new();
    let created = run(&mut state, "create_class", &obj1("name", Json::text("Player"))).unwrap();
    let id = created.get("id").unwrap().as_u64().unwrap();

    run(
        &mut state,
        "add_node",
        &obj3(
            "class_id",
            Json::num(id),
            "kind",
            Json::text("f32"),
            "name",
            Json::text("health"),
        ),
    )
    .unwrap();
    run(
        &mut state,
        "add_node",
        &obj2("class_id", Json::num(id), "kind", Json::text("u32")),
    )
    .unwrap();
    // complex kind via serde object
    let array = obj1(
        "Array",
        obj2(
            "element",
            obj1("Hex", Json::text("W64")),
            "count",
            Json::num(4),
        ),
    );
    run(
        &mut state,
        "add_node",
        &obj2("class_id", Json::num(id), "kind", array),
    )
    .unwrap();

    let class = run(&mut state, "get_class", &obj1("id", Json::num(id))).unwrap();
    let nodes = class.get("nodes").unwrap().as_array().unwrap();
    assert_eq!(nodes.len(), 3);
    assert_eq!(nodes[0].str_at("name"), Some("health"));
    assert_eq!(nodes[0].get("offset").unwrap().as_u64(), Some(0));
    assert_eq!(nodes[1].get("offset").unwrap().as_u64(), Some(4)); // after the f32
    assert_eq!(class.str_at("name"), Some("Player"));
    assert_eq!(class.get("size").unwrap().as_u64(), Some(40));
}

#[test]
fn kind_shorthand_and_errors() {
    assert_eq!(
        parse_kind(&Json::text("u64"), no_kind()).unwrap(),
        NodeKind::UInt(IntWidth::W64)
    );
    assert_eq!(
        parse_kind(&Json::text("ptr"), no_kind()).unwrap(),
        NodeKind::Pointer
    );
    assert!(parse_kind(&Json::text("nonsense"), no_kind()).is_err());
    assert_eq!(parse_u64("0x10").unwrap(), 16);
    assert_eq!(parse_u64("42").unwrap(), 42);
    assert_eq!(hex_encode(&vec![0xde, 0xad]), "dead");
    assert_eq!(hex_decode("dead").unwrap(), vec![0xde, 0xad]);
    assert!(hex_decode("abc").is_err());
}

#[test]
fn a_bad_number_is_refused_in_the_words_of_std() {
    let std = u64::from_str_radix("12z", 10).unwrap_err().to_string();
    let ours = parse_u64("12z").unwrap_err();
    assert!(ours.contains(&std), "{ours}");
    let std = u64::from_str_radix("zz", 16).unwrap_err().to_string();
    let ours = parse_u64("0xzz").unwrap_err();
    assert!(ours.contains(&std), "{ours}");
    let std = u8::from_str_radix("zz", 16).unwrap_err().to_string();
    let ours = hex_decode("zz").unwrap_err();
    assert!(ours.contains(&std), "{ours}");
    let std = "4x".parse::<i32>().unwrap_err().to_string();
    let ours = arg_i32(&obj1("pid", Json::text("4x")), "pid").unwrap_err();
    assert!(ours.contains(&std), "{ours}");
}

#[test]
fn numbers_may_be_text() {
    let a = obj2("addr", Json::text("0x20"), "n", Json::num(7));
    assert_eq!(arg_u64(&a, "addr").unwrap(), 0x20);
    assert_eq!(arg_u64(&a, "n").unwrap(), 7);
    assert!(arg_u64(&a, "missing").is_err());
}

#[test]
fn bytes_come_as_hex_or_as_a_list() {
    assert_eq!(
        write_bytes(&obj1("bytes", Json::array(vec![Json::num(1), Json::num(255)]))).unwrap(),
        vec![1, 255]
    );
    assert_eq!(
        write_bytes(&obj1("hex", Json::text("00ff"))).unwrap(),
        vec![0, 255]
    );
    assert!(write_bytes(&obj1("bytes", Json::array(vec![Json::num(256)]))).is_err());
    assert!(write_bytes(&empty()).is_err());
    // cutting at the third byte would part the last character
    assert!(!can_read_hex("abc\u{e9}7"));
    // a wide character in the place of two digits is no byte
    assert!(can_read_hex("ab\u{e9}"));
    assert!(hex_decode("ab\u{e9}").is_err());
    assert_eq!(hex_decode("abc\u{20ac}7\u{e9}").unwrap_err(), "hex string has odd length");
    // space around the digits is no part of them, whatever its width
    assert_eq!(hex_decode("\u{a0}0xbeef\u{2003}").unwrap(), vec![0xbe, 0xef]);
    // capitals write the same bytes, and so do both at once
    let bytes = vec![0x0a, 0xf5, 0xde];
    let small = hex_encode(&bytes);
    assert_eq!(small, "0af5de");
    for digits in [small.clone(), small.to_ascii_uppercase(), "0aF5De".to_string()] {
        for text in [digits.clone(), format!("0x{digits}"), format!(" 0X{digits}\n")] {
            assert!(can_read_hex(&text));
            assert_eq!(hex_decode(&text).unwrap(), bytes);
        }
    }
    assert_eq!(parse_lang("CPP").unwrap(), Language::Cpp);
    assert!(parse_lang("perl").is_err());
}

#[test]
fn memory_is_left_to_the_shell() {
    let mut state = AppState::new();
    let args = obj2("address", Json::text("0x1000"), "size", Json::num(4));
    // detached: refused
    assert!(run(&mut state, "read_memory", &args).is_err());
    state.set_backend(None);
    match tool(&mut state, "read_memory", &args, no_kind()) {
        Step::Need(Effect::ReadMemory { addr, size }) => {
            assert_eq!((addr, size), (0x1000, 4));
        }
        other => panic!("{other:?}"),
    }
    let r = after_read(0x1000, 4, Ok(vec![1, 2, 3, 0xff])).unwrap();
    assert_eq!(r.str_at("hex"), Some("010203ff"));
    assert!(after_read(0x1000, 4, Err("unmapped".to_string())).is_err());
}

#[test]
fn an_agents_edits_can_be_undone() {
    let mut state = AppState::new();
    run(&mut state, "create_class", &obj1("name", Json::text("C"))).unwrap();
    run(
        &mut state,
        "add_node",
        &obj2("class_id", Json::num(0), "kind", Json::text("u8")),
    )
    .unwrap();
    let before = state.undo_depth();
    let mut m = Members::new();
    m.put("class_id", Json::num(0));
    m.put("index", Json::num(0));
    m.put("kind", Json::text("u16"));
    run(&mut state, "insert_node", &m.done()).unwrap();
    assert_eq!(state.registry().get(0).unwrap().nodes.len(), 2);
    assert_eq!(state.undo_depth(), before + 1);
    assert!(state.undo());
    assert_eq!(state.registry().get(0).unwrap().nodes.len(), 1);
}

#[test]
fn resources_are_read() {
    let state = AppState::new();
    match resource(&state, "reclass://nowhere") {
        Step::Reply(r) => assert!(r.is_err()),
        other => panic!("{other:?}"),
    }
}

/// Answer one message, with a state that answers tools by itself.
fn answer(state: &mut AppState, body: &str) -> Option<serde_json::Value> {
    let pending = match take_request(true, Some(body.to_string())) {
        Incoming::Message { pending } => pending,
        other => panic!("{other:?}"),
    };
    let reply = match forwarded_op(&pending.route) {
        Some(op) => {
            let kind = match &op {
                Op::Tool { args, .. } => decoded(args),
                Op::Resource { .. } => no_kind(),
            };
            let outcome = match dispatch(state, &op, kind) {
                Step::Reply(r) => r,
                Step::Need(e) => Err(format!("needs {e:?}")),
            };
            finish_rpc(pending.id, Ok(tool_reply(outcome)))
        }
        None => match pending.route {
            Route::Answer(r) => finish_rpc(pending.id, r),
            other => panic!("{other:?}"),
        },
    };
    reply.map(|text| serde_json::from_str(&text).unwrap())
}

#[test]
fn a_client_session() {
    let mut state = AppState::new();
    let init = answer(
        &mut state,
        r#"{"jsonrpc":"2.0","id":1,"method":"initialize","params":{"protocolVersion":"2025-06-18"}}"#,
    )
    .unwrap();
    assert_eq!(init["result"]["serverInfo"]["name"], "reclass-rs");
    assert_eq!(init["id"], 1);

    // tools/list carries the catalog
    let list = answer(&mut state, r#"{"jsonrpc":"2.0","id":2,"method":"tools/list"}"#).unwrap();
    let names: Vec<&str> = list["result"]["tools"]
        .as_array()
        .unwrap()
        .iter()
        .map(|t| t["name"].as_str().unwrap())
        .collect();
    assert!(names.contains(&"create_class"));
    assert!(names.contains(&"add_node"));

    // create a class via tools/call
    let created = answer(
        &mut state,
        r#"{"jsonrpc":"2.0","id":3,"method":"tools/call","params":{"name":"create_class","arguments":{"name":"Enemy"}}}"#,
    )
    .unwrap();
    assert_eq!(created["result"]["isError"], false);

    // add a field, then read the class back
    answer(
        &mut state,
        r#"{"jsonrpc":"2.0","id":4,"method":"tools/call","params":{"name":"add_node","arguments":{"class_id":0,"kind":"f32","name":"health"}}}"#,
    );
    let class = answer(
        &mut state,
        r#"{"jsonrpc":"2.0","id":5,"method":"tools/call","params":{"name":"get_class","arguments":{"id":0}}}"#,
    )
    .unwrap();
    let text = class["result"]["content"][0]["text"].as_str().unwrap();
    let parsed: serde_json::Value = serde_json::from_str(text).unwrap();
    assert_eq!(parsed["name"], "Enemy");
    assert_eq!(parsed["nodes"][0]["name"], "health");

    // a failing tool is an answer with the error flag
    let failed = answer(
        &mut state,
        r#"{"jsonrpc":"2.0","id":6,"method":"tools/call","params":{"name":"get_class","arguments":{"id":9}}}"#,
    )
    .unwrap();
    assert_eq!(failed["result"]["isError"], true);

    // unknown method → JSON-RPC error object
    let err = answer(&mut state, r#"{"jsonrpc":"2.0","id":7,"method":"does/not/exist"}"#).unwrap();
    assert_eq!(err["error"]["code"], -32601);

    // a notification gets no reply
    assert!(answer(&mut state, r#"{"jsonrpc":"2.0","method":"notifications/initialized"}"#).is_none());
}

#[test]
fn what_is_no_message_is_answered() {
    let err = handle_rpc("{").unwrap_err();
    let v: serde_json::Value = serde_json::from_str(&err).unwrap();
    assert_eq!(v["error"]["code"], -32700);
    match take_request(false, None) {
        Incoming::Text { code, .. } => assert_eq!(code, 405),
        other => panic!("{other:?}"),
    }
}

#[test]
fn a_fractional_id_comes_back_as_the_value_that_was_read() {
    let mut digits: u64 = 88172645463325252;
    for _ in 0..2000 {
        // numbers of up to seventeen digits, all over the place
        digits ^= digits << 13;
        digits ^= digits >> 7;
        digits ^= digits << 17;
        let id = format!("{}.{:017}", digits % 10, digits % 100_000_000_000_000_000);
        let value: serde_json::Value = serde_json::from_str(&id).unwrap();
        let pending = handle_rpc(&format!("{{\"id\":{id},\"method\":\"ping\"}}")).unwrap();
        let outcome = match pending.route {
            Route::Answer(outcome) => outcome,
            other => panic!("{other:?}"),
        };
        let reply = finish_rpc(pending.id, outcome).unwrap();
        let echoed: serde_json::Value = serde_json::from_str(&reply).unwrap();
        assert!(
            reply.contains(&format!("\"id\":{value},")),
            "{id} was read as {value} and answered {reply}"
        );
        assert!(echoed.get("result").is_some());
    }
}

#[test]
fn a_carried_kind_keeps_its_size_and_its_text() {
    let text = "{\"Enum\":{\"variants\":[[\"Idle\",0],[\"Run\",1]],\"width\":\"W32\"}}";
    let kind = NodeKind::Other {
        size: 4,
        text: text.to_string(),
    };
    assert_eq!(kind.fixed_size(), 4);
    assert_eq!(kind.inline_class(), None);
    assert_eq!(kind.referenced_class(), None);
    assert_eq!(kind.dup(), kind);

    let mut state = AppState::new();
    let c = state.add_class("C");
    state.push_node(c, Node::new("mode", kind.dup())).unwrap();
    let many = NodeKind::Array {
        element: Box::new(kind.dup()),
        count: 3,
    };
    state.push_node(c, Node::new("modes", many)).unwrap();
    assert_eq!(state.registry().size_of(c), 16);
    let class = run(&mut state, "get_class", &obj1("id", Json::num(c as u64))).unwrap();
    let nodes = class.get("nodes").unwrap().as_array().unwrap();
    let table = nodes[0].get("kind").unwrap().get("Enum").unwrap();
    assert_eq!(table.str_at("width"), Some("W32"));
    assert_eq!(table.get("variants").unwrap().as_array().unwrap().len(), 2);
    assert!(state.undo());
    assert!(state.redo());
    assert_eq!(state.registry().get(c).unwrap().nodes[0].kind, kind);

    // a text that is no JSON is told as it is
    let odd = NodeKind::Other {
        size: 1,
        text: "bits".to_string(),
    };
    assert_eq!(kind_to_json(&odd).as_str(), Some("bits"));
}
