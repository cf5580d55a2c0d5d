use kcell_core::adapters::http::{content_length_text, parse_decimal, request_line_parts};
use kcell_core::adapters::mcp::{route_mcp, tool_call_plan, tool_call_reply, McpRoute};
use kcell_core::adapters::http::{a2a_route, agui_route, request_path, A2aRoute, AguiRoute};
use kcell_core::adapters::bridge::{answer_result, providers_of};
use kcell_core::adapters::agui::run_events;
use kcell_core::adapters::a2a::{route_rpc, send_reply, RpcRoute};
use kcell_core::{
    build_agent_card, decode_tool_name, echo_reply, encode_tool_name, err_result, event_run_error, event_run_finished,
    event_run_started, event_text_content, event_text_end, event_text_start, find_header_end, get_member,
    initialize_result, is_notification, json_str, ok_result, payload_from_message, payload_from_messages, resolve_ids,
    rpc_error, rpc_ok, skills_from_providers, CardConfig, JsonNumber, JsonRpcRequest, JsonValue, Message, RunAgentInput,
    RunIds,
};

fn s(t: &str) -> JsonValue {
    JsonValue::Str(t.into())
}

fn n(v: u64) -> JsonValue {
    JsonValue::Number(JsonNumber::Unsigned(v))
}

fn obj(fields: Vec<(&str, JsonValue)>) -> JsonValue {
    JsonValue::Object(fields.into_iter().map(|(k, v)| (k.to_string(), v)).collect())
}

fn at<'a>(v: &'a JsonValue, key: &str) -> &'a JsonValue {
    get_member(v, key).expect("member")
}

fn items(v: &JsonValue) -> &Vec<JsonValue> {
    match v {
        JsonValue::Array(a) => a,
        other => panic!("not an array: {other:?}"),
    }
}

#[test]
fn tool_name_roundtrip() {
    assert_eq!(encode_tool_name("echo-cell", "echo"), "echo-cell__echo");
    assert_eq!(decode_tool_name("echo-cell__echo"), Some(("echo-cell".into(), "echo".into())));
    assert!(decode_tool_name("nounderscore").is_none());
    assert!(decode_tool_name("__echo").is_none());
    assert!(decode_tool_name("cell__").is_none());
}

#[test]
fn tool_name_refuses_second_separator() {
    assert!(decode_tool_name("a__b__c").is_none());
    assert_eq!(decode_tool_name("a___b"), Some(("a".into(), "_b".into())));
}

#[test]
fn skills_from_discover_json() {
    let provider = |cell: &str, cap: &str, ver: &str| {
        obj(vec![("cell", s(cell)), ("capability", s(cap)), ("capabilityVersion", s(ver))])
    };
    let providers = JsonValue::Array(vec![
        provider("echo-cell", "echo", "1"),
        provider("other", "echo", "1"),
        provider("brain", "llm", "2"),
    ]);
    let skills = skills_from_providers(&providers);
    assert_eq!(skills.len(), 2);
    assert_eq!(at(&skills[0], "id"), &s("echo"));
    assert_eq!(at(&skills[1], "id"), &s("llm"));
    assert_eq!(at(&skills[1], "description"), &s("KCell capability `llm@2` (e.g. from cell `brain`)"));

    let card = build_agent_card(
        &CardConfig { name: "kcell-a2a", description: "test", url: "http://127.0.0.1:3457", version: "0.1.0" },
        &providers,
    );
    assert_eq!(at(&card, "protocolVersion"), &s("0.3.0"));
    assert_eq!(at(at(&card, "capabilities"), "streaming"), &JsonValue::Bool(false));
    assert_eq!(items(at(&card, "skills")).len(), 2);
}

#[test]
fn payload_from_text_and_json() {
    let part = |kind_key: &str, text: &str| obj(vec![(kind_key, s("text")), ("text", s(text))]);
    let msg = obj(vec![
        ("messageId", s("m1")),
        ("role", s("user")),
        ("parts", JsonValue::Array(vec![part("kind", "hello")])),
    ]);
    assert_eq!(payload_from_message(&msg, None).unwrap(), obj(vec![("text", s("hello"))]));

    let msg2 = obj(vec![("parts", JsonValue::Array(vec![part("type", "{\"ping\":true}")]))]);
    let parsed = obj(vec![("ping", JsonValue::Bool(true))]);
    assert_eq!(payload_from_message(&msg2, Some(parsed)).unwrap(), obj(vec![("ping", JsonValue::Bool(true))]));
}

#[test]
fn payload_from_message_refusals_and_joining() {
    assert_eq!(payload_from_message(&obj(vec![]), None).unwrap_err(), "message.parts required");
    let no_text = obj(vec![("parts", JsonValue::Array(vec![obj(vec![("kind", s("file"))])]))]);
    assert_eq!(payload_from_message(&no_text, None).unwrap_err(), "message requires a text part");
    let two = obj(vec![(
        "parts",
        JsonValue::Array(vec![
            obj(vec![("kind", s("text")), ("text", s("a"))]),
            obj(vec![("kind", s("text")), ("text", s("b"))]),
        ]),
    )]);
    assert_eq!(payload_from_message(&two, Some(n(3))).unwrap(), obj(vec![("text", s("a\nb"))]));
}

#[test]
fn rpc_envelopes() {
    let ok = rpc_ok(Some(n(1)), obj(vec![("id", s("task-1"))]));
    assert_eq!(at(at(&ok, "result"), "id"), &s("task-1"));
    let err = rpc_error(Some(n(2)), -32601, "nope");
    assert_eq!(at(at(&err, "error"), "code"), &JsonValue::Number(JsonNumber::Signed(-32601)));
    assert_eq!(at(&err, "jsonrpc"), &s("2.0"));
}

#[test]
fn rpc_routes() {
    let bad = obj(vec![("jsonrpc", s("1.0")), ("id", n(7))]);
    match route_rpc(&bad) {
        RpcRoute::Reply(r) => assert_eq!(at(at(&r, "error"), "code"), &JsonValue::Number(JsonNumber::Signed(-32600))),
        RpcRoute::Send { .. } => panic!("sent a bad request"),
    }
    let unknown = obj(vec![("jsonrpc", s("2.0")), ("id", n(7)), ("method", s("tasks/get"))]);
    match route_rpc(&unknown) {
        RpcRoute::Reply(r) => assert_eq!(at(at(&r, "error"), "message"), &s("method not found: tasks/get")),
        RpcRoute::Send { .. } => panic!("sent an unknown method"),
    }
    let send = obj(vec![("jsonrpc", s("2.0")), ("id", n(7)), ("method", s("message/send"))]);
    match route_rpc(&send) {
        RpcRoute::Send { id, params } => {
            assert_eq!(id, Some(n(7)));
            assert_eq!(params, JsonValue::Null);
            let reply = send_reply(id, Err("invoke failed".into()));
            assert_eq!(at(at(&reply, "error"), "code"), &JsonValue::Number(JsonNumber::Signed(-32000)));
        },
        RpcRoute::Reply(r) => panic!("answered {r:?}"),
    }
}

#[test]
fn payload_from_user_text() {
    let msgs = vec![
        Message { role: "system".into(), content: s("ignore") },
        Message { role: "user".into(), content: s("hello") },
    ];
    assert_eq!(payload_from_messages(&msgs, None).unwrap(), obj(vec![("text", s("hello"))]));
}

#[test]
fn payload_from_user_json_string() {
    let msgs = vec![Message { role: "user".into(), content: s("{\"ping\":true}") }];
    let parsed = obj(vec![("ping", JsonValue::Bool(true))]);
    assert_eq!(payload_from_messages(&msgs, Some(parsed)).unwrap(), obj(vec![("ping", JsonValue::Bool(true))]));
}

#[test]
fn payload_needs_a_user_message() {
    let msgs = vec![Message { role: "system".into(), content: JsonValue::Null }];
    assert_eq!(payload_from_messages(&msgs, None).unwrap_err(), "RunAgentInput requires a user message");
    let nulls = vec![Message { role: "user".into(), content: JsonValue::Null }];
    assert_eq!(payload_from_messages(&nulls, None).unwrap(), obj(vec![]));
}

#[test]
fn event_shapes() {
    let ids = RunIds { thread_id: "t1".into(), run_id: "r1".into(), message_id: "m1".into() };
    assert_eq!(at(&event_run_started(&ids), "type"), &s("RUN_STARTED"));
    assert_eq!(at(&event_text_start(&ids), "role"), &s("assistant"));
    assert_eq!(at(&event_text_content(&ids, "hi"), "delta"), &s("hi"));
    assert_eq!(at(&event_run_finished(&ids), "runId"), &s("r1"));
    assert_eq!(at(&event_run_error(&ids, "x"), "message"), &s("x"));
    assert_eq!(at(&event_text_end(&ids), "messageId"), &s("m1"));
}

#[test]
fn resolve_ids_keeps_given_ids() {
    let input = RunAgentInput { thread_id: Some("t9".into()), run_id: None, messages: vec![] };
    let ids = resolve_ids(&input);
    assert_eq!(ids.thread_id, "t9");
    assert!(ids.run_id.starts_with("run-"));
    assert_eq!(ids.message_id[4..], ids.run_id[4..]);
}

#[test]
fn mcp_responses() {
    let ok = ok_result(Some(n(1)), s("x"));
    assert_eq!(ok.jsonrpc, "2.0");
    assert_eq!(ok.result, Some(s("x")));
    assert!(ok.error.is_none());
    let err = err_result(None, -32601, "method not found");
    assert!(err.result.is_none());
    let e = err.error.unwrap();
    assert_eq!(e.code, -32601);
    assert_eq!(e.message, "method not found");
    let init = initialize_result("0.0.1");
    assert_eq!(at(&init, "protocolVersion"), &s("2024-11-05"));
    assert_eq!(at(at(&init, "serverInfo"), "version"), &s("0.0.1"));
    let note = JsonRpcRequest { jsonrpc: "2.0".into(), id: None, method: "initialized".into(), params: None };
    assert!(is_notification(&note));
}

#[test]
fn header_end_found() {
    assert_eq!(find_header_end(b"GET / HTTP/1.1\r\nHost: x\r\n\r\nbody"), Some(23));
    assert_eq!(find_header_end(b"GET / HTTP/1.1\r\n"), None);
    assert_eq!(find_header_end(b""), None);
}

#[test]
fn echo_cell_reads_raw_tokens() {
    let line = "{\"schema\":\"kcell.envelope.v1\",\"correlationId\": \"c-1\",\"capability\":\"echo-wasi\",\"timeoutMs\": 50 }";
    assert_eq!(json_str(line, "correlationId"), Some("\"c-1\"".into()));
    assert_eq!(json_str(line, "timeoutMs"), Some("50".into()));
    assert_eq!(json_str(line, "missing"), None);
    assert_eq!(
        echo_reply(line),
        "{\"schema\":\"kcell.envelope.v1\",\"correlationId\":\"c-1\",\"capability\":\"echo-wasi\",\"payload\":{\"runtime\":\"wasi\",\"ok\":true}}\n"
    );
    assert_eq!(
        echo_reply("{}"),
        "{\"schema\":\"kcell.envelope.v1\",\"correlationId\":\"missing\",\"capability\":\"echo-wasi\",\"payload\":{\"runtime\":\"wasi\",\"ok\":true}}\n"
    );
}

#[test]
fn map_discover_providers() {
    let providers = JsonValue::Array(vec![
        obj(vec![
            ("cell", s("echo-cell")),
            ("cellVersion", s("0.1.0")),
            ("capability", s("echo")),
            ("capabilityVersion", s("1")),
            ("runtime", s("inprocess")),
            ("state", s("active")),
        ]),
        obj(vec![
            ("cell", s("other")),
            ("capability", s("llm")),
            ("capabilityVersion", s("2")),
            ("runtime", s("subprocess")),
            ("state", s("active")),
        ]),
    ]);
    let runtimes = vec![Some("\"inprocess\"".to_string()), Some("\"subprocess\"".to_string())];
    let tools = kcell_core::providers_to_tools(&providers, &runtimes);
    assert_eq!(tools.len(), 2);
    assert_eq!(tools[0].name, "echo-cell__echo");
    assert_eq!(tools[1].name, "other__llm");
    assert!(matches!(at(at(&tools[0].input_schema, "properties"), "payload"), JsonValue::Object(_)));
    assert_eq!(tools[1].description, "KCell capability `llm@2` from cell `other` (\"subprocess\")");
}

#[test]
fn tools_come_sorted_by_name() {
    let entry = |cell: &str, cap: &str| obj(vec![("cell", s(cell)), ("capability", s(cap))]);
    let providers = JsonValue::Array(vec![entry("zeta", "b"), entry("", "x"), entry("alpha", "a"), entry("zeta", "a")]);
    let tools = kcell_core::providers_to_tools(&providers, &vec![]);
    let names: Vec<&str> = tools.iter().map(|t| t.name.as_str()).collect();
    assert_eq!(names, vec!["alpha__a", "zeta__a", "zeta__b"]);
    assert_eq!(tools[0].description, "KCell capability `a@?` from cell `alpha` (?)");
}

#[test]
fn mcp_routes_requests() {
    let req = |id: Option<JsonValue>, method: &str, params: Option<JsonValue>| JsonRpcRequest {
        jsonrpc: "2.0".into(),
        id,
        method: method.into(),
        params,
    };
    assert!(matches!(route_mcp(&req(None, "notifications/initialized", None), "0.0.1"), McpRoute::Ignore));
    match route_mcp(&req(Some(n(1)), "tools/call", Some(obj(vec![]))), "0.0.1") {
        McpRoute::Reply(r) => assert_eq!(r.error.unwrap().code, -32602),
        _ => panic!("a call without a name was routed"),
    }
    match route_mcp(&req(Some(n(2)), "tools/call", Some(obj(vec![("name", s("echo-cell__echo"))]))), "0.0.1") {
        McpRoute::CallTool { name, arguments, .. } => {
            assert_eq!(name, "echo-cell__echo");
            assert_eq!(arguments, obj(vec![]));
        },
        _ => panic!("a call was not routed to the tool"),
    }
    match route_mcp(&req(Some(n(3)), "resources/list", None), "0.0.1") {
        McpRoute::Reply(r) => assert_eq!(r.error.unwrap().message, "method not found: resources/list"),
        _ => panic!("an unknown method was routed"),
    }
    assert_eq!(
        tool_call_plan("nope", &obj(vec![])).unwrap_err(),
        "invalid tool name `nope` (expect cell__capability)"
    );
    let (cell, cap, payload) = tool_call_plan("echo-cell__echo", &obj(vec![("payload", n(5))])).unwrap();
    assert_eq!((cell.as_str(), cap.as_str(), payload), ("echo-cell", "echo", n(5)));
    let failed = tool_call_reply(Some(n(4)), Err("boom".into()));
    assert_eq!(at(failed.result.as_ref().unwrap(), "isError"), &JsonValue::Bool(true));
}

#[test]
fn http_routes() {
    assert_eq!(request_path("/agent?x=1"), "/agent");
    assert_eq!(agui_route("POST", "/agent?x=1"), AguiRoute::Agent);
    assert_eq!(agui_route("GET", "/agent"), AguiRoute::NotFound);
    assert_eq!(a2a_route("GET", "/.well-known/agent.json"), A2aRoute::Card);
    assert_eq!(a2a_route("POST", "/a2a"), A2aRoute::Rpc);
    assert_eq!(a2a_route("GET", "/health"), A2aRoute::Health);
}

#[test]
fn control_answers_for_bridges() {
    let ok = obj(vec![("ok", JsonValue::Bool(true)), ("result", obj(vec![("providers", JsonValue::Array(vec![n(1)]))]))]);
    let result = answer_result(&ok, "discover failed").unwrap();
    assert_eq!(providers_of(&result), JsonValue::Array(vec![n(1)]));
    assert_eq!(providers_of(&obj(vec![])), JsonValue::Array(vec![]));
    let refused = obj(vec![("ok", JsonValue::Bool(false))]);
    assert_eq!(answer_result(&refused, "invoke failed").unwrap_err(), "invoke failed");
    let with_error = obj(vec![("ok", JsonValue::Bool(false)), ("error", s("no route"))]);
    assert_eq!(answer_result(&with_error, "invoke failed").unwrap_err(), "no route");
}

#[test]
fn run_events_follow_the_outcome() {
    let ids = RunIds { thread_id: "t".into(), run_id: "r".into(), message_id: "m".into() };
    let done = run_events(&ids, Ok("reply".into()));
    assert_eq!(done.len(), 4);
    assert_eq!(at(&done[1], "delta"), &s("reply"));
    assert_eq!(at(&done[3], "type"), &s("RUN_FINISHED"));
    let failed = run_events(&ids, Err("down".into()));
    assert_eq!(failed.len(), 1);
    assert_eq!(at(&failed[0], "message"), &s("down"));
}

#[test]
fn framing_reads_headers_and_request_lines() {
    assert_eq!(content_length_text("Content-Length: 42").as_deref(), Some("42"));
    assert_eq!(content_length_text("content-length:7  ").as_deref(), Some("7"));
    assert_eq!(content_length_text("Content-Type: text/plain"), None);
    assert_eq!(parse_decimal("42"), Some(42));
    assert_eq!(parse_decimal("+5"), Some(5));
    assert_eq!(parse_decimal(""), None);
    assert_eq!(parse_decimal("4x"), None);
    assert_eq!(parse_decimal("99999999999999999999999"), None);
    assert_eq!(request_line_parts("POST /agent HTTP/1.1"), Ok(("POST".to_string(), "/agent".to_string())));
    assert_eq!(request_line_parts("GET"), Err("missing path".to_string()));
    assert_eq!(request_line_parts("   "), Err("missing method".to_string()));
}

#[test]
fn paths_join_as_std_does() {
    assert_eq!(kcell_core::default_stem_dir("/work"), "/work/templates/stem-cell");
    assert_eq!(kcell_core::default_stem_dir("/work/"), "/work/templates/stem-cell");
    assert_eq!(kcell_core::default_stem_dir(""), "templates/stem-cell");
}
