use mini_agent::json::{parse, render, Json};
use mini_agent::mcp::{
    answer_text, call_params, headers_for, http_answer, http_headers, http_url, initialize_params,
    is_safe_variable, line_payload, looks_like_header, normalize_schema, parse_sse_json,
    plan_connection, prefixed_name, prefixed_names, request_text, sanitize_name, settle, stdio_step,
    tool_result, tool_schema, unreadable_answer, ConnectPlan, McpClientManager, McpServer, McpTool,
    McpTransport, RpcError, RpcResponse, StdioEvent, StdioStep, ToolContent,
};
use mini_agent::models::McpServerConfig;

fn pair(k: &str, v: &str) -> (String, String) {
    (k.to_string(), v.to_string())
}

fn config() -> McpServerConfig {
    McpServerConfig {
        command: None,
        args: None,
        url: None,
        env: vec![pair("Authorization", "a"), pair("PATH", "p"), pair("X-Key", "x")],
        headers: vec![],
        timeout: 1,
        connect_timeout: 1,
        transport_type: String::new(),
    }
}

fn content(kind: &str, text: Option<&str>) -> ToolContent {
    ToolContent { content_type: kind.to_string(), text: text.map(|t| t.to_string()) }
}

#[test]
fn names_are_sanitized() {
    assert_eq!(sanitize_name("My Server.v2"), "my_server_v2");
    assert_eq!(sanitize_name("a..b"), "a__b");
    assert_eq!(sanitize_name("Ünï_1"), "ünï_1");
    assert_eq!(prefixed_name("time", "get-time"), "mcp_time_get_time");
}

#[test]
fn connections_are_planned() {
    assert!(matches!(plan_connection(&config(), true), ConnectPlan::Connected));
    assert!(matches!(plan_connection(&config(), false), ConnectPlan::Nothing));
    let mut c = config();
    c.url = Some("http://x".to_string());
    c.transport_type = "Streamable-HTTP".to_string();
    match plan_connection(&c, false) {
        ConnectPlan::Http { url, headers, streamable } => {
            assert_eq!(url, "http://x");
            assert_eq!(headers, vec![pair("Authorization", "a"), pair("X-Key", "x")]);
            assert!(streamable);
        }
        _ => panic!("expected HTTP"),
    }
    c.command = Some("run".to_string());
    c.args = Some(vec!["a".to_string()]);
    match plan_connection(&c, false) {
        ConnectPlan::Stdio { command, args } => {
            assert_eq!(command, "run");
            assert_eq!(args, vec!["a".to_string()]);
        }
        _ => panic!("expected a process"),
    }
    assert_eq!(headers_for(&vec![pair("H", "v")], &c.env), vec![pair("H", "v")]);
    assert!(looks_like_header("x-a"));
    assert!(!looks_like_header("path"));
}

#[test]
fn few_variables_are_handed_on() {
    for k in ["PATH", "HOME", "USER", "LANG", "LC_ALL", "TERM", "SHELL", "TMPDIR", "XDG_DATA"].iter() {
        assert!(is_safe_variable(k));
    }
    assert!(!is_safe_variable("OPENAI_API_KEY"));
    assert!(!is_safe_variable("path"));
}

#[test]
fn requests_are_written_out() {
    assert_eq!(
        request_text(7, "tools/list", &None),
        r#"{"jsonrpc":"2.0","id":7,"method":"tools/list"}"#
    );
    let params = call_params("t", parse("{\"x\":1}").unwrap());
    assert_eq!(
        request_text(8, "tools/call", &Some(params)),
        r#"{"jsonrpc":"2.0","id":8,"method":"tools/call","params":{"arguments":{"x":1},"name":"t"}}"#
    );
    assert_eq!(
        render(&initialize_params()),
        r#"{"capabilities":{},"clientInfo":{"name":"mini-agent","version":"0.1.0"},"protocolVersion":"2024-11-05"}"#
    );
    assert_eq!(http_url("http://x/", false), "http://x/message");
    assert_eq!(http_url("http://x/", true), "http://x");
    assert_eq!(
        http_headers(true, &Some("s".to_string()), &vec![pair("H", "v")]),
        vec![
            pair("Accept", "application/json, text/event-stream"),
            pair("Mcp-Session-Id", "s"),
            pair("H", "v")
        ]
    );
    assert_eq!(http_headers(false, &None, &vec![]).len(), 0);
}

#[test]
fn request_numbers_count_up() {
    let mut s = McpServer::new("n", McpTransport::Stdio, 5);
    assert_eq!(s.next_id(), 1);
    assert_eq!(s.next_id(), 2);
    s.request_id = u64::MAX;
    assert_eq!(s.next_id(), u64::MAX);
    assert_eq!(s.next_id(), 0);
}

#[test]
fn sessions_are_kept() {
    let http = McpTransport::Http {
        base_url: "u".to_string(),
        headers: vec![],
        streamable: true,
        session_id: None,
    };
    let mut s = McpServer::new("n", http, 5);
    s.set_session(Some("one".to_string()));
    s.set_session(None);
    assert!(matches!(&s.transport, McpTransport::Http { session_id: Some(id), .. } if id == "one"));
}

fn answer(id: Option<u64>, result: Option<Json>, error: Option<RpcError>) -> RpcResponse {
    RpcResponse { id, result, error }
}

#[test]
fn answers_are_settled() {
    assert_eq!(render(&settle(answer(None, Some(Json::Bool(true)), None)).unwrap()), "true");
    assert_eq!(render(&settle(answer(None, None, None)).unwrap()), "null");
    let e = RpcError { code: -32601, message: "no method".to_string() };
    assert_eq!(settle(answer(None, None, Some(e))).err(), Some("MCP error -32601: no method".to_string()));
}

#[test]
fn only_the_own_answer_ends_a_request() {
    let step = |e: StdioEvent| stdio_step(4, e);
    assert!(matches!(step(StdioEvent::Response(answer(Some(3), None, None))), StdioStep::ReadOn));
    assert!(matches!(step(StdioEvent::Response(answer(None, None, None))), StdioStep::ReadOn));
    assert!(matches!(
        step(StdioEvent::Response(answer(Some(4), None, None))),
        StdioStep::Finish(Ok(Json::Null))
    ));
    assert!(matches!(step(StdioEvent::Blank), StdioStep::ReadOn));
    assert!(matches!(step(StdioEvent::Blocked), StdioStep::Wait));
    let failed = |e: StdioEvent| match step(e) {
        StdioStep::Finish(Err(t)) => t,
        _ => panic!("expected an error"),
    };
    assert_eq!(failed(StdioEvent::Deadline), "MCP request timeout");
    assert_eq!(failed(StdioEvent::Closed), "MCP server closed connection");
    assert_eq!(failed(StdioEvent::Failed("io".to_string())), "io");
    assert_eq!(failed(StdioEvent::Unreadable("x".to_string())), "Invalid JSON-RPC response: x");
    assert_eq!(line_payload("  {} \n"), Some("{}".to_string()));
    assert_eq!(line_payload(" \n"), None);
}

#[test]
fn answers_over_http() {
    assert_eq!(http_answer(true, "200 OK", "{}"), Ok("{}".to_string()));
    assert_eq!(http_answer(false, "404 Not Found", "gone"), Err("MCP HTTP 404 Not Found: gone".to_string()));
    assert_eq!(http_answer(true, "200 OK", "event: message\ndata: {\"a\":1}\n"), Ok("{\"a\":1}".to_string()));
    assert_eq!(
        parse_sse_json("event: message\n"),
        Err("No data line found in SSE response".to_string())
    );
    assert_eq!(unreadable_answer("oops"), Some("Failed to parse JSON-RPC response: oops".to_string()));
    let long = "y".repeat(300);
    assert_eq!(
        unreadable_answer(&long),
        Some(format!("Failed to parse JSON-RPC response: {}", "y".repeat(200)))
    );
    assert_eq!(unreadable_answer(&("y".to_string() + &"é".repeat(200))), None);
}

#[test]
fn results_of_tools() {
    let parts = vec![content("text", Some("a")), content("image", Some("b")), content("text", None), content("text", Some("c"))];
    assert_eq!(tool_result(&parts, false), Ok("a\nc".to_string()));
    assert_eq!(tool_result(&parts, true), Err("Tool error: a\nc".to_string()));
    assert_eq!(tool_result(&vec![], false), Ok("(empty result)".to_string()));
    assert_eq!(answer_text(Ok("x".to_string())), "x");
    assert_eq!(answer_text(Err("x".to_string())), "{\"error\": \"x\"}");
}

#[test]
fn schemas_are_normalized() {
    let n = |s: &str| render(&normalize_schema(parse(s).unwrap()));
    assert_eq!(n("{}"), r#"{"properties":{},"type":"object"}"#);
    assert_eq!(
        n(r#"{"$defs":{"a":1},"definitions":{"b":2},"type":"array"}"#),
        r#"{"definitions":{"a":1},"properties":{},"type":"array"}"#
    );
    assert_eq!(n("[1]"), "[1]");
    let once = n(r#"{"$defs":{}}"#);
    assert_eq!(n(&once), once);
}

#[test]
fn tools_are_registered_under_prefixed_names() {
    let tool = |name: &str| McpTool {
        name: name.to_string(),
        description: "d".to_string(),
        input_schema: parse("{}").unwrap(),
    };
    let s = tool_schema("My Server", tool("Do It"));
    assert_eq!(s.name, "mcp_my_server_do_it");
    assert_eq!(s.description, "[MCP:My Server] d");
    assert_eq!(render(&s.parameters), r#"{"properties":{},"type":"object"}"#);
    assert_eq!(
        prefixed_names("fs", &vec![tool("read_file"), tool("b")]),
        vec!["mcp_fs_read_file".to_string(), "mcp_fs_b".to_string()]
    );
}

#[test]
fn servers_are_found_by_name() {
    let mut m: McpClientManager<u8> = McpClientManager::new();
    assert_eq!(m.get_server("a"), None);
    m.add_server("a", 1);
    m.add_server("b", 2);
    assert_eq!(m.get_server("b"), Some(&2));
    assert_eq!(m.len(), 2);
    assert_eq!(m.server(0), ("a", &1));
}
