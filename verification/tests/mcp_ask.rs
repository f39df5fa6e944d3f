use ggok::mcp_ask::{
    ask_create_url, ask_wait_url, created_req, http_target, mcp_step, reply_error, status_code, take_one,
    McpReply, ASK_TOOL_NAME,
};
use ggok::parse::FieldVal;

fn fv(v: &serde_json::Value) -> FieldVal {
    match v {
        serde_json::Value::Null => FieldVal::Null,
        serde_json::Value::Bool(b) => FieldVal::Bool(*b),
        serde_json::Value::Number(n) => {
            if let Some(u) = n.as_u64() {
                FieldVal::UInt(u)
            } else if let Some(i) = n.as_i64() {
                FieldVal::NegInt(i)
            } else {
                FieldVal::Float(n.to_string())
            }
        }
        serde_json::Value::String(s) => FieldVal::Str(s.clone()),
        serde_json::Value::Array(a) => FieldVal::Array(a.iter().map(fv).collect()),
        serde_json::Value::Object(o) => FieldVal::Object(o.iter().map(|(k, v)| (k.clone(), fv(v))).collect()),
    }
}

fn json(text: &str) -> FieldVal {
    let v: serde_json::Value = serde_json::from_str(text).unwrap();
    fv(&v)
}

fn str_of(v: &FieldVal) -> Option<&str> {
    match v {
        FieldVal::Str(s) => Some(s.as_str()),
        _ => None,
    }
}

#[test]
fn lists_ask_tool() {
    let msg = json(r#"{"jsonrpc":"2.0","id":1,"method":"tools/list"}"#);
    let (id, reply) = mcp_step(msg);
    assert!(matches!(id, Some(FieldVal::UInt(1))));
    match reply {
        McpReply::ToolList(names) => assert_eq!(names[0], "ask_user_question"),
        _ => panic!("expected the tool list"),
    }
    assert_eq!(ASK_TOOL_NAME, "ask_user_question");
}

#[test]
fn answers_lifecycle_messages() {
    let (_, r) = mcp_step(json(r#"{"id":1,"method":"initialize","params":{"protocolVersion":"2025-01-01"}}"#));
    match r {
        McpReply::Initialize(Some(p)) => assert_eq!(str_of(&p), Some("2025-01-01")),
        _ => panic!("expected initialize"),
    }
    assert!(matches!(mcp_step(json(r#"{"id":2,"method":"initialize"}"#)).1, McpReply::Initialize(None)));
    assert!(matches!(mcp_step(json(r#"{"id":3,"method":"ping"}"#)).1, McpReply::Pong));
    assert!(matches!(mcp_step(json(r#"{"id":4,"method":"notifications/initialized"}"#)).1, McpReply::Silent));
    assert!(matches!(mcp_step(json(r#"{"method":"tools/list"}"#)).1, McpReply::Silent));
    assert!(matches!(mcp_step(json(r#"{"id":5}"#)).1, McpReply::Silent));
    match mcp_step(json(r#"{"id":6,"method":"resources/list"}"#)).1 {
        McpReply::NotFound(m) => assert_eq!(m, "resources/list"),
        _ => panic!("expected not found"),
    }
}

#[test]
fn tool_call_finds_questions() {
    let (id, r) = mcp_step(json(
        r#"{"id":"a","method":"tools/call","params":{"name":"ask_user_question","arguments":{"questions":[{"question":"Go?"}]}}}"#,
    ));
    assert_eq!(id.as_ref().and_then(str_of), Some("a"));
    match r {
        McpReply::Ask(FieldVal::Array(qs)) => assert_eq!(qs.len(), 1),
        _ => panic!("expected questions"),
    }
    match mcp_step(json(r#"{"id":7,"method":"tools/call","params":{"questions":"q"}}"#)).1 {
        McpReply::Ask(q) => assert_eq!(str_of(&q), Some("q")),
        _ => panic!("expected questions"),
    }
    assert!(matches!(mcp_step(json(r#"{"id":8,"method":"tools/call"}"#)).1, McpReply::Ask(FieldVal::Null)));
    match mcp_step(json(r#"{"id":9,"method":"tools/call","params":{"name":"other"}}"#)).1 {
        McpReply::UnknownTool(n) => assert_eq!(n, "other"),
        _ => panic!("expected unknown tool"),
    }
}

#[test]
fn reaches_the_server() {
    assert_eq!(ask_create_url("http://127.0.0.1:9888//"), "http://127.0.0.1:9888/api/ask");
    assert_eq!(ask_wait_url("http://h", "r1"), "http://h/api/ask/r1");
    let t = http_target("http://127.0.0.1:9888//api/ask").unwrap();
    assert_eq!((t.host.as_str(), t.port, t.hostport.as_str(), t.path.as_str()), ("127.0.0.1", 9888, "127.0.0.1:9888", "/api/ask"));
    let t = http_target("https://example.com").unwrap();
    assert_eq!((t.host.as_str(), t.port, t.path.as_str()), ("example.com", 80, "/"));
    let t = http_target("http://h:bad/x").unwrap();
    assert_eq!((t.host.as_str(), t.port), ("h", 80));
    assert!(http_target("ftp://h").is_none());
    assert_eq!(status_code("HTTP/1.1 201 Created\r\n"), 201);
    assert_eq!(status_code("garbage"), 0);
    assert_eq!(reply_error(204, "x"), None);
    assert_eq!(reply_error(404, "nope").as_deref(), Some("ggok ask 404: nope"));
    assert_eq!(reply_error(500, &"y".repeat(400)), Some(format!("ggok ask 500: {}", "y".repeat(300))));
    assert_eq!(created_req(&json(r#"{"req":"r7"}"#)).as_deref(), Some("r7"));
    assert_eq!(created_req(&json(r#"{"req":7}"#)), None);
    assert!(matches!(take_one(json(r#"{"k":1,"k":2}"#), "k"), Some(FieldVal::UInt(_))));
}
