use ggok::parse::FieldVal;
use ggok::tool::{capped_log, log_candidates, normalize, ToolScan};

fn fv(v: &serde_json::Value) -> FieldVal {
    match v {
        serde_json::Value::Null => FieldVal::Null,
        serde_json::Value::Bool(b) => FieldVal::Bool(*b),
        serde_json::Value::Number(n) => {
            if let Some(u) = n.as_u64() {
                FieldVal::UInt(u)
            } else if let Some(i) = n.as_i64() {
                FieldVal::NegInt(i)
            } else {
                FieldVal::Float(n.to_string())
            }
        }
        serde_json::Value::String(s) => FieldVal::Str(s.clone()),
        serde_json::Value::Array(a) => FieldVal::Array(a.iter().map(fv).collect()),
        serde_json::Value::Object(o) => FieldVal::Object(o.iter().map(|(k, v)| (k.clone(), fv(v))).collect()),
    }
}

fn json_of(v: &FieldVal) -> serde_json::Value {
    match v {
        FieldVal::Null => serde_json::Value::Null,
        FieldVal::Bool(b) => serde_json::Value::Bool(*b),
        FieldVal::UInt(n) => serde_json::Value::from(*n),
        FieldVal::NegInt(n) => serde_json::Value::from(*n),
        FieldVal::Float(t) => serde_json::from_str(t).unwrap(),
        FieldVal::Str(s) => serde_json::Value::String(s.clone()),
        FieldVal::Array(a) => serde_json::Value::Array(a.iter().map(json_of).collect()),
        FieldVal::Object(fs) => serde_json::Value::Object(fs.iter().map(|(k, v)| (k.clone(), json_of(v))).collect()),
    }
}

fn json(text: &str) -> FieldVal {
    fv(&serde_json::from_str::<serde_json::Value>(text).unwrap())
}

fn shown(text: &str) -> serde_json::Value {
    json_of(&normalize(json(text)))
}

fn parsed(text: &str) -> serde_json::Value {
    serde_json::from_str(text).unwrap()
}

#[test]
fn byte_buffers_become_text() {
    let bytes: Vec<String> = "hello, world! ok".bytes().map(|b| b.to_string()).collect();
    let arr = format!("[{}]", bytes.join(","));
    assert_eq!(shown(&arr), serde_json::Value::String("hello, world! ok".to_string()));
    assert_eq!(shown("[1,2,3]"), parsed("[1,2,3]"));
    assert_eq!(shown("[1,2,3,4,5,6,7,8,9,10,11,12,13,14,15,256]"), parsed("[1,2,3,4,5,6,7,8,9,10,11,12,13,14,15,256]"));
    let nested = format!("{{\"out\": [{arr}, 1]}}");
    assert_eq!(shown(&nested), parsed(r#"{"out": ["hello, world! ok", 1]}"#));
}

#[test]
fn image_data_becomes_its_size() {
    assert_eq!(
        shown(r#"{"type":"image","data":"abcd","mimeType":"image/png"}"#),
        parsed(r#"{"type":"image","data":"[image 4 bytes]","mimeType":"image/png"}"#)
    );
    assert_eq!(shown(r#"{"type":"text","data":"abcd"}"#), parsed(r#"{"type":"text","data":"abcd"}"#));
    assert_eq!(shown(r#"{"ImageContent":{"data":"abcd"}}"#), parsed(r#"{"ImageContent":{"data":"[image 4 bytes]"}}"#));
    assert_eq!(
        shown(r#"{"ImageContent":{"data":"abcd","type":"image"}}"#),
        parsed(r#"{"ImageContent":{"data":"[image 15 bytes]","type":"image"}}"#)
    );
    assert_eq!(shown(r#"[{"type":"image","data":"é"}]"#), parsed(r#"[{"type":"image","data":"[image 2 bytes]"}]"#));
}

#[test]
fn scans_a_tool_call() {
    let mut scan = ToolScan::new();
    assert!(!scan.take_line(json(r#"{"params":{"update":{"sessionUpdate":"tool_call","toolCallId":"other"}}}"#), "t1"));
    assert!(scan.take_line(
        json(r#"{"params":{"update":{"sessionUpdate":"tool_call","toolCallId":"t1","content":[{"type":"text"}]}}}"#),
        "t1"
    ));
    assert!(scan.take_line(
        json(r#"{"params":{"update":{"sessionUpdate":"tool_call_update","toolCallId":"t1","rawOutput":{"x":1}}}}"#),
        "t1"
    ));
    assert!(!scan.take_line(json(r#"{"params":{"update":{"sessionUpdate":"agent_message_chunk","toolCallId":"t1"}}}"#), "t1"));
    let d = scan.finish(String::new()).unwrap();
    assert_eq!(json_of(&d.content), parsed(r#"[{"type":"text"}]"#));
    assert_eq!(json_of(&d.raw_output), parsed(r#"{"x":1}"#));
    assert!(ToolScan::new().finish(String::new()).is_none());
    assert_eq!(ToolScan::new().finish("log".to_string()).unwrap().log, "log");
}

#[test]
fn finds_and_caps_logs() {
    let raw = json(r#"{"output_file":"/s/d/out.txt","Result":{"output_file":"/etc/passwd"}}"#);
    assert_eq!(log_candidates("/s/d", "t1", &raw), vec!["/s/d/terminal/t1.log", "/s/d/out.txt"]);
    let raw = json(r#"{"Result":{"output_file":"/s/d/r.txt"}}"#);
    assert_eq!(log_candidates("/s/d", "t1", &raw), vec!["/s/d/terminal/t1.log", "/s/d/r.txt"]);
    assert_eq!(capped_log("all of it", false), "all of it");
    assert_eq!(capped_log("partial line\nrest\nmore", true), "…\nrest\nmore");
    assert_eq!(capped_log("no newline", true), "…\nno newline");
}
