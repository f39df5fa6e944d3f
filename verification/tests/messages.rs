use ggok::agent::{
    announced_effort, classify_message, model_command, stored_effort, classify_note, classify_request, json_id_u64, parse_permission_request,
    pick_option, MessageKind, NoteKind, RequestKind,
};
use ggok::occupy::is_stale_agent_cmd;
use ggok::parse::FieldVal;
use ggok::types::ModelInfo;

fn fv(v: &serde_json::Value) -> FieldVal {
    match v {
        serde_json::Value::Null => FieldVal::Null,
        serde_json::Value::Bool(b) => FieldVal::Bool(*b),
        serde_json::Value::Number(n) => {
            if let Some(u) = n.as_u64() {
                FieldVal::UInt(u)
            } else if let Some(i) = n.as_i64() {
                FieldVal::NegInt(i)
            } else {
                FieldVal::Float(n.to_string())
            }
        }
        serde_json::Value::String(s) => FieldVal::Str(s.clone()),
        serde_json::Value::Array(a) => FieldVal::Array(a.iter().map(fv).collect()),
        serde_json::Value::Object(o) => FieldVal::Object(o.iter().map(|(k, v)| (k.clone(), fv(v))).collect()),
    }
}

fn json(text: &str) -> FieldVal {
    let v: serde_json::Value = serde_json::from_str(text).unwrap();
    fv(&v)
}

fn model(id: &str, effort: Option<&str>) -> ModelInfo {
    ModelInfo {
        id: id.to_string(),
        name: id.to_string(),
        description: String::new(),
        effort: effort.map(str::to_string),
        efforts: Vec::new(),
        context_window: None,
    }
}

#[test]
fn reads_permission_requests() {
    let p = json(
        r#"{"sessionId":"s1","toolCall":{"toolCallId":"t9","title":"Run ls"},
            "options":[{"optionId":"a","kind":"allow_once","name":"Allow"},{"kind":"reject_once"},{"optionId":"r","kind":"reject_once"}]}"#,
    );
    let r = parse_permission_request(&p);
    assert_eq!(r.session_id, "s1");
    assert_eq!(r.tool_id, "t9");
    assert_eq!(r.title, "Run ls");
    let ids: Vec<&str> = r.options.iter().map(|o| o.id.as_str()).collect();
    assert_eq!(ids, vec!["a", "r"]);
    assert_eq!(r.options[1].name, "");
    assert_eq!(pick_option(&r.options, true).as_deref(), Some("a"));
    assert_eq!(pick_option(&r.options, false).as_deref(), Some("r"));
    let empty = parse_permission_request(&json("{}"));
    assert_eq!(empty.session_id, "");
    assert!(empty.options.is_empty());
}

#[test]
fn classifies_agent_messages() {
    assert_eq!(classify_message(&json(r#"{"method":"x","id":1}"#)), MessageKind::Request);
    assert_eq!(classify_message(&json(r#"{"method":"x"}"#)), MessageKind::Note);
    assert_eq!(classify_message(&json(r#"{"id":7,"result":{}}"#)), MessageKind::Reply(7));
    assert_eq!(classify_message(&json(r#"{"id":"12"}"#)), MessageKind::Reply(12));
    assert_eq!(classify_message(&json(r#"{"id":-1}"#)), MessageKind::Ignored);
    assert_eq!(classify_message(&json(r#"{"id":"x"}"#)), MessageKind::Ignored);
    assert_eq!(json_id_u64(None), None);
    assert_eq!(json_id_u64(Some(&json("\"+5\""))), Some(5));
}

#[test]
fn classifies_notes_and_requests() {
    let none = json("{}");
    assert_eq!(classify_note("session/update", &none), NoteKind::SessionUpdate);
    assert_eq!(classify_note("_x.ai/session/update", &none), NoteKind::SessionUpdate);
    assert_eq!(classify_note("_x.ai/queue/changed", &none), NoteKind::QueueChanged);
    assert_eq!(classify_note("_x.ai/ask_user_question", &none), NoteKind::AskUser);
    assert_eq!(classify_note("_x.ai/models/update", &none), NoteKind::ModelsUpdate);
    assert_eq!(classify_note("other", &none), NoteKind::Other);
    let asks = json(r#"{"questions":[{"question":"Go?","options":["Yes"]}]}"#);
    assert_eq!(classify_note("other", &asks), NoteKind::AskUser);
    assert_eq!(classify_request("elicitation/create", &none), RequestKind::AskUser);
    assert_eq!(classify_request("session/request_permission", &none), RequestKind::Permission);
    assert_eq!(classify_request("fs/read", &asks), RequestKind::AskUser);
    assert_eq!(classify_request("fs/read", &none), RequestKind::MethodNotFound);
}

#[test]
fn announced_effort_prefers_session() {
    let models = vec![model("a", Some("high")), model("b", None)];
    assert_eq!(announced_effort(Some("low"), &models, "a"), "low");
    assert_eq!(announced_effort(None, &models, "a"), "high");
    assert_eq!(announced_effort(None, &models, "b"), "");
    assert_eq!(announced_effort(None, &models, "zzz"), "");
}

#[test]
fn model_switch_text_and_effort() {
    assert_eq!(model_command("grok-4", Some("high")), "/model grok-4 high");
    assert_eq!(model_command("grok-4", Some("")), "/model grok-4");
    assert_eq!(model_command("grok-4", None), "/model grok-4");
    let models = vec![model("a", Some("high")), model("b", None)];
    assert_eq!(stored_effort(&models, "a", Some("low"), Some("mid")), "low");
    assert_eq!(stored_effort(&models, "a", Some(""), Some("mid")), "high");
    assert_eq!(stored_effort(&models, "b", None, Some("mid")), "mid");
    assert_eq!(stored_effort(&models, "a", Some(""), None), "");
    assert_eq!(stored_effort(&models, "a", None, None), "");
}

#[test]
fn stale_agent_pid_needs_a_grok_command() {
    assert!(is_stale_agent_cmd(b"/usr/bin/grok\0agent\0--no-leader\0stdio\0"));
    assert!(is_stale_agent_cmd(b"node stdio-bridge"));
    assert!(is_stale_agent_cmd(b"/opt/grokker"));
    assert!(!is_stale_agent_cmd(b"/bin/bash"));
    assert!(!is_stale_agent_cmd(b""));
}
