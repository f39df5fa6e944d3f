use ggok::ask::{
    is_ask_user_method, is_mcp_ask_tool, looks_like_ask_user, normalize_outcome,
    parse_ask_user_params, should_present_tool_call_as_ask, short_header,
};
use ggok::parse::FieldVal;

fn fv(v: &serde_json::Value) -> FieldVal {
    match v {
        serde_json::Value::Null => FieldVal::Null,
        serde_json::Value::Bool(b) => FieldVal::Bool(*b),
        serde_json::Value::Number(n) => {
            if let Some(u) = n.as_u64() {
                FieldVal::UInt(u)
            } else if let Some(i) = n.as_i64() {
                FieldVal::NegInt(i)
            } else {
                FieldVal::Float(n.to_string())
            }
        }
        serde_json::Value::String(s) => FieldVal::Str(s.clone()),
        serde_json::Value::Array(a) => FieldVal::Array(a.iter().map(fv).collect()),
        serde_json::Value::Object(o) => {
            FieldVal::Object(o.iter().map(|(k, v)| (k.clone(), fv(v))).collect())
        }
    }
}

fn json(text: &str) -> FieldVal {
    let v: serde_json::Value = serde_json::from_str(text).unwrap();
    fv(&v)
}

#[test]
fn detects_ext_method_names() {
    assert!(is_ask_user_method("_x.ai/ask_user_question"));
    assert!(is_ask_user_method("x.ai/ask_user_question"));
    assert!(is_ask_user_method("ask_user_question"));
    assert!(is_ask_user_method("_foo/ask_user_question"));
    assert!(is_ask_user_method("elicitation/create"));
    assert!(is_ask_user_method("x.ai/mcp/elicit"));
    assert!(!is_ask_user_method("session/request_permission"));
    assert!(!is_ask_user_method("ext_method"));
}

#[test]
fn parses_flat_params() {
    let params = json(
        r#"{
            "sessionId": "sid",
            "toolCallId": "call-1",
            "mode": "default",
            "questions": [{
                "question": "Which library?",
                "header": "Lib",
                "multiSelect": true,
                "options": [
                    {"label": "Day.js", "description": "small", "preview": "`dayjs()`"},
                    {"name": "date-fns"}
                ]
            }]
        }"#,
    );
    let parsed = parse_ask_user_params(&params);
    assert_eq!(parsed.session_id, "sid");
    assert_eq!(parsed.tool_id, "call-1");
    assert_eq!(parsed.mode, "default");
    assert_eq!(parsed.questions.len(), 1);
    assert!(parsed.questions[0].multi_select);
    assert_eq!(parsed.questions[0].header, "Lib");
    assert_eq!(parsed.questions[0].options[0].preview.as_deref(), Some("`dayjs()`"));
    assert_eq!(parsed.questions[0].options[1].label, "date-fns");
}

#[test]
fn parses_nested_tool_call_and_snake_case() {
    let params = json(
        r#"{
            "session_id": "s",
            "toolCall": {"toolCallId": "t"},
            "questions": [{
                "prompt": "Go?",
                "multi_select": false,
                "options": [{"label": "Yes"}]
            }]
        }"#,
    );
    let parsed = parse_ask_user_params(&params);
    assert_eq!(parsed.session_id, "s");
    assert_eq!(parsed.tool_id, "t");
    assert_eq!(parsed.questions[0].question, "Go?");
    assert!(!parsed.questions[0].multi_select);
    assert_eq!(parsed.questions[0].header, "Go?");
}

#[test]
fn keeps_options_without_question_text() {
    let params = json(r#"{"sessionId": "s", "questions": [{ "options": [{"label": "A"}] }]}"#);
    let parsed = parse_ask_user_params(&params);
    assert_eq!(parsed.questions.len(), 1);
    assert_eq!(parsed.questions[0].options[0].label, "A");
}

#[test]
fn parses_header_and_string_questions() {
    let params = json(
        r#"{"sessionId": "s", "questions": ["Bare?", { "header": "From header", "options": ["Yes"] }]}"#,
    );
    let parsed = parse_ask_user_params(&params);
    assert_eq!(parsed.questions[0].question, "Bare?");
    assert_eq!(parsed.questions[1].question, "From header");
    assert_eq!(parsed.questions[1].options[0].label, "Yes");
}

#[test]
fn parses_elicitation_schema() {
    let params = json(
        r#"{
            "sessionId": "s",
            "mode": "form",
            "message": "How to proceed?",
            "requestedSchema": {
                "type": "object",
                "properties": {
                    "strategy": {
                        "title": "Refactoring Strategy",
                        "oneOf": [
                            {"const": "A", "title": "A", "description": "first"},
                            {"const": "B"}
                        ]
                    }
                }
            }
        }"#,
    );
    let parsed = parse_ask_user_params(&params);
    assert_eq!(parsed.session_id, "s");
    assert_eq!(parsed.questions.len(), 1);
    assert_eq!(parsed.questions[0].question, "Refactoring Strategy");
    assert_eq!(parsed.questions[0].header, "strategy");
    assert_eq!(parsed.questions[0].options[0].label, "A");
}

#[test]
fn looks_like_nested_questions() {
    assert!(looks_like_ask_user(&json(
        r#"{"params": { "questions": [{ "question": "Go?", "options": ["Yes"] }] }}"#
    )));
    assert!(!looks_like_ask_user(&json(r#"{ "foo": 1 }"#)));
}

#[test]
fn ignores_search_tools_and_mcp_tool_titles() {
    assert!(!looks_like_ask_user(&json(
        r#"{"title": "Search tools: \"ggok-ask ask_user_question\"", "rawInput": { "query": "ggok-ask ask_user_question" }}"#
    )));
    assert!(!looks_like_ask_user(&json(
        r#"{"title": "ggok-ask__ask_user_question", "toolCallId": "t-mcp"}"#
    )));
    assert!(!looks_like_ask_user(&json(
        r#"{"sessionUpdate": "tool_call", "title": "ls -la", "rawInput": { "command": "ls -la" }}"#
    )));
}

#[test]
fn mcp_ask_tool_call_does_not_present_even_with_questions() {
    let update = json(
        r#"{
            "title": "ggok-ask__ask_user_question",
            "toolCallId": "t-mcp",
            "rawInput": {
                "questions": [{ "question": "早饭?", "options": ["米饭", "馒头"] }]
            }
        }"#,
    );
    assert!(looks_like_ask_user(&update));
    assert!(is_mcp_ask_tool("ggok-ask__ask_user_question", "ask_user_question"));
    assert!(!should_present_tool_call_as_ask(
        "ggok-ask__ask_user_question",
        "ask_user_question",
        &update
    ));
    assert!(!is_mcp_ask_tool("Search tools: \"ggok-ask ask_user_question\"", "search_tools"));
    assert!(should_present_tool_call_as_ask("ask_user_question", "ask_user_question", &update));
}

#[test]
fn parses_string_and_title_options() {
    let params = json(
        r#"{"sessionId": "s", "questions": [{"question": "Pick?", "options": ["Alpha", {"title": "Beta", "description": "b"}]}]}"#,
    );
    let parsed = parse_ask_user_params(&params);
    assert_eq!(parsed.questions[0].options.len(), 2);
    assert_eq!(parsed.questions[0].options[0].label, "Alpha");
    assert_eq!(parsed.questions[0].options[1].label, "Beta");
    assert_eq!(parsed.questions[0].options[1].description, "b");
}

#[test]
fn parses_nested_params_and_single_question() {
    let params = json(
        r#"{"sessionId": "s", "params": {"questions": {"question": "Go?", "choices": { "Yes": "do it", "No": "stop" }}}}"#,
    );
    let parsed = parse_ask_user_params(&params);
    assert_eq!(parsed.session_id, "s");
    assert_eq!(parsed.questions[0].question, "Go?");
    let labels: Vec<_> = parsed.questions[0].options.iter().map(|o| o.label.as_str()).collect();
    assert!(labels.contains(&"Yes"));
    assert!(labels.contains(&"No"));
}

#[test]
fn parses_tool_call_raw_input() {
    let params = json(
        r#"{
            "sessionId": "s",
            "toolCall": {
                "toolCallId": "t1",
                "rawInput": {
                    "questions": [{
                        "question": "Which?",
                        "oneOf": [
                            {"const": "A", "title": "A", "description": "first"},
                            {"const": "B"}
                        ]
                    }]
                }
            }
        }"#,
    );
    let parsed = parse_ask_user_params(&params);
    assert_eq!(parsed.tool_id, "t1");
    assert_eq!(parsed.questions[0].options[0].label, "A");
    assert_eq!(parsed.questions[0].options[0].description, "first");
    assert_eq!(parsed.questions[0].options[1].label, "B");
}

#[test]
fn short_header_cuts_at_twelve_characters() {
    assert_eq!(short_header("Go?"), "Go?");
    assert_eq!(short_header("Which library would you like?"), "Which librar");
    assert_eq!(short_header("早饭吃什么好呢今天早上要不要吃面"), "早饭吃什么好呢今天早上要");
}

#[test]
fn outcome_names_are_normalized() {
    assert_eq!(normalize_outcome(" cancelled "), "skip_interview");
    assert_eq!(normalize_outcome("skip"), "skip_interview");
    assert_eq!(normalize_outcome("chat"), "chat_about_this");
    assert_eq!(normalize_outcome("whatever"), "accepted");
}
