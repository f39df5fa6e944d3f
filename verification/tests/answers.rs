use ggok::ask::{
    answers_json, ask_user_reply, ask_user_result, ask_user_rules, elicitation_result, session_mode_flag, unwrap_ext_request,
    validate_accepted, with_fallback_tool_id, AnswerError, AnswerValue, AskOption, AskQuestion,
    AskUserReply, ElicitReply, parse_ask_user_params, is_ask_user_method, question_result, QuestionResult, acp_initialize_params, acp_session_meta,
    mcp_ask_servers, AskBridge, ACP_CLIENT_IDENTIFIER, ASK_MCP_NAME, ASK_MCP_TOOL,
};
use ggok::parse::FieldVal;

fn fv(v: &serde_json::Value) -> FieldVal {
    match v {
        serde_json::Value::Null => FieldVal::Null,
        serde_json::Value::Bool(b) => FieldVal::Bool(*b),
        serde_json::Value::Number(n) => {
            if let Some(u) = n.as_u64() {
                FieldVal::UInt(u)
            } else if let Some(i) = n.as_i64() {
                FieldVal::NegInt(i)
            } else {
                FieldVal::Float(n.to_string())
            }
        }
        serde_json::Value::String(s) => FieldVal::Str(s.clone()),
        serde_json::Value::Array(a) => FieldVal::Array(a.iter().map(fv).collect()),
        serde_json::Value::Object(o) => {
            FieldVal::Object(o.iter().map(|(k, v)| (k.clone(), fv(v))).collect())
        }
    }
}

fn json(text: &str) -> FieldVal {
    let v: serde_json::Value = serde_json::from_str(text).unwrap();
    fv(&v)
}

fn q(question: &str, labels: &[&str], multi: bool) -> AskQuestion {
    AskQuestion {
        question: question.into(),
        header: "H".into(),
        options: labels
            .iter()
            .map(|label| AskOption { label: (*label).into(), description: String::new(), preview: None })
            .collect(),
        multi_select: multi,
    }
}

fn one(v: &AnswerValue) -> &str {
    match v {
        AnswerValue::One(s) => s.as_str(),
        AnswerValue::Many(_) => panic!("expected one answer"),
    }
}

fn value(text: &str) -> serde_json::Value {
    serde_json::from_str(text).unwrap()
}

#[test]
fn result_shapes() {
    assert_eq!(
        json_of(&ask_user_result("skip", FieldVal::Null, FieldVal::Null)),
        value(r#"{ "outcome": "skip_interview" }"#)
    );
    assert_eq!(
        json_of(&ask_user_result("cancelled", FieldVal::Null, FieldVal::Null)),
        value(r#"{ "outcome": "skip_interview" }"#)
    );
    assert_eq!(
        json_of(&ask_user_result("chat_about_this", FieldVal::Null, FieldVal::Null)),
        value(r#"{ "outcome": "chat_about_this" }"#)
    );
    let accepted = json_of(&ask_user_result(
        "accepted",
        json(r#"{ "Which?": "A" }"#),
        json(r#"{ "Which?": { "notes": "n", "preview": "p" } }"#),
    ));
    assert_eq!(accepted["outcome"], "accepted");
    assert_eq!(accepted["answers"]["Which?"], "A");
    assert_eq!(accepted["partial_answers"], value("{}"));
    assert_eq!(accepted["annotations"]["Which?"]["notes"], "n");
}

#[test]
fn accepted_answers_become_the_reply() {
    let empty = || ggok::ask::Answers { answers: vec![], annotations: vec![] };
    assert!(matches!(ask_user_reply("skip", empty()), AskUserReply::SkipInterview));
    assert!(matches!(ask_user_reply("cancelled", empty()), AskUserReply::SkipInterview));
    assert!(matches!(ask_user_reply("chat_about_this", empty()), AskUserReply::ChatAboutThis));
    let qs = vec![AskQuestion {
        question: "Which?".into(),
        header: "W".into(),
        options: vec![AskOption { label: "A".into(), description: String::new(), preview: Some("p".into()) }],
        multi_select: false,
    }];
    let checked = validate_accepted(&qs, &json(r#"{"Which?": "A"}"#), &json(r#"{"Which?": "n"}"#)).unwrap();
    let (answers, annotations) = answers_json(&checked);
    assert_eq!(json_of(&answers), value(r#"{"Which?": "A"}"#));
    assert_eq!(json_of(&annotations), value(r#"{"Which?": {"preview": "p", "notes": "n"}}"#));
    let reply = json_of(&ask_user_result("accepted", answers, annotations));
    assert_eq!(
        reply,
        value(r#"{"outcome": "accepted", "answers": {"Which?": "A"}, "partial_answers": {},
                 "annotations": {"Which?": {"preview": "p", "notes": "n"}}}"#)
    );
    let bare = json_of(&ask_user_result("yes", json(r#"{"Q": ["x", "y"]}"#), json("{}")));
    assert_eq!(bare, value(r#"{"outcome": "accepted", "answers": {"Q": ["x", "y"]}, "partial_answers": {}}"#));
    match ask_user_reply("accepted", checked) {
        AskUserReply::Accepted(answers, Some(ann)) => {
            assert_eq!(answers[0].0, "Which?");
            assert_eq!(one(&answers[0].1), "A");
            assert_eq!(ann[0].1.notes.as_deref(), Some("n"));
            assert_eq!(ann[0].1.preview.as_deref(), Some("p"));
        }
        _ => panic!("expected accepted with annotations"),
    }
    assert!(matches!(ask_user_reply("accepted", empty()), AskUserReply::Accepted(_, None)));
}

#[test]
fn validates_single_and_multi() {
    let single = vec![q("Pick?", &["A", "B"], false)];
    let a = validate_accepted(&single, &json(r#"{"Pick?": "A"}"#), &FieldVal::Null).unwrap();
    assert_eq!(one(&a.answers[0].1), "A");
    let multi = vec![q("Pick?", &["A", "B"], true)];
    let a = validate_accepted(&multi, &json(r#"{"Pick?": ["A", "B"]}"#), &FieldVal::Null).unwrap();
    match &a.answers[0].1 {
        AnswerValue::Many(v) => assert_eq!(v, &vec!["A".to_string(), "B".to_string()]),
        _ => panic!("expected a list"),
    }
    assert_eq!(validate_accepted(&single, &json("{}"), &FieldVal::Null).err(), Some(AnswerError::MissingAnswer));
    assert_eq!(
        validate_accepted(&single, &json(r#"{"Pick?": ["A", "B"]}"#), &FieldVal::Null).err(),
        Some(AnswerError::TooManyAnswers)
    );
    assert_eq!(
        validate_accepted(&single, &json(r#"{"Pick?": [1]}"#), &FieldVal::Null).err(),
        Some(AnswerError::ListNotStrings)
    );
    assert_eq!(
        validate_accepted(&single, &json(r#"{"Pick?": 3}"#), &FieldVal::Null).err(),
        Some(AnswerError::NotStringOrList)
    );
}

#[test]
fn accepts_other_text_and_notes() {
    let qs = vec![AskQuestion {
        question: "Pick?".into(),
        header: "P".into(),
        options: vec![AskOption { label: "A".into(), description: String::new(), preview: Some("prev".into()) }],
        multi_select: false,
    }];
    let a = validate_accepted(&qs, &json(r#"{"Pick?": "A"}"#), &json(r#"{"Pick?": "because"}"#)).unwrap();
    assert_eq!(one(&a.answers[0].1), "A");
    assert_eq!(a.annotations[0].1.preview.as_deref(), Some("prev"));
    assert_eq!(a.annotations[0].1.notes.as_deref(), Some("because"));
    let a = validate_accepted(&qs, &json(r#"{"Pick?": "custom"}"#), &FieldVal::Null).unwrap();
    assert_eq!(one(&a.answers[0].1), "custom");
    assert!(a.annotations.is_empty());
}

#[test]
fn other_note_only_counts_as_answer() {
    let qs = vec![q("Pick?", &["A"], false)];
    let a = validate_accepted(&qs, &json("{}"), &json(r#"{"Pick?": "typed"}"#)).unwrap();
    assert_eq!(one(&a.answers[0].1), "typed");
}

#[test]
fn elicitation_replies() {
    let qs = vec![q("Pick?", &["A"], false)];
    assert!(matches!(elicitation_result("skip", &qs, &FieldVal::Null, &FieldVal::Null), Ok(ElicitReply::Cancel)));
    match elicitation_result("accepted", &qs, &json(r#"{"Pick?": "A"}"#), &FieldVal::Null) {
        Ok(ElicitReply::Accept(c)) => {
            assert_eq!(c[0].0, "H");
            assert_eq!(one(&c[0].1), "A");
        }
        _ => panic!("expected accept"),
    }
    assert_eq!(
        elicitation_result("accepted", &qs, &json("{}"), &FieldVal::Null).err(),
        Some(AnswerError::MissingAnswer)
    );
}

#[test]
fn unwraps_ext_method_envelope() {
    let params = json(
        r#"{
            "method": "x.ai/ask_user_question",
            "sessionId": "sid",
            "params": {
                "toolCallId": "call-1",
                "questions": [{ "question": "Pick?", "options": ["A"] }]
            }
        }"#,
    );
    let (method, inner) = unwrap_ext_request("ext_method", params);
    assert!(is_ask_user_method(&method));
    let parsed = parse_ask_user_params(&inner);
    assert_eq!(parsed.session_id, "sid");
    assert_eq!(parsed.tool_id, "call-1");
    assert_eq!(parsed.questions[0].options[0].label, "A");
}

#[test]
fn other_requests_pass_through() {
    let (m, v) = unwrap_ext_request("session/request_permission", json(r#"{"a": 1}"#));
    assert_eq!(m, "session/request_permission");
    assert!(matches!(v, FieldVal::Object(ref f) if f.len() == 1));
    let (m, _) = unwrap_ext_request("ext_method", json(r#"{"method": "other"}"#));
    assert_eq!(m, "ext_method");
}

#[test]
fn fills_missing_tool_call_id() {
    let params = json(r#"{"questions": [{ "question": "Go?", "options": ["Yes"] }]}"#);
    let filled = with_fallback_tool_id(params, "last-1");
    assert_eq!(parse_ask_user_params(&filled).tool_id, "last-1");
    let keep = with_fallback_tool_id(
        json(r#"{"toolCallId": "keep", "questions": [{ "question": "Go?", "options": ["Yes"] }]}"#),
        "last-1",
    );
    assert_eq!(parse_ask_user_params(&keep).tool_id, "keep");
}

fn json_of(v: &FieldVal) -> serde_json::Value {
    match v {
        FieldVal::Null => serde_json::Value::Null,
        FieldVal::Bool(b) => serde_json::Value::Bool(*b),
        FieldVal::UInt(n) => serde_json::Value::from(*n),
        FieldVal::NegInt(n) => serde_json::Value::from(*n),
        FieldVal::Float(t) => serde_json::from_str(t).unwrap(),
        FieldVal::Str(s) => serde_json::Value::String(s.clone()),
        FieldVal::Array(a) => serde_json::Value::Array(a.iter().map(json_of).collect()),
        FieldVal::Object(fs) => serde_json::Value::Object(fs.iter().map(|(k, v)| (k.clone(), json_of(v))).collect()),
    }
}

#[test]
fn session_meta_points_at_mcp_ask() {
    let yolo = json_of(&acp_session_meta("always-approve", "0.1.0"));
    assert_eq!(yolo["yoloMode"], serde_json::Value::Bool(true));
    let rules = yolo["rules"].as_str().unwrap_or("");
    assert!(rules.contains(ASK_MCP_NAME));
    assert!(rules.contains(ASK_MCP_TOOL));
    assert!(rules.contains("use_tool"));
    assert!(!rules.contains("search_tool"));
    let ask = json_of(&acp_session_meta("ask", "0.1.0"));
    assert!(ask.get("yoloMode").is_none());
    let init = json_of(&acp_initialize_params("0.1.0"));
    assert_eq!(init["_meta"]["clientIdentifier"], serde_json::Value::String(ACP_CLIENT_IDENTIFIER.to_string()));
    assert_eq!(init["clientCapabilities"]["elicitation"]["form"], serde_json::Value::Object(serde_json::Map::new()));
    assert_eq!(init["clientInfo"]["name"], serde_json::Value::String("ggok".to_string()));
    let servers = json_of(&mcp_ask_servers(&AskBridge {
        exe: "/bin/ggok".to_string(),
        url: "http://127.0.0.1:9888".into(),
        token: "t".into(),
    }));
    assert_eq!(servers[0]["name"], serde_json::Value::String(ASK_MCP_NAME.to_string()));
    assert_eq!(servers[0]["args"][0], serde_json::Value::String("__mcp-ask".to_string()));
    assert_eq!(session_mode_flag("always-approve"), Some("yoloMode"));
    assert_eq!(session_mode_flag("auto"), Some("autoMode"));
    assert_eq!(session_mode_flag("ask"), None);
    let auto = json_of(&acp_session_meta("auto", "0.1.0"));
    assert_eq!(auto["autoMode"], serde_json::Value::Bool(true));
    assert_eq!(auto["clientVersion"], serde_json::Value::String("0.1.0".to_string()));
}

#[test]
fn question_result_by_mode() {
    let qs = vec![q("Pick?", &["A", "B"], false)];
    let none = json("{}");
    assert!(matches!(
        question_result("ask", "skip", &qs, &none, &none),
        Ok(QuestionResult::Ask(AskUserReply::SkipInterview))
    ));
    assert!(matches!(
        question_result("ask", "chat", &qs, &none, &none),
        Ok(QuestionResult::Ask(AskUserReply::ChatAboutThis))
    ));
    assert_eq!(question_result("ask", "accepted", &qs, &none, &none).err(), Some(AnswerError::MissingAnswer));
    match question_result("ask", "accepted", &qs, &json(r#"{"Pick?":"B"}"#), &none) {
        Ok(QuestionResult::Ask(AskUserReply::Accepted(a, None))) => assert_eq!(one(&a[0].1), "B"),
        _ => panic!("expected accepted answers"),
    }
    assert!(matches!(
        question_result("form", "skip", &qs, &none, &none),
        Ok(QuestionResult::Form(ElicitReply::Cancel))
    ));
    match question_result("form", "accepted", &qs, &json(r#"{"Pick?":"A"}"#), &none) {
        Ok(QuestionResult::Form(ElicitReply::Accept(c))) => assert_eq!(one(&c[0].1), "A"),
        _ => panic!("expected form content"),
    }
}
