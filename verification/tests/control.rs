use ggok::control::{is_method_missing, normalize_mode, normalize_rewind_points};
use ggok::parse::FieldVal;

fn fv(v: &serde_json::Value) -> FieldVal {
    match v {
        serde_json::Value::Null => FieldVal::Null,
        serde_json::Value::Bool(b) => FieldVal::Bool(*b),
        serde_json::Value::Number(n) => {
            if let Some(u) = n.as_u64() {
                FieldVal::UInt(u)
            } else if let Some(i) = n.as_i64() {
                FieldVal::NegInt(i)
            } else {
                FieldVal::Float(n.to_string())
            }
        }
        serde_json::Value::String(s) => FieldVal::Str(s.clone()),
        serde_json::Value::Array(a) => FieldVal::Array(a.iter().map(fv).collect()),
        serde_json::Value::Object(o) => {
            FieldVal::Object(o.iter().map(|(k, v)| (k.clone(), fv(v))).collect())
        }
    }
}

#[test]
fn normalizes_rewind_points_snake_and_camel() {
    let raw: serde_json::Value = serde_json::from_str(
        r#"{
            "points": [
                {"prompt_index": 1, "preview": "hello", "created_at": "t"},
                {"promptIndex": 2, "text": "world", "disabled": true, "reason": "compacted"}
            ]
        }"#,
    )
    .unwrap();
    let pts = normalize_rewind_points(&fv(&raw));
    assert_eq!(pts.len(), 2);
    assert_eq!(pts[0].prompt_index, 1);
    assert_eq!(pts[1].prompt_index, 2);
    assert!(pts[1].disabled);
    assert_eq!(pts[1].reason.as_deref(), Some("compacted"));
}

#[test]
fn mode_aliases() {
    assert_eq!(normalize_mode("YOLO").unwrap(), "always-approve");
    assert_eq!(normalize_mode("plan").unwrap(), "plan");
    assert!(normalize_mode("nope").is_err());
}

#[test]
fn mode_aliases_trim_and_case() {
    assert_eq!(normalize_mode(" Always_Approve ").unwrap(), "always-approve");
    assert_eq!(normalize_mode("ASK").unwrap(), "ask");
    assert_eq!(normalize_mode("auto").unwrap(), "auto");
}

#[test]
fn method_missing_messages() {
    assert!(is_method_missing("Method not found: x.ai/rewind"));
    assert!(is_method_missing("error -32601"));
    assert!(is_method_missing("no such method; not found"));
    assert!(!is_method_missing("permission denied"));
}
