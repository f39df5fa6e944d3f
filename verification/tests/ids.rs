use ggok::ask::{ask_user_plan, pending_rpc_id, rpc_key, AskPlan, ParsedAsk, AskQuestion};
use ggok::auth::{build_session_cookie, clear_session_cookie};
use ggok::config::token_text;
use ggok::control::{compact_params, fork_params, forked_session};
use ggok::occupy::{first_reachable_leader_pid_in, web_active_id, web_active_writable};
use ggok::parse::FieldVal;
use ggok::prefs::merge_models_section;
use ggok::release::{sha256_matches, ReleaseError};
use ggok::scan::uuid_names;
use ggok::web::{asset_mime, asset_version, valid_id};
use sha2::{Digest, Sha256};

const ID: &str = "0190b6a2-3c4d-7e8f-9a0b-1c2d3e4f5a6b";

fn fv(v: &serde_json::Value) -> FieldVal {
    match v {
        serde_json::Value::Null => FieldVal::Null,
        serde_json::Value::Bool(b) => FieldVal::Bool(*b),
        serde_json::Value::Number(n) => match (n.as_u64(), n.as_i64()) {
            (Some(u), _) => FieldVal::UInt(u),
            (None, Some(i)) => FieldVal::NegInt(i),
            _ => FieldVal::Float(n.to_string()),
        },
        serde_json::Value::String(s) => FieldVal::Str(s.clone()),
        serde_json::Value::Array(a) => FieldVal::Array(a.iter().map(fv).collect()),
        serde_json::Value::Object(o) => FieldVal::Object(o.iter().map(|(k, v)| (k.clone(), fv(v))).collect()),
    }
}

fn leader_pid(text: &str) -> Option<u32> {
    let doc = serde_json::from_str::<serde_json::Value>(text.trim()).ok().map(|v| fv(&v));
    first_reachable_leader_pid_in(doc.as_ref())
}

fn hex(bytes: &[u8]) -> String {
    bytes.iter().map(|b| format!("{b:02x}")).collect()
}

#[test]
fn downloads_are_checked_against_their_digest() {
    let data = b"release archive";
    let good = hex(&Sha256::digest(data));
    assert_eq!(sha256_matches(data, &format!("  {good}\n")), Ok(()));
    assert_eq!(sha256_matches(data, &good.to_uppercase()), Ok(()));
    assert_eq!(sha256_matches(b"other", &good), Err(ReleaseError::Sha256Mismatch));
    assert_eq!(sha256_matches(data, "zz"), Err(ReleaseError::InvalidSha256));
    assert_eq!(sha256_matches(data, "abc"), Err(ReleaseError::InvalidSha256));
    assert_eq!(sha256_matches(data, "abcd"), Err(ReleaseError::Sha256Mismatch));
}

#[test]
fn tokens_assets_and_types() {
    let mut raw = [0u8; 24];
    raw[0] = 0xab;
    raw[23] = 0x01;
    let t = token_text(&raw);
    assert_eq!(t.len(), 48);
    assert!(t.starts_with("ab00"));
    assert!(t.ends_with("01"));
    let v = asset_version(b"css js i18n");
    assert_eq!(v, hex(&Sha256::digest(b"css js i18n"))[..12]);
    assert_eq!(asset_mime("app.css"), "text/css");
    assert_eq!(asset_mime("index.html"), "text/html");
    assert_eq!(asset_mime("blob.unknownext"), "application/octet-stream");
}

#[test]
fn session_ids_are_uuids() {
    let names = vec![ID.to_string(), "notes".to_string(), "11111111-2222-3333-4444-555555555555".to_string()];
    assert_eq!(uuid_names(&names), vec![ID.to_string(), names[2].clone()]);
    assert_eq!(web_active_id(&format!(" {ID}\n")), Some(format!(" {ID}\n")));
    assert_eq!(web_active_id("nope"), None);
    assert!(web_active_writable(ID));
    assert!(!web_active_writable(&format!(" {ID}")));
    assert!(valid_id(ID));
    assert!(!valid_id("../x"));
    assert!(!valid_id("a/b"));
    assert!(!valid_id("not-a-uuid"));
}

#[test]
fn leader_list_text() {
    assert_eq!(
        leader_pid(r#"{"leaders":[{"classification":"Unreachable","pidLive":5},{"classification":"ok","pid_live":0},{"classification":"ok","pid_live":42}]}"#),
        Some(42)
    );
    assert_eq!(leader_pid(r#"[{"pidLive":7}]"#), Some(7));
    assert_eq!(leader_pid(r#"{"items":[{"pidLive":-3},{"pid_live":9}]}"#), Some(9));
    assert_eq!(leader_pid(r#"{"pidLive":11}"#), Some(11));
    assert_eq!(leader_pid("not json"), None);
}

#[test]
fn session_cookies() {
    assert_eq!(
        build_session_cookie("ggok_9888", "v"),
        "ggok_9888=v; HttpOnly; SameSite=Lax; Path=/; Max-Age=604800"
    );
    assert_eq!(clear_session_cookie("ggok"), "ggok=; HttpOnly; SameSite=Lax; Path=/; Max-Age=0");
}

fn get<'a>(v: &'a FieldVal, k: &str) -> Option<&'a FieldVal> {
    match v {
        FieldVal::Object(fs) => fs.iter().find(|(n, _)| n == k).map(|(_, x)| x),
        _ => None,
    }
}

#[test]
fn fork_and_compact_requests() {
    assert!(fork_params("s", None, true).is_none());
    let p = fork_params("s", Some("  go on "), false).unwrap();
    assert!(matches!(get(&p, "sessionId"), Some(FieldVal::Str(x)) if x == "s"));
    assert!(matches!(get(&p, "worktree"), Some(FieldVal::Bool(false))));
    assert!(matches!(get(&p, "directive"), Some(FieldVal::Str(x)) if x == "go on"));
    let p = fork_params("s", Some("  "), false).unwrap();
    assert!(get(&p, "directive").is_none());
    let c = compact_params("s", Some(" keep it "));
    assert!(matches!(get(&c, "context"), Some(FieldVal::Str(x)) if x == "keep it"));
    assert!(get(&compact_params("s", None), "context").is_none());
    let res = fv(&serde_json::from_str(r#"{"session_id":" new ","workingDirectory":"/w"}"#).unwrap());
    let f = forked_session(&res, "/old", "s").unwrap();
    assert_eq!((f.id.as_str(), f.cwd.as_str(), f.parent_id.as_str()), ("new", "/w", "s"));
    let res = fv(&serde_json::from_str(r#"{"newSessionId":"n"}"#).unwrap());
    assert_eq!(forked_session(&res, "/old", "s").unwrap().cwd, "/old");
    let res = fv(&serde_json::from_str(r#"{"id":"  "}"#).unwrap());
    assert!(forked_session(&res, "/old", "s").is_none());
}

fn parsed(session: &str, tool: &str, n: usize) -> ParsedAsk {
    ParsedAsk {
        session_id: session.into(),
        tool_id: tool.into(),
        mode: String::new(),
        questions: (0..n)
            .map(|_| AskQuestion { question: "Q?".into(), header: String::new(), options: vec![], multi_select: false })
            .collect(),
    }
}

fn pending(p: AskPlan) -> (String, String) {
    match p {
        AskPlan::Pending { session, key } => (session, key),
        AskPlan::Skip { .. } => panic!("expected a pending question"),
    }
}

#[test]
fn question_keying() {
    assert_eq!(rpc_key(&FieldVal::UInt(7)).as_deref(), Some("7"));
    assert_eq!(rpc_key(&FieldVal::NegInt(-2)).as_deref(), Some("-2"));
    assert_eq!(rpc_key(&FieldVal::Str("r1".into())).as_deref(), Some("r1"));
    assert_eq!(rpc_key(&FieldVal::Null), None);
    assert_eq!(pending(ask_user_plan(&parsed("s", "t1", 1), None, &FieldVal::UInt(3), "f")), ("s".into(), "t1".into()));
    assert_eq!(pending(ask_user_plan(&parsed("s", "", 1), None, &FieldVal::UInt(3), "f")), ("s".into(), "3".into()));
    assert_eq!(pending(ask_user_plan(&parsed("", "", 1), Some("web"), &FieldVal::Null, "f")), ("web".into(), "f".into()));
    assert!(matches!(ask_user_plan(&parsed("", "t", 1), None, &FieldVal::UInt(1), "f"), AskPlan::Skip { reply: true }));
    assert!(matches!(ask_user_plan(&parsed("s", "t", 0), None, &FieldVal::Null, "f"), AskPlan::Skip { reply: false }));
    assert!(matches!(pending_rpc_id(FieldVal::Null, Some(FieldVal::UInt(4))), FieldVal::UInt(4)));
    assert!(matches!(pending_rpc_id(FieldVal::UInt(5), Some(FieldVal::UInt(4))), FieldVal::UInt(5)));
    assert!(matches!(pending_rpc_id(FieldVal::Null, None), FieldVal::Null));
}

#[test]
fn merging_the_model_keeps_other_lines() {
    let src = "# top\n[ui]\ntheme = \"dark\"\n[models]\ndefault = \"old\"\nother = 1\n[x]\ny = 2\n";
    let r = merge_models_section(src, "new", "high");
    assert_eq!(
        r,
        "# top\n[ui]\ntheme = \"dark\"\n[models]\ndefault = \"new\"\nother = 1\ndefault_reasoning_effort = \"high\"\n[x]\ny = 2\n"
    );
    assert_eq!(merge_models_section(&r, "new", "high"), r);
    let added = merge_models_section("a = 1", "m\"q", "");
    assert_eq!(added, "a = 1\n\n[models]\ndefault = \"m\\\"q\"\n");
    assert_eq!(merge_models_section("a = 1", "", "high"), "a = 1");
    let tail = "[models]\ndefault = \"m\"\n\n\n";
    let once = merge_models_section(tail, "m", "");
    assert_eq!(once, "[models]\ndefault = \"m\"\n\n");
    assert_eq!(merge_models_section(&once, "m", ""), "[models]\ndefault = \"m\"\n");
}

#[test]
fn skill_files_listed_skill_md_then_markdown_then_rest() {
    let names: Vec<String> =
        ["b.txt", "README.md", "SKILL.md", "a.md", "A.txt", "docs/Guide.MD"].iter().map(|s| s.to_string()).collect();
    let sorted = ggok::skill::sort_skill_files(&names);
    assert_eq!(sorted, vec!["SKILL.md", "a.md", "docs/Guide.MD", "README.md", "A.txt", "b.txt"]);
}

#[test]
fn skill_files_equal_names_keep_walk_order() {
    let names: Vec<String> = ["x.txt", "X.txt"].iter().map(|s| s.to_string()).collect();
    assert_eq!(ggok::skill::sort_skill_files(&names), vec!["x.txt", "X.txt"]);
}
