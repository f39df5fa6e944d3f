use ggok::agent::tail_event;
use ggok::parse::{Event, FieldVal, Parser, Shape, Update};
use ggok::types::Block;

fn field(k: &str, v: &str) -> (String, FieldVal) {
    (k.to_string(), FieldVal::Str(v.to_string()))
}

fn event(fields: Vec<(String, FieldVal)>, content: Option<Shape>) -> Event {
    Event {
        update: Update { fields, content, raw_input: None, usage: None },
        meta: vec![field("promptId", "p1")],
        timestamp: Some(FieldVal::UInt(1_700_000_000_000)),
        params_timestamp: None,
    }
}

fn text_content(t: &str) -> Option<Shape> {
    Some(Shape::Object(vec![field("type", "text"), field("text", t)]))
}

#[test]
fn follows_a_transcript() {
    let mut p = Parser::new();
    let ev = event(vec![field("sessionUpdate", "agent_message_chunk")], text_content("Hello"));
    assert!(p.can_apply(&ev));
    let out = tail_event(&mut p, &ev);
    assert!(out.usage.is_none());
    assert!(out.context_used.is_none());
    match out.block {
        Some(Block::Assistant { text, .. }) => assert_eq!(text, "Hello"),
        other => panic!("expected streamed text, got {other:?}"),
    }
    let ev = event(vec![field("sessionUpdate", "tool_call"), field("toolCallId", "t1"), field("title", "ls")], None);
    assert!(p.can_apply(&ev));
    match tail_event(&mut p, &ev).block {
        Some(Block::Tool { id, .. }) => assert_eq!(id, "t1"),
        other => panic!("expected the tool call, got {other:?}"),
    }
    let ev = event(vec![field("sessionUpdate", "turn_completed"), field("stopReason", "end_turn")], None);
    assert!(p.can_apply(&ev));
    let out = tail_event(&mut p, &ev);
    assert!(out.usage.is_some());
    assert!(matches!(out.block, Some(Block::TurnEnd { .. })));
    let ev = event(vec![field("sessionUpdate", "plan")], None);
    assert!(p.can_apply(&ev));
    let out = tail_event(&mut p, &ev);
    assert!(out.block.is_none());
    assert!(out.usage.is_none());
}

fn usage(recorded: bool, input: u64) -> ggok::types::TokenUsage {
    let mut u = ggok::types::TokenUsage::empty();
    u.recorded = recorded;
    u.input_tokens = input;
    u
}

#[test]
fn next_prompt_keeps_usage_and_context() {
    let mut p = Parser::new();
    p.replace_usage(usage(true, 10));
    p.set_context_tokens(42);
    let mut saved = usage(false, 0);
    let fresh = ggok::agent::restart_parser(&p, &mut saved);
    assert!(fresh.last_block().is_none());
    assert_eq!(fresh.context_tokens(), 42);
    assert!(fresh.usage_snapshot().recorded);
    assert_eq!(fresh.usage_snapshot().input_tokens, 10);
    assert!(saved.recorded);
    assert_eq!(saved.input_tokens, 10);
    let mut saved2 = usage(true, 7);
    let blank = ggok::agent::restart_parser(&Parser::new(), &mut saved2);
    assert!(!blank.usage_snapshot().recorded);
    assert_eq!(saved2.input_tokens, 7);
}

#[test]
fn live_usage_falls_back_to_saved() {
    let (u, ctx) = ggok::agent::live_usage(&Parser::new(), &usage(true, 5));
    assert!(u.recorded);
    assert_eq!(u.input_tokens, 5);
    assert_eq!(ctx, 0);
    let mut p = Parser::new();
    p.replace_usage(usage(true, 9));
    let (u, _) = ggok::agent::live_usage(&p, &usage(true, 5));
    assert_eq!(u.input_tokens, 9);
    let (u, _) = ggok::agent::live_usage(&Parser::new(), &usage(false, 5));
    assert!(!u.recorded);
}

fn row(model: &str, input: u64) -> ggok::types::ModelUsageRow {
    ggok::types::ModelUsageRow { model: model.to_string(), input_tokens: input, ..Default::default() }
}

fn rows_of(u: &ggok::types::TokenUsage) -> Vec<(String, u64)> {
    u.models.iter().map(|r| (r.model.clone(), r.input_tokens)).collect()
}

#[test]
fn usage_rows_keep_the_last_per_name_in_name_order() {
    let mut p = Parser::new();
    let mut u = usage(true, 5);
    u.models = vec![row("zeta", 1), row("alpha", 2), row("", 3), row("zeta", 4), row("beta", 5)];
    p.replace_usage(u);
    let snap = p.usage_snapshot();
    assert_eq!(rows_of(&snap), vec![("alpha".to_string(), 2), ("beta".to_string(), 5), ("zeta".to_string(), 4)]);
    let mut q = Parser::new();
    q.replace_usage(snap.clone());
    assert_eq!(rows_of(&q.usage_snapshot()), rows_of(&snap));
    assert_eq!(q.usage_snapshot().input_tokens, 5);
}

fn user(t: &str) -> Block {
    Block::User { prompt_id: "p".into(), text: t.into(), files: vec![] }
}

fn texts(bs: &[Block]) -> Vec<String> {
    bs.iter()
        .map(|b| match b {
            Block::User { text, .. } => format!("u:{text}"),
            Block::Assistant { text, .. } => format!("a:{text}"),
            Block::TurnEnd { .. } => "end".to_string(),
            _ => "other".to_string(),
        })
        .collect()
}

#[test]
fn replayed_prompts_are_dropped_within_a_turn() {
    let end = Block::TurnEnd { prompt_id: "p".into(), duration_ms: 1, cancelled: false };
    let reply = Block::Assistant { prompt_id: "p".into(), text: "ok".into() };
    let out = ggok::parse::compact_duplicate_open_users(&[
        user("hi"),
        user("hi"),
        reply.clone(),
        user("hi"),
        user("other"),
        end,
        user("hi"),
    ]);
    assert_eq!(texts(&out), vec!["u:hi", "a:ok", "u:other", "end", "u:hi"]);
}

#[test]
fn snapshot_ends_with_streamed_reply() {
    let mut p = Parser::new();
    let ev = event(vec![field("sessionUpdate", "user_message_chunk")], text_content("hello"));
    tail_event(&mut p, &ev);
    let ev = event(vec![field("sessionUpdate", "agent_message_chunk")], text_content("Hi"));
    tail_event(&mut p, &ev);
    let snap = p.snapshot_blocks();
    assert_eq!(texts(&snap).last().map(String::as_str), Some("a:Hi"));
    assert_eq!(texts(&snap).iter().filter(|t| t.as_str() == "u:hello").count(), 1);
}
