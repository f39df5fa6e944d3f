use ggok::queue::{ItemNotFound, PromptQueue, SendNow, Submitted};
use ggok::types::QueueItem;

fn item(id: &str, text: &str) -> QueueItem {
    QueueItem { id: id.to_string(), text: text.to_string(), files: Vec::new() }
}

fn ids(q: &PromptQueue) -> Vec<String> {
    q.list().into_iter().map(|i| i.id).collect()
}

#[test]
fn idle_prompt_starts_and_later_ones_wait_in_order() {
    let mut q = PromptQueue::new();
    assert!(!q.is_running());
    match q.submit(item("a", "first")) {
        Submitted::Start(i) => assert_eq!(i.id, "a"),
        Submitted::Queued => panic!("should start"),
    }
    assert!(q.is_running());
    assert!(matches!(q.submit(item("b", "second")), Submitted::Queued));
    assert!(matches!(q.submit(item("c", "third")), Submitted::Queued));
    assert_eq!(ids(&q), vec!["b", "c"]);
    assert!(q.drain().is_none());
    q.finish();
    assert_eq!(q.drain().map(|i| i.id).as_deref(), Some("b"));
    assert!(q.is_running());
    q.finish();
    assert_eq!(q.drain().map(|i| i.id).as_deref(), Some("c"));
    q.finish();
    assert!(q.drain().is_none());
    assert!(!q.is_running());
}

#[test]
fn send_now_cancels_and_goes_next() {
    let mut q = PromptQueue::new();
    let _ = q.submit(item("a", "run"));
    let _ = q.submit(item("b", "wait"));
    let _ = q.submit(item("c", "urgent"));
    assert!(matches!(q.send_now("zzz"), SendNow::Missing));
    assert!(matches!(q.send_now("c"), SendNow::CancelRunning));
    assert_eq!(ids(&q), vec!["b"]);
    q.finish();
    assert_eq!(q.drain().map(|i| i.id).as_deref(), Some("c"));
    q.finish();
    match q.send_now("b") {
        SendNow::Start(i) => assert_eq!(i.text, "wait"),
        _ => panic!("should start"),
    }
    assert!(q.list().is_empty());
}

#[test]
fn patch_and_delete_waiting_prompts() {
    let mut q = PromptQueue::new();
    let _ = q.submit(item("a", "run"));
    let _ = q.submit(item("b", "one"));
    let _ = q.submit(item("c", "two"));
    let _ = q.submit(item("b", "three"));
    assert_eq!(q.patch("b", "edited".to_string()), Ok(()));
    let texts: Vec<String> = q.list().into_iter().map(|i| i.text).collect();
    assert_eq!(texts, vec!["edited", "two", "three"]);
    assert_eq!(q.patch("x", "nope".to_string()), Err(ItemNotFound));
    assert_eq!(q.delete("b"), Ok(()));
    assert_eq!(ids(&q), vec!["c"]);
    assert_eq!(q.delete("b"), Err(ItemNotFound));
    q.replace_items(vec![item("d", "from grok")]);
    assert_eq!(ids(&q), vec!["d"]);
}
