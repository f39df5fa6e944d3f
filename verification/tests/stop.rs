use ggok::cli::{bin_step, leader_stop_action, tree_step, StopAction, UninstallStep};
use ggok::occupy::{jsonl_tail_lines, jsonl_tail_start, last_update_kind, JSONL_WINDOW};

#[test]
fn stop_without_all_leaves_the_leader() {
    let running = vec!["s1".to_string()];
    let a = leader_stop_action(false, &running, Some(true), true, true);
    assert_eq!(a, StopAction::WebOnly);
    assert_eq!(a.exit_code(), 0);
}

#[test]
fn running_sessions_keep_the_leader() {
    let running = vec!["s1".to_string(), "s2".to_string()];
    let a = leader_stop_action(true, &running, Some(true), true, true);
    assert_eq!(a, StopAction::ReportRunning(running.clone()));
    assert_eq!(a.exit_code(), 1);
}

#[test]
fn only_an_owned_live_grok_leader_is_stopped() {
    let none: Vec<String> = vec![];
    assert_eq!(leader_stop_action(true, &none, Some(true), true, true), StopAction::KillLeader);
    assert_eq!(leader_stop_action(true, &none, Some(false), true, true), StopAction::SkipLeader);
    assert_eq!(leader_stop_action(true, &none, None, true, true), StopAction::SkipLeader);
    assert_eq!(leader_stop_action(true, &none, Some(true), false, true), StopAction::SkipLeader);
    assert_eq!(leader_stop_action(true, &none, Some(true), true, false), StopAction::SkipLeader);
    assert_eq!(StopAction::KillLeader.exit_code(), 0);
    assert_eq!(StopAction::SkipLeader.exit_code(), 0);
}

#[test]
fn jsonl_tail_reads_whole_lines_of_the_last_window() {
    assert_eq!(jsonl_tail_start(10), 0);
    assert_eq!(jsonl_tail_start(JSONL_WINDOW), 0);
    assert_eq!(jsonl_tail_start(JSONL_WINDOW + 5), 5);
    assert_eq!(jsonl_tail_lines("a\nb\r\nc", 0), vec!["a", "b", "c"]);
    assert_eq!(jsonl_tail_lines("cut\nb\nc\n", 7), vec!["b", "c"]);
    assert!(jsonl_tail_lines("no newline", 3).is_empty());
    let kinds = vec![Some("plan".to_string()), None, Some("turn_completed".to_string()), None];
    assert_eq!(last_update_kind(&kinds).as_deref(), Some("turn_completed"));
    assert_eq!(last_update_kind(&[None, None]), None);
}

#[test]
fn uninstall_touches_only_ggok_paths() {
    assert_eq!(tree_step("/home/u/.config/ggok", true, true), UninstallStep::Remove);
    assert_eq!(tree_step("/tmp/.ggok-uploads", true, true), UninstallStep::Remove);
    assert_eq!(tree_step("/home/u/.config/ggok", true, false), UninstallStep::Leftover);
    assert_eq!(tree_step("/home/u/.grok", true, true), UninstallStep::Leftover);
    assert_eq!(tree_step("/home/u/.config/ggok", false, true), UninstallStep::Skip);
    assert_eq!(bin_step("/usr/local/bin/ggok", true, true), UninstallStep::Remove);
    assert_eq!(bin_step("/usr/local/bin/ggok", true, false), UninstallStep::Leftover);
    assert_eq!(bin_step("/src/target/release/ggok", true, true), UninstallStep::Skip);
    assert_eq!(bin_step("/usr/local/bin/grok", true, true), UninstallStep::Skip);
    assert_eq!(bin_step("/usr/local/bin/ggok", false, true), UninstallStep::Skip);
}
