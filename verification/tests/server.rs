use ggok::account::{curl_header_config, escape_curl_dq, period_label, tier_label};
use ggok::cli::{is_build_artifact, is_ggok_leaf};
use ggok::limiter::{LoginLimiter, FAIL_LIMIT, FAIL_WINDOW_MS, MAX_TRACKED_IPS};
use ggok::occupy::{jsonl_running_uncached, parse_leader_list};
use ggok::parse::FieldVal;
use ggok::release::{parse_sha256sums, ReleaseError};
use ggok::web::{
    annotate_download, bust_html, download_basename, fts_phrase, public_err, sanitize_filename,
};

#[test]
fn limiter_blocks_after_five_failures() {
    let mut l = LoginLimiter::new();
    for i in 0..(FAIL_LIMIT as u64) {
        assert!(!l.blocked("1.2.3.4", 1000 + i));
        l.record_fail("1.2.3.4", 1000 + i);
    }
    assert!(l.blocked("1.2.3.4", 2000));
    assert!(!l.blocked("5.6.7.8", 2000));
    assert!(!l.blocked("1.2.3.4", 1004 + FAIL_WINDOW_MS));
    for i in 0..(FAIL_LIMIT as u64) {
        l.record_fail("9.9.9.9", 10 + i);
    }
    assert!(l.blocked("9.9.9.9", 20));
    l.clear("9.9.9.9");
    assert!(!l.blocked("9.9.9.9", 20));
}

#[test]
fn limiter_forgets_an_address_when_full() {
    let mut l = LoginLimiter::new();
    for i in 0..MAX_TRACKED_IPS {
        l.record_fail(&format!("ip{i}"), 5);
    }
    for _ in 0..FAIL_LIMIT {
        l.record_fail("ip0", 5);
    }
    assert!(l.blocked("ip0", 6));
    l.record_fail("new", 7);
    assert!(l.blocked("ip0", 8));
}

#[test]
fn error_lines_for_the_browser() {
    assert_eq!(public_err("Error: boom\nstack backtrace:\n 0: x"), "boom");
    assert_eq!(public_err("  error\n\n  real cause  \n"), "real cause");
    assert_eq!(public_err(&"x".repeat(300)), format!("{}...", "x".repeat(240)));
    assert_eq!(public_err("   "), "");
}

#[test]
fn download_names() {
    assert_eq!(sanitize_filename("a\"b\nc"), "a_b_c");
    assert_eq!(download_basename("/w/report.pdf", false), "report.pdf");
    assert_eq!(download_basename("/w/proj", true), "proj.zip");
    assert_eq!(download_basename("/w/a.ZIP", true), "a.ZIP");
    assert_eq!(download_basename("/", true), "workspace.zip");
    assert_eq!(download_basename("/", false), "file");
}

#[test]
fn asset_links_and_search_phrases() {
    let html = "<link href=\"/app.css\"><script src=\"/app.js\"></script><script src=\"/i18n.js\"></script>";
    assert_eq!(
        bust_html(html, "abc"),
        "<link href=\"/app.css?v=abc\"><script src=\"/app.js?v=abc\"></script><script src=\"/i18n.js?v=abc\"></script>"
    );
    assert_eq!(fts_phrase(" foo \"bar\" (x*) "), "\"foo  bar   x\"");
    assert_eq!(fts_phrase(""), "\"\"");
}

#[test]
fn update_messages() {
    assert_eq!(
        annotate_download("Network timeout while downloading", "0.2.0"),
        "Network timeout while downloading 0.2.0\nCheck the connection and run ggok update again"
    );
    assert_eq!(annotate_download("Release is not ready yet", "0.2.0"), "Release 0.2.0 is not ready yet");
    assert_eq!(annotate_download("other", "0.2.0"), "other");
}

#[test]
fn usage_labels() {
    assert_eq!(period_label("WEEKLY_LIMIT"), "weekly");
    assert_eq!(period_label("per-month"), "monthly");
    assert_eq!(period_label("Day"), "daily");
    assert_eq!(period_label("Hourly"), "hourly");
    assert_eq!(tier_label("super_grok"), "SuperGrok");
    assert_eq!(tier_label("X-Premium+"), "X Premium");
    assert_eq!(tier_label("Mystery"), "Mystery");
    assert_eq!(escape_curl_dq("a\"b\\c\nd"), "a\\\"b\\\\cd");
    assert_eq!(
        curl_header_config("t\"k"),
        "header = \"Authorization: Bearer t\\\"k\"\nheader = \"Accept: application/json\"\nheader = \"X-XAI-Token-Auth: xai-grok-cli\"\n"
    );
}

#[test]
fn checksum_lists() {
    let hex = "ab".repeat(32);
    let text = format!("{hex}  other.tar.gz\n{hex} *ggok_0.1.0_linux_amd64.tar.gz\n");
    assert_eq!(parse_sha256sums(&text, "ggok_0.1.0_linux_amd64.tar.gz").unwrap(), hex);
    assert_eq!(parse_sha256sums(&text, "missing"), Err(ReleaseError::NoSha256));
    assert_eq!(parse_sha256sums("zz file\n", "file"), Err(ReleaseError::InvalidSha256));
    assert_eq!(parse_sha256sums(&format!("{hex} file extra\n"), "file"), Err(ReleaseError::NoSha256));
}

#[test]
fn leader_rows() {
    let rows = FieldVal::Object(vec![(
        "leaders".to_string(),
        FieldVal::Array(vec![
            FieldVal::Object(vec![
                ("classification".to_string(), FieldVal::Str("reachable".into())),
                ("pidLive".to_string(), FieldVal::UInt(42)),
            ]),
            FieldVal::Object(vec![("pid_live".to_string(), FieldVal::UInt(7))]),
            FieldVal::Object(vec![("pidLive".to_string(), FieldVal::UInt(0))]),
        ]),
    )]);
    let v = parse_leader_list(&rows);
    assert_eq!(v.len(), 3);
    assert_eq!(v[0].classification, "reachable");
    assert_eq!(v[0].pid_live, Some(42));
    assert_eq!(v[1].pid_live, Some(7));
    assert_eq!(v[2].pid_live, None);
    assert!(parse_leader_list(&FieldVal::Null).is_empty());
    let single = FieldVal::Object(vec![("pidLive".to_string(), FieldVal::UInt(3))]);
    assert_eq!(parse_leader_list(&single)[0].pid_live, Some(3));
}

#[test]
fn transcripts_running() {
    assert!(!jsonl_running_uncached(Some("turn_completed"), Some((1, 0))));
    assert!(jsonl_running_uncached(Some("agent_message_chunk"), Some((15, 0))));
    assert!(!jsonl_running_uncached(None, Some((15, 1))));
    assert!(!jsonl_running_uncached(None, None));
}

#[test]
fn uninstall_paths() {
    assert!(is_build_artifact("/home/u/src/ggok/target/release/ggok"));
    assert!(!is_build_artifact("/home/u/.local/bin/ggok"));
    assert!(is_ggok_leaf("/home/u/.config/ggok"));
    assert!(is_ggok_leaf("/tmp/.ggok-uploads"));
    assert!(!is_ggok_leaf("/home/u/.config"));
}
