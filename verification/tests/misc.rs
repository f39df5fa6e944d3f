use ggok::account::{looks_email, mask_email};
use ggok::parse::{timestamp_ms, FieldVal};
use ggok::pins::{is_pinned, load_pins, pins_path_from_agent_pid, set_pinned, valid_title, SessionError};
use ggok::scan::project_cwd;
use ggok::files::{compress_upload, is_png_upload, png_options, PngOptions, PngStrip};
use ggok::text::words_of;

const ID1: &str = "0190b6a2-3c4d-7e8f-9a0b-1c2d3e4f5a6b";
const ID2: &str = "11111111-2222-3333-4444-555555555555";

#[test]
fn pins_keep_session_ids_and_put_new_first() {
    let stored: Vec<String> = vec![ID1.into(), "not-an-id".into(), ID2.into()];
    let pins = load_pins(&stored);
    assert_eq!(pins, vec![ID1.to_string(), ID2.to_string()]);
    let after = set_pinned(&pins, ID2, true).unwrap();
    assert_eq!(after, vec![ID2.to_string(), ID1.to_string()]);
    assert!(is_pinned(&after, ID2));
    let after = set_pinned(&after, ID2, false).unwrap();
    assert_eq!(after, vec![ID1.to_string()]);
    assert!(!is_pinned(&after, ID2));
    assert_eq!(set_pinned(&after, "nope", true), Err(SessionError::InvalidSessionId));
    assert_eq!(pins_path_from_agent_pid("/s/grok-agent.pid"), "/s/pins.json");
}

#[test]
fn titles() {
    assert_eq!(valid_title("  Hi  ").unwrap(), "Hi");
    assert_eq!(valid_title("   "), Err(SessionError::TitleEmpty));
    assert_eq!(valid_title("a\u{7}b"), Err(SessionError::TitleControlChars));
    assert_eq!(valid_title(&"x".repeat(1000)), Err(SessionError::TitleTooLong));
}

#[test]
fn emails() {
    assert!(looks_email("me@example.com"));
    assert!(!looks_email("me@example"));
    assert!(!looks_email("not an email"));
    assert_eq!(mask_email("me@example.com"), "m***@example.com");
    assert_eq!(mask_email("nope"), "***");
}

#[test]
fn timestamps_in_milliseconds() {
    assert_eq!(timestamp_ms(&Some(FieldVal::Str("2024-01-01T00:00:00.500Z".into()))), Some(1_704_067_200_500));
    assert_eq!(timestamp_ms(&Some(FieldVal::Str("2024-01-01T08:00:00+08:00".into()))), Some(1_704_067_200_000));
    assert_eq!(timestamp_ms(&Some(FieldVal::UInt(1_700_000_000))), Some(1_700_000_000_000));
    assert_eq!(timestamp_ms(&Some(FieldVal::UInt(1_700_000_000_123))), Some(1_700_000_000_123));
    assert_eq!(timestamp_ms(&Some(FieldVal::Str("yesterday".into()))), None);
    assert_eq!(timestamp_ms(&None), None);
}

#[test]
fn project_directories() {
    assert_eq!(project_cwd(Some(" /work/app \n"), "x"), "/work/app");
    assert_eq!(project_cwd(Some("  "), "%2Fhome%2Fu%20b"), "/home/u b");
    assert_eq!(project_cwd(None, "plain"), "plain");
}

#[test]
fn png_uploads() {
    assert!(is_png_upload("shot.PNG"));
    assert!(!is_png_upload("notes.txt"));
    let bytes = b"hello".to_vec();
    assert_eq!(compress_upload("notes.txt", bytes.clone()), bytes);
    let junk = b"not really a png".to_vec();
    assert_eq!(compress_upload("x.png", junk.clone()), junk);
}

#[test]
fn words_split_on_white_space() {
    let s: Vec<char> = "  a bc\t d\n".chars().collect();
    let w: Vec<String> = words_of(&s).into_iter().map(|v| v.into_iter().collect()).collect();
    assert_eq!(w, vec!["a", "bc", "d"]);
    assert!(words_of(&[' ', '\n']).is_empty());
}

#[test]
fn session_updates_live_under_encoded_cwd() {
    assert_eq!(
        ggok::scan::session_updates_path("/h/.grok", "/home/u/my-proj", "sid").as_deref(),
        Some("/h/.grok/sessions/%2Fhome%2Fu%2Fmy%2Dproj/sid/updates.jsonl")
    );
    assert_eq!(ggok::scan::session_updates_path("/h/.grok", "", "sid"), None);
    assert_eq!(
        ggok::scan::session_updates_path("/h", "/é z", "s").as_deref(),
        Some("/h/sessions/%2F%C3%A9%20z/s/updates.jsonl")
    );
}

#[test]
fn png_uploads_are_optimised_losslessly_within_eight_seconds() {
    assert_eq!(
        png_options(),
        PngOptions { preset: 2, strip: PngStrip::Safe, timeout_secs: 8, optimize_alpha: false, scale_16: false }
    );
}
