use ggok::prompt::build_prompt;
use ggok::types::PromptFile;

fn file(path: &str, mime: Option<&str>) -> PromptFile {
    PromptFile { path: path.to_string(), mime: mime.map(str::to_string) }
}

#[test]
fn mentions_files_below_cwd() {
    let files = vec![file("/w/src/a.rs", Some("text/plain")), file("/other/b.txt", None)];
    let p = build_prompt("look", &files, &[None, None], "/w", true);
    assert_eq!(p.text, "look\n@src/a.rs\n@/other/b.txt");
    assert!(p.images.is_empty());
}

#[test]
fn skips_mentions_already_in_text() {
    let files = vec![file("/w/a.rs", None)];
    let p = build_prompt("see @a.rs please", &files, &[None], "/w", true);
    assert_eq!(p.text, "see @a.rs please");
    let p = build_prompt("", &files, &[None], "/w", true);
    assert_eq!(p.text, "@a.rs");
    let p = build_prompt("line\n", &files, &[None], "/w", true);
    assert_eq!(p.text, "line\n@a.rs");
}

#[test]
fn sends_images_when_accepted() {
    let files = vec![file("/w/i.png", Some("image/png"))];
    let bytes = vec![Some(b"hi".to_vec())];
    let p = build_prompt("pic", &files, &bytes, "/w", true);
    assert_eq!(p.text, "pic");
    assert_eq!(p.images, vec![("image/png".to_string(), "aGk=".to_string())]);
    let p = build_prompt("pic", &files, &bytes, "/w", false);
    assert_eq!(p.text, "pic\n@i.png");
    assert!(p.images.is_empty());
    let p = build_prompt("pic", &files, &[None], "/w", true);
    assert_eq!(p.text, "pic\n@i.png");
}
