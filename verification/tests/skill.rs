use ggok::skill::{
    add_entry_size, card_description, create_contents, file_kind, find_skill_md, is_zip_upload,
    looks_folded, markdown_upload, parse_frontmatter, render_skill_md, safe_rel, skill_category,
    skill_file_rank, skill_info, skill_label, slug_name, unquote, user_skill_dir, yaml_escape,
    zip_entry_target, zip_skill_prefix, Frontmatter, SkillError, find_skill, listed_kind, text_wanted,
    walk_skips, SkillInfo, MAX_TEXT,
};

#[test]
fn slugs_from_names() {
    assert_eq!(slug_name("  My Cool_Skill!! ").unwrap(), "my-cool-skill");
    assert_eq!(slug_name("--a--b--").unwrap(), "a-b");
    assert_eq!(slug_name("!!!"), Err(SkillError::NameRequired));
    assert_eq!(slug_name(&"a".repeat(65)), Err(SkillError::NameTooLong));
    assert_eq!(slug_name(&"a".repeat(64)).unwrap().len(), 64);
}

#[test]
fn slug_of_slug_is_unchanged() {
    let once = slug_name("Resume Builder 2").unwrap();
    assert_eq!(slug_name(&once).unwrap(), once);
}

#[test]
fn yaml_scalars() {
    assert_eq!(yaml_escape("plain text"), "plain text");
    assert_eq!(yaml_escape("a: b"), "\"a: b\"");
    assert_eq!(yaml_escape("say \"hi\"\nnow"), "\"say \\\"hi\\\" now\"");
    assert_eq!(yaml_escape(""), "\"\"");
    assert_eq!(yaml_escape("-x"), "\"-x\"");
    assert_eq!(yaml_escape("back\\slash:"), "\"back\\\\slash:\"");
    assert_eq!(yaml_escape("  line\r\n"), "line");
}

#[test]
fn unquoting_values() {
    let v: Vec<char> = " \"a \\\"b\\\"\\nc\" ".chars().collect();
    assert_eq!(unquote(&v).into_iter().collect::<String>(), "a \"b\" c");
    let v: Vec<char> = "'x'".chars().collect();
    assert_eq!(unquote(&v).into_iter().collect::<String>(), "x");
    let v: Vec<char> = "\"x'".chars().collect();
    assert_eq!(unquote(&v).into_iter().collect::<String>(), "\"x'");
    assert!(looks_folded(" >- "));
    assert!(looks_folded(""));
    assert!(!looks_folded("text"));
}

#[test]
fn labels_and_categories() {
    assert_eq!(skill_label("my-cool--skill"), "My Cool Skill");
    assert_eq!(skill_label("docx"), "Word Documents");
    assert_eq!(skill_label("create-skill"), "Skill Creator");
    assert_eq!(skill_label("-x-"), "X");
    assert_eq!(skill_category("bundled", "game-snake"), "game");
    assert_eq!(skill_category("bundled", "resume-pro"), "resume");
    assert_eq!(skill_category("user", "pdf"), "personal");
    assert_eq!(skill_category("bundled", "pdf"), "documents");
    assert_eq!(skill_category("bundled", "x"), "builtin");
}

#[test]
fn card_descriptions() {
    let fm = |short: Option<&str>, desc: Option<&str>| Frontmatter {
        name: None,
        description: desc.map(str::to_string),
        short_description: short.map(str::to_string),
    };
    assert_eq!(card_description(&fm(Some("  Short  "), Some("Long. Text"))), "Short");
    assert_eq!(card_description(&fm(None, Some("First sentence. Second."))), "First sentence.");
    assert_eq!(card_description(&fm(Some(" "), Some(">"))), "");
    assert_eq!(card_description(&fm(None, None)), "");
    let long = "a".repeat(200);
    let want = format!("{}…", "a".repeat(140));
    assert_eq!(card_description(&fm(None, Some(&long))), want);
}

#[test]
fn front_matter_first_values_win() {
    let text = "\u{feff}---\nname: \"demo\"\ndescription: Does things. More\n# comment\nshort-description: tiny\nname: other\n---\nbody";
    let fm = parse_frontmatter(text);
    assert_eq!(fm.name.as_deref(), Some("demo"));
    assert_eq!(fm.description.as_deref(), Some("Does things. More"));
    assert_eq!(fm.short_description.as_deref(), Some("tiny"));
    let none = parse_frontmatter("hello\nname: x");
    assert!(none.name.is_none() && none.description.is_none() && none.short_description.is_none());
    let crlf = parse_frontmatter("---\r\nshort_description: s\r\n---\r\n");
    assert_eq!(crlf.short_description.as_deref(), Some("s"));
}

#[test]
fn card_for_found_skill() {
    let fm = parse_frontmatter("---\nname: \ndescription: Makes decks. Fast\n---\n");
    let info = skill_info(&fm, Some("pptx".to_string()), "/g/pptx/SKILL.md".to_string(), "bundled");
    assert_eq!(info.name, "pptx");
    assert_eq!(info.label, "Presentations");
    assert_eq!(info.category, "documents");
    assert_eq!(info.description, "Makes decks.");
    assert_eq!(info.scope, "bundled");
    let info = skill_info(&fm, None, "/x/SKILL.md".to_string(), "user");
    assert_eq!(info.name, "skill");
}

#[test]
fn safe_relative_paths() {
    assert_eq!(safe_rel("a\\b/./c").as_deref(), Some("a/b/c"));
    assert_eq!(safe_rel("./a//b").as_deref(), Some("a/b"));
    assert_eq!(safe_rel("../x"), None);
    assert_eq!(safe_rel("a/../x"), None);
    assert_eq!(safe_rel("/abs"), None);
    assert_eq!(safe_rel("dir/"), None);
    assert_eq!(safe_rel("."), None);
}

#[test]
fn file_kinds_and_ranks() {
    assert_eq!(file_kind("README.MD"), "markdown");
    assert_eq!(file_kind("bin/x.py"), "script");
    assert_eq!(file_kind("img.PNG"), "binary");
    assert_eq!(file_kind("notes.txt"), "text");
    assert_eq!(file_kind("Makefile"), "text");
    assert_eq!(skill_file_rank("skill.MD"), 0);
    assert_eq!(skill_file_rank("guide.md"), 1);
    assert_eq!(skill_file_rank("a.py"), 2);
}

#[test]
fn zip_detection() {
    assert!(is_zip_upload("x.zip", b""));
    assert!(is_zip_upload("x.skill", b"PK\x03\x04"));
    assert!(!is_zip_upload("x.md", b"PK\x03\x04"));
    assert!(is_zip_upload("x", b"PK\x03\x04"));
    assert!(!is_zip_upload("x.skill", b"abcd"));
    assert!(!is_zip_upload("x", b"PK"));
}

#[test]
fn skill_md_in_archive() {
    let names: Vec<String> = ["a/b/SKILL.md", "x/skill.md", "SKILL.md"].iter().map(|s| s.to_string()).collect();
    assert_eq!(find_skill_md(&names), Some((2, "SKILL.md".to_string())));
    let names: Vec<String> = ["x/skill.md", "y/SKILL.md"].iter().map(|s| s.to_string()).collect();
    assert_eq!(find_skill_md(&names), Some((0, "x/skill.md".to_string())));
    assert_eq!(find_skill_md(&[]), None);
    assert_eq!(zip_skill_prefix("x/skill.md").as_deref(), Some("x"));
    assert_eq!(zip_skill_prefix("SKILL.md"), None);
}

#[test]
fn archive_entry_targets() {
    assert_eq!(zip_entry_target("x/scripts/run.sh", false, Some("x")).as_deref(), Some("scripts/run.sh"));
    assert_eq!(zip_entry_target("x/SKILL.md", false, Some("x")).as_deref(), Some("SKILL.md"));
    assert_eq!(zip_entry_target("y/a", false, Some("x")), None);
    assert_eq!(zip_entry_target("x", false, Some("x")), None);
    assert_eq!(zip_entry_target("x/__MACOSX/a", false, Some("x")), None);
    assert_eq!(zip_entry_target("x/a", true, Some("x")), None);
    assert_eq!(zip_entry_target("a/.DS_Store", false, None), None);
    assert_eq!(zip_entry_target("a/b", false, None).as_deref(), Some("a/b"));
    assert_eq!(add_entry_size(8388000, 1000), Err(SkillError::ZipTooLarge));
    assert_eq!(add_entry_size(1, 2), Ok(3));
    assert_eq!(add_entry_size(u64::MAX, 2), Err(SkillError::ZipTooLarge));
}

#[test]
fn new_skill_markdown() {
    assert_eq!(
        create_contents("My Skill", "  Does it  ", " body\n"),
        Ok(("my-skill".to_string(), "---\nname: my-skill\ndescription: Does it\n---\n\nbody\n".to_string()))
    );
    assert_eq!(create_contents("x", "  ", ""), Err(SkillError::DescriptionRequired));
    assert_eq!(create_contents("", "d", ""), Err(SkillError::NameRequired));
    assert_eq!(render_skill_md("n", "a: b", "b"), "---\nname: n\ndescription: \"a: b\"\n---\n\nb\n");
    assert_eq!(user_skill_dir("/h/.grok", "demo"), "/h/.grok/skills/demo");
}

#[test]
fn markdown_uploads() {
    assert_eq!(markdown_upload("SKILL.md", "# Title\ntext"), Err(SkillError::NameRequired));
    assert_eq!(
        markdown_upload("notes.md", "hello"),
        Ok(("notes".to_string(), "---\nname: notes\ndescription: \"\"\n---\n\nhello\n".to_string()))
    );
    let text = "---\nname: Demo Skill\n---\nbody";
    assert_eq!(markdown_upload("x.md", text), Ok(("demo-skill".to_string(), text.to_string())));
    let spaced = "  ---\nname: Demo Skill\n---\nbody";
    assert_eq!(markdown_upload("x.md", spaced), Ok(("x".to_string(), spaced.to_string())));
}

fn info(name: &str, scope: &str) -> SkillInfo {
    SkillInfo {
        name: name.to_string(),
        label: String::new(),
        description: String::new(),
        path: format!("/s/{name}/SKILL.md"),
        scope: scope.to_string(),
        category: String::new(),
    }
}

#[test]
fn finds_the_skill_asked_for() {
    let skills = vec![info("Deploy", "user"), info("deploy", "project"), info("other", "bundled")];
    assert_eq!(find_skill(&skills, "  DEPLOY ", None), Ok(0));
    assert_eq!(find_skill(&skills, "deploy", Some(" project ")), Ok(1));
    assert_eq!(find_skill(&skills, "deploy", Some("  ")), Ok(0));
    assert_eq!(find_skill(&skills, "deploy", Some("bundled")), Err(SkillError::NotFound));
    assert_eq!(find_skill(&skills, "   ", None), Err(SkillError::NameRequired));
}

#[test]
fn lists_skill_files() {
    assert!(walk_skips(".git"));
    assert!(walk_skips("node_modules"));
    assert!(walk_skips("__MACOSX"));
    assert!(walk_skips(".DS_Store"));
    assert!(!walk_skips("scripts"));
    assert!(text_wanted("text", 10));
    assert!(!text_wanted("binary", 10));
    assert!(!text_wanted("text", 0));
    assert!(!text_wanted("markdown", MAX_TEXT + 1));
    assert_eq!(listed_kind("text", false, MAX_TEXT + 1), "binary");
    assert_eq!(listed_kind("markdown", false, MAX_TEXT + 1), "markdown");
    assert_eq!(listed_kind("script", true, 5), "script");
    assert_eq!(listed_kind("text", false, 5), "text");
}
