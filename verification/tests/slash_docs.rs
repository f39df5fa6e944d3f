use ggok::slash_docs::{extract_ticks, first_paragraph, parse_docs, parse_tick, strip_md};

fn chars(s: &str) -> Vec<char> {
    s.chars().collect()
}

#[test]
fn ticks_name_commands_and_hints() {
    let t = parse_tick(&chars(" /model <name|id> ")).unwrap();
    assert_eq!(t.0, "model");
    assert_eq!(t.1.as_deref(), Some("name|id"));
    let t = parse_tick(&chars("/clear")).unwrap();
    assert_eq!(t, ("clear".to_string(), None));
    assert_eq!(parse_tick(&chars("clear")), None);
    assert_eq!(parse_tick(&chars("/bad.name")), None);
    assert_eq!(parse_tick(&chars("/")), None);
    let t = parse_tick(&chars("/resume [\\<id\\>]")).unwrap();
    assert_eq!(t.1.as_deref(), Some("<id"));
}

#[test]
fn ticks_in_a_heading_each_once() {
    let v = extract_ticks(&chars("`/help` or `/h` and `/help x` and `plain` `/open"));
    let names: Vec<&str> = v.iter().map(|(n, _)| n.as_str()).collect();
    assert_eq!(names, vec!["help", "h"]);
}

#[test]
fn markdown_stripped() {
    let s: String = strip_md(&chars("See [the docs](http://x) and **bold** `code` [x] [open")).into_iter().collect();
    assert_eq!(s, "See the docs and bold code [x] [open");
}

#[test]
fn first_paragraph_skips_code_and_tables() {
    let body: Vec<Vec<char>> = ["", "```", "code", "```", "| a | b |", "Shows **help**.", "More text.", "", "Next para."]
        .iter()
        .map(|l| chars(l))
        .collect();
    let d: String = first_paragraph(&body).into_iter().collect();
    assert_eq!(d, "Shows help. More text.");
}

#[test]
fn guide_parsed_into_sorted_commands() {
    let text = "# Slash commands\n\n### `/model` `/m`\n\nPick a **model**.\n\nAliases: `/mdl`\n\n### Aliases for `/clear`: `/reset` `/new`\nClears the chat.\n\n### `/clear`\nWipes history.\n\n### Nothing here\ntext\n";
    let cmds = parse_docs(text);
    let names: Vec<&str> = cmds.iter().map(|c| c.name.as_str()).collect();
    assert_eq!(names, vec!["clear", "m", "model"]);
    let clear = &cmds[0];
    assert_eq!(clear.description, "Clears the chat.");
    assert_eq!(clear.aliases, vec!["reset".to_string(), "new".to_string()]);
    let model = &cmds[2];
    assert_eq!(model.description, "Pick a model.");
    assert_eq!(model.aliases, vec!["mdl".to_string(), "m".to_string()]);
    assert_eq!(cmds[1].aliases, vec!["mdl".to_string(), "model".to_string()]);
}
