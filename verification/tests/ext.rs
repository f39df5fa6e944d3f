use ggok::ext::{
    marketplace_update_args, mcp_add_args, mcp_remove_args, mcp_scope, mcp_toggle_args, mcp_transport,
    plugin_name_args, plugin_snapshot, plugin_source_args, plugin_update_args, ExtError, NameCommand,
    SourceCommand,
};
use ggok::parse::FieldVal;

fn st(x: &str) -> FieldVal {
    FieldVal::Str(x.to_string())
}

fn obj(fs: Vec<(&str, FieldVal)>) -> FieldVal {
    FieldVal::Object(fs.into_iter().map(|(k, v)| (k.to_string(), v)).collect())
}

fn arr_len(v: &FieldVal) -> usize {
    match v {
        FieldVal::Array(xs) => xs.len(),
        _ => usize::MAX,
    }
}

fn s(v: &[&str]) -> Vec<String> {
    v.iter().map(|x| x.to_string()).collect()
}

#[test]
fn mcp_add_command_lines() {
    let argv = mcp_add_args("fs", "", "npx", &s(&["-y", "srv"]), "", &s(&[" A=1 ", " "]), &s(&[]));
    assert_eq!(argv.unwrap(), s(&["mcp", "add", "-s", "user", "-e", "A=1", "fs", "--", "npx", "-y", "srv"]));
    let argv = mcp_add_args("web", " HTTP ", "https://x", &s(&["ignored"]), "Project", &s(&[]), &s(&["Auth: t", ""]));
    assert_eq!(argv.unwrap(), s(&["mcp", "add", "-t", "http", "-s", "project", "-H", "Auth: t", "web", "https://x"]));
}

#[test]
fn mcp_add_refusals_in_order() {
    assert_eq!(mcp_add_args("  ", "bad", "c", &[], "bad", &[], &[]), Err(ExtError::NameRequired));
    assert_eq!(mcp_add_args("a b", "bad", "c", &[], "bad", &[], &[]), Err(ExtError::BadName));
    assert_eq!(mcp_add_args("a.b", "", "c", &[], "", &[], &[]), Err(ExtError::BadName));
    assert_eq!(mcp_add_args("ok", "ws", "c", &[], "bad", &[], &[]), Err(ExtError::UnknownTransport));
    assert_eq!(mcp_add_args("ok", "sse", "c", &[], "team", &[], &[]), Err(ExtError::UnknownScope));
    assert_eq!(mcp_add_args("ok", "sse", "c", &[], "", &s(&["NOEQ"]), &[]), Err(ExtError::EnvNotKeyValue));
    assert_eq!(mcp_transport(" SSE ").unwrap(), "sse");
    assert_eq!(mcp_scope("").unwrap(), "user");
}

#[test]
fn mcp_remove_and_toggle() {
    assert_eq!(mcp_remove_args("fs", None).unwrap(), s(&["mcp", "remove", "fs"]));
    assert_eq!(mcp_remove_args("fs", Some("PROJECT")).unwrap(), s(&["mcp", "remove", "fs", "-s", "project"]));
    assert_eq!(mcp_remove_args("fs", Some("x")), Err(ExtError::UnknownScope));
    assert_eq!(mcp_toggle_args("fs", true).unwrap(), s(&["mcp", "enable", "fs"]));
    assert_eq!(mcp_toggle_args("fs", false).unwrap(), s(&["mcp", "disable", "fs"]));
    assert_eq!(mcp_toggle_args("", false), Err(ExtError::NameRequired));
}

#[test]
fn plugin_command_lines() {
    assert_eq!(
        plugin_source_args(SourceCommand::Install, " owner/repo ").unwrap(),
        s(&["plugin", "install", "--trust", "owner/repo"])
    );
    assert_eq!(
        plugin_source_args(SourceCommand::MarketplaceAdd, "https://m.example/x").unwrap(),
        s(&["plugin", "marketplace", "add", "https://m.example/x"])
    );
    assert_eq!(plugin_source_args(SourceCommand::MarketplaceRemove, "  "), Err(ExtError::SourceRequired));
    assert_eq!(plugin_source_args(SourceCommand::Install, "a/../b"), Err(ExtError::InvalidSource));
    assert_eq!(plugin_source_args(SourceCommand::Install, "a;rm"), Err(ExtError::InvalidSource));
    assert_eq!(plugin_source_args(SourceCommand::Install, "a\u{7}b"), Err(ExtError::InvalidSource));
    assert_eq!(
        plugin_name_args(NameCommand::Uninstall, " my.plugin ").unwrap(),
        s(&["plugin", "uninstall", "--confirm", "my.plugin"])
    );
    assert_eq!(plugin_name_args(NameCommand::Enable, "p").unwrap(), s(&["plugin", "enable", "p"]));
    assert_eq!(plugin_name_args(NameCommand::Disable, "p/q"), Err(ExtError::BadName));
    assert_eq!(plugin_update_args(None).unwrap(), s(&["plugin", "update"]));
    assert_eq!(plugin_update_args(Some("  ")).unwrap(), s(&["plugin", "update"]));
    assert_eq!(plugin_update_args(Some(" p ")).unwrap(), s(&["plugin", "update", "p"]));
    assert_eq!(plugin_update_args(Some("p q")), Err(ExtError::BadName));
    assert_eq!(marketplace_update_args(Some(" m ")).unwrap(), s(&["plugin", "marketplace", "update", "m"]));
    assert_eq!(marketplace_update_args(Some("$x")), Err(ExtError::InvalidSource));
}

#[test]
fn plugin_lists_from_grok_answers() {
    let plugins = FieldVal::Array(vec![st("a"), st("b")]);
    let sources = obj(vec![("sources", FieldVal::Array(vec![st("m")]))]);
    let snap = plugin_snapshot(plugins, sources);
    match &snap {
        FieldVal::Object(fs) => {
            assert_eq!(fs[0].0, "plugins");
            assert_eq!(arr_len(&fs[0].1), 2);
            assert_eq!(fs[1].0, "sources");
            assert_eq!(arr_len(&fs[1].1), 1);
        }
        _ => panic!("expected an object"),
    }
    let wrapped = obj(vec![("plugins", FieldVal::Array(vec![st("x")])), ("sources", FieldVal::Array(vec![]))]);
    let odd = obj(vec![("plugins", st("not a list")), ("sources", FieldVal::Array(vec![st("y")]))]);
    let snap = plugin_snapshot(wrapped, odd);
    match &snap {
        FieldVal::Object(fs) => {
            assert_eq!(arr_len(&fs[0].1), 1);
            assert_eq!(arr_len(&fs[1].1), 0);
        }
        _ => panic!("expected an object"),
    }
    let snap = plugin_snapshot(FieldVal::Null, obj(vec![("text", st("oops"))]));
    match &snap {
        FieldVal::Object(fs) => {
            assert_eq!(arr_len(&fs[0].1), 0);
            assert_eq!(arr_len(&fs[1].1), 0);
        }
        _ => panic!("expected an object"),
    }
}
