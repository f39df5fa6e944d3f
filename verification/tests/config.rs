use ggok::cli::StartArgs;
use ggok::config::{
    build, config_dir, derive_cookie_key, load_token, normalize_permission_mode, prepare_token,
    resolve_grok_home, state_dir, token_from_file, workspace_root_items, ConfigError,
    ConfigOverrides, EnvVars, FileConfig, TokenStep,
};
use ggok::occupy::web_active_path;
use ggok::sys::{
    grok_bin_candidates, resolve_default_grok_bin, uid_from_id_output, uid_from_status, which_path,
};
use sha2::{Digest, Sha256};

fn env_home() -> EnvVars {
    EnvVars { home: Some("/home/u".into()), xdg_config_home: None, xdg_state_home: None }
}

#[test]
fn builds_with_defaults() {
    let cfg = build(
        ConfigOverrides::default(),
        FileConfig::default(),
        "tok".into(),
        "grok".into(),
        Ok(()),
        vec!["/w".into()],
        &env_home(),
    )
    .unwrap();
    assert_eq!(cfg.bind, "0.0.0.0:9888");
    assert_eq!(cfg.grok_home, "/home/u/.grok");
    assert_eq!(cfg.grok_bin, "grok");
    assert_eq!(cfg.poll_secs, 5);
    assert_eq!(cfg.permission_mode, "always-approve");
    assert_eq!(cfg.upload_max_bytes, 20 * 1024 * 1024);
    assert_eq!(cfg.workspace_roots, vec!["/w".to_string()]);
    assert_eq!(cfg.pid_file, "/home/u/.local/state/ggok/ggok.pid");
    assert_eq!(cfg.leader_json_file, "/home/u/.local/state/ggok/grok-leader.json");
    let want: [u8; 32] = Sha256::digest(b"ggok-cookie-v1tok").into();
    assert_eq!(cfg.cookie_key, want);
    assert_eq!(derive_cookie_key("tok"), want);
}

#[test]
fn command_line_wins_over_file() {
    let o = ConfigOverrides { poll_secs: Some(7), bind: Some("127.0.0.1:1".into()), ..Default::default() };
    let f = FileConfig {
        poll_secs: Some(9),
        bind: Some("x:2".into()),
        permission_mode: Some(" auto ".into()),
        grok_home: Some("/g".into()),
        ..Default::default()
    };
    let cfg = build(o, f, "t".into(), "grok".into(), Ok(()), vec![], &env_home()).unwrap();
    assert_eq!(cfg.poll_secs, 7);
    assert_eq!(cfg.bind, "127.0.0.1:1");
    assert_eq!(cfg.permission_mode, "auto");
    assert_eq!(cfg.grok_home, "/g");
    let f = FileConfig { poll_secs: Some(0), ..Default::default() };
    let cfg = build(ConfigOverrides::default(), f, "t".into(), "grok".into(), Ok(()), vec![], &env_home()).unwrap();
    assert_eq!(cfg.poll_secs, 5);
}

#[test]
fn build_errors_in_order() {
    let b = |o: ConfigOverrides, f: FileConfig, token: &str, check: Result<(), String>, env: &EnvVars| {
        build(o, f, token.into(), "grok".into(), check, vec![], env).err()
    };
    assert_eq!(b(ConfigOverrides::default(), FileConfig::default(), "", Ok(()), &env_home()), Some(ConfigError::TokenEmpty));
    let o = ConfigOverrides { grok_home: Some(String::new()), ..Default::default() };
    assert_eq!(b(o, FileConfig::default(), "t", Ok(()), &env_home()), Some(ConfigError::GrokHomeEmpty));
    let f = FileConfig { grok_bin: Some(String::new()), ..Default::default() };
    assert_eq!(b(ConfigOverrides::default(), f, "t", Ok(()), &env_home()), Some(ConfigError::GrokBinEmpty));
    assert_eq!(
        b(ConfigOverrides::default(), FileConfig::default(), "t", Err("exit 1".into()), &env_home()),
        Some(ConfigError::GrokBinUnusable("exit 1".into()))
    );
    let o = ConfigOverrides { permission_mode: Some(" nope ".into()), ..Default::default() };
    assert_eq!(b(o, FileConfig::default(), "t", Ok(()), &env_home()), Some(ConfigError::BadPermissionMode("nope".into())));
    let o = ConfigOverrides { upload_max_bytes: Some(0), ..Default::default() };
    assert_eq!(b(o, FileConfig::default(), "t", Ok(()), &env_home()), Some(ConfigError::UploadMaxZero));
    let o = ConfigOverrides { grok_home: Some("g".into()), ..Default::default() };
    assert_eq!(b(o, FileConfig::default(), "t", Ok(()), &env_home()), Some(ConfigError::GrokHomeRelative));
    let f = FileConfig { grok_home: Some("rel/.grok".into()), ..Default::default() };
    assert_eq!(b(ConfigOverrides::default(), f, "t", Ok(()), &env_home()), Some(ConfigError::GrokHomeRelative));
    let o = ConfigOverrides { grok_home: Some("/g".into()), ..Default::default() };
    assert_eq!(b(o, FileConfig::default(), "t", Ok(()), &EnvVars::default()), Some(ConfigError::HomeUnset));
    assert_eq!(b(ConfigOverrides::default(), FileConfig::default(), "t", Ok(()), &EnvVars::default()), Some(ConfigError::HomeUnset));
}

#[test]
fn token_sources() {
    assert_eq!(prepare_token(Some("/t".into()), true, None, Ok("/d".into()), true), Ok(TokenStep::Read("/t".into())));
    assert_eq!(prepare_token(Some("/t".into()), false, None, Ok("/d".into()), true), Ok(TokenStep::Create("/t".into())));
    assert_eq!(
        prepare_token(None, false, Some("envtok".into()), Ok("/d/token".into()), false),
        Ok(TokenStep::UseEnv("envtok".into(), Some("/d/token".into())))
    );
    assert_eq!(
        prepare_token(None, false, Some("envtok".into()), Ok("/d/token".into()), true),
        Ok(TokenStep::UseEnv("envtok".into(), None))
    );
    assert_eq!(prepare_token(None, false, Some(String::new()), Ok("/d".into()), true), Ok(TokenStep::Read("/d".into())));
    assert_eq!(prepare_token(None, false, None, Ok("/d".into()), false), Ok(TokenStep::Create("/d".into())));
    assert_eq!(prepare_token(None, false, None, Err(ConfigError::HomeUnset), false), Err(ConfigError::HomeUnset));
    assert_eq!(load_token(None, None, Ok("/d".into()), false), Err(ConfigError::NoToken("/d".into())));
    assert_eq!(load_token(None, None, Ok("/d".into()), true), Ok(TokenStep::Read("/d".into())));
    assert_eq!(load_token(None, Some("e".into()), Ok("/d".into()), false), Ok(TokenStep::UseEnv("e".into(), None)));
    assert_eq!(load_token(Some("/t".into()), None, Err(ConfigError::HomeUnset), false), Ok(TokenStep::Read("/t".into())));
    assert_eq!(load_token(Some("t".into()), None, Ok("/d".into()), true), Err(ConfigError::TokenFileRelative("t".into())));
    assert_eq!(
        prepare_token(Some("./t".into()), true, None, Ok("/d".into()), true),
        Err(ConfigError::TokenFileRelative("./t".into()))
    );
}

#[test]
fn token_file_contents() {
    assert_eq!(token_from_file(0o100600, " secret\n"), Ok("secret".to_string()));
    assert_eq!(token_from_file(0o400, "s"), Ok("s".to_string()));
    assert_eq!(token_from_file(0o100644, "s"), Err(ConfigError::TokenFileMode(0o644)));
    assert_eq!(token_from_file(0o100601, "s"), Err(ConfigError::TokenFileMode(0o601)));
    assert_eq!(token_from_file(0o600, " \n\t"), Err(ConfigError::TokenFileEmpty));
    assert_eq!(token_from_file(0o640, ""), Err(ConfigError::TokenFileMode(0o640)));
}

#[test]
fn workspace_roots_default() {
    assert_eq!(workspace_root_items(&FileConfig::default()), vec!["~/workspace".to_string()]);
    let f = FileConfig { workspace_roots: Some(vec!["/a".into(), "~/b".into()]), ..Default::default() };
    assert_eq!(workspace_root_items(&f), vec!["/a".to_string(), "~/b".to_string()]);
    let f = FileConfig { workspace_roots: Some(vec![]), ..Default::default() };
    assert!(workspace_root_items(&f).is_empty());
}

#[test]
fn directories_and_modes() {
    let env = EnvVars { home: Some("/h".into()), xdg_config_home: Some(String::new()), xdg_state_home: Some("/x".into()) };
    assert_eq!(config_dir(&env), Ok("/h/.config/ggok".to_string()));
    assert_eq!(state_dir(&env), Ok("/x/ggok".to_string()));
    assert_eq!(config_dir(&EnvVars::default()), Err(ConfigError::HomeUnset));
    assert_eq!(resolve_grok_home(None, &env), Ok("/h/.grok".to_string()));
    assert_eq!(normalize_permission_mode(" always-approve "), Ok("always-approve".to_string()));
    assert!(normalize_permission_mode("yolo").is_err());
}

#[test]
fn start_args_become_overrides() {
    let a = StartArgs {
        bind: Some("b".into()),
        token_file: Some("t".into()),
        grok_home: None,
        grok_bin: Some("g".into()),
        poll_secs: Some(3),
        permission_mode: None,
        upload_max_bytes: Some(9),
        config: Some("c".into()),
    };
    let o = a.into_overrides();
    assert_eq!(o.bind.as_deref(), Some("b"));
    assert_eq!(o.token_file.as_deref(), Some("t"));
    assert_eq!(o.grok_home, None);
    assert_eq!(o.grok_bin.as_deref(), Some("g"));
    assert_eq!(o.poll_secs, Some(3));
    assert_eq!(o.upload_max_bytes, Some(9));
    assert_eq!(o.config.as_deref(), Some("c"));
}

#[test]
fn web_active_beside_leader_record() {
    assert_eq!(web_active_path("/s/grok-leader.json"), "/s/web-active.json");
    assert_eq!(web_active_path("leader.json"), "web-active.json");
    assert_eq!(web_active_path("/"), "./web-active.json");
}

#[test]
fn user_ids_from_system_text() {
    assert_eq!(uid_from_status("Name:\tx\nUid:\t1000\t1001\t1000\t1000\n"), Some(1001));
    assert_eq!(uid_from_status("Uid:\t5\n"), None);
    assert_eq!(uid_from_status("Gid: 1 2\n"), None);
    assert_eq!(uid_from_id_output("501\n"), Some(501));
    assert_eq!(uid_from_id_output("x"), None);
}

#[test]
fn grok_binary_lookup() {
    assert_eq!(which_path(true, "/usr/bin/grok\n").as_deref(), Some("/usr/bin/grok"));
    assert_eq!(which_path(false, "/usr/bin/grok"), None);
    assert_eq!(which_path(true, "  \n"), None);
    let c = grok_bin_candidates(Some("/h".into()), Some("/g".into()));
    assert_eq!(
        c,
        vec![
            "/h/.grok/bin/grok", "/h/.local/bin/grok", "/h/.cargo/bin/grok", "/g/bin/grok", "/g/grok",
            "/opt/homebrew/bin/grok", "/usr/local/bin/grok"
        ]
    );
    assert_eq!(grok_bin_candidates(None, None).len(), 2);
    let cands: Vec<String> = vec!["/a".into(), "/b".into(), "/c".into()];
    assert_eq!(resolve_default_grok_bin(true, Some("/w".into()), &cands, &[true, true, true]), "grok");
    assert_eq!(resolve_default_grok_bin(false, Some("/w".into()), &cands, &[true, true, true]), "/w");
    assert_eq!(resolve_default_grok_bin(false, None, &cands, &[false, true, true]), "/b");
    assert_eq!(resolve_default_grok_bin(false, None, &cands, &[false, false, false]), "grok");
}
