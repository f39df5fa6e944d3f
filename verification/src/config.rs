//! Where ggok keeps its files, and the runtime configuration assembled from
//! the command line, the config file and the environment.
//!
//! The environment is read by the caller and handed over as [`EnvVars`].
use vstd::prelude::*;
use crate::pathx::{join, join_str};
use crate::text::{chars_of, string_of, trim, trim_str, str_eq};
use sha2::Digest;

verus! {

/// Address the server listens on when none is configured.
pub const DEFAULT_BIND: &'static str = "0.0.0.0:9888";

/// Largest upload when none is configured: 20 MiB.
pub const DEFAULT_UPLOAD_MAX_BYTES: u64 = 20971520;

/// Seconds between session scans when none (or 0) is configured.
pub const DEFAULT_POLL_SECS: u64 = 5;

/// The permission mode when none is configured.
pub const DEFAULT_PERMISSION_MODE: &'static str = "always-approve";

/// The workspace root when none is configured.
pub const DEFAULT_WORKSPACE_ROOT: &'static str = "~/workspace";

/// Settings given on the command line.
#[derive(Debug, Clone, Default)]
pub struct ConfigOverrides {
    pub bind: Option<String>,
    pub token_file: Option<String>,
    pub grok_home: Option<String>,
    pub grok_bin: Option<String>,
    pub poll_secs: Option<u64>,
    pub permission_mode: Option<String>,
    pub upload_max_bytes: Option<u64>,
    pub config: Option<String>,
}

/// Settings read from `config.toml`.
#[derive(Debug, Clone, Default)]
pub struct FileConfig {
    pub bind: Option<String>,
    pub token_file: Option<String>,
    pub grok_home: Option<String>,
    pub grok_bin: Option<String>,
    pub poll_secs: Option<u64>,
    pub permission_mode: Option<String>,
    pub upload_max_bytes: Option<u64>,
    pub workspace_roots: Option<Vec<String>>,
}

/// The configuration the server runs with.
#[derive(Debug, Clone)]
pub struct RuntimeConfig {
    pub bind: String,
    pub token: String,
    pub cookie_key: [u8; 32],
    pub grok_home: String,
    pub grok_bin: String,
    pub poll_secs: u64,
    pub permission_mode: String,
    pub upload_max_bytes: u64,
    pub workspace_roots: Vec<String>,
    pub pid_file: String,
    pub log_file: String,
    pub state_file: String,
    pub agent_pid_file: String,
    pub leader_json_file: String,
}

/// What a running server leaves in `state.json` for `ggok status`.
#[derive(Debug, Clone)]
pub struct SavedState {
    pub bind: String,
    pub grok_home: String,
    pub log_file: String,
}

/// The environment variables the configuration reads (`None` where unset).
#[derive(Debug, Clone, Default)]
pub struct EnvVars {
    pub home: Option<String>,
    pub xdg_config_home: Option<String>,
    pub xdg_state_home: Option<String>,
}

/// Why a configuration could not be made.
#[derive(Debug, Clone, PartialEq, Eq)]
pub enum ConfigError {
    /// `HOME` is unset (or empty) and no XDG directory stands in for it.
    HomeUnset,
    /// The token is empty.
    TokenEmpty,
    /// `--grok-home` was given empty.
    GrokHomeEmpty,
    /// `grok_home` was given as a relative path.
    GrokHomeRelative,
    /// `token_file` was given as a relative path; the path.
    TokenFileRelative(String),
    /// The token file may be read by others: its mode's permission bits.
    TokenFileMode(u32),
    /// The token file holds nothing but whitespace.
    TokenFileEmpty,
    /// `grok_bin` was given empty.
    GrokBinEmpty,
    /// The permission mode is none of `ask`, `auto`, `always-approve`; the
    /// value, trimmed.
    BadPermissionMode(String),
    /// `upload_max_bytes` is 0.
    UploadMaxZero,
    /// The grok binary did not answer `agent stdio --help`; the reason.
    GrokBinUnusable(String),
    /// No token file is configured, `GGOK_TOKEN` is unset and the default
    /// token file is missing; its path.
    NoToken(String),
}

/// A variable's value, where it is set and not empty.
pub open spec fn env_val(v: Option<String>) -> Option<Seq<char>> {
    match v {
        Some(s) => if s@.len() > 0 {
            Some(s@)
        } else {
            None
        },
        None => None,
    }
}

fn env_nonempty(v: &Option<String>) -> (r: Option<String>)
    ensures
        crate::types::opt_view(r) == env_val(*v),
{
    match v {
        Some(s) => if s.as_str().is_empty() {
            None
        } else {
            Some(s.clone())
        },
        None => None,
    }
}

/// The directory under `xdg`, or else under `HOME` at `home_rel`.
pub open spec fn xdg_dir(xdg: Option<String>, home: Option<String>, home_rel: Seq<char>) -> Option<Seq<char>> {
    match env_val(xdg) {
        Some(x) => Some(join(x, "ggok"@)),
        None => match env_val(home) {
            Some(h) => Some(join(h, home_rel)),
            None => None,
        },
    }
}

pub open spec fn config_dir_spec(env: EnvVars) -> Option<Seq<char>> {
    xdg_dir(env.xdg_config_home, env.home, ".config/ggok"@)
}

pub open spec fn state_dir_spec(env: EnvVars) -> Option<Seq<char>> {
    xdg_dir(env.xdg_state_home, env.home, ".local/state/ggok"@)
}

/// A directory's path, or `HomeUnset` where none can be made.
pub open spec fn dir_result(d: Option<Seq<char>>, r: Result<String, ConfigError>) -> bool {
    match d {
        Some(p) => r matches Ok(s) && s@ == p,
        None => r == Err::<String, ConfigError>(ConfigError::HomeUnset),
    }
}

fn xdg_or_home(xdg: &Option<String>, home: &Option<String>, home_rel: &str) -> (r: Result<String, ConfigError>)
    ensures
        dir_result(xdg_dir(*xdg, *home, home_rel@), r),
{
    match env_nonempty(xdg) {
        Some(x) => Ok(join_str(x.as_str(), "ggok")),
        None => match env_nonempty(home) {
            Some(h) => Ok(join_str(h.as_str(), home_rel)),
            None => Err(ConfigError::HomeUnset),
        },
    }
}

/// ggok's config directory: `$XDG_CONFIG_HOME/ggok`, else `~/.config/ggok`.
pub fn config_dir(env: &EnvVars) -> (r: Result<String, ConfigError>)
    ensures
        dir_result(config_dir_spec(*env), r),
{
    xdg_or_home(&env.xdg_config_home, &env.home, ".config/ggok")
}

/// ggok's state directory: `$XDG_STATE_HOME/ggok`, else `~/.local/state/ggok`.
pub fn state_dir(env: &EnvVars) -> (r: Result<String, ConfigError>)
    ensures
        dir_result(state_dir_spec(*env), r),
{
    xdg_or_home(&env.xdg_state_home, &env.home, ".local/state/ggok")
}

/// A file under a directory, where the directory can be made.
pub open spec fn file_under(d: Option<Seq<char>>, name: Seq<char>) -> Option<Seq<char>> {
    match d {
        Some(p) => Some(join(p, name)),
        None => None,
    }
}

fn file_in(dir: Result<String, ConfigError>, name: &str) -> (r: Result<String, ConfigError>)
    ensures
        match dir {
            Ok(d) => r matches Ok(s) && s@ == join(d@, name@),
            Err(e) => r == Err::<String, ConfigError>(e),
        },
{
    match dir {
        Ok(d) => Ok(join_str(d.as_str(), name)),
        Err(e) => Err(e),
    }
}

/// The default token file: `token` in the config directory.
pub fn default_token_file(env: &EnvVars) -> (r: Result<String, ConfigError>)
    ensures
        dir_result(file_under(config_dir_spec(*env), "token"@), r),
{
    file_in(config_dir(env), "token")
}

/// The server's pid file: `ggok.pid` in the state directory.
pub fn pid_file(env: &EnvVars) -> (r: Result<String, ConfigError>)
    ensures
        dir_result(file_under(state_dir_spec(*env), "ggok.pid"@), r),
{
    file_in(state_dir(env), "ggok.pid")
}

/// The server's log: `ggok.log` in the state directory.
pub fn log_file(env: &EnvVars) -> (r: Result<String, ConfigError>)
    ensures
        dir_result(file_under(state_dir_spec(*env), "ggok.log"@), r),
{
    file_in(state_dir(env), "ggok.log")
}

/// The saved state: `state.json` in the state directory.
pub fn state_file(env: &EnvVars) -> (r: Result<String, ConfigError>)
    ensures
        dir_result(file_under(state_dir_spec(*env), "state.json"@), r),
{
    file_in(state_dir(env), "state.json")
}

/// The grok agent's pid file: `grok-agent.pid` in the state directory.
pub fn agent_pid_file(env: &EnvVars) -> (r: Result<String, ConfigError>)
    ensures
        dir_result(file_under(state_dir_spec(*env), "grok-agent.pid"@), r),
{
    file_in(state_dir(env), "grok-agent.pid")
}

/// The grok leader record: `grok-leader.json` in the state directory.
pub fn leader_json_file(env: &EnvVars) -> (r: Result<String, ConfigError>)
    ensures
        dir_result(file_under(state_dir_spec(*env), "grok-leader.json"@), r),
{
    file_in(state_dir(env), "grok-leader.json")
}

/// grok's home: the given directory (refused when empty or relative), else
/// `~/.grok`.
pub open spec fn grok_home_spec(explicit: Option<String>, env: EnvVars) -> Result<Seq<char>, ConfigError> {
    match explicit {
        Some(p) => if p@.len() == 0 {
            Err(ConfigError::GrokHomeEmpty)
        } else if p@[0] != '/' {
            Err(ConfigError::GrokHomeRelative)
        } else {
            Ok(p@)
        },
        None => match env_val(env.home) {
            Some(h) => Ok(join(h, ".grok"@)),
            None => Err(ConfigError::HomeUnset),
        },
    }
}

pub open spec fn res_view(r: Result<String, ConfigError>) -> Result<Seq<char>, ConfigError> {
    match r {
        Ok(s) => Ok(s@),
        Err(e) => Err(e),
    }
}

/// grok's home: the given directory (refused when empty or relative), else
/// `~/.grok`.
pub fn resolve_grok_home(explicit: Option<String>, env: &EnvVars) -> (r: Result<String, ConfigError>)
    ensures
        res_view(r) == grok_home_spec(explicit, *env),
{
    match explicit {
        Some(p) => {
            let v = chars_of(p.as_str());
            if v.len() == 0 {
                Err(ConfigError::GrokHomeEmpty)
            } else if v[0] != '/' {
                Err(ConfigError::GrokHomeRelative)
            } else {
                Ok(p)
            }
        },
        None => match env_nonempty(&env.home) {
            Some(h) => Ok(join_str(h.as_str(), ".grok")),
            None => Err(ConfigError::HomeUnset),
        },
    }
}

/// grok's home when none is given: `~/.grok`.
pub fn default_grok_home(env: &EnvVars) -> (r: Result<String, ConfigError>)
    ensures
        res_view(r) == grok_home_spec(None, *env),
{
    resolve_grok_home(None, env)
}

/// The grok binary: the given one (refused when empty), else `default_bin`.
pub fn resolve_grok_bin(explicit: Option<String>, default_bin: String) -> (r: Result<String, ConfigError>)
    ensures
        match explicit {
            Some(p) => if p@.len() == 0 {
                r == Err::<String, ConfigError>(ConfigError::GrokBinEmpty)
            } else {
                r == Ok::<String, ConfigError>(p)
            },
            None => r == Ok::<String, ConfigError>(default_bin),
        },
{
    match explicit {
        Some(p) => if p.as_str().is_empty() {
            Err(ConfigError::GrokBinEmpty)
        } else {
            Ok(p)
        },
        None => Ok(default_bin),
    }
}

/// The permission modes a session can start in.
pub open spec fn perm_mode_spec(raw: Seq<char>) -> Result<Seq<char>, ConfigError> {
    let t = trim(raw);
    if t == "ask"@ || t == "auto"@ || t == "always-approve"@ {
        Ok(t)
    } else {
        Err(ConfigError::BadPermissionMode(string_with(t)))
    }
}

/// Some string holding `t`.
pub open spec fn string_with(t: Seq<char>) -> String {
    choose|s: String| s@ == t
}

/// A permission mode, trimmed: `ask`, `auto` or `always-approve`.
pub fn normalize_permission_mode(raw: &str) -> (r: Result<String, ConfigError>)
    ensures
        match r {
            Ok(s) => perm_mode_spec(raw@) == Ok::<Seq<char>, ConfigError>(s@),
            Err(ConfigError::BadPermissionMode(v)) => perm_mode_spec(raw@) is Err && v@ == trim(
                raw@,
            ),
            Err(_) => false,
        },
{
    let t = trim_str(raw);
    let s = string_of(&t);
    if str_eq(s.as_str(), "ask") || str_eq(s.as_str(), "auto") || str_eq(s.as_str(), "always-approve") {
        Ok(s)
    } else {
        Err(ConfigError::BadPermissionMode(s))
    }
}

/// Refuses an empty token.
pub fn check_token(token: &str) -> (r: Result<(), ConfigError>)
    ensures
        r is Ok <==> token@.len() > 0,
        r is Err ==> r == Err::<(), ConfigError>(ConfigError::TokenEmpty),
{
    if token.is_empty() {
        Err(ConfigError::TokenEmpty)
    } else {
        Ok(())
    }
}

/// SHA-256 of `data`, as the `sha2` crate computes it.
pub uninterp spec fn sha256(data: Seq<u8>) -> Seq<u8>;

/// `sha2::Sha256::new()`, `update(data)`, `finalize()`: the digest of `data`.
#[verifier::external_body]
pub(crate) fn sha256_digest(data: &[u8]) -> (r: [u8; 32])
    ensures
        r@ == sha256(data@),
{
    let mut h = sha2::Sha256::new();
    h.update(data);
    h.finalize().into()
}

/// The bytes of the domain tag that the cookie key is derived under.
pub open spec fn cookie_key_tag() -> Seq<u8> {
    crate::auth::ascii_bytes("ggok-cookie-v1"@)
}

/// The cookie key: SHA-256 of `ggok-cookie-v1` followed by the token's bytes.
pub fn derive_cookie_key(token: &str) -> (r: [u8; 32])
    ensures
        r@ == sha256(cookie_key_tag() + vstd::utf8::encode_utf8(token@)),
{
    let tag = chars_of("ggok-cookie-v1");
    let mut data: Vec<u8> = crate::auth::to_ascii_bytes(&tag);
    let tb = token.as_bytes();
    let mut i: usize = 0;
    let ghost start = data@;
    while i < tb.len()
        invariant
            i <= tb@.len(),
            data@ == start + tb@.take(i as int),
        decreases tb.len() - i,
    {
        data.push(tb[i]);
        proof {
            assert(tb@.take(i + 1) =~= tb@.take(i as int).push(tb@[i as int]));
        }
        i += 1;
    }
    proof {
        assert(tb@.take(tb@.len() as int) =~= tb@);
    }
    sha256_digest(data.as_slice())
}

/// A setting from the command line, else from the file.
pub open spec fn pick<T>(a: Option<T>, b: Option<T>) -> Option<T> {
    match a {
        Some(x) => Some(x),
        None => b,
    }
}

/// The poll interval: the configured one, or 5 seconds where none or 0 is set.
pub open spec fn poll_spec(o: ConfigOverrides, f: FileConfig) -> u64 {
    match pick(o.poll_secs, f.poll_secs) {
        Some(n) => if n == 0 {
            DEFAULT_POLL_SECS
        } else {
            n
        },
        None => DEFAULT_POLL_SECS,
    }
}

pub open spec fn upload_spec(o: ConfigOverrides, f: FileConfig) -> u64 {
    match pick(o.upload_max_bytes, f.upload_max_bytes) {
        Some(n) => n,
        None => DEFAULT_UPLOAD_MAX_BYTES,
    }
}

pub open spec fn perm_raw(o: ConfigOverrides, f: FileConfig) -> Seq<char> {
    match pick(o.permission_mode, f.permission_mode) {
        Some(s) => s@,
        None => DEFAULT_PERMISSION_MODE@,
    }
}

pub open spec fn bind_spec(o: ConfigOverrides, f: FileConfig) -> Seq<char> {
    match pick(o.bind, f.bind) {
        Some(s) => s@,
        None => DEFAULT_BIND@,
    }
}

fn pick_string(a: Option<String>, b: Option<String>) -> (r: Option<String>)
    ensures
        r == pick(a, b),
{
    match a {
        Some(x) => Some(x),
        None => b,
    }
}

fn pick_u64(a: Option<u64>, b: Option<u64>) -> (r: Option<u64>)
    ensures
        r == pick(a, b),
{
    match a {
        Some(x) => Some(x),
        None => b,
    }
}

impl RuntimeConfig {
    /// The configuration from the settings, once the token, grok's home and
    /// binary and the workspace roots are known: the permission mode is
    /// checked, then the upload limit, then that the state directory can be
    /// named.
    pub fn assemble(
        overrides: ConfigOverrides,
        file: FileConfig,
        token: String,
        grok_home: String,
        grok_bin: String,
        workspace_roots: Vec<String>,
        env: &EnvVars,
    ) -> (r: Result<RuntimeConfig, ConfigError>)
        ensures
            assembled(overrides, file, token, grok_home@, grok_bin@, workspace_roots, *env, r),
    {
        let cookie_key = derive_cookie_key(token.as_str());
        let poll = match pick_u64(overrides.poll_secs, file.poll_secs) {
            Some(n) => if n == 0 {
                DEFAULT_POLL_SECS
            } else {
                n
            },
            None => DEFAULT_POLL_SECS,
        };
        let perm_src = match pick_string(overrides.permission_mode, file.permission_mode) {
            Some(s) => s,
            None => DEFAULT_PERMISSION_MODE.to_string(),
        };
        let permission_mode = match normalize_permission_mode(perm_src.as_str()) {
            Ok(m) => m,
            Err(e) => {
                return Err(e);
            },
        };
        let upload = match pick_u64(overrides.upload_max_bytes, file.upload_max_bytes) {
            Some(n) => n,
            None => DEFAULT_UPLOAD_MAX_BYTES,
        };
        if upload == 0 {
            return Err(ConfigError::UploadMaxZero);
        }
        let bind = match pick_string(overrides.bind, file.bind) {
            Some(s) => s,
            None => DEFAULT_BIND.to_string(),
        };
        let state = match state_dir(env) {
            Ok(d) => d,
            Err(e) => {
                return Err(e);
            },
        };
        Ok(RuntimeConfig {
            bind,
            token,
            cookie_key,
            grok_home,
            grok_bin,
            poll_secs: poll,
            permission_mode,
            upload_max_bytes: upload,
            workspace_roots,
            pid_file: join_str(state.as_str(), "ggok.pid"),
            log_file: join_str(state.as_str(), "ggok.log"),
            state_file: join_str(state.as_str(), "state.json"),
            agent_pid_file: join_str(state.as_str(), "grok-agent.pid"),
            leader_json_file: join_str(state.as_str(), "grok-leader.json"),
        })
    }

    /// What `write_saved_state` records.
    pub fn saved_state(&self) -> (r: SavedState)
        ensures
            r.bind == self.bind,
            r.grok_home == self.grok_home,
            r.log_file == self.log_file,
    {
        SavedState {
            bind: self.bind.clone(),
            grok_home: self.grok_home.clone(),
            log_file: self.log_file.clone(),
        }
    }
}


/// What [`RuntimeConfig::assemble`] gives: the permission mode is checked,
/// then the upload limit, then that the state directory can be named; on
/// success each setting is taken from the command line, else the file, else
/// its default, and the files sit in the state directory.
pub open spec fn assembled(
    overrides: ConfigOverrides,
    file: FileConfig,
    token: String,
    grok_home: Seq<char>,
    grok_bin: Seq<char>,
    workspace_roots: Vec<String>,
    env: EnvVars,
    r: Result<RuntimeConfig, ConfigError>,
) -> bool {
    &&& perm_mode_spec(perm_raw(overrides, file)) is Err ==> (r matches Err(
        ConfigError::BadPermissionMode(v),
    ) && v@ == trim(perm_raw(overrides, file)))
    &&& perm_mode_spec(perm_raw(overrides, file)) is Ok && upload_spec(overrides, file) == 0
        ==> r == Err::<RuntimeConfig, ConfigError>(ConfigError::UploadMaxZero)
    &&& perm_mode_spec(perm_raw(overrides, file)) is Ok && upload_spec(overrides, file) != 0
        && state_dir_spec(env) is None ==> r == Err::<RuntimeConfig, ConfigError>(
        ConfigError::HomeUnset,
    )
    &&& r is Ok <==> (perm_mode_spec(perm_raw(overrides, file)) is Ok && upload_spec(overrides, file)
        != 0 && state_dir_spec(env) is Some)
    &&& r matches Ok(c) ==> {
        let sd = state_dir_spec(env).unwrap();
        &&& c.bind@ == bind_spec(overrides, file)
        &&& c.token == token
        &&& c.cookie_key@ == sha256(cookie_key_tag() + vstd::utf8::encode_utf8(token@))
        &&& c.grok_home@ == grok_home
        &&& c.grok_bin@ == grok_bin
        &&& c.poll_secs == poll_spec(overrides, file)
        &&& perm_mode_spec(perm_raw(overrides, file)) == Ok::<Seq<char>, ConfigError>(
            c.permission_mode@,
        )
        &&& c.upload_max_bytes == upload_spec(overrides, file)
        &&& c.workspace_roots == workspace_roots
        &&& c.pid_file@ == join(sd, "ggok.pid"@)
        &&& c.log_file@ == join(sd, "ggok.log"@)
        &&& c.state_file@ == join(sd, "state.json"@)
        &&& c.agent_pid_file@ == join(sd, "grok-agent.pid"@)
        &&& c.leader_json_file@ == join(sd, "grok-leader.json"@)
    }
}

/// The grok binary the settings name: the given one (refused when empty),
/// else the default.
pub open spec fn grok_bin_spec(explicit: Option<String>, default_bin: Seq<char>) -> Result<Seq<char>, ConfigError> {
    match explicit {
        Some(p) => if p@.len() == 0 {
            Err(ConfigError::GrokBinEmpty)
        } else {
            Ok(p@)
        },
        None => Ok(default_bin),
    }
}

/// The configuration once the outside facts are known: the token that was
/// read or made, the binary to use when none is configured, whether that
/// binary answered `agent stdio --help` (`Err` with the reason when not), and
/// the expanded workspace roots. The token must not be empty; then grok's
/// home is resolved, then the binary, then its check counts; the rest is
/// [`RuntimeConfig::assemble`].
pub fn build(
    overrides: ConfigOverrides,
    file: FileConfig,
    token: String,
    default_bin: String,
    bin_check: Result<(), String>,
    workspace_roots: Vec<String>,
    env: &EnvVars,
) -> (r: Result<RuntimeConfig, ConfigError>)
    ensures
        ({
            let home = grok_home_spec(pick(overrides.grok_home, file.grok_home), *env);
            let bin = grok_bin_spec(pick(overrides.grok_bin, file.grok_bin), default_bin@);
            &&& token@.len() == 0 ==> r == Err::<RuntimeConfig, ConfigError>(ConfigError::TokenEmpty)
            &&& token@.len() > 0 && home is Err ==> r == Err::<RuntimeConfig, ConfigError>(
                home->Err_0,
            )
            &&& token@.len() > 0 && home is Ok && bin is Err ==> r == Err::<RuntimeConfig, ConfigError>(
                bin->Err_0,
            )
            &&& token@.len() > 0 && home is Ok && bin is Ok && bin_check is Err ==> (r matches Err(
                ConfigError::GrokBinUnusable(m),
            ) && m == bin_check->Err_0)
            &&& token@.len() > 0 && home is Ok && bin is Ok && bin_check is Ok ==> assembled(
                overrides,
                file,
                token,
                home->Ok_0,
                bin->Ok_0,
                workspace_roots,
                *env,
                r,
            )
        }),
{
    match check_token(token.as_str()) {
        Ok(()) => {},
        Err(e) => {
            return Err(e);
        },
    }
    let home = match resolve_grok_home(pick_string(overrides.grok_home.clone(), file.grok_home.clone()), env) {
        Ok(h) => h,
        Err(e) => {
            return Err(e);
        },
    };
    let bin = match resolve_grok_bin(pick_string(overrides.grok_bin.clone(), file.grok_bin.clone()), default_bin) {
        Ok(b) => b,
        Err(e) => {
            return Err(e);
        },
    };
    match bin_check {
        Ok(()) => {},
        Err(m) => {
            return Err(ConfigError::GrokBinUnusable(m));
        },
    }
    RuntimeConfig::assemble(overrides, file, token, home, bin, workspace_roots, env)
}

/// Where the login token comes from.
#[derive(Debug, Clone, PartialEq, Eq)]
pub enum TokenStep {
    /// Read the token file at this path.
    Read(String),
    /// Make a random token and write it to a new file at this path (reading
    /// the file instead if it appeared meanwhile).
    Create(String),
    /// Use the token from `GGOK_TOKEN`; where a path is given, also save it there.
    UseEnv(String, Option<String>),
}

/// How `ggok start` gets its token: a configured token file is read, or
/// made when missing; else `GGOK_TOKEN` is used (and saved to the default
/// file when that is missing); else the default file is read, or made when
/// missing. `token_file_exists` and `default_exists` say whether those
/// paths are files; `default_file` is [`default_token_file`]'s answer.
pub fn prepare_token(
    token_file: Option<String>,
    token_file_exists: bool,
    env_token: Option<String>,
    default_file: Result<String, ConfigError>,
    default_exists: bool,
) -> (r: Result<TokenStep, ConfigError>)
    ensures
        match token_file {
            Some(p) => if !abs_path(p@) {
                r == Err::<TokenStep, ConfigError>(ConfigError::TokenFileRelative(p))
            } else {
                r == Ok::<TokenStep, ConfigError>(
                    if token_file_exists {
                        TokenStep::Read(p)
                    } else {
                        TokenStep::Create(p)
                    },
                )
            },
            None => match env_val(env_token) {
                Some(t) => match default_file {
                    Err(e) => r == Err::<TokenStep, ConfigError>(e),
                    Ok(d) => (r matches Ok(TokenStep::UseEnv(tok, save)) && tok@ == t && save == (
                    if default_exists {
                        None
                    } else {
                        Some(d)
                    })),
                },
                None => match default_file {
                    Err(e) => r == Err::<TokenStep, ConfigError>(e),
                    Ok(d) => r == Ok::<TokenStep, ConfigError>(
                        if default_exists {
                            TokenStep::Read(d)
                        } else {
                            TokenStep::Create(d)
                        },
                    ),
                },
            },
        },
{
    match token_file {
        Some(p) => {
            if !is_abs_path(p.as_str()) {
                return Err(ConfigError::TokenFileRelative(p));
            }
            return Ok(
                if token_file_exists {
                    TokenStep::Read(p)
                } else {
                    TokenStep::Create(p)
                },
            );
        },
        None => {},
    }
    match env_nonempty(&env_token) {
        Some(t) => match default_file {
            Err(e) => Err(e),
            Ok(d) => Ok(
                TokenStep::UseEnv(
                    t,
                    if default_exists {
                        None
                    } else {
                        Some(d)
                    },
                ),
            ),
        },
        None => match default_file {
            Err(e) => Err(e),
            Ok(d) => Ok(
                if default_exists {
                    TokenStep::Read(d)
                } else {
                    TokenStep::Create(d)
                },
            ),
        },
    }
}

/// How the server gets its token without making one: a configured token
/// file is read; else `GGOK_TOKEN` is used; else the default file is read,
/// and its absence is an error naming it.
pub fn load_token(
    token_file: Option<String>,
    env_token: Option<String>,
    default_file: Result<String, ConfigError>,
    default_exists: bool,
) -> (r: Result<TokenStep, ConfigError>)
    ensures
        match token_file {
            Some(p) => r == (if abs_path(p@) {
                Ok::<TokenStep, ConfigError>(TokenStep::Read(p))
            } else {
                Err::<TokenStep, ConfigError>(ConfigError::TokenFileRelative(p))
            }),
            None => match env_val(env_token) {
                Some(t) => (r matches Ok(TokenStep::UseEnv(tok, save)) && tok@ == t && save is None),
                None => match default_file {
                    Err(e) => r == Err::<TokenStep, ConfigError>(e),
                    Ok(d) => r == (if default_exists {
                        Ok::<TokenStep, ConfigError>(TokenStep::Read(d))
                    } else {
                        Err::<TokenStep, ConfigError>(ConfigError::NoToken(d))
                    }),
                },
            },
        },
{
    match token_file {
        Some(p) => {
            if !is_abs_path(p.as_str()) {
                return Err(ConfigError::TokenFileRelative(p));
            }
            return Ok(TokenStep::Read(p));
        },
        None => {},
    }
    match env_nonempty(&env_token) {
        Some(t) => Ok(TokenStep::UseEnv(t, None)),
        None => match default_file {
            Err(e) => Err(e),
            Ok(d) => if default_exists {
                Ok(TokenStep::Read(d))
            } else {
                Err(ConfigError::NoToken(d))
            },
        },
    }
}

/// An absolute path: it begins with `/`.
pub open spec fn abs_path(p: Seq<char>) -> bool {
    p.len() > 0 && p[0] == '/'
}

fn is_abs_path(p: &str) -> (r: bool)
    ensures
        r == abs_path(p@),
{
    let v = chars_of(p);
    v.len() > 0 && v[0] == '/'
}

/// The token in a token file, from the file's mode and its text: refused
/// where the group or others have any permission on it (the file must be
/// `600` or stricter), or where it holds only whitespace; else its text
/// trimmed.
pub fn token_from_file(mode: u32, raw: &str) -> (r: Result<String, ConfigError>)
    ensures
        mode % 64 != 0 ==> r == Err::<String, ConfigError>(ConfigError::TokenFileMode((mode % 512) as u32)),
        mode % 64 == 0 && trim(raw@).len() == 0 ==> r == Err::<String, ConfigError>(ConfigError::TokenFileEmpty),
        mode % 64 == 0 && trim(raw@).len() > 0 ==> (r matches Ok(t) && t@ == trim(raw@)),
{
    if mode % 64 != 0 {
        return Err(ConfigError::TokenFileMode(mode % 512));
    }
    let t = trim_str(raw);
    if t.len() == 0 {
        return Err(ConfigError::TokenFileEmpty);
    }
    Ok(string_of(&t))
}

/// The workspace roots as configured, before they are resolved: the file's
/// list, else `~/workspace`.
pub fn workspace_root_items(file: &FileConfig) -> (r: Vec<String>)
    ensures
        match file.workspace_roots {
            Some(v) => r@ == v@,
            None => r@.len() == 1 && r@[0]@ == DEFAULT_WORKSPACE_ROOT@,
        },
{
    match &file.workspace_roots {
        Some(v) => {
            let mut out: Vec<String> = Vec::new();
            let mut i: usize = 0;
            while i < v.len()
                invariant
                    i <= v.len(),
                    out@ == v@.take(i as int),
                decreases v.len() - i,
            {
                out.push(v[i].clone());
                proof {
                    assert(out@ =~= v@.take(i + 1));
                }
                i += 1;
            }
            proof {
                assert(v@.take(v.len() as int) =~= v@);
            }
            out
        },
        None => {
            let mut out: Vec<String> = Vec::new();
            out.push(DEFAULT_WORKSPACE_ROOT.to_string());
            out
        },
    }
}

/// A new login token: the 24 random bytes written as lower-case
/// hexadecimal (48 characters).
pub fn token_text(random: &[u8; 24]) -> (r: String)
    ensures
        r@ == crate::auth::hex_lower(random@),
{
    crate::auth::hex_encode(random.as_slice())
}

} // verus!
