//! The command line of the `ggok` program: its subcommands and the settings
//! that `start`, `restart` and the daemon take.
use vstd::prelude::*;
use crate::config::ConfigOverrides;

verus! {

/// The settings of `ggok start`, `ggok restart` and the daemon; each may
/// also come from the environment (`GGOK_BIND`, `GROK_HOME`, `GGOK_GROK_BIN`,
/// `GGOK_PERMISSION_MODE`, `GGOK_CONFIG`).
#[derive(Debug, Clone)]
pub struct StartArgs {
    pub bind: Option<String>,
    pub token_file: Option<String>,
    pub grok_home: Option<String>,
    pub grok_bin: Option<String>,
    pub poll_secs: Option<u64>,
    pub permission_mode: Option<String>,
    pub upload_max_bytes: Option<u64>,
    pub config: Option<String>,
}

/// The subcommands.
#[derive(Debug, Clone)]
pub enum Commands {
    /// Fork into the background and print the login token.
    Start(StartArgs),
    /// Stop if running, then start; with `all`, as `stop --all` does.
    Restart { args: StartArgs, all: bool },
    /// Show pid, listen address, and login token.
    Status,
    /// SIGTERM, then SIGKILL; with `all`, also the grok leader ggok started
    /// when no session is running.
    Stop { all: bool },
    /// Stop ggok and delete its binary, config, logs, and cache.
    Uninstall,
    /// Download the latest release and replace the binary.
    Update,
    /// The background server itself (hidden).
    Daemon(StartArgs),
    /// The stdio MCP server grok calls for question cards (hidden).
    McpAsk,
}

/// A parsed command line.
#[derive(Debug, Clone)]
pub struct Cli {
    pub command: Commands,
}

impl StartArgs {
    /// The settings as configuration overrides, field for field.
    pub fn into_overrides(self) -> (r: ConfigOverrides)
        ensures
            r.bind == self.bind,
            r.token_file == self.token_file,
            r.grok_home == self.grok_home,
            r.grok_bin == self.grok_bin,
            r.poll_secs == self.poll_secs,
            r.permission_mode == self.permission_mode,
            r.upload_max_bytes == self.upload_max_bytes,
            r.config == self.config,
    {
        ConfigOverrides {
            bind: self.bind,
            token_file: self.token_file,
            grok_home: self.grok_home,
            grok_bin: self.grok_bin,
            poll_secs: self.poll_secs,
            permission_mode: self.permission_mode,
            upload_max_bytes: self.upload_max_bytes,
            config: self.config,
        }
    }
}


/// A path inside a cargo build: one of its components is `target`.
pub open spec fn build_artifact_spec(path: Seq<char>) -> bool {
    crate::pathx::comps(path).contains("target"@)
}

pub fn is_build_artifact(path: &str) -> (r: bool)
    ensures
        r == build_artifact_spec(path@),
{
    let cs = crate::pathx::components(&crate::text::chars_of(path));
    let ghost cv = crate::pathx::views(cs@);
    let mut i: usize = 0;
    while i < cs.len()
        invariant
            i <= cs.len(),
            cv == crate::pathx::views(cs@),
            cv == crate::pathx::comps(path@),
            forall|k: int| 0 <= k < i ==> cv[k] != "target"@,
        decreases cs.len() - i,
    {
        proof {
            assert(cv[i as int] == cs@[i as int]@);
        }
        if crate::text::eq_str(&cs[i], "target") {
            return true;
        }
        i += 1;
    }
    false
}

/// A path `ggok uninstall` may remove: its file name is `ggok` or `.ggok-uploads`.
pub open spec fn ggok_leaf_spec(path: Seq<char>) -> bool {
    crate::pathx::file_name(path) == Some("ggok"@) || crate::pathx::file_name(path) == Some(
        ".ggok-uploads"@,
    )
}

pub fn is_ggok_leaf(path: &str) -> (r: bool)
    ensures
        r == ggok_leaf_spec(path@),
{
    match crate::pathx::file_name_of(&crate::text::chars_of(path)) {
        Some(f) => crate::text::eq_str(&f, "ggok") || crate::text::eq_str(&f, ".ggok-uploads"),
        None => false,
    }
}

/// What `ggok stop` does once the web server is stopped.
#[derive(Debug, Clone, PartialEq, Eq)]
pub enum StopAction {
    /// Without `--all`: nothing more; exit 0.
    WebOnly,
    /// Sessions still run: print these ids, leave the leader, exit 1.
    ReportRunning(Vec<String>),
    /// No leader that ggok started and that still runs as grok: exit 0.
    SkipLeader,
    /// Stop the leader that ggok started; exit 0.
    KillLeader,
}

impl StopAction {
    /// The exit code `ggok stop` ends with.
    pub fn exit_code(&self) -> (r: i32)
        ensures
            r == (if *self is ReportRunning { 1i32 } else { 0i32 }),
    {
        match self {
            StopAction::ReportRunning(_) => 1,
            _ => 0,
        }
    }
}

/// The leader ggok started may be stopped: its record says ggok started it,
/// its process is alive and runs grok.
pub open spec fn leader_stoppable(owned: Option<bool>, alive: bool, is_grok: bool) -> bool {
    owned == Some(true) && alive && is_grok
}

/// `ggok stop` after the web server: without `all` nothing more is done;
/// with it, the grok leader is stopped only when no session still runs and
/// the leader is one that ggok started (`owned` is what its record says,
/// `None` where there is no record), that is alive and runs grok.
pub fn leader_stop_action(all: bool, running: &[String], owned: Option<bool>, alive: bool, is_grok: bool) -> (r: StopAction)
    ensures
        !all ==> r == StopAction::WebOnly,
        all && running@.len() > 0 ==> (r matches StopAction::ReportRunning(ids) && ids@ == running@),
        all && running@.len() == 0 && !leader_stoppable(owned, alive, is_grok) ==> r == StopAction::SkipLeader,
        all && running@.len() == 0 && leader_stoppable(owned, alive, is_grok) ==> r == StopAction::KillLeader,
{
    if !all {
        return StopAction::WebOnly;
    }
    if running.len() > 0 {
        let mut ids: Vec<String> = Vec::new();
        let mut i: usize = 0;
        while i < running.len()
            invariant
                i <= running.len(),
                ids@ == running@.take(i as int),
            decreases running.len() - i,
        {
            ids.push(running[i].clone());
            proof {
                assert(ids@ =~= running@.take(i + 1));
            }
            i += 1;
        }
        proof {
            assert(running@.take(running@.len() as int) =~= running@);
        }
        return StopAction::ReportRunning(ids);
    }
    let is_owned = match owned {
        Some(b) => b,
        None => false,
    };
    if is_owned && alive && is_grok {
        StopAction::KillLeader
    } else {
        StopAction::SkipLeader
    }
}

/// What `ggok uninstall` does with a path it looks at.
#[derive(Debug, Clone, Copy, PartialEq, Eq, Structural)]
pub enum UninstallStep {
    /// Remove it.
    Remove,
    /// Leave it, and list it as left over for the user to remove.
    Leftover,
    /// Leave it unmentioned.
    Skip,
}

/// One of ggok's data trees (its config directory, state directory or
/// upload directory): nothing to do where it is missing; removed where its
/// name is `ggok` or `.ggok-uploads` and the user owns it; else left over.
/// So nothing else (`~/.grok`, workspace files) is ever removed.
pub fn tree_step(path: &str, exists: bool, owned: bool) -> (r: UninstallStep)
    ensures
        !exists ==> r == UninstallStep::Skip,
        exists && ggok_leaf_spec(path@) && owned ==> r == UninstallStep::Remove,
        exists && !(ggok_leaf_spec(path@) && owned) ==> r == UninstallStep::Leftover,
        r == UninstallStep::Remove ==> ggok_leaf_spec(path@),
{
    if !exists {
        UninstallStep::Skip
    } else if is_ggok_leaf(path) && owned {
        UninstallStep::Remove
    } else {
        UninstallStep::Leftover
    }
}

/// An installed `ggok` binary: nothing to do where it is missing, not named
/// `ggok`, or inside a cargo build; removed where the user owns it; else
/// left over.
pub fn bin_step(path: &str, exists: bool, owned: bool) -> (r: UninstallStep)
    ensures
        ({
            let named = crate::pathx::file_name(path@) == Some("ggok"@) && !build_artifact_spec(path@);
            &&& !(exists && named) ==> r == UninstallStep::Skip
            &&& exists && named && owned ==> r == UninstallStep::Remove
            &&& exists && named && !owned ==> r == UninstallStep::Leftover
        }),
        r == UninstallStep::Remove ==> crate::pathx::file_name(path@) == Some("ggok"@),
{
    if !exists {
        return UninstallStep::Skip;
    }
    let named = match crate::pathx::file_name_of(&crate::text::chars_of(path)) {
        Some(f) => crate::text::eq_str(&f, "ggok"),
        None => false,
    };
    if !named || is_build_artifact(path) {
        UninstallStep::Skip
    } else if owned {
        UninstallStep::Remove
    } else {
        UninstallStep::Leftover
    }
}

} // verus!
