//! Who holds a grok session, and which web operations that allows.
//!
//! Command lines are the raw `/proc/<pid>/cmdline` bytes (arguments separated
//! by NUL). Reading them is I/O and happens in the caller; everything here
//! decides from the bytes and flags it is given.
use vstd::prelude::*;
use crate::text::{contains, contains_bytes, ends_with, chars_of, lower_ascii, lower_chars, eq_str};

verus! {

/// Marker the web API returns when a session is held elsewhere.
pub const SESSION_BUSY: &'static str = "session_busy";

#[derive(Debug, Clone, Copy, PartialEq, Eq, Structural)]
pub enum Source {
    Attached,
    Observe,
    Foreign,
    Tui,
    Disk,
}

pub open spec fn source_name(s: Source) -> Seq<char> {
    match s {
        Source::Attached => "attached"@,
        Source::Observe => "observe"@,
        Source::Foreign => "foreign"@,
        Source::Tui => "tui"@,
        Source::Disk => "disk"@,
    }
}

impl Source {
    /// Wire name of the source.
    pub fn as_str(self) -> (r: &'static str)
        ensures
            r@ == source_name(self),
    {
        match self {
            Source::Attached => "attached",
            Source::Observe => "observe",
            Source::Foreign => "foreign",
            Source::Tui => "tui",
            Source::Disk => "disk",
        }
    }

    /// Web may follow jsonl, but must not take the grok control plane.
    pub fn is_spectator(self) -> (r: bool)
        ensures
            r == (self == Source::Observe || self == Source::Foreign || self == Source::Tui),
    {
        match self {
            Source::Observe | Source::Foreign | Source::Tui => true,
            _ => false,
        }
    }
}

#[derive(Debug, Clone, Copy, PartialEq, Eq, Structural)]
pub struct Occupancy {
    pub source: Source,
    pub writable: bool,
    pub running: bool,
}

#[derive(Debug, Clone, Copy, PartialEq, Eq, Structural)]
pub enum SessionOp {
    Prompt,
    Load,
    Cancel,
    Control,
    Delete,
}

#[derive(Debug, Clone)]
pub struct LiveView {
    pub loaded: bool,
    pub running: bool,
    pub model: String,
    pub effort: String,
}

#[derive(Debug, Clone)]
pub struct LeaderRecord {
    pub pid: u32,
    pub owned: bool,
    pub socket: String,
}

#[derive(Debug, Clone)]
pub struct WebActiveRecord {
    pub id: String,
}

#[derive(Debug, Clone)]
pub struct LeaderListEntry {
    pub classification: String,
    pub pid_live: Option<u32>,
}

/// What `classify` reads about one session.
///
/// `holder` is the pid that grok's `active_sessions.json` lists for the
/// session, together with that process's command line, when it lists one.
pub struct ClassifyInput<'a> {
    pub id: &'a str,
    pub live: Option<&'a LiveView>,
    pub our_runtime_pid: Option<u32>,
    pub holder: Option<(u32, &'a [u8])>,
    pub leftover_noleader_alive: bool,
    pub jsonl_running: bool,
    pub can_attach: bool,
}

/// ASCII text as bytes.
pub open spec fn bytes_of(s: Seq<char>) -> Seq<u8> {
    s.map_values(|c: char| c as u8)
}

/// The command line with NUL separators turned into spaces.
pub open spec fn haystack(cmd: Seq<u8>) -> Seq<u8> {
    cmd.map_values(|b: u8| if b == 0 { 32u8 } else { b })
}

pub open spec fn cmd_has(cmd: Seq<u8>, needle: &str) -> bool {
    contains(haystack(cmd), bytes_of(needle@))
}

/// `argv[0]`: the bytes before the first NUL.
pub open spec fn argv0(cmd: Seq<u8>) -> Seq<u8>
    decreases cmd.len(),
{
    if cmd.len() == 0 {
        cmd
    } else if cmd.last() == 0 && !cmd.drop_last().contains(0) {
        cmd.drop_last()
    } else if !cmd.contains(0) {
        cmd
    } else {
        argv0(cmd.drop_last())
    }
}

/// A path with trailing `/` and trailing `/.` components removed.
pub open spec fn strip_tail(p: Seq<u8>) -> Seq<u8>
    decreases p.len(),
{
    if p.len() > 0 && p.last() == 47 {
        strip_tail(p.drop_last())
    } else if p.len() >= 2 && p.last() == 46 && p[p.len() - 2] == 47 {
        strip_tail(p.drop_last())
    } else {
        p
    }
}

/// The last path component of `p` is exactly `grok`.
pub open spec fn file_name_is_grok(p: Seq<u8>) -> bool {
    let t = strip_tail(p);
    ends_with(t, bytes_of("grok"@)) && (t.len() == 4 || t[t.len() - 5] == 47)
}

/// The program that runs is named `grok`.
pub open spec fn argv0_is_grok_spec(cmd: Seq<u8>) -> bool {
    file_name_is_grok(argv0(cmd))
}

pub open spec fn matches_grok(cmd: Seq<u8>) -> bool {
    cmd_has(cmd, "grok") && (cmd_has(cmd, "stdio") || cmd_has(cmd, "leader") || argv0_is_grok_spec(cmd))
}

pub open spec fn noleader_stdio(cmd: Seq<u8>) -> bool {
    cmd_has(cmd, "grok") && cmd_has(cmd, "--no-leader") && cmd_has(cmd, "stdio")
}

pub open spec fn stdio_client(cmd: Seq<u8>) -> bool {
    cmd_has(cmd, "grok") && cmd_has(cmd, "stdio")
}

pub open spec fn leader_server(cmd: Seq<u8>) -> bool {
    cmd_has(cmd, "grok") && cmd_has(cmd, "leader") && !cmd_has(cmd, "stdio")
}

pub open spec fn tui(cmd: Seq<u8>) -> bool {
    cmd_has(cmd, "grok") && !cmd_has(cmd, "stdio") && !leader_server(cmd)
}

/// Bytes of an ASCII literal.
fn ascii_bytes(s: &str) -> (r: Vec<u8>)
    ensures
        r@ == bytes_of(s@),
{
    let v = chars_of(s);
    let mut out: Vec<u8> = Vec::new();
    let mut i: usize = 0;
    while i < v.len()
        invariant
            i <= v.len(),
            v@ == s@,
            out@ == bytes_of(v@.take(i as int)),
        decreases v.len() - i,
    {
        out.push(v[i] as u8);
        proof {
            assert(bytes_of(v@.take(i + 1)) =~= bytes_of(v@.take(i as int)).push(v@[i as int] as u8));
        }
        i += 1;
    }
    proof {
        assert(v@.take(v.len() as int) == v@);
    }
    out
}

/// The command line with NUL separators turned into spaces.
fn cmdline_haystack(cmd: &[u8]) -> (r: Vec<u8>)
    ensures
        r@ == haystack(cmd@),
{
    let mut out: Vec<u8> = Vec::new();
    let mut i: usize = 0;
    while i < cmd.len()
        invariant
            i <= cmd.len(),
            out@ == haystack(cmd@.take(i as int)),
        decreases cmd.len() - i,
    {
        let b = cmd[i];
        out.push(if b == 0 { 32u8 } else { b });
        proof {
            assert(haystack(cmd@.take(i + 1)) =~= haystack(cmd@.take(i as int)).push(
                if b == 0 { 32u8 } else { b },
            ));
        }
        i += 1;
    }
    proof {
        assert(cmd@.take(cmd.len() as int) == cmd@);
    }
    out
}

fn has_word(hay: &[u8], needle: &str) -> (r: bool)
    ensures
        r == contains(hay@, bytes_of(needle@)),
{
    let n = ascii_bytes(needle);
    contains_bytes(hay, &n)
}

proof fn lemma_argv0_prefix(cmd: Seq<u8>, i: int)
    requires
        0 <= i < cmd.len(),
        cmd[i] == 0,
        forall|j: int| 0 <= j < i ==> cmd[j] != 0,
    ensures
        argv0(cmd) == cmd.take(i),
    decreases cmd.len(),
{
    let d = cmd.drop_last();
    if i == cmd.len() - 1 {
        assert(!d.contains(0)) by {
            assert forall|j: int| 0 <= j < d.len() implies d[j] != 0 by {}
        }
        assert(d == cmd.take(i));
    } else {
        assert(cmd.contains(0)) by {
            assert(cmd[i] == 0);
        }
        assert(d[i] == 0);
        assert(d.contains(0)) by {
            assert(d[i] == 0);
        }
        lemma_argv0_prefix(d, i);
        assert(d.take(i) == cmd.take(i));
    }
}

proof fn lemma_argv0_whole(cmd: Seq<u8>)
    requires
        !cmd.contains(0),
    ensures
        argv0(cmd) == cmd,
{
    if cmd.len() > 0 {
        assert(cmd.last() != 0) by {
            assert(cmd[cmd.len() - 1] == cmd.last());
        }
    }
}

/// `argv[0]` of a command line.
fn first_arg(cmd: &[u8]) -> (r: Vec<u8>)
    ensures
        r@ == argv0(cmd@),
{
    let mut out: Vec<u8> = Vec::new();
    let mut i: usize = 0;
    while i < cmd.len()
        invariant
            i <= cmd.len(),
            out@ == cmd@.take(i as int),
            forall|j: int| 0 <= j < i ==> cmd@[j] != 0,
        decreases cmd.len() - i,
    {
        if cmd[i] == 0 {
            proof {
                lemma_argv0_prefix(cmd@, i as int);
            }
            return out;
        }
        out.push(cmd[i]);
        proof {
            assert(cmd@.take(i + 1) == cmd@.take(i as int).push(cmd@[i as int]));
        }
        i += 1;
    }
    proof {
        assert(cmd@.take(cmd.len() as int) == cmd@);
        assert(!cmd@.contains(0)) by {
            assert forall|j: int| 0 <= j < cmd@.len() implies cmd@[j] != 0 by {}
        }
        lemma_argv0_whole(cmd@);
    }
    out
}

fn strip_path_tail(p: &[u8]) -> (n: usize)
    ensures
        n <= p.len(),
        strip_tail(p@) == p@.take(n as int),
{
    let mut n: usize = p.len();
    proof {
        assert(p@.take(p.len() as int) == p@);
    }
    loop
        invariant
            n <= p.len(),
            strip_tail(p@) == strip_tail(p@.take(n as int)),
        ensures
            n <= p.len(),
            strip_tail(p@) == p@.take(n as int),
        decreases n,
    {
        let t = Ghost(p@.take(n as int));
        if n > 0 && p[n - 1] == 47 {
            proof {
                assert(t@.last() == 47);
                assert(t@.drop_last() == p@.take(n - 1));
            }
            n -= 1;
        } else if n >= 2 && p[n - 1] == 46 && p[n - 2] == 47 {
            proof {
                assert(t@.last() == 46);
                assert(t@[t@.len() - 2] == 47);
                assert(t@.drop_last() == p@.take(n - 1));
            }
            n -= 1;
        } else {
            proof {
                if n > 0 {
                    assert(t@.last() == p@[n - 1]);
                }
                if n >= 2 {
                    assert(t@[t@.len() - 2] == p@[n - 2]);
                }
            }
            return n;
        }
    }
}

/// Whether the program of a command line is named `grok`.
pub fn argv0_is_grok(cmd: &[u8]) -> (r: bool)
    ensures
        r == argv0_is_grok_spec(cmd@),
{
    let a = first_arg(cmd);
    let n = strip_path_tail(&a);
    if n < 4 {
        proof {
            reveal_strlit("grok");
            assert(bytes_of("grok"@).len() == 4);
        }
        return false;
    }
    let ok = a[n - 4] == 103 && a[n - 3] == 114 && a[n - 2] == 111 && a[n - 1] == 107;
    let sep = n == 4 || a[n - 5] == 47;
    proof {
        let t = a@.take(n as int);
        reveal_strlit("grok");
        let g = bytes_of("grok"@);
        assert(g =~= seq![103u8, 114u8, 111u8, 107u8]);
        assert(t.skip(t.len() - 4) =~= seq![a@[n - 4], a@[n - 3], a@[n - 2], a@[n - 1]]);
        if n > 4 {
            assert(t[t.len() - 5] == a@[n - 5]);
        }
    }
    ok && sep
}

/// Whether a process command line looks like a grok agent or leader.
pub fn cmdline_matches_grok(cmd: &[u8]) -> (r: bool)
    ensures
        r == matches_grok(cmd@),
{
    let hay = cmdline_haystack(cmd);
    if !has_word(&hay, "grok") {
        return false;
    }
    if has_word(&hay, "stdio") || has_word(&hay, "leader") {
        return true;
    }
    argv0_is_grok(cmd)
}

/// Whether the process a stale agent pid file names may be killed: its
/// command line mentions `stdio` or `grok` anywhere.
pub open spec fn stale_agent_spec(cmd: Seq<u8>) -> bool {
    contains(cmd, bytes_of("stdio"@)) || contains(cmd, bytes_of("grok"@))
}

pub fn is_stale_agent_cmd(cmd: &[u8]) -> (r: bool)
    ensures
        r == stale_agent_spec(cmd@),
{
    let a: [u8; 5] = [115, 116, 100, 105, 111];
    let b: [u8; 4] = [103, 114, 111, 107];
    proof {
        reveal_strlit("stdio");
        reveal_strlit("grok");
        assert(a@ =~= bytes_of("stdio"@));
        assert(b@ =~= bytes_of("grok"@));
    }
    crate::text::contains_bytes(cmd, &a) || crate::text::contains_bytes(cmd, &b)
}

pub fn is_noleader_stdio(cmd: &[u8]) -> (r: bool)
    ensures
        r == noleader_stdio(cmd@),
{
    let hay = cmdline_haystack(cmd);
    has_word(&hay, "grok") && has_word(&hay, "--no-leader") && has_word(&hay, "stdio")
}

pub fn is_stdio_client_cmd(cmd: &[u8]) -> (r: bool)
    ensures
        r == stdio_client(cmd@),
{
    let hay = cmdline_haystack(cmd);
    has_word(&hay, "grok") && has_word(&hay, "stdio")
}

pub fn is_leader_server_cmd(cmd: &[u8]) -> (r: bool)
    ensures
        r == leader_server(cmd@),
{
    let hay = cmdline_haystack(cmd);
    has_word(&hay, "grok") && has_word(&hay, "leader") && !has_word(&hay, "stdio")
}

pub fn is_auto_spawned_leader_cmd(cmd: &[u8]) -> (r: bool)
    ensures
        r == (leader_server(cmd@) && cmd_has(cmd@, "--relay-on-demand")),
{
    let hay = cmdline_haystack(cmd);
    is_leader_server_cmd(cmd) && has_word(&hay, "--relay-on-demand")
}

pub fn is_ggok_spawned_leader_cmd(cmd: &[u8]) -> (r: bool)
    ensures
        r == (leader_server(cmd@) && cmd_has(cmd@, "--no-auto-update") && cmd_has(
            cmd@,
            "--no-exit-on-disconnect",
        )),
{
    let hay = cmdline_haystack(cmd);
    is_leader_server_cmd(cmd) && has_word(&hay, "--no-auto-update") && has_word(
        &hay,
        "--no-exit-on-disconnect",
    )
}

pub fn is_tui_cmd(cmd: &[u8]) -> (r: bool)
    ensures
        r == tui(cmd@),
{
    let hay = cmdline_haystack(cmd);
    has_word(&hay, "grok") && !has_word(&hay, "stdio") && !is_leader_server_cmd(cmd)
}

/// Whether a session is held by a grok TUI other than our runtime.
///
/// `holder` is the pid listed for the session in `active_sessions.json` and
/// its command line.
pub fn tui_held(holder: Option<(u32, &[u8])>, our_runtime_pid: Option<u32>) -> (r: bool)
    ensures
        r == match holder {
            None => false,
            Some((pid, cmd)) => our_runtime_pid != Some(pid) && tui(cmd@),
        },
{
    match holder {
        None => false,
        Some((pid, cmd)) => {
            if our_runtime_pid == Some(pid) {
                false
            } else {
                is_tui_cmd(cmd)
            }
        },
    }
}

/// Whether switching the web's active session from `prev` to `next` must
/// cancel the previous one.
pub fn should_cancel_web_peer(prev: &str, next: &str, prev_is_tui: bool) -> (r: bool)
    ensures
        r == (prev@ != next@ && !prev_is_tui),
{
    let a = chars_of(prev);
    let b = chars_of(next);
    !crate::text::eq_chars(&a, &b) && !prev_is_tui
}

pub open spec fn hard_foreign(holder: u32, our_runtime_pid: Option<u32>, can_attach: bool, cmd: Seq<u8>) -> bool {
    if Some(holder) == our_runtime_pid {
        false
    } else if noleader_stdio(cmd) || tui(cmd) {
        true
    } else {
        !can_attach
    }
}

/// Whether the holder of a session keeps the web from attaching to it.
pub fn s3_is_hard_foreign(holder: u32, our_runtime_pid: Option<u32>, can_attach: bool, cmd: &[u8]) -> (r: bool)
    ensures
        r == hard_foreign(holder, our_runtime_pid, can_attach, cmd@),
{
    if Some(holder) == our_runtime_pid {
        return false;
    }
    if is_noleader_stdio(cmd) || is_tui_cmd(cmd) {
        return true;
    }
    !can_attach
}

pub open spec fn peer_source_spec(cmd: Seq<u8>) -> Source {
    if tui(cmd) { Source::Tui } else { Source::Foreign }
}

pub fn peer_source(cmd: &[u8]) -> (r: Source)
    ensures
        r == peer_source_spec(cmd@),
{
    if is_tui_cmd(cmd) {
        Source::Tui
    } else {
        Source::Foreign
    }
}

/// The occupancy rules, in the order they are tried.
pub open spec fn classify_spec(
    live: Option<(bool, bool)>,
    our_runtime_pid: Option<u32>,
    holder: Option<(u32, Seq<u8>)>,
    leftover_noleader_alive: bool,
    jsonl_running: bool,
    can_attach: bool,
) -> Occupancy {
    let attached = match live {
        Some((loaded, _)) => loaded,
        None => false,
    };
    let foreign = match holder {
        Some((pid, cmd)) => hard_foreign(pid, our_runtime_pid, can_attach, cmd),
        None => false,
    };
    if attached {
        Occupancy { source: Source::Attached, writable: true, running: live.unwrap().1 }
    } else if leftover_noleader_alive {
        Occupancy { source: Source::Observe, writable: false, running: jsonl_running }
    } else if foreign {
        Occupancy { source: peer_source_spec(holder.unwrap().1), writable: false, running: true }
    } else if jsonl_running {
        if can_attach {
            Occupancy { source: Source::Disk, writable: true, running: true }
        } else {
            Occupancy { source: Source::Observe, writable: false, running: true }
        }
    } else {
        Occupancy { source: Source::Disk, writable: true, running: false }
    }
}

pub open spec fn input_live(input: &ClassifyInput) -> Option<(bool, bool)> {
    match input.live {
        Some(l) => Some((l.loaded, l.running)),
        None => None,
    }
}

pub open spec fn input_holder(input: &ClassifyInput) -> Option<(u32, Seq<u8>)> {
    match input.holder {
        Some((pid, cmd)) => Some((pid, cmd@)),
        None => None,
    }
}

/// Decides who holds a session and whether the web may write to it.
pub fn classify(input: &ClassifyInput) -> (o: Occupancy)
    ensures
        o == classify_spec(
            input_live(input),
            input.our_runtime_pid,
            input_holder(input),
            input.leftover_noleader_alive,
            input.jsonl_running,
            input.can_attach,
        ),
        o.source == Source::Attached ==> o.writable,
        o.writable <==> (o.source == Source::Attached || o.source == Source::Disk),
{
    if let Some(l) = input.live {
        if l.loaded {
            return Occupancy { source: Source::Attached, writable: true, running: l.running };
        }
    }
    if input.leftover_noleader_alive {
        return Occupancy { source: Source::Observe, writable: false, running: input.jsonl_running };
    }
    if let Some((pid, cmd)) = input.holder {
        if s3_is_hard_foreign(pid, input.our_runtime_pid, input.can_attach, cmd) {
            return Occupancy { source: peer_source(cmd), writable: false, running: true };
        }
    }
    if input.jsonl_running {
        if input.can_attach {
            return Occupancy { source: Source::Disk, writable: true, running: true };
        }
        return Occupancy { source: Source::Observe, writable: false, running: true };
    }
    Occupancy { source: Source::Disk, writable: true, running: false }
}

pub open spec fn busy(occ: Occupancy, op: SessionOp) -> bool {
    match op {
        SessionOp::Prompt => !occ.writable,
        SessionOp::Load | SessionOp::Cancel | SessionOp::Control => occ.source != Source::Attached,
        SessionOp::Delete => match occ.source {
            Source::Foreign | Source::Tui => true,
            Source::Observe => occ.running,
            Source::Attached | Source::Disk => false,
        },
    }
}

/// Whether `op` on a session with occupancy `occ` must be refused as busy.
pub fn conflict_busy(occ: Occupancy, op: SessionOp) -> (r: bool)
    ensures
        r == busy(occ, op),
{
    match op {
        SessionOp::Prompt => !occ.writable,
        SessionOp::Load | SessionOp::Cancel | SessionOp::Control => occ.source != Source::Attached,
        SessionOp::Delete => match occ.source {
            Source::Foreign | Source::Tui => true,
            Source::Observe => occ.running,
            Source::Attached | Source::Disk => false,
        },
    }
}

/// Who holds a session, rule by rule: a session loaded in the live runtime
/// is attached, writable, and running exactly when the runtime says so; else
/// a leftover runtime without a leader leaves it read-only, running as its
/// transcript says; else a holder that keeps the web out (a TUI or another
/// program, never our own runtime) makes it read-only and running; else a
/// transcript still being written is running, writable only where the web
/// can attach; and an idle session on disk is writable and not running.
pub proof fn law_classify_rules(
    live: Option<(bool, bool)>,
    our_runtime_pid: Option<u32>,
    holder: Option<(u32, Seq<u8>)>,
    leftover: bool,
    jsonl_running: bool,
    can_attach: bool,
)
    ensures
        ({
            let o = classify_spec(live, our_runtime_pid, holder, leftover, jsonl_running, can_attach);
            let loaded = live matches Some((l, _)) && l;
            let keeps_out = holder matches Some((pid, cmd)) && Some(pid) != our_runtime_pid && (
            noleader_stdio(cmd) || tui(cmd) || !can_attach);
            &&& loaded ==> o == Occupancy { source: Source::Attached, writable: true, running: live.unwrap().1 }
            &&& !loaded && leftover ==> o == Occupancy {
                source: Source::Observe,
                writable: false,
                running: jsonl_running,
            }
            &&& !loaded && !leftover && keeps_out ==> !o.writable && o.running && (o.source == Source::Tui
                <==> tui(holder.unwrap().1)) && (o.source == Source::Foreign <==> !tui(holder.unwrap().1))
            &&& !loaded && !leftover && !keeps_out && jsonl_running ==> o.running && o.writable
                == can_attach && o.source == (if can_attach {
                Source::Disk
            } else {
                Source::Observe
            })
            &&& !loaded && !leftover && !keeps_out && !jsonl_running ==> o == Occupancy {
                source: Source::Disk,
                writable: true,
                running: false,
            }
            &&& o.writable <==> (o.source == Source::Attached || o.source == Source::Disk)
        }),
{
}

/// An attached session refuses no operation, and a session that is held by
/// a peer (foreign or TUI) refuses every one.
pub proof fn law_attached_never_busy_peer_always_busy(occ: Occupancy, op: SessionOp)
    ensures
        (occ.source == Source::Attached && occ.writable) ==> !busy(occ, op),
        ((occ.source == Source::Foreign || occ.source == Source::Tui) && !occ.writable) ==> busy(occ, op),
{
}

/// Any occupancy that `classify` hands out refuses a prompt exactly when it
/// is not writable, and a classified attached session accepts every operation.
pub proof fn law_classified_prompt_rule(
    live: Option<(bool, bool)>,
    our_runtime_pid: Option<u32>,
    holder: Option<(u32, Seq<u8>)>,
    leftover: bool,
    running: bool,
    can_attach: bool,
    op: SessionOp,
)
    ensures
        ({
            let o = classify_spec(live, our_runtime_pid, holder, leftover, running, can_attach);
            &&& busy(o, SessionOp::Prompt) == !o.writable
            &&& (o.source == Source::Attached ==> !busy(o, op))
            &&& ((o.source == Source::Foreign || o.source == Source::Tui) ==> busy(o, op))
        }),
{
}

pub open spec fn all_idle(sessions: Seq<(Seq<char>, bool)>, s3_ids: Seq<Seq<char>>) -> bool {
    forall|i: int| 0 <= i < sessions.len() ==> (sessions[i].1 ==> s3_ids.contains(sessions[i].0))
}

pub open spec fn session_pairs(sessions: Seq<(String, bool)>) -> Seq<(Seq<char>, bool)> {
    sessions.map_values(|p: (String, bool)| (p.0@, p.1))
}

pub open spec fn id_views(ids: Seq<String>) -> Seq<Seq<char>> {
    ids.map_values(|s: String| s@)
}

fn id_listed(ids: &[String], id: &String) -> (r: bool)
    ensures
        r == id_views(ids@).contains(id@),
{
    let mut i: usize = 0;
    while i < ids.len()
        invariant
            i <= ids.len(),
            forall|j: int| 0 <= j < i ==> ids@[j]@ != id@,
        decreases ids.len() - i,
    {
        if ids[i] == *id {
            proof {
                assert(id_views(ids@)[i as int] == id@);
            }
            return true;
        }
        i += 1;
    }
    proof {
        assert forall|j: int| 0 <= j < id_views(ids@).len() implies id_views(ids@)[j] != id@ by {
            assert(id_views(ids@)[j] == ids@[j]@);
        }
    }
    false
}

/// Whether no session is running outside grok's own CLI clients.
///
/// `sessions` lists every scanned session id with whether its updates log
/// looks live, or is `None` when the session directory could not be scanned;
/// `s3_ids` are the sessions that `active_sessions.json` attributes to a
/// grok client.
pub fn leftover_idle(sessions: Option<&[(String, bool)]>, s3_ids: &[String]) -> (r: bool)
    ensures
        r == match sessions {
            None => true,
            Some(s) => all_idle(session_pairs(s@), id_views(s3_ids@)),
        },
{
    let list: &[(String, bool)] = match sessions {
        None => {
            return true;
        },
        Some(l) => l,
    };
    let mut i: usize = 0;
    while i < list.len()
        invariant
            i <= list.len(),
            sessions == Some(list),
            forall|j: int| 0 <= j < i ==> (list@[j].1 ==> id_views(s3_ids@).contains(list@[j].0@)),
        decreases list.len() - i,
    {
        let running = list[i].1;
        if running && !id_listed(s3_ids, &list[i].0) {
            proof {
                let sp = session_pairs(list@);
                assert(sp[i as int] == (list@[i as int].0@, list@[i as int].1));
                assert(sp[i as int].1 && !id_views(s3_ids@).contains(sp[i as int].0));
                assert(!all_idle(sp, id_views(s3_ids@)));
            }
            return false;
        }
        i += 1;
    }
    proof {
        assert forall|j: int| 0 <= j < session_pairs(list@).len() implies (session_pairs(list@)[j].1
            ==> id_views(s3_ids@).contains(session_pairs(list@)[j].0)) by {
            assert(session_pairs(list@)[j] == (list@[j].0@, list@[j].1));
        }
    }
    true
}

pub open spec fn reachable_row(e: LeaderListEntry) -> bool {
    lower_ascii(e.classification@) != "unreachable"@ && e.pid_live is Some && e.pid_live->0 != 0
}

/// The live pid of the first leader row that is not unreachable.
pub fn first_reachable_leader_pid(rows: &[LeaderListEntry]) -> (r: Option<u32>)
    ensures
        match r {
            Some(pid) => exists|i: int|
                0 <= i < rows@.len() && reachable_row(rows@[i]) && rows@[i].pid_live == Some(pid)
                    && forall|j: int| 0 <= j < i ==> !reachable_row(rows@[j]),
            None => forall|i: int| 0 <= i < rows@.len() ==> !reachable_row(rows@[i]),
        },
{
    let mut i: usize = 0;
    while i < rows.len()
        invariant
            i <= rows.len(),
            forall|j: int| 0 <= j < i ==> !reachable_row(rows@[j]),
        decreases rows.len() - i,
    {
        let row = &rows[i];
        let cls = chars_of(row.classification.as_str());
        let lower = lower_chars(&cls);
        if !eq_str(&lower, "unreachable") {
            if let Some(pid) = row.pid_live {
                if pid != 0 {
                    return Some(pid);
                }
            }
        }
        i += 1;
    }
    None
}

/// Whether a leader runs on its own rather than under a stdio client.
///
/// `parent` is the leader's parent pid, when it could be read, and
/// `parent_cmd` that parent's command line.
pub fn leader_is_independent(parent: Option<u32>, parent_cmd: &[u8]) -> (r: bool)
    ensures
        r == match parent {
            None => false,
            Some(p) => p <= 1 || !stdio_client(parent_cmd@),
        },
{
    let Some(p) = parent else {
        return false;
    };
    if p <= 1 {
        return true;
    }
    !is_stdio_client_cmd(parent_cmd)
}

/// Whether any child of a stdio client is a leader server (`children_cmds`
/// are the children's command lines).
pub fn stdio_holds_leader(children_cmds: &[Vec<u8>]) -> (r: bool)
    ensures
        r == exists|i: int| 0 <= i < children_cmds@.len() && leader_server(children_cmds@[i]@),
{
    let mut i: usize = 0;
    while i < children_cmds.len()
        invariant
            i <= children_cmds.len(),
            forall|j: int| 0 <= j < i ==> !leader_server(children_cmds@[j]@),
        decreases children_cmds.len() - i,
    {
        if is_leader_server_cmd(children_cmds[i].as_slice()) {
            return true;
        }
        i += 1;
    }
    false
}

/// The runtime pid we spawned, if it is alive and still a grok process.
///
/// `alive` and `cmd` describe the process `live_pid` names.
pub fn our_runtime_pid(live_pid: Option<u32>, alive: bool, cmd: &[u8]) -> (r: Option<u32>)
    ensures
        r == match live_pid {
            None => None,
            Some(p) => if alive && matches_grok(cmd@) { Some(p) } else { None },
        },
{
    let pid = live_pid?;
    if !alive {
        return None;
    }
    if cmdline_matches_grok(cmd) {
        Some(pid)
    } else {
        None
    }
}


/// Where the web's active session is recorded: `web-active.json` beside the
/// leader record (in `.` when the record's path has no parent).
pub open spec fn web_active_spec(leader_json: Seq<char>) -> Seq<char> {
    crate::pathx::join(
        match crate::pathx::parent(leader_json) {
            Some(p) => p,
            None => "."@,
        },
        "web-active.json"@,
    )
}

pub fn web_active_path(leader_json: &str) -> (r: String)
    ensures
        r@ == web_active_spec(leader_json@),
{
    let dir = match crate::pathx::parent_of(leader_json) {
        Some(p) => p,
        None => ".".to_string(),
    };
    crate::pathx::join_str(dir.as_str(), "web-active.json")
}


/// Whether a session transcript shows a turn in progress: not when its last
/// update is `turn_completed`; else when it was written at most 15 seconds
/// ago. `age` is the time since it was written, as whole seconds and
/// nanoseconds (`None` when it was written in the future).
pub open spec fn jsonl_running_spec(last_update: Option<Seq<char>>, age: Option<(u64, u32)>) -> bool {
    if last_update == Some("turn_completed"@) {
        false
    } else {
        match age {
            Some((secs, nanos)) => secs < 15 || (secs == 15 && nanos == 0),
            None => false,
        }
    }
}

pub fn jsonl_running_uncached(last_update: Option<&str>, age: Option<(u64, u32)>) -> (r: bool)
    ensures
        r == jsonl_running_spec(
            match last_update {
                Some(s) => Some(s@),
                None => None,
            },
            age,
        ),
{
    match last_update {
        Some(s) => if crate::text::str_eq(s, "turn_completed") {
            return false;
        },
        None => {},
    }
    match age {
        Some((secs, nanos)) => secs < 15 || (secs == 15 && nanos == 0),
        None => false,
    }
}


/// A live pid in a leader row: a positive whole number that fits `u32`.
pub open spec fn pid_spec(o: Option<crate::parse::FieldVal>) -> Option<u32> {
    match o {
        Some(crate::parse::FieldVal::UInt(n)) => if 0 < n && n <= u32::MAX {
            Some(n as u32)
        } else {
            None
        },
        _ => None,
    }
}

/// The rows of `grok leader list --json`: the array itself, or the array
/// under `leaders` or `items`, or a single object.
pub open spec fn leader_rows_spec(v: crate::parse::FieldVal) -> Seq<crate::parse::FieldVal> {
    match v {
        crate::parse::FieldVal::Array(a) => a@,
        _ => match crate::control::get(v, "leaders"@) {
            Some(crate::parse::FieldVal::Array(a)) => a@,
            _ => match crate::control::get(v, "items"@) {
                Some(crate::parse::FieldVal::Array(a)) => a@,
                _ => if v is Object {
                    seq![v]
                } else {
                    Seq::empty()
                },
            },
        },
    }
}

/// One row: its classification (or nothing) and its live pid, under
/// `pidLive` or else `pid_live`.
pub open spec fn leader_entry_spec(row: crate::parse::FieldVal) -> (Seq<char>, Option<u32>) {
    (
        match crate::control::get(row, "classification"@) {
            Some(crate::parse::FieldVal::Str(s)) => s@,
            _ => Seq::empty(),
        },
        match pid_spec(crate::control::get(row, "pidLive"@)) {
            Some(p) => Some(p),
            None => pid_spec(crate::control::get(row, "pid_live"@)),
        },
    )
}

fn pid_of(o: Option<&crate::parse::FieldVal>) -> (r: Option<u32>)
    ensures
        r == pid_spec(
            match o {
                Some(x) => Some(*x),
                None => None,
            },
        ),
{
    match o {
        Some(crate::parse::FieldVal::UInt(n)) => if 0 < *n && *n <= 4294967295 {
            Some(*n as u32)
        } else {
            None
        },
        _ => None,
    }
}

fn leader_entry(row: &crate::parse::FieldVal) -> (r: LeaderListEntry)
    ensures
        (r.classification@, r.pid_live) == leader_entry_spec(*row),
{
    let classification = match crate::control::get_of(row, "classification") {
        Some(crate::parse::FieldVal::Str(s)) => crate::text::string_of(&chars_of(s.as_str())),
        _ => String::new(),
    };
    let pid_live = match pid_of(crate::control::get_of(row, "pidLive")) {
        Some(p) => Some(p),
        None => pid_of(crate::control::get_of(row, "pid_live")),
    };
    LeaderListEntry { classification, pid_live }
}

fn entries_of(rows: &Vec<crate::parse::FieldVal>) -> (r: Vec<LeaderListEntry>)
    ensures
        r@.len() == rows@.len(),
        forall|i: int| 0 <= i < r@.len() ==> ((#[trigger] r@[i]).classification@, r@[i].pid_live)
            == leader_entry_spec(rows@[i]),
{
    let mut out: Vec<LeaderListEntry> = Vec::new();
    let mut i: usize = 0;
    while i < rows.len()
        invariant
            i <= rows.len(),
            out@.len() == i,
            forall|k: int| 0 <= k < i ==> ((#[trigger] out@[k]).classification@, out@[k].pid_live)
                == leader_entry_spec(rows@[k]),
        decreases rows.len() - i,
    {
        out.push(leader_entry(&rows[i]));
        i += 1;
    }
    out
}

/// The rows of the leader list as entries, in order.
pub fn parse_leader_list(v: &crate::parse::FieldVal) -> (r: Vec<LeaderListEntry>)
    ensures
        r@.len() == leader_rows_spec(*v).len(),
        forall|i: int| 0 <= i < r@.len() ==> ((#[trigger] r@[i]).classification@, r@[i].pid_live)
            == leader_entry_spec(leader_rows_spec(*v)[i]),
{
    match v {
        crate::parse::FieldVal::Array(a) => {
            return entries_of(a);
        },
        _ => {},
    }
    match crate::control::get_of(v, "leaders") {
        Some(crate::parse::FieldVal::Array(a)) => {
            return entries_of(a);
        },
        _ => {},
    }
    match crate::control::get_of(v, "items") {
        Some(crate::parse::FieldVal::Array(a)) => {
            return entries_of(a);
        },
        _ => {},
    }
    match v {
        crate::parse::FieldVal::Object(_) => {
            let mut out: Vec<LeaderListEntry> = Vec::new();
            out.push(leader_entry(v));
            out
        },
        _ => Vec::new(),
    }
}

/// A leader row, as (classification, live pid), that is not unreachable
/// and has a live pid.
pub open spec fn reachable_entry(e: (Seq<char>, Option<u32>)) -> bool {
    lower_ascii(e.0) != "unreachable"@ && e.1 is Some && e.1->0 != 0
}

/// The live pid of the first reachable leader in the answer of
/// `grok leader list --json`, given as JSON (`None` where the answer was
/// not JSON, which gives no pid).
pub fn first_reachable_leader_pid_in(doc: Option<&crate::parse::FieldVal>) -> (r: Option<u32>)
    ensures
        match doc {
            None => r is None,
            Some(v) => {
                let rows = leader_rows_spec(*v);
                match r {
                    Some(pid) => exists|i: int|
                        0 <= i < rows.len() && reachable_entry(leader_entry_spec(rows[i]))
                            && leader_entry_spec(rows[i]).1 == Some(pid) && forall|j: int|
                            0 <= j < i ==> !reachable_entry(#[trigger] leader_entry_spec(rows[j])),
                    None => forall|i: int|
                        0 <= i < rows.len() ==> !reachable_entry(#[trigger] leader_entry_spec(rows[i])),
                }
            },
        },
{
    match doc {
        None => None,
        Some(v) => {
            let rows = parse_leader_list(v);
            let ghost rs = leader_rows_spec(*v);
            proof {
                assert forall|i: int| 0 <= i < rows@.len() implies reachable_row(rows@[i])
                    == reachable_entry(leader_entry_spec(#[trigger] rs[i])) by {
                    assert((rows@[i].classification@, rows@[i].pid_live) == leader_entry_spec(rs[i]));
                }
            }
            let r = first_reachable_leader_pid(&rows);
            proof {
                match r {
                    Some(pid) => {
                        let i = choose|i: int|
                            0 <= i < rows@.len() && reachable_row(rows@[i]) && rows@[i].pid_live == Some(pid)
                                && forall|j: int| 0 <= j < i ==> !reachable_row(rows@[j]);
                        assert(reachable_entry(leader_entry_spec(rs[i])));
                        assert(leader_entry_spec(rs[i]).1 == Some(pid)) by {
                            assert((rows@[i].classification@, rows@[i].pid_live) == leader_entry_spec(rs[i]));
                        }
                        assert forall|j: int| 0 <= j < i implies !reachable_entry(
                            #[trigger] leader_entry_spec(rs[j]),
                        ) by {
                            assert(!reachable_row(rows@[j]));
                        }
                    },
                    None => {
                        assert forall|k: int| 0 <= k < rs.len() implies !reachable_entry(
                            #[trigger] leader_entry_spec(rs[k]),
                        ) by {
                            assert(!reachable_row(rows@[k]));
                        }
                    },
                }
            }
            r
        },
    }
}

/// How much of the end of a session's `updates.jsonl` is read: 64 KiB.
pub const JSONL_WINDOW: u64 = 65536;

/// Where reading the end of an `updates.jsonl` of `size` bytes starts.
pub fn jsonl_tail_start(size: u64) -> (r: u64)
    ensures
        r == (if size > JSONL_WINDOW {
            size - JSONL_WINDOW
        } else {
            0
        }),
{
    size.saturating_sub(JSONL_WINDOW)
}

/// The text read from the end of the file, without its first line where
/// the reading started inside the file (that line is likely cut; with no
/// newline, nothing is left).
pub open spec fn tail_body(text: Seq<char>, cut: bool) -> Seq<char> {
    if !cut {
        text
    } else {
        match crate::text::fpos(text, '\n') {
            Some(i) => text.skip(i + 1),
            None => Seq::empty(),
        }
    }
}

/// The whole lines of the end of an `updates.jsonl` read from byte `start`.
pub fn jsonl_tail_lines(text: &str, start: u64) -> (r: Vec<String>)
    ensures
        r@.len() == crate::prefs::lines(tail_body(text@, start > 0)).len(),
        forall|i: int|
            0 <= i < r@.len() ==> (#[trigger] r@[i])@ == crate::prefs::lines(tail_body(text@, start > 0))[i],
{
    let cs = chars_of(text);
    let body: Vec<char> = if start == 0 {
        cs
    } else {
        match crate::text::fpos_char(&cs, '\n') {
            Some(i) => crate::text::slice_of(&cs, i + 1, cs.len()),
            None => Vec::new(),
        }
    };
    proof {
        if start > 0 {
            match crate::text::fpos(text@, '\n') {
                Some(i) => {
                    assert(text@.subrange(i + 1, text@.len() as int) =~= text@.skip(i + 1));
                },
                None => {
                    assert(body@ =~= Seq::<char>::empty());
                },
            }
        }
    }
    let ls = crate::prefs::lines_of(&body);
    let mut out: Vec<String> = Vec::new();
    let mut k: usize = 0;
    while k < ls.len()
        invariant
            k <= ls.len(),
            crate::pathx::views(ls@) == crate::prefs::lines(tail_body(text@, start > 0)),
            out@.len() == k,
            forall|i: int| 0 <= i < k ==> (#[trigger] out@[i])@ == ls@[i]@,
        decreases ls.len() - k,
    {
        out.push(crate::text::string_of(&ls[k]));
        k += 1;
    }
    proof {
        assert forall|i: int| 0 <= i < out@.len() implies (#[trigger] out@[i])@ == crate::prefs::lines(
            tail_body(text@, start > 0),
        )[i] by {
            assert(crate::pathx::views(ls@)[i] == ls@[i]@);
        }
    }
    out
}

/// The kind of the last update among the lines read, each line's
/// `params.update.sessionUpdate` where it has one.
pub open spec fn last_kind(kinds: Seq<Option<String>>) -> Option<Seq<char>>
    decreases kinds.len(),
{
    if kinds.len() == 0 {
        None
    } else {
        match kinds.last() {
            Some(k) => Some(k@),
            None => last_kind(kinds.drop_last()),
        }
    }
}

pub fn last_update_kind(kinds: &[Option<String>]) -> (r: Option<String>)
    ensures
        match r {
            Some(s) => last_kind(kinds@) == Some(s@),
            None => last_kind(kinds@) is None,
        },
{
    let mut i: usize = kinds.len();
    proof {
        assert(kinds@.take(i as int) =~= kinds@);
    }
    while i > 0
        invariant
            i <= kinds.len(),
            forall|j: int| i <= j < kinds.len() ==> kinds@[j] is None,
            last_kind(kinds@) == last_kind(kinds@.take(i as int)),
        decreases i,
    {
        proof {
            assert(kinds@.take(i as int).drop_last() =~= kinds@.take(i - 1));
            assert(kinds@.take(i as int).last() == kinds@[i - 1]);
        }
        match &kinds[i - 1] {
            Some(k) => {
                return Some(k.clone());
            },
            None => {},
        }
        i -= 1;
    }
    proof {
        assert(kinds@.take(0) =~= Seq::<Option<String>>::empty());
    }
    None
}

/// The session id a `web-active.json` record names, where it is a UUID
/// once trimmed (the id is kept as written); a record naming anything
/// else counts as none. A session id is written only where it reads as a
/// UUID as it is.
pub fn web_active_id(id: &str) -> (r: Option<String>)
    ensures
        (r is Some) == crate::pins::uuid_text(crate::text::trim(id@)),
        r matches Some(s) ==> s@ == id@,
{
    let t = crate::text::string_of(&crate::text::trim_str(id));
    if crate::pins::parses_as_uuid(t.as_str()) {
        Some(id.to_string())
    } else {
        None
    }
}

/// Whether a session id may be recorded as the one the web page shows
/// (`write_web_active` refuses others).
pub fn web_active_writable(id: &str) -> (r: bool)
    ensures
        r == crate::pins::uuid_text(id@),
{
    crate::pins::parses_as_uuid(id)
}

} // verus!
