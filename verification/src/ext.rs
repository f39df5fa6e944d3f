//! Managing grok's MCP servers and plugins: the names and sources a request
//! gives are checked, and the command line handed to `grok mcp ...` or
//! `grok plugin ...` is made. Running grok is left to the caller.
use vstd::prelude::*;
use crate::parse::FieldVal;
use crate::text::{
    chars_of, string_of, trim, trim_str, lower_ascii, lower_chars, eq_str, has_char, contains,
    contains_str, is_ascii_alnum, is_ascii_alphanumeric, is_control, is_control_char,
};

verus! {

/// Why a request to manage MCP servers or plugins was refused.
#[derive(Debug, Clone, Copy, PartialEq, Eq, Structural)]
pub enum ExtError {
    /// The name is empty.
    NameRequired,
    /// The name holds a character it may not.
    BadName,
    /// The MCP transport is none of `stdio`, `http`, `sse`.
    UnknownTransport,
    /// The MCP scope is neither `user` nor `project`.
    UnknownScope,
    /// An environment entry is not `KEY=value`.
    EnvNotKeyValue,
    /// The plugin source is empty.
    SourceRequired,
    /// The plugin source holds a control character, `..`, or one of
    /// ``;|&$`()<>\"'``.
    InvalidSource,
}

pub open spec fn strs(v: Seq<String>) -> Seq<Seq<char>> {
    Seq::new(v.len(), |i: int| v[i]@)
}

/// A character an MCP server name may hold.
pub open spec fn mcp_name_char(c: char) -> bool {
    is_ascii_alnum(c) || c == '_' || c == '-'
}

/// A character a plugin name may hold.
pub open spec fn plugin_name_char(c: char) -> bool {
    is_ascii_alnum(c) || c == '_' || c == '-' || c == '.'
}

/// A name, trimmed, must not be empty and may only hold the characters
/// `ok` allows (dots only for plugins).
pub open spec fn name_check(name: Seq<char>, dots: bool) -> Result<(), ExtError> {
    let t = trim(name);
    if t.len() == 0 {
        Err(ExtError::NameRequired)
    } else if exists|i: int|
        0 <= i < t.len() && !(if dots {
            plugin_name_char(#[trigger] t[i])
        } else {
            mcp_name_char(t[i])
        }) {
        Err(ExtError::BadName)
    } else {
        Ok(())
    }
}

fn check_name(name: &str, dots: bool) -> (r: Result<(), ExtError>)
    ensures
        r == name_check(name@, dots),
{
    let t = trim_str(name);
    if t.len() == 0 {
        return Err(ExtError::NameRequired);
    }
    let mut i: usize = 0;
    while i < t.len()
        invariant
            i <= t.len(),
            t@ == trim(name@),
            t@.len() > 0,
            forall|k: int|
                0 <= k < i ==> (if dots {
                    plugin_name_char(#[trigger] t@[k])
                } else {
                    mcp_name_char(t@[k])
                }),
        decreases t.len() - i,
    {
        let c = t[i];
        let ok = is_ascii_alphanumeric(c) || c == '_' || c == '-' || (dots && c == '.');
        if !ok {
            return Err(ExtError::BadName);
        }
        i += 1;
    }
    Ok(())
}

/// An MCP transport: empty or `stdio` is `stdio`; `http`; `sse` (trimmed,
/// any ASCII case).
pub open spec fn transport_spec(raw: Seq<char>) -> Result<Seq<char>, ExtError> {
    let l = lower_ascii(trim(raw));
    if l.len() == 0 || l == "stdio"@ {
        Ok("stdio"@)
    } else if l == "http"@ {
        Ok("http"@)
    } else if l == "sse"@ {
        Ok("sse"@)
    } else {
        Err(ExtError::UnknownTransport)
    }
}

/// An MCP scope: empty or `user` is `user`; `project` (trimmed, any ASCII case).
pub open spec fn scope_spec(raw: Seq<char>) -> Result<Seq<char>, ExtError> {
    let l = lower_ascii(trim(raw));
    if l.len() == 0 || l == "user"@ {
        Ok("user"@)
    } else if l == "project"@ {
        Ok("project"@)
    } else {
        Err(ExtError::UnknownScope)
    }
}

pub open spec fn res_str(r: Result<String, ExtError>) -> Result<Seq<char>, ExtError> {
    match r {
        Ok(s) => Ok(s@),
        Err(e) => Err(e),
    }
}

/// The MCP transport asked for; refused with the value (trimmed and
/// lower-cased) where it is unknown.
pub fn mcp_transport(raw: &str) -> (r: Result<String, ExtError>)
    ensures
        res_str(r) == transport_spec(raw@),
{
    let l = lower_chars(&trim_str(raw));
    if l.len() == 0 || eq_str(&l, "stdio") {
        Ok("stdio".to_string())
    } else if eq_str(&l, "http") {
        Ok("http".to_string())
    } else if eq_str(&l, "sse") {
        Ok("sse".to_string())
    } else {
        Err(ExtError::UnknownTransport)
    }
}

/// The MCP scope asked for; refused with the value (trimmed and
/// lower-cased) where it is unknown.
pub fn mcp_scope(raw: &str) -> (r: Result<String, ExtError>)
    ensures
        res_str(r) == scope_spec(raw@),
{
    let l = lower_chars(&trim_str(raw));
    if l.len() == 0 || eq_str(&l, "user") {
        Ok("user".to_string())
    } else if eq_str(&l, "project") {
        Ok("project".to_string())
    } else {
        Err(ExtError::UnknownScope)
    }
}

/// The `-e KEY=value` arguments: blank entries are left out, each other
/// entry trimmed; one without `=` is refused.
pub open spec fn env_args(env: Seq<Seq<char>>) -> Result<Seq<Seq<char>>, ExtError>
    decreases env.len(),
{
    if env.len() == 0 {
        Ok(Seq::empty())
    } else {
        match env_args(env.drop_last()) {
            Err(e) => Err(e),
            Ok(a) => {
                let t = trim(env.last());
                if t.len() == 0 {
                    Ok(a)
                } else if !t.contains('=') {
                    Err(ExtError::EnvNotKeyValue)
                } else {
                    Ok(a + seq!["-e"@, t])
                }
            },
        }
    }
}

/// The `-H header` arguments: blank entries are left out, each other
/// entry trimmed.
pub open spec fn header_args(hs: Seq<Seq<char>>) -> Seq<Seq<char>>
    decreases hs.len(),
{
    if hs.len() == 0 {
        Seq::empty()
    } else {
        let t = trim(hs.last());
        if t.len() == 0 {
            header_args(hs.drop_last())
        } else {
            header_args(hs.drop_last()) + seq!["-H"@, t]
        }
    }
}

fn push_str(out: &mut Vec<String>, s: &str)
    ensures
        strs(final(out)@) == strs(old(out)@).push(s@),
{
    let ghost before = strs(out@);
    out.push(s.to_string());
    proof {
        assert(strs(out@) =~= before.push(s@));
    }
}

fn push_chars(out: &mut Vec<String>, s: &[char])
    ensures
        strs(final(out)@) == strs(old(out)@).push(s@),
{
    let ghost before = strs(out@);
    out.push(string_of(s));
    proof {
        assert(strs(out@) =~= before.push(s@));
    }
}

/// The command line of `grok mcp add`: `mcp add`, `-t` and the transport
/// unless it is `stdio`, `-s` and the scope, the environment and header
/// arguments, the name, then `--`, the command and its arguments for
/// `stdio`, else the URL. The name is checked first, then the transport,
/// the scope and the environment entries.
pub open spec fn mcp_add_spec(
    name: Seq<char>,
    transport: Seq<char>,
    command_or_url: Seq<char>,
    args: Seq<Seq<char>>,
    scope: Seq<char>,
    env: Seq<Seq<char>>,
    headers: Seq<Seq<char>>,
) -> Result<Seq<Seq<char>>, ExtError> {
    match name_check(name, false) {
        Err(e) => Err(e),
        Ok(_) => match transport_spec(transport) {
            Err(e) => Err(e),
            Ok(t) => match scope_spec(scope) {
                Err(e) => Err(e),
                Ok(s) => match env_args(env) {
                    Err(e) => Err(e),
                    Ok(ea) => Ok(
                        seq!["mcp"@, "add"@] + (if t != "stdio"@ {
                            seq!["-t"@, t]
                        } else {
                            Seq::empty()
                        }) + seq!["-s"@, s] + ea + header_args(headers) + seq![name] + (if t == "stdio"@ {
                            seq!["--"@, command_or_url] + args
                        } else {
                            seq![command_or_url]
                        }),
                    ),
                },
            },
        },
    }
}

pub open spec fn argv_view(r: Result<Vec<String>, ExtError>) -> Result<Seq<Seq<char>>, ExtError> {
    match r {
        Ok(v) => Ok(strs(v@)),
        Err(e) => Err(e),
    }
}

fn push_env(out: &mut Vec<String>, env: &[String]) -> (r: Result<(), ExtError>)
    ensures
        match env_args(strs(env@)) {
            Ok(a) => r is Ok && strs(final(out)@) == strs(old(out)@) + a,
            Err(e) => r == Err::<(), ExtError>(e),
        },
{
    let ghost start = strs(out@);
    let ghost ev = strs(env@);
    let mut i: usize = 0;
    proof {
        assert(ev.take(0) =~= Seq::<Seq<char>>::empty());
        assert(start + Seq::<Seq<char>>::empty() =~= start);
    }
    while i < env.len()
        invariant
            i <= env.len(),
            ev == strs(env@),
            env_args(ev.take(i as int)) matches Ok(a) && strs(out@) == start + a,
        decreases env.len() - i,
    {
        proof {
            assert(ev.take(i + 1).drop_last() =~= ev.take(i as int));
            assert(ev.take(i + 1).last() == env@[i as int]@);
        }
        let ghost a = env_args(ev.take(i as int))->Ok_0;
        let t = trim_str(env[i].as_str());
        if t.len() > 0 {
            if !has_char(&t, '=') {
                proof {
                    lemma_env_err_stays(ev, i + 1);
                }
                return Err(ExtError::EnvNotKeyValue);
            }
            push_str(out, "-e");
            push_chars(out, &t);
            proof {
                assert(start + a + seq!["-e"@, t@] =~= start + (a + seq!["-e"@, t@]));
                assert(strs(out@) =~= start + a + seq!["-e"@, t@]);
            }
        }
        i += 1;
    }
    proof {
        assert(ev.take(env.len() as int) =~= ev);
    }
    Ok(())
}

proof fn lemma_env_err_stays(env: Seq<Seq<char>>, k: int)
    requires
        0 <= k <= env.len(),
        env_args(env.take(k)) is Err,
    ensures
        env_args(env) == env_args(env.take(k)),
    decreases env.len() - k,
{
    if k < env.len() {
        assert(env.take(k + 1).drop_last() =~= env.take(k));
        lemma_env_err_stays(env, k + 1);
    } else {
        assert(env.take(k) =~= env);
    }
}

fn push_headers(out: &mut Vec<String>, hs: &[String])
    ensures
        strs(final(out)@) == strs(old(out)@) + header_args(strs(hs@)),
{
    let ghost start = strs(out@);
    let ghost hv = strs(hs@);
    let mut i: usize = 0;
    proof {
        assert(hv.take(0) =~= Seq::<Seq<char>>::empty());
        assert(start + Seq::<Seq<char>>::empty() =~= start);
    }
    while i < hs.len()
        invariant
            i <= hs.len(),
            hv == strs(hs@),
            strs(out@) == start + header_args(hv.take(i as int)),
        decreases hs.len() - i,
    {
        proof {
            assert(hv.take(i + 1).drop_last() =~= hv.take(i as int));
            assert(hv.take(i + 1).last() == hs@[i as int]@);
        }
        let ghost a = header_args(hv.take(i as int));
        let t = trim_str(hs[i].as_str());
        if t.len() > 0 {
            push_str(out, "-H");
            push_chars(out, &t);
            proof {
                assert(strs(out@) =~= start + (a + seq!["-H"@, t@]));
            }
        }
        i += 1;
    }
    proof {
        assert(hv.take(hs.len() as int) =~= hv);
    }
}

/// The command line that adds an MCP server.
pub fn mcp_add_args(
    name: &str,
    transport: &str,
    command_or_url: &str,
    args: &[String],
    scope: &str,
    env: &[String],
    headers: &[String],
) -> (r: Result<Vec<String>, ExtError>)
    ensures
        argv_view(r) == mcp_add_spec(
            name@,
            transport@,
            command_or_url@,
            strs(args@),
            scope@,
            strs(env@),
            strs(headers@),
        ),
{
    match check_name(name, false) {
        Err(e) => {
            return Err(e);
        },
        Ok(()) => {},
    }
    let t = match mcp_transport(transport) {
        Err(e) => {
            return Err(e);
        },
        Ok(t) => t,
    };
    let s = match mcp_scope(scope) {
        Err(e) => {
            return Err(e);
        },
        Ok(s) => s,
    };
    proof {
        reveal_strlit("stdio");
        reveal_strlit("http");
        reveal_strlit("sse");
    }
    let stdio = eq_str(&chars_of(t.as_str()), "stdio");
    let mut out: Vec<String> = Vec::new();
    proof {
        assert(strs(out@) =~= Seq::<Seq<char>>::empty());
    }
    push_str(&mut out, "mcp");
    push_str(&mut out, "add");
    if !stdio {
        push_str(&mut out, "-t");
        push_str(&mut out, t.as_str());
    }
    push_str(&mut out, "-s");
    push_str(&mut out, s.as_str());
    let ghost before_env = strs(out@);
    match push_env(&mut out, env) {
        Err(e) => {
            return Err(e);
        },
        Ok(()) => {},
    }
    push_headers(&mut out, headers);
    push_str(&mut out, name);
    if stdio {
        push_str(&mut out, "--");
        push_str(&mut out, command_or_url);
        let mut i: usize = 0;
        let ghost base = strs(out@);
        while i < args.len()
            invariant
                i <= args.len(),
                strs(out@) == base + strs(args@).take(i as int),
            decreases args.len() - i,
        {
            push_str(&mut out, args[i].as_str());
            proof {
                assert(strs(args@).take(i + 1) =~= strs(args@).take(i as int).push(args@[i as int]@));
            }
            i += 1;
        }
        proof {
            assert(strs(args@).take(args.len() as int) =~= strs(args@));
        }
    } else {
        push_str(&mut out, command_or_url);
    }
    proof {
        let tv = t@;
        let sv = s@;
        let ea = env_args(strs(env@))->Ok_0;
        let want = seq!["mcp"@, "add"@] + (if tv != "stdio"@ {
            seq!["-t"@, tv]
        } else {
            Seq::empty()
        }) + seq!["-s"@, sv] + ea + header_args(strs(headers@)) + seq![name@] + (if tv == "stdio"@ {
            seq!["--"@, command_or_url@] + strs(args@)
        } else {
            seq![command_or_url@]
        });
        assert(strs(out@) =~= want);
    }
    Ok(out)
}

/// The command line that removes an MCP server, with `-s` and the scope
/// where one is given.
pub fn mcp_remove_args(name: &str, scope: Option<&str>) -> (r: Result<Vec<String>, ExtError>)
    ensures
        argv_view(r) == (match name_check(name@, false) {
            Err(e) => Err(e),
            Ok(_) => match scope {
                None => Ok(seq!["mcp"@, "remove"@, name@]),
                Some(sc) => match scope_spec(sc@) {
                    Err(e) => Err(e),
                    Ok(s) => Ok(seq!["mcp"@, "remove"@, name@, "-s"@, s]),
                },
            },
        }),
{
    match check_name(name, false) {
        Err(e) => {
            return Err(e);
        },
        Ok(()) => {},
    }
    let mut out: Vec<String> = Vec::new();
    proof {
        assert(strs(out@) =~= Seq::<Seq<char>>::empty());
    }
    push_str(&mut out, "mcp");
    push_str(&mut out, "remove");
    push_str(&mut out, name);
    match scope {
        None => {
            proof {
                assert(strs(out@) =~= seq!["mcp"@, "remove"@, name@]);
            }
        },
        Some(sc) => {
            let s = match mcp_scope(sc) {
                Err(e) => {
                    return Err(e);
                },
                Ok(s) => s,
            };
            push_str(&mut out, "-s");
            push_str(&mut out, s.as_str());
            proof {
                assert(strs(out@) =~= seq!["mcp"@, "remove"@, name@, "-s"@, s@]);
            }
        },
    }
    Ok(out)
}

/// The command line that turns an MCP server on (`enable`) or off (`disable`).
pub fn mcp_toggle_args(name: &str, enable: bool) -> (r: Result<Vec<String>, ExtError>)
    ensures
        argv_view(r) == (match name_check(name@, false) {
            Err(e) => Err(e),
            Ok(_) => Ok(
                seq![
                    "mcp"@,
                    if enable {
                        "enable"@
                    } else {
                        "disable"@
                    },
                    name@,
                ],
            ),
        }),
{
    match check_name(name, false) {
        Err(e) => {
            return Err(e);
        },
        Ok(()) => {},
    }
    let mut out: Vec<String> = Vec::new();
    proof {
        assert(strs(out@) =~= Seq::<Seq<char>>::empty());
    }
    push_str(&mut out, "mcp");
    let verb = if enable {
        "enable"
    } else {
        "disable"
    };
    push_str(&mut out, verb);
    push_str(&mut out, name);
    proof {
        assert(strs(out@) =~= seq![
            "mcp"@,
            if enable {
                "enable"@
            } else {
                "disable"@
            },
            name@,
        ]);
    }
    Ok(out)
}

/// A character a plugin source may not hold.
pub open spec fn bad_source_char(c: char) -> bool {
    is_control(c) || c == ';' || c == '|' || c == '&' || c == '$' || c == '`' || c == '(' || c == ')'
        || c == '<' || c == '>' || c == '\\' || c == '"' || c == '\''
}

/// A plugin source, trimmed: not empty, without `..` and without the
/// characters of [`bad_source_char`].
pub open spec fn source_check(raw: Seq<char>) -> Result<(), ExtError> {
    let t = trim(raw);
    if t.len() == 0 {
        Err(ExtError::SourceRequired)
    } else if contains(t, ".."@) || exists|i: int| 0 <= i < t.len() && bad_source_char(#[trigger] t[i]) {
        Err(ExtError::InvalidSource)
    } else {
        Ok(())
    }
}

fn check_source(raw: &str) -> (r: Result<Vec<char>, ExtError>)
    ensures
        match source_check(raw@) {
            Ok(_) => r matches Ok(t) && t@ == trim(raw@),
            Err(e) => r == Err::<Vec<char>, ExtError>(e),
        },
{
    let t = trim_str(raw);
    if t.len() == 0 {
        return Err(ExtError::SourceRequired);
    }
    if contains_str(&t, "..") {
        return Err(ExtError::InvalidSource);
    }
    let mut i: usize = 0;
    while i < t.len()
        invariant
            i <= t.len(),
            t@ == trim(raw@),
            forall|k: int| 0 <= k < i ==> !bad_source_char(#[trigger] t@[k]),
        decreases t.len() - i,
    {
        let c = t[i];
        if is_control_char(c) || c == ';' || c == '|' || c == '&' || c == '$' || c == '`' || c == '('
            || c == ')' || c == '<' || c == '>' || c == '\\' || c == '"' || c == '\'' {
            return Err(ExtError::InvalidSource);
        }
        i += 1;
    }
    Ok(t)
}

/// The plugin commands that take a source.
#[derive(Debug, Clone, Copy, PartialEq, Eq, Structural)]
pub enum SourceCommand {
    /// `plugin install --trust <source>`
    Install,
    /// `plugin marketplace add <source>`
    MarketplaceAdd,
    /// `plugin marketplace remove <source>`
    MarketplaceRemove,
}

pub open spec fn source_argv(cmd: SourceCommand, t: Seq<char>) -> Seq<Seq<char>> {
    match cmd {
        SourceCommand::Install => seq!["plugin"@, "install"@, "--trust"@, t],
        SourceCommand::MarketplaceAdd => seq!["plugin"@, "marketplace"@, "add"@, t],
        SourceCommand::MarketplaceRemove => seq!["plugin"@, "marketplace"@, "remove"@, t],
    }
}

/// The command line of a plugin command that takes a source, the source
/// trimmed once it is checked.
pub fn plugin_source_args(cmd: SourceCommand, source: &str) -> (r: Result<Vec<String>, ExtError>)
    ensures
        argv_view(r) == (match source_check(source@) {
            Err(e) => Err(e),
            Ok(_) => Ok(source_argv(cmd, trim(source@))),
        }),
{
    let t = match check_source(source) {
        Err(e) => {
            return Err(e);
        },
        Ok(t) => t,
    };
    let mut out: Vec<String> = Vec::new();
    proof {
        assert(strs(out@) =~= Seq::<Seq<char>>::empty());
    }
    push_str(&mut out, "plugin");
    match cmd {
        SourceCommand::Install => {
            push_str(&mut out, "install");
            push_str(&mut out, "--trust");
        },
        SourceCommand::MarketplaceAdd => {
            push_str(&mut out, "marketplace");
            push_str(&mut out, "add");
        },
        SourceCommand::MarketplaceRemove => {
            push_str(&mut out, "marketplace");
            push_str(&mut out, "remove");
        },
    }
    push_chars(&mut out, &t);
    proof {
        assert(strs(out@) =~= source_argv(cmd, trim(source@)));
    }
    Ok(out)
}

/// The plugin commands that take a name.
#[derive(Debug, Clone, Copy, PartialEq, Eq, Structural)]
pub enum NameCommand {
    /// `plugin uninstall --confirm <name>`
    Uninstall,
    /// `plugin enable <name>`
    Enable,
    /// `plugin disable <name>`
    Disable,
}

pub open spec fn name_argv(cmd: NameCommand, t: Seq<char>) -> Seq<Seq<char>> {
    match cmd {
        NameCommand::Uninstall => seq!["plugin"@, "uninstall"@, "--confirm"@, t],
        NameCommand::Enable => seq!["plugin"@, "enable"@, t],
        NameCommand::Disable => seq!["plugin"@, "disable"@, t],
    }
}

/// The command line of a plugin command that takes a name, the name
/// trimmed once it is checked.
pub fn plugin_name_args(cmd: NameCommand, name: &str) -> (r: Result<Vec<String>, ExtError>)
    ensures
        argv_view(r) == (match name_check(name@, true) {
            Err(e) => Err(e),
            Ok(_) => Ok(name_argv(cmd, trim(name@))),
        }),
{
    match check_name(name, true) {
        Err(e) => {
            return Err(e);
        },
        Ok(()) => {},
    }
    let t = trim_str(name);
    let mut out: Vec<String> = Vec::new();
    proof {
        assert(strs(out@) =~= Seq::<Seq<char>>::empty());
    }
    push_str(&mut out, "plugin");
    match cmd {
        NameCommand::Uninstall => {
            push_str(&mut out, "uninstall");
            push_str(&mut out, "--confirm");
        },
        NameCommand::Enable => {
            push_str(&mut out, "enable");
        },
        NameCommand::Disable => {
            push_str(&mut out, "disable");
        },
    }
    push_chars(&mut out, &t);
    proof {
        assert(strs(out@) =~= name_argv(cmd, trim(name@)));
    }
    Ok(out)
}

/// `plugin update`, for one plugin where a name (not blank) is given; the
/// name is checked and trimmed.
pub fn plugin_update_args(name: Option<&str>) -> (r: Result<Vec<String>, ExtError>)
    ensures
        argv_view(r) == (match name {
            Some(n) => if trim(n@).len() > 0 {
                match name_check(n@, true) {
                    Err(e) => Err(e),
                    Ok(_) => Ok(seq!["plugin"@, "update"@, trim(n@)]),
                }
            } else {
                Ok(seq!["plugin"@, "update"@])
            },
            None => Ok(seq!["plugin"@, "update"@]),
        }),
{
    let mut out: Vec<String> = Vec::new();
    proof {
        assert(strs(out@) =~= Seq::<Seq<char>>::empty());
    }
    push_str(&mut out, "plugin");
    push_str(&mut out, "update");
    match name {
        Some(n) => {
            let t = trim_str(n);
            if t.len() > 0 {
                match check_name(n, true) {
                    Err(e) => {
                        return Err(e);
                    },
                    Ok(()) => {},
                }
                push_chars(&mut out, &t);
                proof {
                    assert(strs(out@) =~= seq!["plugin"@, "update"@, trim(n@)]);
                }
            } else {
                proof {
                    assert(strs(out@) =~= seq!["plugin"@, "update"@]);
                }
            }
        },
        None => {
            proof {
                assert(strs(out@) =~= seq!["plugin"@, "update"@]);
            }
        },
    }
    Ok(out)
}

/// `plugin marketplace update`, for one source where one (not blank) is
/// given; the source is checked and trimmed.
pub fn marketplace_update_args(source: Option<&str>) -> (r: Result<Vec<String>, ExtError>)
    ensures
        argv_view(r) == (match source {
            Some(s) => if trim(s@).len() > 0 {
                match source_check(s@) {
                    Err(e) => Err(e),
                    Ok(_) => Ok(seq!["plugin"@, "marketplace"@, "update"@, trim(s@)]),
                }
            } else {
                Ok(seq!["plugin"@, "marketplace"@, "update"@])
            },
            None => Ok(seq!["plugin"@, "marketplace"@, "update"@]),
        }),
{
    let mut out: Vec<String> = Vec::new();
    proof {
        assert(strs(out@) =~= Seq::<Seq<char>>::empty());
    }
    push_str(&mut out, "plugin");
    push_str(&mut out, "marketplace");
    push_str(&mut out, "update");
    match source {
        Some(s) => {
            let t0 = trim_str(s);
            if t0.len() > 0 {
                let t = match check_source(s) {
                    Err(e) => {
                        return Err(e);
                    },
                    Ok(t) => t,
                };
                push_chars(&mut out, &t);
                proof {
                    assert(strs(out@) =~= seq!["plugin"@, "marketplace"@, "update"@, trim(s@)]);
                }
            } else {
                proof {
                    assert(strs(out@) =~= seq!["plugin"@, "marketplace"@, "update"@]);
                }
            }
        },
        None => {
            proof {
                assert(strs(out@) =~= seq!["plugin"@, "marketplace"@, "update"@]);
            }
        },
    }
    Ok(out)
}

/// The value of the first field of an object named `k`.
pub open spec fn field_of(fs: Seq<(String, FieldVal)>, k: Seq<char>) -> Option<FieldVal>
    decreases fs.len(),
{
    if fs.len() == 0 {
        None
    } else if fs[0].0@ == k {
        Some(fs[0].1)
    } else {
        field_of(fs.drop_first(), k)
    }
}

/// Where the list of a `grok plugin ... --json` answer stands: the answer
/// itself when it is an array; else its `plugins` field, or its `sources`
/// field where it has no `plugins`; `None` for anything else.
pub open spec fn listed_spec(v: FieldVal) -> Option<FieldVal> {
    match v {
        FieldVal::Array(_) => Some(v),
        FieldVal::Object(fs) => {
            let f = if field_of(fs@, "plugins"@) is Some {
                field_of(fs@, "plugins"@)
            } else {
                field_of(fs@, "sources"@)
            };
            match f {
                Some(a) => if a is Array {
                    Some(a)
                } else {
                    None
                },
                None => None,
            }
        },
        _ => None,
    }
}

fn take_field(fs: Vec<(String, FieldVal)>, k: &str) -> (r: Result<FieldVal, Vec<(String, FieldVal)>>)
    ensures
        match field_of(fs@, k@) {
            Some(x) => r matches Ok(y) && y == x,
            None => r matches Err(back) && back@ == fs@,
        },
{
    let ghost whole = fs@;
    let mut v = fs;
    let mut i: usize = 0;
    proof {
        assert(v@.skip(0) =~= v@);
    }
    while i < v.len()
        invariant
            i <= v.len(),
            v@ == whole,
            whole == fs@,
            field_of(whole, k@) == field_of(whole.skip(i as int), k@),
        decreases v.len() - i,
    {
        proof {
            assert(whole.skip(i as int).drop_first() =~= whole.skip(i + 1));
            assert(whole.skip(i as int)[0] == whole[i as int]);
        }
        if eq_str(&chars_of(v[i].0.as_str()), k) {
            proof {
                assert(field_of(whole.skip(i as int), k@) == Some(whole[i as int].1));
            }
            let pair = v.remove(i);
            proof {
                assert(pair == whole[i as int]);
                assert(field_of(whole, k@) == Some(pair.1));
            }
            return Ok(pair.1);
        }
        i += 1;
    }
    proof {
        assert(whole.skip(i as int) =~= Seq::<(String, FieldVal)>::empty());
    }
    Err(v)
}

/// The list a `grok plugin ... --json` answer holds ([`listed_spec`]),
/// else an empty array.
pub fn coerce_list(v: FieldVal) -> (r: FieldVal)
    ensures
        match listed_spec(v) {
            Some(a) => r == a,
            None => r matches FieldVal::Array(xs) && xs@.len() == 0,
        },
{
    proof {
        reveal_strlit("plugins");
        reveal_strlit("sources");
    }
    match v {
        FieldVal::Array(xs) => FieldVal::Array(xs),
        FieldVal::Object(fs) => {
            let f = match take_field(fs, "plugins") {
                Ok(x) => Some(x),
                Err(back) => match take_field(back, "sources") {
                    Ok(x) => Some(x),
                    Err(_) => None,
                },
            };
            match f {
                Some(FieldVal::Array(xs)) => FieldVal::Array(xs),
                _ => FieldVal::Array(Vec::new()),
            }
        },
        _ => FieldVal::Array(Vec::new()),
    }
}

/// The plugins page: `plugins` and `sources`, each the list of its
/// `grok plugin ... --json` answer ([`coerce_list`]).
pub fn plugin_snapshot(plugins: FieldVal, sources: FieldVal) -> (r: FieldVal)
    ensures
        crate::ask::has_keys(r, seq!["plugins"@, "sources"@]),
        match listed_spec(plugins) {
            Some(a) => crate::ask::at(r, 0) == a,
            None => crate::ask::at(r, 0) matches FieldVal::Array(xs) && xs@.len() == 0,
        },
        match listed_spec(sources) {
            Some(a) => crate::ask::at(r, 1) == a,
            None => crate::ask::at(r, 1) matches FieldVal::Array(xs) && xs@.len() == 0,
        },
{
    let p = coerce_list(plugins);
    let s = coerce_list(sources);
    let mut fs: Vec<(String, FieldVal)> = Vec::new();
    fs.push(("plugins".to_string(), p));
    fs.push(("sources".to_string(), s));
    FieldVal::Object(fs)
}

} // verus!
