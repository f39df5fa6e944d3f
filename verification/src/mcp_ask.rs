//! `ggok __mcp-ask`: the stdio MCP server grok calls to put a question card
//! in front of the web user. Here: what each message asks for, and how the
//! ggok server is reached; the caller does the I/O.
use vstd::prelude::*;
use crate::parse::{FieldVal, field_of};
use crate::control::get;
use crate::text::{
    chars_of, string_of, extend, extend_str, str_eq, starts_with, strip_trailing, strip_trailing_chars, fpos,
    fpos_char, slice_of, starts_with_str, strip_leading, strip_leading_chars,
};
use crate::numfmt::parse_unsigned;

verus! {

/// The one tool the server offers.
pub const ASK_TOOL_NAME: &'static str = crate::ask::ASK_MCP_TOOL;

/// The name the server gives itself.
pub const MCP_SERVER_NAME: &'static str = crate::ask::ASK_MCP_NAME;

/// The protocol version answered when `initialize` names none.
pub const MCP_DEFAULT_PROTOCOL: &'static str = "2024-11-05";

/// How long a question may wait for the user, in seconds.
pub const ASK_WAIT_SECS: u64 = 1800;

/// What to answer an MCP message.
pub enum McpReply {
    /// Nothing: a message without a method or an id, or
    /// `notifications/initialized`.
    Silent,
    /// `initialize`: the protocol version asked for (`None`: answer with
    /// `MCP_DEFAULT_PROTOCOL`).
    Initialize(Option<FieldVal>),
    /// `ping`: an empty result.
    Pong,
    /// `tools/list`: the tools, by name.
    ToolList(Vec<String>),
    /// `tools/call` of the ask tool: the questions to put to the user.
    Ask(FieldVal),
    /// `tools/call` of any other tool: the server stops with `unknown tool <name>`.
    UnknownTool(String),
    /// Any other method: the JSON-RPC error `Method not found: <method>`.
    NotFound(String),
}

/// The answer to an MCP message, in terms of plain values.
pub enum McpPlan {
    Silent,
    Initialize(Option<FieldVal>),
    Pong,
    ToolList,
    Ask(FieldVal),
    UnknownTool(Seq<char>),
    NotFound(Seq<char>),
}

pub open spec fn reply_is(r: McpReply, p: McpPlan) -> bool {
    match r {
        McpReply::Silent => p is Silent,
        McpReply::Initialize(a) => p matches McpPlan::Initialize(b) && a == b,
        McpReply::Pong => p is Pong,
        McpReply::ToolList(v) => p is ToolList && v@.map_values(|s: String| s@) == seq![ASK_TOOL_NAME@],
        McpReply::Ask(a) => p matches McpPlan::Ask(b) && a == b,
        McpReply::UnknownTool(a) => p matches McpPlan::UnknownTool(b) && a@ == b,
        McpReply::NotFound(a) => p matches McpPlan::NotFound(b) && a@ == b,
    }
}

pub open spec fn keys_view(keys: Seq<&str>) -> Seq<Seq<char>> {
    keys.map_values(|k: &str| k@)
}

pub open spec fn distinct(keys: Seq<Seq<char>>) -> bool {
    forall|i: int, j: int| 0 <= i < j < keys.len() ==> keys[i] != keys[j]
}

/// The values of an object's fields under each of the keys, the first where
/// a key occurs twice.
pub fn take_fields(fs: Vec<(String, FieldVal)>, keys: &[&str]) -> (r: Vec<Option<FieldVal>>)
    requires
        distinct(keys_view(keys@)),
    ensures
        r@.len() == keys@.len(),
        forall|j: int| 0 <= j < keys@.len() ==> #[trigger] r@[j] == field_of(fs@, keys@[j]@),
{
    let ghost orig = fs@;
    let mut fs = fs;
    let mut out: Vec<Option<FieldVal>> = Vec::new();
    let mut j: usize = 0;
    while j < keys.len()
        invariant
            j <= keys.len(),
            out@.len() == j,
            forall|k: int| 0 <= k < j ==> #[trigger] out@[k] is None,
        decreases keys.len() - j,
    {
        out.push(None);
        j += 1;
    }
    proof {
        assert(orig.skip(orig.len() as int) =~= Seq::<(String, FieldVal)>::empty());
        assert forall|k: int| 0 <= k < keys@.len() implies #[trigger] out@[k] == field_of(
            orig.skip(orig.len() as int),
            keys@[k]@,
        ) by {}
    }
    while fs.len() > 0
        invariant
            fs@ == orig.take(fs@.len() as int),
            fs@.len() <= orig.len(),
            out@.len() == keys@.len(),
            distinct(keys_view(keys@)),
            forall|k: int| 0 <= k < keys@.len() ==> #[trigger] out@[k] == field_of(
                orig.skip(fs@.len() as int),
                keys@[k]@,
            ),
        decreases fs.len(),
    {
        let ghost n = fs@.len() as int;
        let (name, v) = match fs.pop() {
            Some(p) => p,
            None => {
                return out;
            },
        };
        proof {
            assert(orig.skip(n - 1)[0] == (name, v));
            assert(orig.skip(n - 1).drop_first() =~= orig.skip(n));
            assert(fs@ =~= orig.take(n - 1));
        }
        let ghost before = out@;
        let mut k: usize = 0;
        let mut hit: Option<usize> = None;
        while k < keys.len()
            invariant
                k <= keys.len(),
                match hit {
                    Some(h) => h < keys@.len() && keys@[h as int]@ == name@,
                    None => forall|m: int| 0 <= m < k ==> keys@[m]@ != name@,
                },
            decreases keys.len() - k,
        {
            if hit.is_none() && str_eq(keys[k], name.as_str()) {
                hit = Some(k);
            }
            k += 1;
        }
        match hit {
            Some(h) => {
                out.set(h, Some(v));
                proof {
                    assert forall|m: int| 0 <= m < keys@.len() implies #[trigger] out@[m] == field_of(
                        orig.skip(n - 1),
                        keys@[m]@,
                    ) by {
                        if m != h {
                            assert(keys_view(keys@)[m] != keys_view(keys@)[h as int]);
                        }
                    }
                }
            },
            None => {
                proof {
                    assert forall|m: int| 0 <= m < keys@.len() implies #[trigger] out@[m] == field_of(
                        orig.skip(n - 1),
                        keys@[m]@,
                    ) by {
                        assert(keys@[m]@ != name@);
                    }
                }
            },
        }
    }
    proof {
        assert(orig.skip(0) =~= orig);
    }
    out
}

/// A string, or the empty string.
pub open spec fn text_or_empty(v: Option<FieldVal>) -> Seq<char> {
    match v {
        Some(FieldVal::Str(s)) => s@,
        _ => Seq::empty(),
    }
}

/// The fields of an object (none for another value).
pub open spec fn obj_fields(v: FieldVal) -> Seq<(String, FieldVal)> {
    match v {
        FieldVal::Object(fs) => fs@,
        _ => Seq::empty(),
    }
}

/// The questions of a `tools/call` of the ask tool: `arguments.questions`,
/// where each level falls back to the value itself.
pub open spec fn questions_of(params: FieldVal) -> FieldVal {
    let args = match get(params, "arguments"@) {
        Some(a) => a,
        None => params,
    };
    match get(args, "questions"@) {
        Some(q) => q,
        None => args,
    }
}

/// What a `tools/call` asks for: the tool is `name` (the ask tool where no
/// name is given).
pub open spec fn tool_call_spec(params: FieldVal) -> McpPlan {
    match get(params, "name"@) {
        Some(FieldVal::Str(s)) => if s@ != ASK_TOOL_NAME@ {
            McpPlan::UnknownTool(s@)
        } else {
            McpPlan::Ask(questions_of(params))
        },
        _ => McpPlan::Ask(questions_of(params)),
    }
}

/// The answer to an MCP message: nothing without a method and an id;
/// `initialize`, `ping`, `tools/list` and `tools/call` answered; the
/// `notifications/initialized` note ignored; any other method not found.
pub open spec fn plan_spec(msg: FieldVal) -> McpPlan {
    if get(msg, "method"@) is None || get(msg, "id"@) is None {
        McpPlan::Silent
    } else {
        let m = text_or_empty(get(msg, "method"@));
        let params = match get(msg, "params"@) {
            Some(p) => p,
            None => FieldVal::Null,
        };
        if m == "initialize"@ {
            McpPlan::Initialize(get(params, "protocolVersion"@))
        } else if m == "ping"@ {
            McpPlan::Pong
        } else if m == "notifications/initialized"@ {
            McpPlan::Silent
        } else if m == "tools/list"@ {
            McpPlan::ToolList
        } else if m == "tools/call"@ {
            tool_call_spec(params)
        } else {
            McpPlan::NotFound(m)
        }
    }
}

/// The value under `key` of an object, taken out of it.
pub fn take_one(v: FieldVal, key: &str) -> (r: Option<FieldVal>)
    ensures
        r == get(v, key@),
{
    match v {
        FieldVal::Object(fs) => {
            let keys: [&str; 1] = [key];
            proof {
                assert(distinct(keys_view(keys@)));
            }
            let mut got = take_fields(fs, &keys);
            assert(got@[0] == field_of(fs@, key@));
            match got.pop() {
                Some(x) => x,
                None => None,
            }
        },
        _ => None,
    }
}

fn text_of(v: &Option<FieldVal>) -> (r: String)
    ensures
        r@ == text_or_empty(*v),
{
    match v {
        Some(FieldVal::Str(s)) => s.clone(),
        _ => String::new(),
    }
}

fn reply_to_tool_call(params: FieldVal) -> (r: McpReply)
    ensures
        reply_is(r, tool_call_spec(params)),
{
    let ghost p0 = params;
    match crate::control::get_of(&params, "name") {
        Some(FieldVal::Str(n)) => if !str_eq(n.as_str(), ASK_TOOL_NAME) {
            return McpReply::UnknownTool(n.clone());
        },
        _ => {},
    }
    let args = if crate::control::get_of(&params, "arguments").is_some() {
        match take_one(params, "arguments") {
            Some(a) => a,
            None => FieldVal::Null,
        }
    } else {
        params
    };
    let qs = if crate::control::get_of(&args, "questions").is_some() {
        match take_one(args, "questions") {
            Some(q) => q,
            None => FieldVal::Null,
        }
    } else {
        args
    };
    assert(qs == questions_of(p0));
    McpReply::Ask(qs)
}

/// What to answer an MCP message, and the id to answer it under.
pub fn mcp_step(msg: FieldVal) -> (r: (Option<FieldVal>, McpReply))
    ensures
        r.0 == get(msg, "id"@),
        reply_is(r.1, plan_spec(msg)),
{
    let ghost m0 = msg;
    let has_method = crate::control::get_of(&msg, "method").is_some();
    let method = text_of(&match crate::control::get_of(&msg, "method") {
        Some(FieldVal::Str(s)) => Some(FieldVal::Str(s.clone())),
        _ => None,
    });
    let has_id = crate::control::get_of(&msg, "id").is_some();
    let fs = match msg {
        FieldVal::Object(fs) => fs,
        _ => {
            return (None, McpReply::Silent);
        },
    };
    let keys: [&str; 2] = ["id", "params"];
    proof {
        reveal_strlit("id");
        reveal_strlit("params");
        assert(keys_view(keys@)[0].len() != keys_view(keys@)[1].len());
    }
    let mut got = take_fields(fs, &keys);
    assert(got@[0] == get(m0, "id"@));
    assert(got@[1] == get(m0, "params"@));
    let params: Option<FieldVal> = match got.pop() {
        Some(p) => p,
        None => None,
    };
    let id: Option<FieldVal> = match got.pop() {
        Some(i) => i,
        None => None,
    };
    if !has_method || !has_id {
        return (id, McpReply::Silent);
    }
    let p = match params {
        Some(p) => p,
        None => FieldVal::Null,
    };
    let reply = if str_eq(method.as_str(), "initialize") {
        McpReply::Initialize(take_one(p, "protocolVersion"))
    } else if str_eq(method.as_str(), "ping") {
        McpReply::Pong
    } else if str_eq(method.as_str(), "notifications/initialized") {
        McpReply::Silent
    } else if str_eq(method.as_str(), "tools/list") {
        let mut v: Vec<String> = Vec::new();
        v.push(ASK_TOOL_NAME.to_string());
        proof {
            assert(v@.map_values(|s: String| s@) =~= seq![ASK_TOOL_NAME@]);
        }
        McpReply::ToolList(v)
    } else if str_eq(method.as_str(), "tools/call") {
        reply_to_tool_call(p)
    } else {
        McpReply::NotFound(method)
    };
    (id, reply)
}


/// The ggok server's base URL without its trailing slashes.
pub open spec fn base_of(base: Seq<char>) -> Seq<char> {
    strip_trailing(base, '/')
}

/// Where a question is put: `<base>/api/ask`.
pub fn ask_create_url(base: &str) -> (r: String)
    ensures
        r@ == base_of(base@) + "/api/ask"@,
{
    let mut out = strip_trailing_chars(&chars_of(base), '/');
    extend_str(&mut out, "/api/ask");
    string_of(&out)
}

/// Where the answer to question `req` is waited for: `<base>/api/ask/<req>`.
pub fn ask_wait_url(base: &str, req: &str) -> (r: String)
    ensures
        r@ == base_of(base@) + "/api/ask/"@ + req@,
{
    let mut out = strip_trailing_chars(&chars_of(base), '/');
    extend_str(&mut out, "/api/ask/");
    extend_str(&mut out, req);
    string_of(&out)
}

/// The question id in the server's reply to a new question: its `req`.
pub fn created_req(created: &FieldVal) -> (r: Option<String>)
    ensures
        match get(*created, "req"@) {
            Some(FieldVal::Str(s)) => r matches Some(x) && x@ == s@,
            _ => r is None,
        },
{
    match crate::control::get_of(created, "req") {
        Some(FieldVal::Str(s)) => Some(s.clone()),
        _ => None,
    }
}

/// Where an HTTP request goes: host, port, the `host:port` text as given,
/// and the path.
pub struct HttpTarget {
    pub host: String,
    pub port: u16,
    pub hostport: String,
    pub path: String,
}

/// The URL after `http://` or `https://`.
pub open spec fn after_scheme(url: Seq<char>) -> Option<Seq<char>> {
    if starts_with(url, "http://"@) {
        Some(url.skip(7))
    } else if starts_with(url, "https://"@) {
        Some(url.skip(8))
    } else {
        None
    }
}

/// The text before the first `c` and after it; all of it and nothing where
/// there is none.
pub open spec fn split_first(s: Seq<char>, c: char) -> (Seq<char>, Seq<char>) {
    match fpos(s, c) {
        Some(i) => (s.take(i), s.skip(i + 1)),
        None => (s, Seq::empty()),
    }
}

/// The target of an `http://` or `https://` URL: the host and port before
/// the first `/` (port 80 where none is given or it is no number), and the
/// rest as an absolute path.
pub open spec fn target_spec(url: Seq<char>) -> Option<(Seq<char>, u16, Seq<char>, Seq<char>)> {
    match after_scheme(url) {
        None => None,
        Some(rest) => {
            let (hostport, p) = split_first(rest, '/');
            let path = seq!['/'] + strip_leading(p, '/');
            match fpos(hostport, ':') {
                Some(i) => Some((
                    hostport.take(i),
                    match parse_unsigned(hostport.skip(i + 1), u16::MAX as int) {
                        Some(n) => n as u16,
                        None => 80u16,
                    },
                    hostport,
                    path,
                )),
                None => Some((hostport, 80u16, hostport, path)),
            }
        },
    }
}

fn split_first_exec(s: &[char], c: char) -> (r: (Vec<char>, Vec<char>))
    ensures
        (r.0@, r.1@) == split_first(s@, c),
{
    match fpos_char(s, c) {
        Some(i) => {
            let a = slice_of(s, 0, i);
            let b = slice_of(s, i + 1, s.len());
            assert(a@ =~= s@.take(i as int));
            assert(b@ =~= s@.skip(i + 1));
            (a, b)
        },
        None => (slice_of(s, 0, s.len()), Vec::new()),
    }
}

/// Where the MCP server's HTTP requests to ggok go; `None` for a URL that is
/// not `http://` or `https://`.
pub fn http_target(url: &str) -> (r: Option<HttpTarget>)
    ensures
        match target_spec(url@) {
            None => r is None,
            Some(t) => r matches Some(x) && (x.host@, x.port, x.hostport@, x.path@) == t,
        },
{
    let u = chars_of(url);
    proof {
        reveal_strlit("http://");
        reveal_strlit("https://");
    }
    let rest = if starts_with_str(&u, "http://") {
        slice_of(&u, 7, u.len())
    } else if starts_with_str(&u, "https://") {
        slice_of(&u, 8, u.len())
    } else {
        return None;
    };
    assert(Some(rest@) == after_scheme(url@));
    let (hostport, p) = split_first_exec(&rest, '/');
    let mut path: Vec<char> = Vec::new();
    path.push('/');
    extend(&mut path, &strip_leading_chars(&p, '/'));
    let (host, port) = match fpos_char(&hostport, ':') {
        Some(i) => {
            let h = slice_of(&hostport, 0, i);
            let ps = slice_of(&hostport, i + 1, hostport.len());
            assert(h@ =~= hostport@.take(i as int));
            assert(ps@ =~= hostport@.skip(i + 1));
            let port = match crate::numfmt::parse_u16(&ps) {
                Some(n) => n,
                None => 80,
            };
            (h, port)
        },
        None => (slice_of(&hostport, 0, hostport.len()), 80),
    };
    Some(HttpTarget { host: string_of(&host), port, hostport: string_of(&hostport), path: string_of(&path) })
}

/// The status code of an HTTP status line: its second word read as a
/// number, 0 where there is none.
pub open spec fn status_spec(line: Seq<char>) -> u16 {
    let w = crate::text::words(line);
    if w.len() > 1 {
        match parse_unsigned(w[1], u16::MAX as int) {
            Some(n) => n as u16,
            None => 0,
        }
    } else {
        0
    }
}

pub fn status_code(line: &str) -> (r: u16)
    ensures
        r == status_spec(line@),
{
    let w = crate::text::words_of(&chars_of(line));
    proof {
        assert(crate::pathx::views(w@) == crate::text::words(line@));
    }
    if w.len() > 1 {
        proof {
            assert(crate::pathx::views(w@)[1] == w@[1]@);
        }
        match crate::numfmt::parse_u16(&w[1]) {
            Some(n) => n,
            None => 0,
        }
    } else {
        0
    }
}

/// The error of a reply from ggok that is not a success (2xx): `ggok ask
/// <code>: ` and the first 300 characters of its body.
pub open spec fn reply_error_spec(code: u16, body: Seq<char>) -> Option<Seq<char>> {
    if 200 <= code < 300 {
        None
    } else {
        Some("ggok ask "@ + crate::numfmt::dec(code as nat) + ": "@ + body.take(
            if body.len() < 300 {
                body.len() as int
            } else {
                300
            },
        ))
    }
}

pub fn reply_error(code: u16, body: &str) -> (r: Option<String>)
    ensures
        crate::types::opt_view(r) == reply_error_spec(code, body@),
{
    if 200 <= code && code < 300 {
        return None;
    }
    let b = chars_of(body);
    let n: usize = if b.len() < 300 {
        b.len()
    } else {
        300
    };
    let mut out = chars_of("ggok ask ");
    extend(&mut out, &crate::numfmt::u64_chars(code as u64));
    extend_str(&mut out, ": ");
    let t = slice_of(&b, 0, n);
    assert(t@ =~= b@.take(n as int));
    extend(&mut out, &t);
    Some(string_of(&out))
}

} // verus!
