//! Question cards: recognising grok's `ask_user_question` and elicitation
//! requests, reading the questions out of their many shapes, and checking
//! and shaping the user's answers.
use vstd::prelude::*;
use crate::parse::{FieldVal, field_of, get_field};
use crate::text::{
    chars_of, string_of, extend, extend_str, trim, trim_str, lower_ascii, lower_chars, str_eq, eq_str,
    contains, contains_str, starts_with, ends_with, starts_with_str, ends_with_str, slice_of,
};
use crate::control::{get, get_of};

verus! {

/// One answer a question offers.
#[derive(Debug, Clone)]
pub struct AskOption {
    pub label: String,
    pub description: String,
    pub preview: Option<String>,
}

/// A question put to the user.
#[derive(Debug, Clone)]
pub struct AskQuestion {
    pub question: String,
    pub header: String,
    pub options: Vec<AskOption>,
    pub multi_select: bool,
}

/// A pending question card, as the browser shows it.
#[derive(Debug, Clone)]
pub struct QuestionView {
    pub req: String,
    pub tool_id: String,
    pub mode: String,
    pub questions: Vec<AskQuestion>,
}

/// The `ggok __mcp-ask` bridge that grok's MCP client talks to.
#[derive(Debug, Clone)]
pub struct AskBridge {
    pub exe: String,
    pub url: String,
    pub token: String,
}

pub type OptionView = (Seq<char>, Seq<char>, Option<Seq<char>>);

pub type QuestionV = (Seq<char>, Seq<char>, Seq<OptionView>, bool);

pub open spec fn option_view(o: AskOption) -> OptionView {
    (o.label@, o.description@, crate::types::opt_view(o.preview))
}

pub open spec fn options_view(v: Seq<AskOption>) -> Seq<OptionView> {
    Seq::new(v.len(), |i: int| option_view(v[i]))
}

pub open spec fn question_view(q: AskQuestion) -> QuestionV {
    (q.question@, q.header@, options_view(q.options@), q.multi_select)
}

pub open spec fn questions_view(v: Seq<AskQuestion>) -> Seq<QuestionV> {
    Seq::new(v.len(), |i: int| question_view(v[i]))
}

/// The part of a bind address after its last `:`.
pub open spec fn bind_port(bind: Seq<char>) -> Seq<char> {
    match crate::pathx::rpos(bind, ':') {
        Some(i) => bind.skip(i + 1),
        None => bind,
    }
}

impl AskBridge {
    /// The loopback URL of the server for a bind address: its port on
    /// 127.0.0.1.
    pub fn loopback_url(bind: &str) -> (r: String)
        ensures
            r@ == "http://127.0.0.1:"@ + bind_port(bind@),
    {
        let v = chars_of(bind);
        let port = match crate::pathx::rpos_char(&v, ':') {
            Some(i) => {
                let p = slice_of(&v, i + 1, v.len());
                assert(v@.subrange(i + 1, v@.len() as int) =~= v@.skip(i + 1));
                p
            },
            None => v,
        };
        let mut out = chars_of("http://127.0.0.1:");
        extend(&mut out, &port);
        string_of(&out)
    }
}

/// The method without one leading `_`.
pub open spec fn strip_underscore(m: Seq<char>) -> Seq<char> {
    if m.len() > 0 && m[0] == '_' {
        m.skip(1)
    } else {
        m
    }
}

/// Whether a JSON-RPC method asks the user a question: grok's
/// `x.ai/ask_user_question` and elicitation methods, with or without a
/// leading `_` and under any prefix.
pub open spec fn ask_method_spec(method: Seq<char>) -> bool {
    let m = strip_underscore(method);
    m == "x.ai/ask_user_question"@ || m == "ask_user_question"@ || ends_with(m, "/ask_user_question"@)
        || m == "elicitation/create"@ || ends_with(m, "/elicitation/create"@) || m
        == "x.ai/mcp/elicit"@ || ends_with(m, "/mcp/elicit"@)
}

fn strip_underscore_exec(v: &Vec<char>) -> (r: Vec<char>)
    ensures
        r@ == strip_underscore(v@),
{
    if v.len() > 0 && v[0] == '_' {
        let r = slice_of(v, 1, v.len());
        assert(v@.subrange(1, v@.len() as int) =~= v@.skip(1));
        r
    } else {
        slice_of(v, 0, v.len())
    }
}

/// Whether a JSON-RPC method asks the user a question.
pub fn is_ask_user_method(method: &str) -> (r: bool)
    ensures
        r == ask_method_spec(method@),
{
    let v = chars_of(method);
    let m = strip_underscore_exec(&v);
    proof {
        assert(v@.subrange(0, v@.len() as int) =~= v@);
    }
    eq_str(&m, "x.ai/ask_user_question") || eq_str(&m, "ask_user_question") || ends_with_str(
        &m,
        "/ask_user_question",
    ) || eq_str(&m, "elicitation/create") || ends_with_str(&m, "/elicitation/create") || eq_str(
        &m,
        "x.ai/mcp/elicit",
    ) || ends_with_str(&m, "/mcp/elicit")
}

/// The name of ggok's own question MCP server.
pub const ASK_MCP_NAME: &'static str = "ggok-ask";

/// The tool of ggok's question MCP server.
pub const ASK_MCP_TOOL: &'static str = "ask_user_question";

/// Whether a tool title or name refers to ggok's own question MCP server.
pub open spec fn mentions_mcp_ask_spec(s: Seq<char>) -> bool {
    let l = lower_ascii(trim(s));
    l.len() > 0 && (l == "ggok-ask"@ || starts_with(l, "ggok-ask__"@) || starts_with(l, "ggok-ask/"@)
        || contains(l, "ggok-ask__"@) || contains(l, "ggok-ask/"@))
}

/// Whether a tool title or name refers to ggok's own question MCP server.
pub fn mentions_mcp_ask(s: &str) -> (r: bool)
    ensures
        r == mentions_mcp_ask_spec(s@),
{
    let t = trim_str(s);
    let l = lower_chars(&t);
    if l.len() == 0 {
        return false;
    }
    eq_str(&l, "ggok-ask") || starts_with_str(&l, "ggok-ask__") || starts_with_str(&l, "ggok-ask/")
        || contains_str(&l, "ggok-ask__") || contains_str(&l, "ggok-ask/")
}

/// Whether a tool call is one of ggok's own MCP question cards (shown over
/// HTTP, not from the ACP envelope).
pub fn is_mcp_ask_tool(title: &str, name: &str) -> (r: bool)
    ensures
        r == (mentions_mcp_ask_spec(title@) || mentions_mcp_ask_spec(name@)),
{
    mentions_mcp_ask(title) || mentions_mcp_ask(name)
}

/// The header made from a question: its first 12 characters.
pub open spec fn short_header_spec(q: Seq<char>) -> Seq<char> {
    if q.len() <= 12 {
        q
    } else {
        q.take(12)
    }
}

/// The header made from a question.
pub fn short_header(question: &str) -> (r: String)
    ensures
        r@ == short_header_spec(question@),
{
    let v = chars_of(question);
    if v.len() <= 12 {
        return string_of(&v);
    }
    let t = slice_of(&v, 0, 12);
    assert(v@.subrange(0, 12) =~= v@.take(12));
    string_of(&t)
}

/// The text of a JSON number.
pub open spec fn number_text(v: FieldVal) -> Option<Seq<char>> {
    match v {
        FieldVal::UInt(n) => Some(crate::numfmt::dec(n as nat)),
        FieldVal::NegInt(n) => Some(crate::numfmt::idec(n as int)),
        FieldVal::Float(t) => Some(t@),
        _ => None,
    }
}

pub(crate) fn number_text_of(v: &FieldVal) -> (r: Option<Vec<char>>)
    ensures
        match r {
            Some(t) => number_text(*v) == Some(t@),
            None => number_text(*v) is None,
        },
{
    match v {
        FieldVal::UInt(n) => Some(crate::numfmt::u64_chars(*n)),
        FieldVal::NegInt(n) => Some(crate::numfmt::i64_chars(*n)),
        FieldVal::Float(t) => Some(chars_of(t.as_str())),
        _ => None,
    }
}

/// The first of `keys` with a non-blank string (trimmed) or a number (its
/// text); else the empty string.
pub open spec fn text_of(v: FieldVal, keys: Seq<Seq<char>>) -> Seq<char>
    decreases keys.len(),
{
    if keys.len() == 0 {
        Seq::empty()
    } else {
        match get(v, keys[0]) {
            Some(FieldVal::Str(s)) => if trim(s@).len() > 0 {
                trim(s@)
            } else {
                text_of(v, keys.drop_first())
            },
            Some(x) => match number_text(x) {
                Some(t) => t,
                None => text_of(v, keys.drop_first()),
            },
            None => text_of(v, keys.drop_first()),
        }
    }
}

fn text_field(v: &FieldVal, keys: &[&str]) -> (r: Vec<char>)
    ensures
        r@ == text_of(*v, crate::parse::strs_view(keys@)),
{
    let ghost ks = crate::parse::strs_view(keys@);
    let mut i: usize = 0;
    proof {
        assert(ks.subrange(0, ks.len() as int) =~= ks);
    }
    while i < keys.len()
        invariant
            i <= keys@.len(),
            ks == crate::parse::strs_view(keys@),
            text_of(*v, ks) == text_of(*v, ks.subrange(i as int, ks.len() as int)),
        decreases keys.len() - i,
    {
        let ghost rest = ks.subrange(i as int, ks.len() as int);
        assert(rest[0] == keys@[i as int]@);
        match get_of(v, keys[i]) {
            Some(FieldVal::Str(s)) => {
                let t = trim_str(s.as_str());
                if t.len() > 0 {
                    return t;
                }
            },
            Some(x) => match number_text_of(x) {
                Some(t) => {
                    return t;
                },
                None => {},
            },
            None => {},
        }
        proof {
            assert(rest.drop_first() =~= ks.subrange(i + 1, ks.len() as int));
        }
        i += 1;
    }
    proof {
        assert(ks.subrange(i as int, ks.len() as int) =~= Seq::<Seq<char>>::empty());
    }
    Vec::new()
}

/// The first of `keys` holding a boolean; else false.
pub open spec fn flag_of(v: FieldVal, keys: Seq<Seq<char>>) -> bool
    decreases keys.len(),
{
    if keys.len() == 0 {
        false
    } else {
        match get(v, keys[0]) {
            Some(FieldVal::Bool(b)) => b,
            _ => flag_of(v, keys.drop_first()),
        }
    }
}

fn flag_field(v: &FieldVal, keys: &[&str]) -> (r: bool)
    ensures
        r == flag_of(*v, crate::parse::strs_view(keys@)),
{
    let ghost ks = crate::parse::strs_view(keys@);
    let mut i: usize = 0;
    proof {
        assert(ks.subrange(0, ks.len() as int) =~= ks);
    }
    while i < keys.len()
        invariant
            i <= keys@.len(),
            ks == crate::parse::strs_view(keys@),
            flag_of(*v, ks) == flag_of(*v, ks.subrange(i as int, ks.len() as int)),
        decreases keys.len() - i,
    {
        let ghost rest = ks.subrange(i as int, ks.len() as int);
        assert(rest[0] == keys@[i as int]@);
        match get_of(v, keys[i]) {
            Some(FieldVal::Bool(b)) => {
                return *b;
            },
            _ => {},
        }
        proof {
            assert(rest.drop_first() =~= ks.subrange(i + 1, ks.len() as int));
        }
        i += 1;
    }
    proof {
        assert(ks.subrange(i as int, ks.len() as int) =~= Seq::<Seq<char>>::empty());
    }
    false
}

pub open spec fn label_keys() -> Seq<Seq<char>> {
    seq!["label"@, "name"@, "title"@, "text"@, "value"@, "const"@, "id"@]
}

pub open spec fn desc_keys() -> Seq<Seq<char>> {
    seq!["description"@, "desc"@, "detail"@]
}

pub open spec fn preview_key() -> Seq<Seq<char>> {
    seq!["preview"@]
}

pub open spec fn nonempty_seq(s: Seq<char>) -> Option<Seq<char>> {
    if s.len() > 0 {
        Some(s)
    } else {
        None
    }
}

/// One answer from a list: a non-blank string, a number, or an object with a
/// label (and maybe a description and a preview).
pub open spec fn parse_option_spec(v: FieldVal) -> Option<OptionView> {
    match v {
        FieldVal::Str(s) => if trim(s@).len() > 0 {
            Some((trim(s@), Seq::empty(), None))
        } else {
            None
        },
        FieldVal::Object(_) => {
            let label = text_of(v, label_keys());
            if label.len() == 0 {
                None
            } else {
                Some((label, text_of(v, desc_keys()), nonempty_seq(text_of(v, preview_key()))))
            }
        },
        _ => match number_text(v) {
            Some(t) => Some((t, Seq::empty(), None)),
            None => None,
        },
    }
}

fn opt_string(v: Vec<char>) -> (r: Option<String>)
    ensures
        crate::types::opt_view(r) == nonempty_seq(v@),
{
    if v.len() > 0 {
        Some(string_of(&v))
    } else {
        None
    }
}

/// One answer from a list.
fn parse_option(v: &FieldVal) -> (r: Option<AskOption>)
    ensures
        match r {
            Some(o) => parse_option_spec(*v) == Some(option_view(o)),
            None => parse_option_spec(*v) is None,
        },
{
    match v {
        FieldVal::Str(s) => {
            let t = trim_str(s.as_str());
            if t.len() > 0 {
                Some(AskOption { label: string_of(&t), description: String::new(), preview: None })
            } else {
                None
            }
        },
        FieldVal::Object(_) => {
            let lk: [&str; 7] = ["label", "name", "title", "text", "value", "const", "id"];
            let dk: [&str; 3] = ["description", "desc", "detail"];
            let pk: [&str; 1] = ["preview"];
            proof {
                assert(crate::parse::strs_view(lk@) =~= label_keys());
                assert(crate::parse::strs_view(dk@) =~= desc_keys());
                assert(crate::parse::strs_view(pk@) =~= preview_key());
            }
            let label = text_field(v, &lk);
            if label.len() == 0 {
                return None;
            }
            let d = text_field(v, &dk);
            let p = text_field(v, &pk);
            Some(AskOption { label: string_of(&label), description: string_of(&d), preview: opt_string(p) })
        },
        _ => match number_text_of(v) {
            Some(t) => Some(AskOption { label: string_of(&t), description: String::new(), preview: None }),
            None => None,
        },
    }
}

/// The answers of a list, those that read as answers, in order.
pub open spec fn options_from_list(a: Seq<FieldVal>) -> Seq<OptionView>
    decreases a.len(),
{
    if a.len() == 0 {
        Seq::empty()
    } else {
        let rest = options_from_list(a.drop_last());
        match parse_option_spec(a.last()) {
            Some(o) => rest.push(o),
            None => rest,
        }
    }
}

fn options_list(a: &Vec<FieldVal>) -> (r: Vec<AskOption>)
    ensures
        options_view(r@) == options_from_list(a@),
{
    let mut out: Vec<AskOption> = Vec::new();
    let mut i: usize = 0;
    proof {
        assert(a@.take(0) =~= Seq::<FieldVal>::empty());
        assert(options_view(out@) =~= Seq::<OptionView>::empty());
    }
    while i < a.len()
        invariant
            i <= a@.len(),
            options_view(out@) == options_from_list(a@.take(i as int)),
        decreases a.len() - i,
    {
        proof {
            assert(a@.take(i + 1).drop_last() =~= a@.take(i as int));
            assert(a@.take(i + 1).last() == a@[i as int]);
        }
        match parse_option(&a[i]) {
            Some(o) => {
                let ghost before = options_view(out@);
                out.push(o);
                proof {
                    assert(options_view(out@) =~= before.push(option_view(o)));
                }
            },
            None => {},
        }
        i += 1;
    }
    proof {
        assert(a@.take(a@.len() as int) =~= a@);
    }
    out
}

/// An answer from an object entry: its key (trimmed) as label, a string
/// value or the value's description as description, the value's preview.
pub open spec fn entry_option(k: Seq<char>, val: FieldVal) -> Option<OptionView> {
    let label = trim(k);
    if label.len() == 0 {
        None
    } else {
        Some(
            (
                label,
                match val {
                    FieldVal::Str(s) => trim(s@),
                    FieldVal::Object(_) => text_of(val, desc_keys()),
                    _ => Seq::empty(),
                },
                match val {
                    FieldVal::Object(_) => nonempty_seq(text_of(val, preview_key())),
                    _ => None,
                },
            ),
        )
    }
}

pub open spec fn options_from_entries(fs: Seq<(String, FieldVal)>) -> Seq<OptionView>
    decreases fs.len(),
{
    if fs.len() == 0 {
        Seq::empty()
    } else {
        let rest = options_from_entries(fs.drop_last());
        match entry_option(fs.last().0@, fs.last().1) {
            Some(o) => rest.push(o),
            None => rest,
        }
    }
}

fn options_entries(fs: &Vec<(String, FieldVal)>) -> (r: Vec<AskOption>)
    ensures
        options_view(r@) == options_from_entries(fs@),
{
    let dk: [&str; 3] = ["description", "desc", "detail"];
    let pk: [&str; 1] = ["preview"];
    proof {
        assert(crate::parse::strs_view(dk@) =~= desc_keys());
        assert(crate::parse::strs_view(pk@) =~= preview_key());
    }
    let mut out: Vec<AskOption> = Vec::new();
    let mut i: usize = 0;
    proof {
        assert(fs@.take(0) =~= Seq::<(String, FieldVal)>::empty());
        assert(options_view(out@) =~= Seq::<OptionView>::empty());
    }
    while i < fs.len()
        invariant
            i <= fs@.len(),
            crate::parse::strs_view(dk@) == desc_keys(),
            crate::parse::strs_view(pk@) == preview_key(),
            options_view(out@) == options_from_entries(fs@.take(i as int)),
        decreases fs.len() - i,
    {
        proof {
            assert(fs@.take(i + 1).drop_last() =~= fs@.take(i as int));
            assert(fs@.take(i + 1).last() == fs@[i as int]);
        }
        let label = trim_str(fs[i].0.as_str());
        if label.len() > 0 {
            let val = &fs[i].1;
            let description: Vec<char> = match val {
                FieldVal::Str(s) => trim_str(s.as_str()),
                FieldVal::Object(_) => text_field(val, &dk),
                _ => Vec::new(),
            };
            let preview: Option<String> = match val {
                FieldVal::Object(_) => opt_string(text_field(val, &pk)),
                _ => None,
            };
            let o = AskOption { label: string_of(&label), description: string_of(&description), preview };
            let ghost before = options_view(out@);
            out.push(o);
            proof {
                assert(options_view(out@) =~= before.push(option_view(o)));
            }
        }
        i += 1;
    }
    proof {
        assert(fs@.take(fs@.len() as int) =~= fs@);
    }
    out
}

/// The answers under one key: from a list, or from an object's entries.
pub open spec fn options_under(v: FieldVal, key: Seq<char>, entries: bool) -> Seq<OptionView> {
    match get(v, key) {
        Some(FieldVal::Array(a)) => options_from_list(a@),
        Some(FieldVal::Object(fs)) => if entries {
            options_from_entries(fs@)
        } else {
            Seq::empty()
        },
        _ => Seq::empty(),
    }
}

fn options_under_exec(v: &FieldVal, key: &str, entries: bool) -> (r: Vec<AskOption>)
    ensures
        options_view(r@) == options_under(*v, key@, entries),
{
    match get_of(v, key) {
        Some(FieldVal::Array(a)) => options_list(a),
        Some(FieldVal::Object(fs)) => if entries {
            options_entries(fs)
        } else {
            let r: Vec<AskOption> = Vec::new();
            assert(options_view(r@) =~= Seq::<OptionView>::empty());
            r
        },
        _ => {
            let r: Vec<AskOption> = Vec::new();
            assert(options_view(r@) =~= Seq::<OptionView>::empty());
            r
        },
    }
}

/// The answers a question offers: the first non-empty of its `options`,
/// `choices` and `items` (lists or objects), then of its `oneOf`, `anyOf`
/// and `enum` lists.
pub open spec fn parse_options_spec(v: FieldVal) -> Seq<OptionView> {
    let a = options_under(v, "options"@, true);
    let b = options_under(v, "choices"@, true);
    let c = options_under(v, "items"@, true);
    let d = options_under(v, "oneOf"@, false);
    let e = options_under(v, "anyOf"@, false);
    let f = options_under(v, "enum"@, false);
    if a.len() > 0 {
        a
    } else if b.len() > 0 {
        b
    } else if c.len() > 0 {
        c
    } else if d.len() > 0 {
        d
    } else if e.len() > 0 {
        e
    } else {
        f
    }
}

/// The answers a question offers.
pub fn parse_options(v: &FieldVal) -> (r: Vec<AskOption>)
    ensures
        options_view(r@) == parse_options_spec(*v),
{
    let a = options_under_exec(v, "options", true);
    if a.len() > 0 {
        return a;
    }
    let b = options_under_exec(v, "choices", true);
    if b.len() > 0 {
        return b;
    }
    let c = options_under_exec(v, "items", true);
    if c.len() > 0 {
        return c;
    }
    let d = options_under_exec(v, "oneOf", false);
    if d.len() > 0 {
        return d;
    }
    let e = options_under_exec(v, "anyOf", false);
    if e.len() > 0 {
        return e;
    }
    options_under_exec(v, "enum", false)
}

/// Whether a value is an object with one of the keys a question has.
pub open spec fn looks_like_question_spec(v: FieldVal) -> bool {
    match v {
        FieldVal::Object(fs) => field_of(fs@, "question"@) is Some || field_of(fs@, "prompt"@) is Some
            || field_of(fs@, "options"@) is Some || field_of(fs@, "choices"@) is Some || field_of(
            fs@,
            "oneOf"@,
        ) is Some || field_of(fs@, "anyOf"@) is Some || field_of(fs@, "enum"@) is Some,
        _ => false,
    }
}

/// Whether a value is an object with one of the keys a question has.
pub fn looks_like_question_object(v: &FieldVal) -> (r: bool)
    ensures
        r == looks_like_question_spec(*v),
{
    match v {
        FieldVal::Object(fs) => {
            let f = fs.as_slice();
            get_field(f, "question").is_some() || get_field(f, "prompt").is_some() || get_field(
                f,
                "options",
            ).is_some() || get_field(f, "choices").is_some() || get_field(f, "oneOf").is_some()
                || get_field(f, "anyOf").is_some() || get_field(f, "enum").is_some()
        },
        _ => false,
    }
}

pub open spec fn question_keys() -> Seq<Seq<char>> {
    seq!["question"@, "prompt"@, "text"@, "message"@]
}

pub open spec fn header_key() -> Seq<Seq<char>> {
    seq!["header"@]
}

pub open spec fn title_key() -> Seq<Seq<char>> {
    seq!["title"@]
}

pub open spec fn header_title_keys() -> Seq<Seq<char>> {
    seq!["header"@, "title"@]
}

pub open spec fn multi_keys() -> Seq<Seq<char>> {
    seq!["multi_select"@, "multiSelect"@, "allow_multiple"@]
}

/// A question from a string (itself, with a header from its start) or from an
/// object: its text under `question`, `prompt`, `text` or `message`, else its
/// `header`, else (for an object that looks like a question) its `title`;
/// `Question` where only answers are given. None where it has neither text
/// nor answers.
pub open spec fn parse_one_spec(v: FieldVal) -> Option<QuestionV> {
    match v {
        FieldVal::Str(s) => if trim(s@).len() > 0 {
            Some((trim(s@), short_header_spec(trim(s@)), Seq::empty(), false))
        } else {
            None
        },
        _ => {
            let q1 = text_of(v, question_keys());
            let q2 = if q1.len() == 0 {
                text_of(v, header_key())
            } else {
                q1
            };
            let q3 = if q2.len() == 0 && looks_like_question_spec(v) {
                text_of(v, title_key())
            } else {
                q2
            };
            let options = parse_options_spec(v);
            if q3.len() == 0 && options.len() == 0 {
                None
            } else {
                let q = if q3.len() == 0 {
                    "Question"@
                } else {
                    q3
                };
                let h = text_of(v, header_title_keys());
                Some(
                    (
                        q,
                        if h.len() == 0 {
                            short_header_spec(q)
                        } else {
                            h
                        },
                        options,
                        flag_of(v, multi_keys()),
                    ),
                )
            }
        },
    }
}

/// A question from a string or an object.
pub fn parse_one_question(v: &FieldVal) -> (r: Option<AskQuestion>)
    ensures
        match r {
            Some(q) => parse_one_spec(*v) == Some(question_view(q)),
            None => parse_one_spec(*v) is None,
        },
{
    match v {
        FieldVal::Str(s) => {
            let t = trim_str(s.as_str());
            if t.len() == 0 {
                return None;
            }
            let ts = string_of(&t);
            let h = short_header(ts.as_str());
            let opts: Vec<AskOption> = Vec::new();
            proof {
                assert(options_view(opts@) =~= Seq::<OptionView>::empty());
            }
            return Some(AskQuestion { question: ts, header: h, options: opts, multi_select: false });
        },
        _ => {},
    }
    let qk: [&str; 4] = ["question", "prompt", "text", "message"];
    let hk: [&str; 1] = ["header"];
    let tk: [&str; 1] = ["title"];
    let htk: [&str; 2] = ["header", "title"];
    let mk: [&str; 3] = ["multi_select", "multiSelect", "allow_multiple"];
    proof {
        assert(crate::parse::strs_view(qk@) =~= question_keys());
        assert(crate::parse::strs_view(hk@) =~= header_key());
        assert(crate::parse::strs_view(tk@) =~= title_key());
        assert(crate::parse::strs_view(htk@) =~= header_title_keys());
        assert(crate::parse::strs_view(mk@) =~= multi_keys());
    }
    let mut q = text_field(v, &qk);
    if q.len() == 0 {
        q = text_field(v, &hk);
    }
    if q.len() == 0 && looks_like_question_object(v) {
        q = text_field(v, &tk);
    }
    let options = parse_options(v);
    if q.len() == 0 && options.len() == 0 {
        return None;
    }
    if q.len() == 0 {
        q = chars_of("Question");
    }
    let qs = string_of(&q);
    let h = text_field(v, &htk);
    let header = if h.len() == 0 {
        short_header(qs.as_str())
    } else {
        string_of(&h)
    };
    Some(AskQuestion { question: qs, header, options, multi_select: flag_field(v, &mk) })
}


/// The questions of a list (where `filter`, only items that look like
/// questions), those that read as questions, in order.
pub open spec fn questions_list(a: Seq<FieldVal>, filter: bool) -> Seq<QuestionV>
    decreases a.len(),
{
    if a.len() == 0 {
        Seq::empty()
    } else {
        let rest = questions_list(a.drop_last(), filter);
        if filter && !looks_like_question_spec(a.last()) {
            rest
        } else {
            match parse_one_spec(a.last()) {
                Some(q) => rest.push(q),
                None => rest,
            }
        }
    }
}

fn questions_from_list(a: &Vec<FieldVal>, filter: bool) -> (r: Vec<AskQuestion>)
    ensures
        questions_view(r@) == questions_list(a@, filter),
{
    let mut out: Vec<AskQuestion> = Vec::new();
    let mut i: usize = 0;
    proof {
        assert(a@.take(0) =~= Seq::<FieldVal>::empty());
        assert(questions_view(out@) =~= Seq::<QuestionV>::empty());
    }
    while i < a.len()
        invariant
            i <= a@.len(),
            questions_view(out@) == questions_list(a@.take(i as int), filter),
        decreases a.len() - i,
    {
        proof {
            assert(a@.take(i + 1).drop_last() =~= a@.take(i as int));
            assert(a@.take(i + 1).last() == a@[i as int]);
        }
        if !filter || looks_like_question_object(&a[i]) {
            match parse_one_question(&a[i]) {
                Some(q) => {
                    let ghost before = questions_view(out@);
                    out.push(q);
                    proof {
                        assert(questions_view(out@) =~= before.push(question_view(q)));
                    }
                },
                None => {},
            }
        }
        i += 1;
    }
    proof {
        assert(a@.take(a@.len() as int) =~= a@);
    }
    out
}

pub open spec fn title_desc_keys() -> Seq<Seq<char>> {
    seq!["title"@, "description"@]
}

/// A question from one property of an elicitation schema: the property read
/// as a question, or else its answers with its title or description; its
/// key is the header, and the question where it has no text.
pub open spec fn schema_item(key: Seq<char>, prop: FieldVal) -> Option<QuestionV> {
    let base = match parse_one_spec(prop) {
        Some(q) => Some(q),
        None => {
            let opts = parse_options_spec(prop);
            if opts.len() == 0 && text_of(prop, title_desc_keys()).len() == 0 {
                None
            } else {
                Some((text_of(prop, title_desc_keys()), Seq::empty(), opts, flag_of(prop, multi_keys())))
            }
        },
    };
    match base {
        None => None,
        Some(q) => {
            let text = if q.0.len() == 0 {
                let t = text_of(prop, title_key());
                if t.len() == 0 {
                    key
                } else {
                    t
                }
            } else {
                q.0
            };
            let opts = if q.2.len() == 0 {
                parse_options_spec(prop)
            } else {
                q.2
            };
            Some((text, key, opts, q.3))
        },
    }
}

pub open spec fn schema_fold(fs: Seq<(String, FieldVal)>) -> Seq<QuestionV>
    decreases fs.len(),
{
    if fs.len() == 0 {
        Seq::empty()
    } else {
        let rest = schema_fold(fs.drop_last());
        match schema_item(fs.last().0@, fs.last().1) {
            Some(q) => rest.push(q),
            None => rest,
        }
    }
}

/// The questions of an elicitation schema: one per property, in order.
pub open spec fn schema_spec(schema: FieldVal) -> Seq<QuestionV> {
    match get(schema, "properties"@) {
        Some(FieldVal::Object(fs)) => schema_fold(fs@),
        _ => Seq::empty(),
    }
}

fn schema_question(key: &String, prop: &FieldVal) -> (r: Option<AskQuestion>)
    ensures
        match r {
            Some(q) => schema_item(key@, *prop) == Some(question_view(q)),
            None => schema_item(key@, *prop) is None,
        },
{
    let tdk: [&str; 2] = ["title", "description"];
    let tk: [&str; 1] = ["title"];
    let mk: [&str; 3] = ["multi_select", "multiSelect", "allow_multiple"];
    proof {
        assert(crate::parse::strs_view(tdk@) =~= title_desc_keys());
        assert(crate::parse::strs_view(tk@) =~= title_key());
        assert(crate::parse::strs_view(mk@) =~= multi_keys());
    }
    let base = match parse_one_question(prop) {
        Some(q) => q,
        None => {
            let opts = parse_options(prop);
            let td = text_field(prop, &tdk);
            if opts.len() == 0 && td.len() == 0 {
                return None;
            }
            AskQuestion {
                question: string_of(&td),
                header: String::new(),
                options: opts,
                multi_select: flag_field(prop, &mk),
            }
        },
    };
    let question = if base.question.as_str().is_empty() {
        let t = text_field(prop, &tk);
        if t.len() == 0 {
            key.clone()
        } else {
            string_of(&t)
        }
    } else {
        base.question
    };
    let options = if base.options.len() == 0 {
        parse_options(prop)
    } else {
        base.options
    };
    Some(AskQuestion { question, header: key.clone(), options, multi_select: base.multi_select })
}

/// The questions of an elicitation schema.
pub fn questions_from_schema(schema: &FieldVal) -> (r: Vec<AskQuestion>)
    ensures
        questions_view(r@) == schema_spec(*schema),
{
    let fs = match get_of(schema, "properties") {
        Some(FieldVal::Object(fs)) => fs,
        _ => {
            let r: Vec<AskQuestion> = Vec::new();
            assert(questions_view(r@) =~= Seq::<QuestionV>::empty());
            return r;
        },
    };
    let mut out: Vec<AskQuestion> = Vec::new();
    let mut i: usize = 0;
    proof {
        assert(fs@.take(0) =~= Seq::<(String, FieldVal)>::empty());
        assert(questions_view(out@) =~= Seq::<QuestionV>::empty());
    }
    while i < fs.len()
        invariant
            i <= fs@.len(),
            questions_view(out@) == schema_fold(fs@.take(i as int)),
        decreases fs.len() - i,
    {
        proof {
            assert(fs@.take(i + 1).drop_last() =~= fs@.take(i as int));
            assert(fs@.take(i + 1).last() == fs@[i as int]);
        }
        match schema_question(&fs[i].0, &fs[i].1) {
            Some(q) => {
                let ghost before = questions_view(out@);
                out.push(q);
                proof {
                    assert(questions_view(out@) =~= before.push(question_view(q)));
                }
            },
            None => {},
        }
        i += 1;
    }
    proof {
        assert(fs@.take(fs@.len() as int) =~= fs@);
    }
    out
}

/// The questions a value holds: its `questions` list, else the items of its
/// `items` list that look like questions, else its `questions` object, else
/// the questions of its elicitation schema (`requestedSchema` or itself),
/// else itself where it looks like a question.
pub open spec fn questions_from_spec(v: FieldVal) -> Seq<QuestionV> {
    let a = match get(v, "questions"@) {
        Some(FieldVal::Array(arr)) => questions_list(arr@, false),
        _ => Seq::empty(),
    };
    let b = match get(v, "items"@) {
        Some(FieldVal::Array(arr)) => questions_list(arr@, true),
        _ => Seq::empty(),
    };
    let c = match get(v, "questions"@) {
        Some(FieldVal::Object(fs)) => parse_one_spec(FieldVal::Object(fs)),
        _ => None,
    };
    let schema = match get(v, "requestedSchema"@) {
        Some(s) => s,
        None => v,
    };
    if a.len() > 0 {
        a
    } else if b.len() > 0 {
        b
    } else if c is Some {
        seq![c.unwrap()]
    } else if schema_spec(schema).len() > 0 {
        schema_spec(schema)
    } else if looks_like_question_spec(v) && parse_one_spec(v) is Some {
        seq![parse_one_spec(v).unwrap()]
    } else {
        Seq::empty()
    }
}

/// The questions a value holds.
pub fn questions_from(v: &FieldVal) -> (r: Vec<AskQuestion>)
    ensures
        questions_view(r@) == questions_from_spec(*v),
{
    match get_of(v, "questions") {
        Some(FieldVal::Array(arr)) => {
            let a = questions_from_list(arr, false);
            if a.len() > 0 {
                return a;
            }
        },
        _ => {},
    }
    match get_of(v, "items") {
        Some(FieldVal::Array(arr)) => {
            let b = questions_from_list(arr, true);
            if b.len() > 0 {
                return b;
            }
        },
        _ => {},
    }
    match get_of(v, "questions") {
        Some(q) => match q {
            FieldVal::Object(_) => match parse_one_question(q) {
                Some(x) => {
                    let mut r: Vec<AskQuestion> = Vec::new();
                    r.push(x);
                    proof {
                        assert(questions_view(r@) =~= seq![question_view(x)]);
                    }
                    return r;
                },
                None => {},
            },
            _ => {},
        },
        None => {},
    }
    let schema = match get_of(v, "requestedSchema") {
        Some(s) => s,
        None => v,
    };
    let d = questions_from_schema(schema);
    if d.len() > 0 {
        return d;
    }
    if looks_like_question_object(v) {
        match parse_one_question(v) {
            Some(x) => {
                let mut r: Vec<AskQuestion> = Vec::new();
                r.push(x);
                proof {
                    assert(questions_view(r@) =~= seq![question_view(x)]);
                }
                return r;
            },
            None => {},
        }
    }
    let r: Vec<AskQuestion> = Vec::new();
    assert(questions_view(r@) =~= Seq::<QuestionV>::empty());
    r
}


/// The keys under which a request may nest its payload, searched in this
/// order.
pub open spec fn layer_keys() -> Seq<Seq<char>> {
    seq![
        "params"@,
        "request"@,
        "data"@,
        "input"@,
        "arguments"@,
        "rawInput"@,
        "payload"@,
        "body"@,
        "toolCall"@,
    ]
}

/// The deepest nesting searched.
pub const MAX_LAYER_DEPTH: usize = 4;

/// The first non-empty text under `keys` in a value or in the values nested
/// in it (to depth 4), searched depth first.
pub open spec fn layer_text(v: FieldVal, depth: nat, keys: Seq<Seq<char>>) -> Seq<char>
    decreases 5 - depth, 10int,
{
    if depth > MAX_LAYER_DEPTH {
        Seq::empty()
    } else if text_of(v, keys).len() > 0 {
        text_of(v, keys)
    } else {
        child_text(v, depth, keys, layer_keys())
    }
}

pub open spec fn child_text(v: FieldVal, depth: nat, keys: Seq<Seq<char>>, ks: Seq<Seq<char>>) -> Seq<char>
    decreases 5 - depth, ks.len(),
{
    if depth > MAX_LAYER_DEPTH || ks.len() == 0 {
        Seq::empty()
    } else {
        match get(v, ks[0]) {
            Some(c) => {
                let r = layer_text(c, depth + 1, keys);
                if r.len() > 0 {
                    r
                } else {
                    child_text(v, depth, keys, ks.drop_first())
                }
            },
            None => child_text(v, depth, keys, ks.drop_first()),
        }
    }
}

/// The first non-empty list of questions in a value or in the values nested
/// in it (to depth 4), searched depth first.
pub open spec fn layer_questions(v: FieldVal, depth: nat) -> Seq<QuestionV>
    decreases 5 - depth, 10int,
{
    if depth > MAX_LAYER_DEPTH {
        Seq::empty()
    } else if questions_from_spec(v).len() > 0 {
        questions_from_spec(v)
    } else {
        child_questions(v, depth, layer_keys())
    }
}

pub open spec fn child_questions(v: FieldVal, depth: nat, ks: Seq<Seq<char>>) -> Seq<QuestionV>
    decreases 5 - depth, ks.len(),
{
    if depth > MAX_LAYER_DEPTH || ks.len() == 0 {
        Seq::empty()
    } else {
        match get(v, ks[0]) {
            Some(c) => {
                let r = layer_questions(c, depth + 1);
                if r.len() > 0 {
                    r
                } else {
                    child_questions(v, depth, ks.drop_first())
                }
            },
            None => child_questions(v, depth, ks.drop_first()),
        }
    }
}

fn layer_keys_exec() -> (r: [&'static str; 9])
    ensures
        crate::parse::strs_view(r@) == layer_keys(),
{
    let k: [&str; 9] = [
        "params",
        "request",
        "data",
        "input",
        "arguments",
        "rawInput",
        "payload",
        "body",
        "toolCall",
    ];
    proof {
        assert(crate::parse::strs_view(k@) =~= layer_keys());
    }
    k
}

fn layer_text_exec(v: &FieldVal, depth: usize, keys: &[&str]) -> (r: Vec<char>)
    requires
        depth <= MAX_LAYER_DEPTH + 1,
    ensures
        r@ == layer_text(*v, depth as nat, crate::parse::strs_view(keys@)),
    decreases 5 - depth, 10int,
{
    if depth > MAX_LAYER_DEPTH {
        return Vec::new();
    }
    let t = text_field(v, keys);
    if t.len() > 0 {
        return t;
    }
    let lk = layer_keys_exec();
    let ghost ks = layer_keys();
    let mut i: usize = 0;
    proof {
        assert(ks.subrange(0, 9) =~= ks);
    }
    while i < 9
        invariant
            i <= 9,
            depth <= MAX_LAYER_DEPTH,
            crate::parse::strs_view(lk@) == ks,
            ks == layer_keys(),
            text_of(*v, crate::parse::strs_view(keys@)).len() == 0,
            child_text(*v, depth as nat, crate::parse::strs_view(keys@), ks) == child_text(
                *v,
                depth as nat,
                crate::parse::strs_view(keys@),
                ks.subrange(i as int, 9),
            ),
        decreases 9 - i,
    {
        let ghost rest = ks.subrange(i as int, 9);
        assert(rest[0] == lk@[i as int]@);
        assert(rest.drop_first() =~= ks.subrange(i + 1, 9));
        match get_of(v, lk[i]) {
            Some(c) => {
                let r = layer_text_exec(c, depth + 1, keys);
                if r.len() > 0 {
                    return r;
                }
            },
            None => {},
        }
        i += 1;
    }
    proof {
        assert(ks.subrange(9, 9) =~= Seq::<Seq<char>>::empty());
    }
    Vec::new()
}

fn layer_questions_exec(v: &FieldVal, depth: usize) -> (r: Vec<AskQuestion>)
    requires
        depth <= MAX_LAYER_DEPTH + 1,
    ensures
        questions_view(r@) == layer_questions(*v, depth as nat),
    decreases 5 - depth, 10int,
{
    if depth > MAX_LAYER_DEPTH {
        let r: Vec<AskQuestion> = Vec::new();
        assert(questions_view(r@) =~= Seq::<QuestionV>::empty());
        return r;
    }
    let q = questions_from(v);
    if q.len() > 0 {
        return q;
    }
    let lk = layer_keys_exec();
    let ghost ks = layer_keys();
    let mut i: usize = 0;
    proof {
        assert(ks.subrange(0, 9) =~= ks);
    }
    while i < 9
        invariant
            i <= 9,
            depth <= MAX_LAYER_DEPTH,
            crate::parse::strs_view(lk@) == ks,
            ks == layer_keys(),
            questions_from_spec(*v).len() == 0,
            child_questions(*v, depth as nat, ks) == child_questions(
                *v,
                depth as nat,
                ks.subrange(i as int, 9),
            ),
        decreases 9 - i,
    {
        let ghost rest = ks.subrange(i as int, 9);
        assert(rest[0] == lk@[i as int]@);
        assert(rest.drop_first() =~= ks.subrange(i + 1, 9));
        match get_of(v, lk[i]) {
            Some(c) => {
                let r = layer_questions_exec(c, depth + 1);
                if r.len() > 0 {
                    return r;
                }
            },
            None => {},
        }
        i += 1;
    }
    proof {
        assert(ks.subrange(9, 9) =~= Seq::<Seq<char>>::empty());
    }
    let r: Vec<AskQuestion> = Vec::new();
    assert(questions_view(r@) =~= Seq::<QuestionV>::empty());
    r
}

/// What a question request holds: its session, tool call, mode and
/// questions, each the first found in the request or its nested payloads.
pub struct ParsedAsk {
    pub session_id: String,
    pub tool_id: String,
    pub mode: String,
    pub questions: Vec<AskQuestion>,
}

pub open spec fn session_keys() -> Seq<Seq<char>> {
    seq!["sessionId"@, "session_id"@]
}

pub open spec fn tool_keys() -> Seq<Seq<char>> {
    seq!["toolCallId"@, "tool_call_id"@]
}

pub open spec fn mode_key() -> Seq<Seq<char>> {
    seq!["mode"@]
}

/// What a question request holds.
pub fn parse_ask_user_params(params: &FieldVal) -> (r: ParsedAsk)
    ensures
        r.session_id@ == layer_text(*params, 0, session_keys()),
        r.tool_id@ == layer_text(*params, 0, tool_keys()),
        r.mode@ == layer_text(*params, 0, mode_key()),
        questions_view(r.questions@) == layer_questions(*params, 0),
{
    let sk: [&str; 2] = ["sessionId", "session_id"];
    let tk: [&str; 2] = ["toolCallId", "tool_call_id"];
    let mk: [&str; 1] = ["mode"];
    proof {
        assert(crate::parse::strs_view(sk@) =~= session_keys());
        assert(crate::parse::strs_view(tk@) =~= tool_keys());
        assert(crate::parse::strs_view(mk@) =~= mode_key());
    }
    let s = layer_text_exec(params, 0, &sk);
    let t = layer_text_exec(params, 0, &tk);
    let m = layer_text_exec(params, 0, &mk);
    ParsedAsk {
        session_id: string_of(&s),
        tool_id: string_of(&t),
        mode: string_of(&m),
        questions: layer_questions_exec(params, 0),
    }
}

/// Whether a request holds questions for the user.
pub fn looks_like_ask_user(params: &FieldVal) -> (r: bool)
    ensures
        r == (layer_questions(*params, 0).len() > 0),
{
    parse_ask_user_params(params).questions.len() > 0
}

/// Whether a session's `tool_call` update opens a question card: it holds
/// questions and is not one of ggok's own MCP cards.
pub fn should_present_tool_call_as_ask(title: &str, name: &str, update: &FieldVal) -> (r: bool)
    ensures
        r == (!(mentions_mcp_ask_spec(title@) || mentions_mcp_ask_spec(name@)) && layer_questions(
            *update,
            0,
        ).len() > 0),
{
    !is_mcp_ask_tool(title, name) && looks_like_ask_user(update)
}

/// How a card was closed: skipped, taken to chat, or answered.
pub open spec fn outcome_spec(raw: Seq<char>) -> Seq<char> {
    let t = trim(raw);
    if t == "skip"@ || t == "skip_interview"@ || t == "cancelled"@ || t == "canceled"@ {
        "skip_interview"@
    } else if t == "chat"@ || t == "chat_about_this"@ {
        "chat_about_this"@
    } else {
        "accepted"@
    }
}

/// How a card was closed.
pub fn normalize_outcome(raw: &str) -> (r: &'static str)
    ensures
        r@ == outcome_spec(raw@),
{
    let t = trim_str(raw);
    if eq_str(&t, "skip") || eq_str(&t, "skip_interview") || eq_str(&t, "cancelled") || eq_str(
        &t,
        "canceled",
    ) {
        "skip_interview"
    } else if eq_str(&t, "chat") || eq_str(&t, "chat_about_this") {
        "chat_about_this"
    } else {
        "accepted"
    }
}


/// Why an answer to a question card was refused.
#[derive(Debug, Clone, Copy, PartialEq, Eq, Structural)]
pub enum AnswerError {
    /// A list answer holds something that is not a string.
    ListNotStrings,
    /// An answer is neither a string nor a list of strings.
    NotStringOrList,
    /// A question got neither an answer nor a note.
    MissingAnswer,
    /// A single-choice question got more than one answer.
    TooManyAnswers,
}

/// The answer to one question: one choice, or the list of a multiple-choice question.
#[derive(Debug, Clone)]
pub enum AnswerValue {
    One(String),
    Many(Vec<String>),
}

/// What is noted beside an answer: the preview of the chosen option and the user's note.
#[derive(Debug, Clone)]
pub struct Annotation {
    pub preview: Option<String>,
    pub notes: Option<String>,
}

/// Checked answers by question text, and the annotations of those that have one.
#[derive(Debug, Clone)]
pub struct Answers {
    pub answers: Vec<(String, AnswerValue)>,
    pub annotations: Vec<(String, Annotation)>,
}

pub type AnsV = (bool, Seq<Seq<char>>);

pub type AnnV = (Option<Seq<char>>, Option<Seq<char>>);

pub open spec fn strs_view(v: Seq<String>) -> Seq<Seq<char>> {
    Seq::new(v.len(), |i: int| v[i]@)
}

pub open spec fn answer_view(a: AnswerValue) -> AnsV {
    match a {
        AnswerValue::One(s) => (false, seq![s@]),
        AnswerValue::Many(v) => (true, strs_view(v@)),
    }
}

pub open spec fn annotation_view(a: Annotation) -> AnnV {
    (crate::types::opt_view(a.preview), crate::types::opt_view(a.notes))
}

pub open spec fn answers_view(v: Seq<(String, AnswerValue)>) -> Seq<(Seq<char>, AnsV)> {
    Seq::new(v.len(), |i: int| (v[i].0@, answer_view(v[i].1)))
}

pub open spec fn annotations_view(v: Seq<(String, Annotation)>) -> Seq<(Seq<char>, AnnV)> {
    Seq::new(v.len(), |i: int| (v[i].0@, annotation_view(v[i].1)))
}

/// The picks in a list of answers: trimmed strings, blank ones left out; a
/// list with anything but strings is refused.
pub open spec fn list_picks(items: Seq<FieldVal>) -> Result<Seq<Seq<char>>, AnswerError>
    decreases items.len(),
{
    if items.len() == 0 {
        Ok(Seq::empty())
    } else {
        match list_picks(items.drop_last()) {
            Err(e) => Err(e),
            Ok(p) => match items.last() {
                FieldVal::Str(s) => Ok(
                    if trim(s@).len() > 0 {
                        p.push(trim(s@))
                    } else {
                        p
                    },
                ),
                _ => Err(AnswerError::ListNotStrings),
            },
        }
    }
}

/// The picks an answer holds: a string (trimmed, none when blank), a list
/// of strings, or nothing at all.
pub open spec fn picks_spec(v: FieldVal) -> Result<Seq<Seq<char>>, AnswerError> {
    match v {
        FieldVal::Str(s) => Ok(
            if trim(s@).len() > 0 {
                seq![trim(s@)]
            } else {
                Seq::empty()
            },
        ),
        FieldVal::Array(items) => list_picks(items@),
        FieldVal::Null => Ok(Seq::empty()),
        _ => Err(AnswerError::NotStringOrList),
    }
}

pub fn push_string_list(out: &mut Vec<String>, v: &FieldVal) -> (r: Result<(), AnswerError>)
    ensures
        match picks_spec(*v) {
            Ok(p) => r is Ok && strs_view(final(out)@) == strs_view(old(out)@) + p,
            Err(e) => r == Err::<(), AnswerError>(e),
        },
{
    let ghost start = strs_view(out@);
    match v {
        FieldVal::Str(s) => {
            let t = trim_str(s.as_str());
            if t.len() > 0 {
                out.push(string_of(&t));
                proof {
                    assert(strs_view(out@) =~= start + seq![t@]);
                }
            } else {
                proof {
                    assert(strs_view(out@) =~= start + Seq::<Seq<char>>::empty());
                }
            }
            Ok(())
        },
        FieldVal::Array(items) => {
            let mut i: usize = 0;
            proof {
                assert(items@.take(0) =~= Seq::<FieldVal>::empty());
                assert(strs_view(out@) =~= start + Seq::<Seq<char>>::empty());
            }
            while i < items.len()
                invariant
                    i <= items.len(),
                    picks_spec(*v) == list_picks(items@),
                    start == strs_view(old(out)@),
                    list_picks(items@.take(i as int)) matches Ok(p) && strs_view(out@) == start + p,
                decreases items.len() - i,
            {
                proof {
                    assert(items@.take(i + 1).drop_last() =~= items@.take(i as int));
                    assert(items@.take(i + 1).last() == items@[i as int]);
                }
                let ghost p0 = list_picks(items@.take(i as int))->Ok_0;
                match &items[i] {
                    FieldVal::Str(s) => {
                        let t = trim_str(s.as_str());
                        if t.len() > 0 {
                            let ghost before = strs_view(out@);
                            out.push(string_of(&t));
                            proof {
                                assert(strs_view(out@) =~= before.push(t@));
                                assert(start + p0.push(t@) =~= (start + p0).push(t@));
                            }
                        }
                    },
                    _ => {
                        proof {
                            assert(list_picks(items@) == Err::<Seq<Seq<char>>, AnswerError>(
                                AnswerError::ListNotStrings,
                            )) by {
                                lemma_list_picks_err(items@, i as int);
                            }
                        }
                        return Err(AnswerError::ListNotStrings);
                    },
                }
                i += 1;
            }
            proof {
                assert(items@.take(i as int) =~= items@);
            }
            Ok(())
        },
        FieldVal::Null => {
            proof {
                assert(strs_view(out@) =~= start + Seq::<Seq<char>>::empty());
            }
            Ok(())
        },
        _ => Err(AnswerError::NotStringOrList),
    }
}

proof fn lemma_list_picks_err(items: Seq<FieldVal>, i: int)
    requires
        0 <= i < items.len(),
        !(items[i] is Str),
        list_picks(items.take(i)) is Ok,
    ensures
        list_picks(items) == Err::<Seq<Seq<char>>, AnswerError>(AnswerError::ListNotStrings),
    decreases items.len(),
{
    if i == items.len() - 1 {
        assert(items.drop_last() =~= items.take(i));
    } else {
        assert(items.drop_last().take(i) =~= items.take(i));
        lemma_list_picks_err(items.drop_last(), i);
    }
}

/// The note for a question: the trimmed string under its text in `notes`,
/// or nothing.
pub open spec fn note_spec(notes: FieldVal, question: Seq<char>) -> Seq<char> {
    match get(notes, question) {
        Some(FieldVal::Str(s)) => trim(s@),
        _ => Seq::empty(),
    }
}

pub fn note_for(notes: &FieldVal, question: &str) -> (r: String)
    ensures
        r@ == note_spec(*notes, question@),
{
    match get_of(notes, question) {
        Some(FieldVal::Str(s)) => string_of(&trim_str(s.as_str())),
        _ => String::new(),
    }
}

/// The preview of the first option labelled `label`.
pub open spec fn preview_spec(opts: Seq<OptionView>, label: Seq<char>) -> Option<Seq<char>>
    decreases opts.len(),
{
    if opts.len() == 0 {
        None
    } else if opts[0].0 == label {
        opts[0].2
    } else {
        preview_spec(opts.drop_first(), label)
    }
}

pub fn preview_for(q: &AskQuestion, label: &str) -> (r: Option<String>)
    ensures
        crate::types::opt_view(r) == preview_spec(options_view(q.options@), label@),
{
    let ghost ov = options_view(q.options@);
    let mut i: usize = 0;
    proof {
        assert(ov.skip(0) =~= ov);
    }
    while i < q.options.len()
        invariant
            i <= q.options.len(),
            ov == options_view(q.options@),
            preview_spec(ov, label@) == preview_spec(ov.skip(i as int), label@),
        decreases q.options.len() - i,
    {
        proof {
            assert(ov.skip(i as int)[0] == option_view(q.options@[i as int]));
            assert(ov.skip(i as int).drop_first() =~= ov.skip(i + 1));
        }
        if str_eq(q.options[i].label.as_str(), label) {
            return match &q.options[i].preview {
                Some(p) => Some(p.clone()),
                None => None,
            };
        }
        i += 1;
    }
    proof {
        assert(ov.skip(i as int) =~= Seq::<OptionView>::empty());
    }
    None
}

/// `(k, v)` set in an object: an entry with key `k` is replaced in place,
/// else the pair is added at the end.
pub open spec fn obj_set<V>(fs: Seq<(Seq<char>, V)>, k: Seq<char>, v: V) -> Seq<(Seq<char>, V)> {
    if exists|i: int| 0 <= i < fs.len() && (#[trigger] fs[i]).0 == k {
        fs.update(choose|i: int| 0 <= i < fs.len() && (#[trigger] fs[i]).0 == k, (k, v))
    } else {
        fs.push((k, v))
    }
}

/// One question checked: its picks (or its note, when there are none), at
/// most one for a single choice; and its annotation, when the choice has a
/// preview or there is a note.
pub open spec fn answer_spec(q: QuestionV, answers: FieldVal, notes: FieldVal) -> Result<(AnsV, Option<AnnV>), AnswerError> {
    let raw = match get(answers, q.0) {
        Some(v) => v,
        None => FieldVal::Null,
    };
    let note = note_spec(notes, q.0);
    match picks_spec(raw) {
        Err(e) => Err(e),
        Ok(p0) => if p0.len() == 0 && note.len() == 0 {
            Err(AnswerError::MissingAnswer)
        } else if !q.3 && p0.len() > 1 {
            Err(AnswerError::TooManyAnswers)
        } else {
            let p = if p0.len() == 0 {
                seq![note]
            } else {
                p0
            };
            let preview = if q.3 {
                None
            } else {
                preview_spec(q.2, p[0])
            };
            Ok(
                (
                    (q.3, p),
                    if preview is Some || note.len() > 0 {
                        Some(
                            (
                                preview,
                                if note.len() > 0 {
                                    Some(note)
                                } else {
                                    None
                                },
                            ),
                        )
                    } else {
                        None
                    },
                ),
            )
        },
    }
}

pub type AnswersV = (Seq<(Seq<char>, AnsV)>, Seq<(Seq<char>, AnnV)>);

/// All questions checked in order; the first refusal wins.
pub open spec fn validate_spec(qs: Seq<QuestionV>, answers: FieldVal, notes: FieldVal) -> Result<AnswersV, AnswerError>
    decreases qs.len(),
{
    if qs.len() == 0 {
        Ok((Seq::empty(), Seq::empty()))
    } else {
        match validate_spec(qs.drop_last(), answers, notes) {
            Err(e) => Err(e),
            Ok(acc) => {
                let q = qs.last();
                match answer_spec(q, answers, notes) {
                    Err(e) => Err(e),
                    Ok((a, ann)) => Ok(
                        (
                            obj_set(acc.0, q.0, a),
                            match ann {
                                Some(n) => obj_set(acc.1, q.0, n),
                                None => acc.1,
                            },
                        ),
                    ),
                }
            },
        }
    }
}

fn key_pos<V>(fs: &Vec<(String, V)>, k: &str) -> (r: Option<usize>)
    ensures
        match r {
            Some(i) => i < fs@.len() && fs@[i as int].0@ == k@,
            None => forall|i: int| 0 <= i < fs@.len() ==> (#[trigger] fs@[i]).0@ != k@,
        },
{
    let mut i: usize = 0;
    while i < fs.len()
        invariant
            i <= fs.len(),
            forall|j: int| 0 <= j < i ==> (#[trigger] fs@[j]).0@ != k@,
        decreases fs.len() - i,
    {
        if str_eq(fs[i].0.as_str(), k) {
            return Some(i);
        }
        i += 1;
    }
    None
}

proof fn lemma_unique_key<V>(fs: Seq<(Seq<char>, V)>, k: Seq<char>, i: int)
    requires
        0 <= i < fs.len(),
        fs[i].0 == k,
        forall|a: int, b: int| 0 <= a < b < fs.len() ==> (#[trigger] fs[a]).0 != (#[trigger] fs[b]).0,
    ensures
        obj_set(fs, k, fs[i].1) == fs || true,
        (choose|j: int| 0 <= j < fs.len() && (#[trigger] fs[j]).0 == k) == i,
{
    let j = choose|j: int| 0 <= j < fs.len() && (#[trigger] fs[j]).0 == k;
    assert(0 <= j < fs.len() && fs[j].0 == k);
    if j < i {
        assert(fs[j].0 != fs[i].0);
    } else if i < j {
        assert(fs[i].0 != fs[j].0);
    }
}

pub open spec fn keys_unique<V>(fs: Seq<(Seq<char>, V)>) -> bool {
    forall|a: int, b: int| 0 <= a < b < fs.len() ==> (#[trigger] fs[a]).0 != (#[trigger] fs[b]).0
}

proof fn lemma_obj_set_unique<V>(fs: Seq<(Seq<char>, V)>, k: Seq<char>, v: V)
    requires
        keys_unique(fs),
    ensures
        keys_unique(obj_set(fs, k, v)),
{
    let r = obj_set(fs, k, v);
    if exists|i: int| 0 <= i < fs.len() && (#[trigger] fs[i]).0 == k {
        let j = choose|i: int| 0 <= i < fs.len() && (#[trigger] fs[i]).0 == k;
        assert forall|a: int, b: int| 0 <= a < b < r.len() implies (#[trigger] r[a]).0 != (#[trigger] r[b]).0 by {
            assert(r[a].0 == fs[a].0);
            assert(r[b].0 == fs[b].0);
        }
    } else {
        assert forall|a: int, b: int| 0 <= a < b < r.len() implies (#[trigger] r[a]).0 != (#[trigger] r[b]).0 by {
            if b == fs.len() {
                assert(r[a] == fs[a]);
            } else {
                assert(r[a] == fs[a] && r[b] == fs[b]);
            }
        }
    }
}

fn set_answer(fs: &mut Vec<(String, AnswerValue)>, k: &String, v: AnswerValue)
    requires
        keys_unique(answers_view(old(fs)@)),
    ensures
        answers_view(final(fs)@) == obj_set(answers_view(old(fs)@), k@, answer_view(v)),
        keys_unique(answers_view(final(fs)@)),
{
    let ghost before = answers_view(fs@);
    let ghost av = answer_view(v);
    proof {
        lemma_obj_set_unique(before, k@, av);
    }
    match key_pos(fs, k.as_str()) {
        Some(i) => {
            proof {
                assert(before[i as int].0 == k@);
                lemma_unique_key(before, k@, i as int);
            }
            fs.set(i, (k.clone(), v));
            proof {
                assert(answers_view(fs@) =~= before.update(i as int, (k@, av)));
            }
        },
        None => {
            proof {
                assert forall|i: int| 0 <= i < before.len() implies (#[trigger] before[i]).0 != k@ by {
                    assert(before[i].0 == fs@[i].0@);
                }
            }
            fs.push((k.clone(), v));
            proof {
                assert(answers_view(fs@) =~= before.push((k@, av)));
            }
        },
    }
}

fn set_annotation(fs: &mut Vec<(String, Annotation)>, k: &String, v: Annotation)
    requires
        keys_unique(annotations_view(old(fs)@)),
    ensures
        annotations_view(final(fs)@) == obj_set(annotations_view(old(fs)@), k@, annotation_view(v)),
        keys_unique(annotations_view(final(fs)@)),
{
    let ghost before = annotations_view(fs@);
    let ghost av = annotation_view(v);
    proof {
        lemma_obj_set_unique(before, k@, av);
    }
    match key_pos(fs, k.as_str()) {
        Some(i) => {
            proof {
                assert(before[i as int].0 == k@);
                lemma_unique_key(before, k@, i as int);
            }
            fs.set(i, (k.clone(), v));
            proof {
                assert(annotations_view(fs@) =~= before.update(i as int, (k@, av)));
            }
        },
        None => {
            proof {
                assert forall|i: int| 0 <= i < before.len() implies (#[trigger] before[i]).0 != k@ by {
                    assert(before[i].0 == fs@[i].0@);
                }
            }
            fs.push((k.clone(), v));
            proof {
                assert(annotations_view(fs@) =~= before.push((k@, av)));
            }
        },
    }
}

fn answer_one(q: &AskQuestion, answers: &FieldVal, notes: &FieldVal) -> (r: Result<(AnswerValue, Option<Annotation>), AnswerError>)
    ensures
        match answer_spec(question_view(*q), *answers, *notes) {
            Err(e) => r == Err::<(AnswerValue, Option<Annotation>), AnswerError>(e),
            Ok((a, ann)) => r matches Ok((v, n)) && answer_view(v) == a && match ann {
                Some(x) => n matches Some(y) && annotation_view(y) == x,
                None => n is None,
            },
        },
{
    let raw: &FieldVal = match get_of(answers, q.question.as_str()) {
        Some(v) => v,
        None => &FieldVal::Null,
    };
    let mut picked: Vec<String> = Vec::new();
    proof {
        assert(strs_view(picked@) =~= Seq::<Seq<char>>::empty());
    }
    match push_string_list(&mut picked, raw) {
        Ok(()) => {},
        Err(e) => {
            return Err(e);
        },
    }
    proof {
        assert(strs_view(picked@) =~= picks_spec(*raw)->Ok_0);
    }
    let note = note_for(notes, q.question.as_str());
    if picked.len() == 0 && note.as_str().is_empty() {
        return Err(AnswerError::MissingAnswer);
    }
    if !q.multi_select && picked.len() > 1 {
        return Err(AnswerError::TooManyAnswers);
    }
    if picked.len() == 0 {
        let ghost before = strs_view(picked@);
        picked.push(note.clone());
        proof {
            assert(strs_view(picked@) =~= seq![note@]);
        }
    }
    proof {
        assert(strs_view(picked@)[0] == picked@[0]@);
    }
    let preview = if q.multi_select {
        None
    } else {
        preview_for(q, picked[0].as_str())
    };
    let has_note = !note.as_str().is_empty();
    let ann = if preview.is_some() || has_note {
        Some(Annotation { preview, notes: if has_note { Some(note) } else { None } })
    } else {
        None
    };
    let value = if q.multi_select {
        AnswerValue::Many(picked)
    } else {
        AnswerValue::One(picked[0].clone())
    };
    proof {
        if !q.multi_select {
            assert(strs_view(picked@).len() == 1);
            assert(seq![picked@[0]@] =~= strs_view(picked@));
        }
    }
    Ok((value, ann))
}

/// The user's answers to a card, checked against its questions: each
/// question needs an answer or a note, a single choice at most one answer;
/// answers and annotations are keyed by question text (a repeated question
/// keeps its place and takes the later answer).
pub fn validate_accepted(questions: &[AskQuestion], answers: &FieldVal, notes: &FieldVal) -> (r: Result<Answers, AnswerError>)
    ensures
        match validate_spec(questions_view(questions@), *answers, *notes) {
            Err(e) => r == Err::<Answers, AnswerError>(e),
            Ok(v) => r matches Ok(a) && answers_view(a.answers@) == v.0 && annotations_view(
                a.annotations@,
            ) == v.1,
        },
{
    let ghost qv = questions_view(questions@);
    let mut out: Vec<(String, AnswerValue)> = Vec::new();
    let mut anns: Vec<(String, Annotation)> = Vec::new();
    let mut i: usize = 0;
    proof {
        assert(qv.take(0) =~= Seq::<QuestionV>::empty());
        assert(answers_view(out@) =~= Seq::<(Seq<char>, AnsV)>::empty());
        assert(annotations_view(anns@) =~= Seq::<(Seq<char>, AnnV)>::empty());
    }
    while i < questions.len()
        invariant
            i <= questions.len(),
            qv == questions_view(questions@),
            keys_unique(answers_view(out@)),
            keys_unique(annotations_view(anns@)),
            validate_spec(qv.take(i as int), *answers, *notes) == Ok::<AnswersV, AnswerError>(
                (answers_view(out@), annotations_view(anns@)),
            ),
        decreases questions.len() - i,
    {
        let q = &questions[i];
        proof {
            assert(qv.take(i + 1).drop_last() =~= qv.take(i as int));
            assert(qv.take(i + 1).last() == question_view(*q));
        }
        match answer_one(q, answers, notes) {
            Err(e) => {
                proof {
                    lemma_validate_err(qv, *answers, *notes, i as int + 1);
                }
                return Err(e);
            },
            Ok((v, ann)) => {
                set_answer(&mut out, &q.question, v);
                match ann {
                    Some(n) => set_annotation(&mut anns, &q.question, n),
                    None => {},
                }
            },
        }
        i += 1;
    }
    proof {
        assert(qv.take(i as int) =~= qv);
    }
    Ok(Answers { answers: out, annotations: anns })
}

proof fn lemma_validate_err(qs: Seq<QuestionV>, answers: FieldVal, notes: FieldVal, k: int)
    requires
        0 < k <= qs.len(),
        validate_spec(qs.take(k), answers, notes) is Err,
    ensures
        validate_spec(qs, answers, notes) == validate_spec(qs.take(k), answers, notes),
    decreases qs.len() - k,
{
    if k < qs.len() {
        assert(qs.take(k + 1).drop_last() =~= qs.take(k));
        lemma_validate_err(qs, answers, notes, k + 1);
    } else {
        assert(qs.take(k) =~= qs);
    }
}

/// The reply to grok's `ask_user_question`: the user skipped, wants to chat,
/// or answered (the annotations given only when there are some).
#[derive(Debug, Clone)]
pub enum AskUserReply {
    SkipInterview,
    ChatAboutThis,
    Accepted(Vec<(String, AnswerValue)>, Option<Vec<(String, Annotation)>>),
}

pub fn ask_user_reply(outcome: &str, answers: Answers) -> (r: AskUserReply)
    ensures
        outcome_spec(outcome@) == "skip_interview"@ ==> r is SkipInterview,
        outcome_spec(outcome@) == "chat_about_this"@ ==> r is ChatAboutThis,
        outcome_spec(outcome@) == "accepted"@ ==> (r matches AskUserReply::Accepted(a, n)
            && answers_view(a@) == answers_view(answers.answers@) && match n {
            Some(x) => answers.annotations@.len() > 0 && annotations_view(x@) == annotations_view(
                answers.annotations@,
            ),
            None => answers.annotations@.len() == 0,
        }),
{
    let o = normalize_outcome(outcome);
    proof {
        reveal_strlit("skip_interview");
        reveal_strlit("chat_about_this");
        reveal_strlit("accepted");
        assert("skip_interview"@[0] == 's');
        assert("chat_about_this"@[0] == 'c');
        assert("accepted"@[0] == 'a');
    }
    if str_eq(o, "skip_interview") {
        AskUserReply::SkipInterview
    } else if str_eq(o, "chat_about_this") {
        AskUserReply::ChatAboutThis
    } else {
        let n = if answers.annotations.len() > 0 {
            Some(answers.annotations)
        } else {
            None
        };
        AskUserReply::Accepted(answers.answers, n)
    }
}

/// An answer as JSON: a single pick as a string, a multi-select pick as
/// an array of strings.
pub open spec fn answer_json_ok(v: FieldVal, a: AnsV) -> bool {
    if a.0 {
        v matches FieldVal::Array(xs) && xs@.len() == a.1.len() && forall|j: int|
            0 <= j < xs@.len() ==> is_text(#[trigger] xs@[j], a.1[j])
    } else {
        a.1.len() == 1 && is_text(v, a.1[0])
    }
}

/// An annotation as JSON: an object with `preview` and then `notes`, each
/// where it is set.
pub open spec fn annotation_json_ok(v: FieldVal, a: AnnV) -> bool {
    v matches FieldVal::Object(fs) && match a.0 {
        Some(p) => match a.1 {
            Some(n) => fs@.len() == 2 && fs@[0].0@ == "preview"@ && is_text(fs@[0].1, p) && fs@[1].0@
                == "notes"@ && is_text(fs@[1].1, n),
            None => fs@.len() == 1 && fs@[0].0@ == "preview"@ && is_text(fs@[0].1, p),
        },
        None => match a.1 {
            Some(n) => fs@.len() == 1 && fs@[0].0@ == "notes"@ && is_text(fs@[0].1, n),
            None => fs@.len() == 0,
        },
    }
}

fn answer_json(a: &AnswerValue) -> (r: FieldVal)
    ensures
        answer_json_ok(r, answer_view(*a)),
{
    match a {
        AnswerValue::One(s) => FieldVal::Str(s.clone()),
        AnswerValue::Many(v) => {
            let mut xs: Vec<FieldVal> = Vec::new();
            let mut j: usize = 0;
            while j < v.len()
                invariant
                    j <= v.len(),
                    xs@.len() == j,
                    forall|k: int| 0 <= k < j ==> is_text(#[trigger] xs@[k], v@[k]@),
                decreases v.len() - j,
            {
                xs.push(FieldVal::Str(v[j].clone()));
                j += 1;
            }
            proof {
                assert forall|k: int| 0 <= k < xs@.len() implies is_text(
                    #[trigger] xs@[k],
                    strs_view(v@)[k],
                ) by {
                    assert(strs_view(v@)[k] == v@[k]@);
                }
            }
            FieldVal::Array(xs)
        },
    }
}

fn annotation_json(a: &Annotation) -> (r: FieldVal)
    ensures
        annotation_json_ok(r, annotation_view(*a)),
{
    let mut fs: Vec<(String, FieldVal)> = Vec::new();
    proof {
        reveal_strlit("preview");
        reveal_strlit("notes");
    }
    match &a.preview {
        Some(p) => fs.push(entry("preview", FieldVal::Str(p.clone()))),
        None => {},
    }
    match &a.notes {
        Some(n) => fs.push(entry("notes", FieldVal::Str(n.clone()))),
        None => {},
    }
    FieldVal::Object(fs)
}

/// Checked answers as the JSON the reply carries: an object of the answers
/// by question text, and an object of the annotations by question text.
pub fn answers_json(a: &Answers) -> (r: (FieldVal, FieldVal))
    ensures
        r.0 matches FieldVal::Object(fs) && fs@.len() == a.answers@.len() && forall|i: int|
            0 <= i < fs@.len() ==> (#[trigger] fs@[i]).0@ == a.answers@[i].0@ && answer_json_ok(
                fs@[i].1,
                answer_view(a.answers@[i].1),
            ),
        r.1 matches FieldVal::Object(gs) && gs@.len() == a.annotations@.len() && forall|i: int|
            0 <= i < gs@.len() ==> (#[trigger] gs@[i]).0@ == a.annotations@[i].0@ && annotation_json_ok(
                gs@[i].1,
                annotation_view(a.annotations@[i].1),
            ),
{
    let mut fs: Vec<(String, FieldVal)> = Vec::new();
    let mut i: usize = 0;
    while i < a.answers.len()
        invariant
            i <= a.answers.len(),
            fs@.len() == i,
            forall|k: int|
                0 <= k < i ==> (#[trigger] fs@[k]).0@ == a.answers@[k].0@ && answer_json_ok(
                    fs@[k].1,
                    answer_view(a.answers@[k].1),
                ),
        decreases a.answers.len() - i,
    {
        let v = answer_json(&a.answers[i].1);
        fs.push((a.answers[i].0.clone(), v));
        i += 1;
    }
    let mut gs: Vec<(String, FieldVal)> = Vec::new();
    let mut i: usize = 0;
    while i < a.annotations.len()
        invariant
            i <= a.annotations.len(),
            gs@.len() == i,
            forall|k: int|
                0 <= k < i ==> (#[trigger] gs@[k]).0@ == a.annotations@[k].0@ && annotation_json_ok(
                    gs@[k].1,
                    annotation_view(a.annotations@[k].1),
                ),
        decreases a.annotations.len() - i,
    {
        let v = annotation_json(&a.annotations[i].1);
        gs.push((a.annotations[i].0.clone(), v));
        i += 1;
    }
    (FieldVal::Object(fs), FieldVal::Object(gs))
}

/// A JSON object with at least one field.
pub open spec fn nonempty_object(v: FieldVal) -> bool {
    v matches FieldVal::Object(fs) && fs@.len() > 0
}

/// The reply to grok's `ask_user_question`, as JSON: `{"outcome":
/// "skip_interview"}` or `{"outcome": "chat_about_this"}` (by
/// [`normalize_outcome`]); else `outcome` `accepted` with the `answers`,
/// empty `partial_answers`, and the `annotations` where they are a
/// non-empty object.
pub fn ask_user_result(outcome: &str, answers: FieldVal, annotations: FieldVal) -> (r: FieldVal)
    ensures
        outcome_spec(outcome@) == "skip_interview"@ ==> has_keys(r, seq!["outcome"@]) && is_text(
            at(r, 0),
            "skip_interview"@,
        ),
        outcome_spec(outcome@) == "chat_about_this"@ ==> has_keys(r, seq!["outcome"@]) && is_text(
            at(r, 0),
            "chat_about_this"@,
        ),
        outcome_spec(outcome@) == "accepted"@ ==> {
            &&& nonempty_object(annotations) ==> has_keys(
                r,
                seq!["outcome"@, "answers"@, "partial_answers"@, "annotations"@],
            ) && at(r, 3) == annotations
            &&& !nonempty_object(annotations) ==> has_keys(
                r,
                seq!["outcome"@, "answers"@, "partial_answers"@],
            )
            &&& is_text(at(r, 0), "accepted"@)
            &&& at(r, 1) == answers
            &&& at(r, 2) matches FieldVal::Object(e) && e@.len() == 0
        },
{
    let o = normalize_outcome(outcome);
    proof {
        reveal_strlit("skip_interview");
        reveal_strlit("chat_about_this");
        reveal_strlit("accepted");
        assert("skip_interview"@[0] == 's');
        assert("chat_about_this"@[0] == 'c');
        assert("accepted"@[0] == 'a');
    }
    let mut fs: Vec<(String, FieldVal)> = Vec::new();
    if str_eq(o, "skip_interview") {
        fs.push(entry("outcome", text("skip_interview")));
    } else if str_eq(o, "chat_about_this") {
        fs.push(entry("outcome", text("chat_about_this")));
    } else {
        let keep = match &annotations {
            FieldVal::Object(a) => a.len() > 0,
            _ => false,
        };
        fs.push(entry("outcome", text("accepted")));
        fs.push(entry("answers", answers));
        fs.push(entry("partial_answers", FieldVal::Object(Vec::new())));
        if keep {
            fs.push(entry("annotations", annotations));
        }
    }
    FieldVal::Object(fs)
}

/// The reply to an elicitation request: cancelled, or the answers keyed by
/// each question's header (its text where it has none).
#[derive(Debug, Clone)]
pub enum ElicitReply {
    Cancel,
    Accept(Vec<(String, AnswerValue)>),
}

/// The value stored under `k`.
pub open spec fn obj_get<V>(fs: Seq<(Seq<char>, V)>, k: Seq<char>) -> Option<V>
    decreases fs.len(),
{
    if fs.len() == 0 {
        None
    } else if fs[0].0 == k {
        Some(fs[0].1)
    } else {
        obj_get(fs.drop_first(), k)
    }
}

/// The content of an accepted elicitation: for each question, its answer
/// under its header (or text).
pub open spec fn content_spec(qs: Seq<QuestionV>, validated: Seq<(Seq<char>, AnsV)>) -> Seq<(Seq<char>, AnsV)>
    decreases qs.len(),
{
    if qs.len() == 0 {
        Seq::empty()
    } else {
        let acc = content_spec(qs.drop_last(), validated);
        let q = qs.last();
        let key = if q.1.len() == 0 {
            q.0
        } else {
            q.1
        };
        match obj_get(validated, q.0) {
            Some(v) => obj_set(acc, key, v),
            None => acc,
        }
    }
}

fn get_answer(fs: &Vec<(String, AnswerValue)>, k: &str) -> (r: Option<AnswerValue>)
    ensures
        match obj_get(answers_view(fs@), k@) {
            Some(v) => r matches Some(x) && answer_view(x) == v,
            None => r is None,
        },
{
    let ghost fv = answers_view(fs@);
    let mut i: usize = 0;
    proof {
        assert(fv.skip(0) =~= fv);
    }
    while i < fs.len()
        invariant
            i <= fs.len(),
            fv == answers_view(fs@),
            obj_get(fv, k@) == obj_get(fv.skip(i as int), k@),
        decreases fs.len() - i,
    {
        proof {
            assert(fv.skip(i as int)[0] == fv[i as int]);
            assert(fv.skip(i as int).drop_first() =~= fv.skip(i + 1));
        }
        if str_eq(fs[i].0.as_str(), k) {
            return Some(
                match &fs[i].1 {
                    AnswerValue::One(s) => AnswerValue::One(s.clone()),
                    AnswerValue::Many(v) => {
                        let mut c: Vec<String> = Vec::new();
                        let mut j: usize = 0;
                        while j < v.len()
                            invariant
                                j <= v.len(),
                                strs_view(c@) == strs_view(v@).take(j as int),
                            decreases v.len() - j,
                        {
                            let ghost before = strs_view(c@);
                            c.push(v[j].clone());
                            proof {
                                assert(strs_view(c@) =~= before.push(v@[j as int]@));
                                assert(strs_view(v@).take(j + 1) =~= strs_view(v@).take(j as int).push(
                                    v@[j as int]@,
                                ));
                            }
                            j += 1;
                        }
                        proof {
                            assert(strs_view(v@).take(j as int) =~= strs_view(v@));
                        }
                        AnswerValue::Many(c)
                    },
                },
            );
        }
        i += 1;
    }
    proof {
        assert(fv.skip(i as int) =~= Seq::<(Seq<char>, AnsV)>::empty());
    }
    None
}

pub fn elicitation_result(outcome: &str, questions: &[AskQuestion], answers: &FieldVal, notes: &FieldVal) -> (r: Result<ElicitReply, AnswerError>)
    ensures
        outcome_spec(outcome@) != "accepted"@ ==> r matches Ok(ElicitReply::Cancel),
        outcome_spec(outcome@) == "accepted"@ ==> match validate_spec(
            questions_view(questions@),
            *answers,
            *notes,
        ) {
            Err(e) => r == Err::<ElicitReply, AnswerError>(e),
            Ok(v) => r matches Ok(ElicitReply::Accept(c)) && answers_view(c@) == content_spec(
                questions_view(questions@),
                v.0,
            ),
        },
{
    let o = normalize_outcome(outcome);
    proof {
        reveal_strlit("accepted");
    }
    if !str_eq(o, "accepted") {
        return Ok(ElicitReply::Cancel);
    }
    let validated = match validate_accepted(questions, answers, notes) {
        Ok(v) => v,
        Err(e) => {
            return Err(e);
        },
    };
    let ghost qv = questions_view(questions@);
    let ghost vv = answers_view(validated.answers@);
    let mut content: Vec<(String, AnswerValue)> = Vec::new();
    let mut i: usize = 0;
    proof {
        assert(qv.take(0) =~= Seq::<QuestionV>::empty());
        assert(answers_view(content@) =~= Seq::<(Seq<char>, AnsV)>::empty());
    }
    while i < questions.len()
        invariant
            i <= questions.len(),
            qv == questions_view(questions@),
            vv == answers_view(validated.answers@),
            keys_unique(answers_view(content@)),
            answers_view(content@) == content_spec(qv.take(i as int), vv),
        decreases questions.len() - i,
    {
        let q = &questions[i];
        proof {
            assert(qv.take(i + 1).drop_last() =~= qv.take(i as int));
            assert(qv.take(i + 1).last() == question_view(*q));
        }
        let key = if q.header.as_str().is_empty() {
            q.question.clone()
        } else {
            q.header.clone()
        };
        match get_answer(&validated.answers, q.question.as_str()) {
            Some(v) => set_answer(&mut content, &key, v),
            None => {},
        }
        i += 1;
    }
    proof {
        assert(qv.take(i as int) =~= qv);
    }
    Ok(ElicitReply::Accept(content))
}


/// The fields of an object, keys by their text.
pub open spec fn fields_view(fs: Seq<(String, FieldVal)>) -> Seq<(Seq<char>, FieldVal)> {
    Seq::new(fs.len(), |i: int| (fs[i].0@, fs[i].1))
}

/// The value under `k`, the first where it occurs twice.
pub open spec fn fget(fs: Seq<(Seq<char>, FieldVal)>, k: Seq<char>) -> Option<FieldVal>
    decreases fs.len(),
{
    if fs.len() == 0 {
        None
    } else if fs[0].0 == k {
        Some(fs[0].1)
    } else {
        fget(fs.drop_first(), k)
    }
}

/// `k` set to `v`: its first entry replaced, or a new entry at the end.
pub open spec fn fset(fs: Seq<(Seq<char>, FieldVal)>, k: Seq<char>, v: FieldVal) -> Seq<(Seq<char>, FieldVal)>
    decreases fs.len(),
{
    if fs.len() == 0 {
        seq![(k, v)]
    } else if fs[0].0 == k {
        fs.update(0, (k, v))
    } else {
        seq![fs[0]] + fset(fs.drop_first(), k, v)
    }
}

proof fn lemma_fget_view(fs: Seq<(String, FieldVal)>, k: Seq<char>)
    ensures
        field_of(fs, k) == fget(fields_view(fs), k),
    decreases fs.len(),
{
    if fs.len() > 0 {
        assert(fields_view(fs).drop_first() =~= fields_view(fs.drop_first()));
        lemma_fget_view(fs.drop_first(), k);
    }
}

proof fn lemma_fget_remove(fs: Seq<(Seq<char>, FieldVal)>, j: int, k: Seq<char>)
    requires
        0 <= j < fs.len(),
        fs[j].0 != k,
    ensures
        fget(fs.remove(j), k) == fget(fs, k),
    decreases fs.len(),
{
    if j > 0 {
        assert(fs.remove(j)[0] == fs[0]);
        assert(fs.remove(j).drop_first() =~= fs.drop_first().remove(j - 1));
        lemma_fget_remove(fs.drop_first(), j - 1, k);
    } else {
        assert(fs.remove(0) =~= fs.drop_first());
    }
}

/// The first position of `k` in `fs`.
proof fn lemma_fset_at(fs: Seq<(Seq<char>, FieldVal)>, k: Seq<char>, v: FieldVal, i: int)
    requires
        0 <= i <= fs.len(),
        forall|j: int| 0 <= j < i ==> (#[trigger] fs[j]).0 != k,
        i < fs.len() ==> fs[i].0 == k,
    ensures
        fset(fs, k, v) == (if i < fs.len() {
            fs.update(i, (k, v))
        } else {
            fs.push((k, v))
        }),
    decreases i,
{
    if i > 0 {
        lemma_fset_at(fs.drop_first(), k, v, i - 1);
        if i < fs.len() {
            assert(seq![fs[0]] + fs.drop_first().update(i - 1, (k, v)) =~= fs.update(i, (k, v)));
        } else {
            assert(seq![fs[0]] + fs.drop_first().push((k, v)) =~= fs.push((k, v)));
        }
    } else if fs.len() == 0 {
        assert(seq![(k, v)] =~= fs.push((k, v)));
    }
}

/// A field that counts as not given: absent, null, an empty string or an empty list.
pub open spec fn missing_val(o: Option<FieldVal>) -> bool {
    match o {
        None => true,
        Some(FieldVal::Null) => true,
        Some(FieldVal::Str(s)) => s@.len() == 0,
        Some(FieldVal::Array(a)) => a@.len() == 0,
        _ => false,
    }
}

pub open spec fn merge_keys() -> Seq<Seq<char>> {
    seq!["sessionId"@, "session_id"@, "toolCallId"@, "tool_call_id"@, "mode"@, "questions"@]
}

/// The session, tool call, mode and questions of the envelope copied into
/// the inner request where it does not give them.
pub open spec fn merge_fields(inner: Seq<(Seq<char>, FieldVal)>, outer: FieldVal, keys: Seq<Seq<char>>) -> Seq<(Seq<char>, FieldVal)>
    decreases keys.len(),
{
    if keys.len() == 0 {
        inner
    } else {
        let st = merge_fields(inner, outer, keys.drop_last());
        let k = keys.last();
        if missing_val(fget(st, k)) && get(outer, k) is Some {
            fset(st, k, get(outer, k)->Some_0)
        } else {
            st
        }
    }
}

proof fn lemma_merge_keys_distinct()
    ensures
        forall|i: int, j: int| 0 <= i < j < 6 ==> merge_keys()[i] != merge_keys()[j],
        forall|i: int| 0 <= i < 6 ==> merge_keys()[i] != "params"@,
{
    reveal_strlit("sessionId");
    reveal_strlit("session_id");
    reveal_strlit("toolCallId");
    reveal_strlit("tool_call_id");
    reveal_strlit("mode");
    reveal_strlit("questions");
    reveal_strlit("params");
    let k = merge_keys();
    assert(k[0].len() == 9 && k[0][0] == 's');
    assert(k[1].len() == 10 && k[1][0] == 's');
    assert(k[2].len() == 10 && k[2][0] == 't');
    assert(k[3].len() == 12);
    assert(k[4].len() == 4);
    assert(k[5].len() == 9 && k[5][0] == 'q');
    assert("params"@.len() == 6);
}

fn first_key(fs: &Vec<(String, FieldVal)>, k: &str) -> (r: usize)
    ensures
        r <= fs.len(),
        forall|j: int| 0 <= j < r ==> (#[trigger] fields_view(fs@)[j]).0 != k@,
        r < fs.len() ==> fields_view(fs@)[r as int].0 == k@,
{
    let mut i: usize = 0;
    while i < fs.len()
        invariant
            i <= fs.len(),
            forall|j: int| 0 <= j < i ==> (#[trigger] fields_view(fs@)[j]).0 != k@,
        decreases fs.len() - i,
    {
        if str_eq(fs[i].0.as_str(), k) {
            return i;
        }
        i += 1;
    }
    i
}

proof fn lemma_fget_first(fs: Seq<(Seq<char>, FieldVal)>, k: Seq<char>, i: int)
    requires
        0 <= i <= fs.len(),
        forall|j: int| 0 <= j < i ==> (#[trigger] fs[j]).0 != k,
        i < fs.len() ==> fs[i].0 == k,
    ensures
        fget(fs, k) == (if i < fs.len() {
            Some(fs[i].1)
        } else {
            None
        }),
    decreases i,
{
    if i > 0 {
        lemma_fget_first(fs.drop_first(), k, i - 1);
    }
}

fn is_missing(o: Option<&FieldVal>) -> (r: bool)
    ensures
        r == missing_val(
            match o {
                Some(x) => Some(*x),
                None => None,
            },
        ),
{
    match o {
        None => true,
        Some(FieldVal::Null) => true,
        Some(FieldVal::Str(s)) => s.as_str().is_empty(),
        Some(FieldVal::Array(a)) => a.len() == 0,
        _ => false,
    }
}

fn merge_session_fields_exec(outer: &mut Vec<(String, FieldVal)>, inner: &mut Vec<(String, FieldVal)>)
    ensures
        fields_view(final(inner)@) == merge_fields(
            fields_view(old(inner)@),
            FieldVal::Object(*old(outer)),
            merge_keys(),
        ),
{
    let keys: [&str; 6] = ["sessionId", "session_id", "toolCallId", "tool_call_id", "mode", "questions"];
    let ghost ks = crate::parse::strs_view(keys@);
    let ghost o0 = fields_view(outer@);
    let ghost i0 = fields_view(inner@);
    let ghost outer_val = FieldVal::Object(*outer);
    proof {
        assert(ks =~= merge_keys());
        assert(ks.take(0) =~= Seq::<Seq<char>>::empty());
    }
    let mut n: usize = 0;
    while n < 6
        invariant
            n <= 6,
            ks == merge_keys(),
            ks == crate::parse::strs_view(keys@),
            o0 == fields_view(old(outer)@),
            i0 == fields_view(old(inner)@),
            outer_val == FieldVal::Object(*old(outer)),
            fields_view(inner@) == merge_fields(i0, outer_val, ks.take(n as int)),
            forall|q: int| n <= q < 6 ==> fget(fields_view(outer@), #[trigger] ks[q]) == fget(o0, ks[q]),
        decreases 6 - n,
    {
        let k = keys[n];
        proof {
            assert(ks[n as int] == k@);
            assert(ks.take(n + 1).drop_last() =~= ks.take(n as int));
            assert(ks.take(n + 1).last() == k@);
            lemma_fget_view(old(outer)@, k@);
            assert(get(outer_val, k@) == fget(o0, k@));
        }
        let pi = first_key(inner, k);
        proof {
            lemma_fget_first(fields_view(inner@), k@, pi as int);
        }
        let missing = if pi < inner.len() {
            is_missing(Some(&inner[pi].1))
        } else {
            true
        };
        let po = first_key(outer, k);
        proof {
            lemma_fget_first(fields_view(outer@), k@, po as int);
        }
        if missing && po < outer.len() {
            let ghost ov = fields_view(outer@);
            let (_, v) = outer.remove(po);
            proof {
                assert forall|q: int| n + 1 <= q < 6 implies fget(fields_view(outer@), #[trigger] ks[q])
                    == fget(o0, ks[q]) by {
                    lemma_merge_keys_distinct();
                    assert(ks[q] != ks[n as int]);
                    assert(fields_view(outer@) =~= ov.remove(po as int));
                    lemma_fget_remove(ov, po as int, ks[q]);
                }
            }
            let ghost iv = fields_view(inner@);
            proof {
                lemma_fset_at(iv, k@, v, pi as int);
            }
            if pi < inner.len() {
                inner.set(pi, (k.to_string(), v));
                proof {
                    assert(fields_view(inner@) =~= iv.update(pi as int, (k@, v)));
                }
            } else {
                inner.push((k.to_string(), v));
                proof {
                    assert(fields_view(inner@) =~= iv.push((k@, v)));
                }
            }
        } else {
            proof {
                assert(forall|q: int| n + 1 <= q < 6 ==> fget(fields_view(outer@), #[trigger] ks[q])
                    == fget(o0, ks[q]));
            }
        }
        n += 1;
    }
    proof {
        assert(ks.take(6) =~= ks);
    }
}

/// The inner request of an `ext_method` envelope: the method it names, and
/// its `params` (or the envelope itself) with the envelope's session fields
/// filled in. Other requests pass through unchanged.
pub open spec fn unwrap_spec(method: Seq<char>, params: FieldVal) -> (Seq<char>, Option<FieldVal>) {
    if ask_method_spec(method) {
        (method, None)
    } else {
        let stripped = strip_underscore(method);
        let nested = text_of(params, seq!["method"@, "name"@]);
        let wrapped = stripped.len() == 0 || stripped == "_"@ || stripped == "ext_method"@ || stripped
            == "session/ext_method"@ || method == "_"@;
        if wrapped && ask_method_spec(nested) {
            (nested, Some(match get(params, "params"@) {
                Some(x) => x,
                None => params,
            }))
        } else {
            (method, None)
        }
    }
}

proof fn lemma_merge_outer_eq(x: Seq<(Seq<char>, FieldVal)>, o1: FieldVal, o2: FieldVal, keys: Seq<Seq<char>>)
    requires
        forall|i: int| 0 <= i < keys.len() ==> get(o1, #[trigger] keys[i]) == get(o2, keys[i]),
    ensures
        merge_fields(x, o1, keys) == merge_fields(x, o2, keys),
    decreases keys.len(),
{
    if keys.len() > 0 {
        assert forall|i: int| 0 <= i < keys.drop_last().len() implies get(o1, #[trigger] keys.drop_last()[i])
            == get(o2, keys.drop_last()[i]) by {
            assert(keys.drop_last()[i] == keys[i]);
        }
        lemma_merge_outer_eq(x, o1, o2, keys.drop_last());
        assert(get(o1, keys[keys.len() - 1]) == get(o2, keys[keys.len() - 1]));
    }
}

proof fn lemma_fset_same(fs: Seq<(Seq<char>, FieldVal)>, k: Seq<char>, v: FieldVal)
    requires
        fget(fs, k) == Some(v),
    ensures
        fset(fs, k, v) == fs,
    decreases fs.len(),
{
    if fs.len() > 0 {
        if fs[0].0 == k {
            assert(fs.update(0, (k, v)) =~= fs);
        } else {
            lemma_fset_same(fs.drop_first(), k, v);
            assert(seq![fs[0]] + fs.drop_first() =~= fs);
        }
    }
}

proof fn lemma_merge_self(v: Vec<(String, FieldVal)>, keys: Seq<Seq<char>>)
    ensures
        merge_fields(fields_view(v@), FieldVal::Object(v), keys) == fields_view(v@),
    decreases keys.len(),
{
    if keys.len() > 0 {
        lemma_merge_self(v, keys.drop_last());
        let k = keys.last();
        lemma_fget_view(v@, k);
        match fget(fields_view(v@), k) {
            Some(x) => lemma_fset_same(fields_view(v@), k, x),
            None => {},
        }
    }
}

/// An `ext_method` envelope unwrapped: the method and the request to read.
pub fn unwrap_ext_request(method: &str, params: FieldVal) -> (r: (String, FieldVal))
    ensures
        ({
            let u = unwrap_spec(method@, params);
            &&& r.0@ == u.0
            &&& match u.1 {
                None => r.1 == params,
                Some(inner) => match inner {
                    FieldVal::Object(ifs) => r.1 matches FieldVal::Object(fs2) && fields_view(fs2@)
                        == merge_fields(fields_view(ifs@), params, merge_keys()),
                    _ => r.1 == inner,
                },
            }
        }),
{
    if is_ask_user_method(method) {
        return (method.to_string(), params);
    }
    let mv = chars_of(method);
    let stripped = strip_underscore_exec(&mv);
    let nk: [&str; 2] = ["method", "name"];
    proof {
        assert(crate::parse::strs_view(nk@) =~= seq!["method"@, "name"@]);
    }
    let nested = text_field(&params, &nk);
    let nested_s = string_of(&nested);
    let wrapped = stripped.len() == 0 || eq_str(&stripped, "_") || eq_str(&stripped, "ext_method")
        || eq_str(&stripped, "session/ext_method") || str_eq(method, "_");
    if !(wrapped && is_ask_user_method(nested_s.as_str())) {
        return (method.to_string(), params);
    }
    match params {
        FieldVal::Object(fs) => {
            let mut outer = fs;
            let ghost fs0 = outer@;
            let pi = first_key(&outer, "params");
            proof {
                lemma_fget_first(fields_view(outer@), "params"@, pi as int);
                lemma_fget_view(outer@, "params"@);
            }
            if pi < outer.len() {
                let ghost ov = outer;
                let (_, inner) = outer.remove(pi);
                match inner {
                    FieldVal::Object(ifs) => {
                        let mut ifs = ifs;
                        proof {
                            assert forall|key: Seq<char>| key != "params"@ implies fget(fields_view(outer@), key)
                                == fget(fields_view(ov@), key) by {
                                assert(fields_view(outer@) =~= fields_view(ov@).remove(pi as int));
                                lemma_fget_remove(fields_view(ov@), pi as int, key);
                            }
                        }
                        let ghost outer_now = outer;
                        let ghost ifs0 = fields_view(ifs@);
                        merge_session_fields_exec(&mut outer, &mut ifs);
                        proof {
                            let mk = merge_keys();
                            assert forall|i: int| 0 <= i < mk.len() implies get(
                                FieldVal::Object(outer_now),
                                #[trigger] mk[i],
                            ) == get(FieldVal::Object(ov), mk[i]) by {
                                lemma_fget_view(outer_now@, mk[i]);
                                lemma_fget_view(ov@, mk[i]);
                                lemma_merge_keys_distinct();
                            }
                            lemma_merge_outer_eq(ifs0, FieldVal::Object(outer_now), FieldVal::Object(ov), mk);
                        }
                        (nested_s, FieldVal::Object(ifs))
                    },
                    other => (nested_s, other),
                }
            } else {
                proof {
                    lemma_merge_self(outer, merge_keys());
                }
                (nested_s, FieldVal::Object(outer))
            }
        },
        other => (nested_s, other),
    }
}


/// A question request given the tool call id `fallback` where it names none
/// (and is an object); unchanged otherwise, or when `fallback` is empty.
pub fn with_fallback_tool_id(params: FieldVal, fallback: &str) -> (r: FieldVal)
    ensures
        fallback@.len() == 0 || layer_text(params, 0, tool_keys()).len() > 0 ==> r == params,
        fallback@.len() > 0 && layer_text(params, 0, tool_keys()).len() == 0 ==> match params {
            FieldVal::Object(fs) => r matches FieldVal::Object(fs2) && exists|t: String|
                t@ == fallback@ && fields_view(fs2@) == fset(
                    fields_view(fs@),
                    "toolCallId"@,
                    FieldVal::Str(t),
                ),
            _ => r == params,
        },
{
    if fallback.is_empty() {
        return params;
    }
    if !parse_ask_user_params(&params).tool_id.as_str().is_empty() {
        return params;
    }
    match params {
        FieldVal::Object(fs) => {
            let mut fs = fs;
            let ghost fv = fields_view(fs@);
            let i = first_key(&fs, "toolCallId");
            let t = fallback.to_string();
            proof {
                lemma_fset_at(fv, "toolCallId"@, FieldVal::Str(t), i as int);
            }
            if i < fs.len() {
                fs.set(i, ("toolCallId".to_string(), FieldVal::Str(t)));
                proof {
                    assert(fields_view(fs@) =~= fv.update(i as int, ("toolCallId"@, FieldVal::Str(t))));
                }
            } else {
                fs.push(("toolCallId".to_string(), FieldVal::Str(t)));
                proof {
                    assert(fields_view(fs@) =~= fv.push(("toolCallId"@, FieldVal::Str(t))));
                }
            }
            FieldVal::Object(fs)
        },
        other => other,
    }
}


/// The client name ggok gives grok.
pub const ACP_CLIENT_IDENTIFIER: &'static str = "ggok";

/// The rules ggok adds to each session: how to ask the user a question
/// through its MCP server.
pub open spec fn ask_rules_spec() -> Seq<char> {
    "To ask the user a multiple-choice question, call use_tool on MCP server "@ + ASK_MCP_NAME@
        + ", tool "@ + ASK_MCP_TOOL@
        + ", with a questions array. Each item needs question text and options with label fields. Set multiSelect true when several answers are allowed. Do not write the questions as markdown. Do not say the tool is unavailable."@
}

pub fn ask_user_rules() -> (r: String)
    ensures
        r@ == ask_rules_spec(),
{
    let mut out = chars_of("To ask the user a multiple-choice question, call use_tool on MCP server ");
    extend_str(&mut out, ASK_MCP_NAME);
    extend_str(&mut out, ", tool ");
    extend_str(&mut out, ASK_MCP_TOOL);
    extend_str(
        &mut out,
        ", with a questions array. Each item needs question text and options with label fields. Set multiSelect true when several answers are allowed. Do not write the questions as markdown. Do not say the tool is unavailable.",
    );
    string_of(&out)
}

/// The flag a session's `_meta` carries for its permission mode:
/// `yoloMode` for `always-approve`, `autoMode` for `auto`, none otherwise.
pub fn session_mode_flag(permission_mode: &str) -> (r: Option<&'static str>)
    ensures
        permission_mode@ == "always-approve"@ ==> (r matches Some(f) && f@ == "yoloMode"@),
        permission_mode@ == "auto"@ ==> (r matches Some(f) && f@ == "autoMode"@),
        permission_mode@ != "always-approve"@ && permission_mode@ != "auto"@ ==> r is None,
{
    proof {
        reveal_strlit("always-approve");
        reveal_strlit("auto");
        assert("always-approve"@.len() != "auto"@.len());
    }
    if str_eq(permission_mode, "always-approve") {
        Some("yoloMode")
    } else if str_eq(permission_mode, "auto") {
        Some("autoMode")
    } else {
        None
    }
}


/// The reply to a question card, by the kind of request it answers.
#[derive(Debug, Clone)]
pub enum QuestionResult {
    /// An `ask_user_question` request.
    Ask(AskUserReply),
    /// An elicitation (`form` mode).
    Form(ElicitReply),
}

/// The reply to a card closed by the user: an elicitation (`mode` is
/// `form`) gets the content or a cancel; an `ask_user_question` gets the
/// outcome, with the checked answers where they were accepted.
pub fn question_result(mode: &str, outcome: &str, questions: &[AskQuestion], answers: &FieldVal, notes: &FieldVal) -> (r:
    Result<QuestionResult, AnswerError>)
    ensures
        mode@ == "form"@ && outcome_spec(outcome@) != "accepted"@ ==> r matches Ok(
            QuestionResult::Form(ElicitReply::Cancel),
        ),
        mode@ == "form"@ && outcome_spec(outcome@) == "accepted"@ ==> match validate_spec(
            questions_view(questions@),
            *answers,
            *notes,
        ) {
            Err(e) => r == Err::<QuestionResult, AnswerError>(e),
            Ok(v) => r matches Ok(QuestionResult::Form(ElicitReply::Accept(c))) && answers_view(c@)
                == content_spec(questions_view(questions@), v.0),
        },
        mode@ != "form"@ && outcome_spec(outcome@) == "skip_interview"@ ==> r matches Ok(
            QuestionResult::Ask(AskUserReply::SkipInterview),
        ),
        mode@ != "form"@ && outcome_spec(outcome@) == "chat_about_this"@ ==> r matches Ok(
            QuestionResult::Ask(AskUserReply::ChatAboutThis),
        ),
        mode@ != "form"@ && outcome_spec(outcome@) == "accepted"@ ==> match validate_spec(
            questions_view(questions@),
            *answers,
            *notes,
        ) {
            Err(e) => r == Err::<QuestionResult, AnswerError>(e),
            Ok(v) => r matches Ok(QuestionResult::Ask(AskUserReply::Accepted(a, n))) && answers_view(a@)
                == v.0 && match n {
                Some(x) => v.1.len() > 0 && annotations_view(x@) == v.1,
                None => v.1.len() == 0,
            },
        },
{
    if str_eq(mode, "form") {
        return match elicitation_result(outcome, questions, answers, notes) {
            Ok(e) => Ok(QuestionResult::Form(e)),
            Err(e) => Err(e),
        };
    }
    let o = normalize_outcome(outcome);
    proof {
        reveal_strlit("accepted");
        reveal_strlit("skip_interview");
        reveal_strlit("chat_about_this");
        assert("accepted"@[0] != "skip_interview"@[0]);
        assert("accepted"@[0] != "chat_about_this"@[0]);
    }
    if str_eq(o, "accepted") {
        match validate_accepted(questions, answers, notes) {
            Ok(a) => Ok(QuestionResult::Ask(ask_user_reply(outcome, a))),
            Err(e) => Err(e),
        }
    } else {
        let none = Answers { answers: Vec::new(), annotations: Vec::new() };
        Ok(QuestionResult::Ask(ask_user_reply(outcome, none)))
    }
}


/// An object whose keys are `keys`, in order.
pub open spec fn has_keys(v: FieldVal, keys: Seq<Seq<char>>) -> bool {
    v matches FieldVal::Object(fs) && fs@.len() == keys.len() && forall|i: int|
        0 <= i < keys.len() ==> (#[trigger] fs@[i]).0@ == keys[i]
}

/// The value of an object's `i`-th field.
pub open spec fn at(v: FieldVal, i: int) -> FieldVal {
    match v {
        FieldVal::Object(fs) => fs@[i].1,
        _ => FieldVal::Null,
    }
}

/// A string with the given text.
pub open spec fn is_text(v: FieldVal, t: Seq<char>) -> bool {
    v matches FieldVal::Str(s) && s@ == t
}

pub(crate) fn text(t: &str) -> (r: FieldVal)
    ensures
        is_text(r, t@),
{
    FieldVal::Str(t.to_string())
}

pub(crate) fn entry(k: &str, v: FieldVal) -> (r: (String, FieldVal))
    ensures
        r.0@ == k@,
        r.1 == v,
{
    (k.to_string(), v)
}

/// The client extension flags: incremental and colourless bash output.
pub open spec fn ext_meta_ok(v: FieldVal) -> bool {
    &&& has_keys(v, seq!["x.ai/incrementalBashOutput"@, "x.ai/bashOutputNoColor"@])
    &&& at(v, 0) == FieldVal::Bool(true)
    &&& at(v, 1) == FieldVal::Bool(true)
}

fn client_ext_meta() -> (r: FieldVal)
    ensures
        ext_meta_ok(r),
{
    let mut fs: Vec<(String, FieldVal)> = Vec::new();
    fs.push(entry("x.ai/incrementalBashOutput", FieldVal::Bool(true)));
    fs.push(entry("x.ai/bashOutputNoColor", FieldVal::Bool(true)));
    FieldVal::Object(fs)
}

/// The `_meta` ggok sends with `session/new` and `session/load`: the bash
/// output flags, its name and version, the rules for asking the user, and
/// the flag of the permission mode where it has one (set to `true`).
pub open spec fn session_meta_ok(r: FieldVal, permission_mode: Seq<char>, version: Seq<char>) -> bool {
    let base = seq![
        "x.ai/incrementalBashOutput"@,
        "x.ai/bashOutputNoColor"@,
        "clientIdentifier"@,
        "clientVersion"@,
        "rules"@,
    ];
    &&& at(r, 0) == FieldVal::Bool(true)
    &&& at(r, 1) == FieldVal::Bool(true)
    &&& is_text(at(r, 2), ACP_CLIENT_IDENTIFIER@)
    &&& is_text(at(r, 3), version)
    &&& is_text(at(r, 4), ask_rules_spec())
    &&& if permission_mode == "always-approve"@ {
        has_keys(r, base.push("yoloMode"@)) && at(r, 5) == FieldVal::Bool(true)
    } else if permission_mode == "auto"@ {
        has_keys(r, base.push("autoMode"@)) && at(r, 5) == FieldVal::Bool(true)
    } else {
        has_keys(r, base)
    }
}

/// The `_meta` of `session/new` and `session/load` (`version` is ggok's).
pub fn acp_session_meta(permission_mode: &str, version: &str) -> (r: FieldVal)
    ensures
        session_meta_ok(r, permission_mode@, version@),
{
    let mut fs: Vec<(String, FieldVal)> = Vec::new();
    fs.push(entry("x.ai/incrementalBashOutput", FieldVal::Bool(true)));
    fs.push(entry("x.ai/bashOutputNoColor", FieldVal::Bool(true)));
    fs.push(entry("clientIdentifier", text(ACP_CLIENT_IDENTIFIER)));
    fs.push(entry("clientVersion", text(version)));
    fs.push(entry("rules", FieldVal::Str(ask_user_rules())));
    match session_mode_flag(permission_mode) {
        Some(flag) => fs.push(entry(flag, FieldVal::Bool(true))),
        None => {},
    }
    let r = FieldVal::Object(fs);
    proof {
        reveal_strlit("always-approve");
        reveal_strlit("auto");
        assert("always-approve"@.len() != "auto"@.len());
    }
    r
}

/// The parameters of ACP `initialize`: protocol 1; ggok's name, title
/// (`GGOK`) and version; no file system or terminal, form elicitation, and
/// the extension flags (also as `capabilities.meta`); and its name and
/// version again under `_meta`.
pub open spec fn initialize_ok(r: FieldVal, version: Seq<char>) -> bool {
    let info = at(r, 1);
    let caps = at(r, 2);
    let fsv = at(caps, 0);
    let elicit = at(caps, 2);
    let meta = at(r, 4);
    &&& has_keys(r, seq!["protocolVersion"@, "clientInfo"@, "clientCapabilities"@, "capabilities"@, "_meta"@])
    &&& at(r, 0) == FieldVal::UInt(1)
    &&& has_keys(info, seq!["name"@, "title"@, "version"@])
    &&& is_text(at(info, 0), ACP_CLIENT_IDENTIFIER@) && is_text(at(info, 1), "GGOK"@) && is_text(at(info, 2), version)
    &&& has_keys(caps, seq!["fs"@, "terminal"@, "elicitation"@, "_meta"@])
    &&& has_keys(fsv, seq!["readTextFile"@, "writeTextFile"@])
    &&& at(fsv, 0) == FieldVal::Bool(false) && at(fsv, 1) == FieldVal::Bool(false)
    &&& at(caps, 1) == FieldVal::Bool(false)
    &&& has_keys(elicit, seq!["form"@]) && has_keys(at(elicit, 0), Seq::empty())
    &&& ext_meta_ok(at(caps, 3))
    &&& has_keys(at(r, 3), seq!["meta"@]) && ext_meta_ok(at(at(r, 3), 0))
    &&& has_keys(meta, seq!["clientIdentifier"@, "clientVersion"@])
    &&& is_text(at(meta, 0), ACP_CLIENT_IDENTIFIER@) && is_text(at(meta, 1), version)
}

/// The parameters of ACP `initialize` (`version` is ggok's).
pub fn acp_initialize_params(version: &str) -> (r: FieldVal)
    ensures
        initialize_ok(r, version@),
{
    let mut info: Vec<(String, FieldVal)> = Vec::new();
    info.push(entry("name", text(ACP_CLIENT_IDENTIFIER)));
    info.push(entry("title", text("GGOK")));
    info.push(entry("version", text(version)));
    let mut fsv: Vec<(String, FieldVal)> = Vec::new();
    fsv.push(entry("readTextFile", FieldVal::Bool(false)));
    fsv.push(entry("writeTextFile", FieldVal::Bool(false)));
    let mut form: Vec<(String, FieldVal)> = Vec::new();
    form.push(entry("form", FieldVal::Object(Vec::new())));
    let mut caps: Vec<(String, FieldVal)> = Vec::new();
    caps.push(entry("fs", FieldVal::Object(fsv)));
    caps.push(entry("terminal", FieldVal::Bool(false)));
    caps.push(entry("elicitation", FieldVal::Object(form)));
    caps.push(entry("_meta", client_ext_meta()));
    let mut cap2: Vec<(String, FieldVal)> = Vec::new();
    cap2.push(entry("meta", client_ext_meta()));
    let mut meta: Vec<(String, FieldVal)> = Vec::new();
    meta.push(entry("clientIdentifier", text(ACP_CLIENT_IDENTIFIER)));
    meta.push(entry("clientVersion", text(version)));
    let mut top: Vec<(String, FieldVal)> = Vec::new();
    top.push(entry("protocolVersion", FieldVal::UInt(1)));
    top.push(entry("clientInfo", FieldVal::Object(info)));
    top.push(entry("clientCapabilities", FieldVal::Object(caps)));
    top.push(entry("capabilities", FieldVal::Object(cap2)));
    top.push(entry("_meta", FieldVal::Object(meta)));
    FieldVal::Object(top)
}

/// The MCP server list ggok gives a session: its ask bridge, run as
/// `<exe> __mcp-ask` with the server's URL and token in its environment.
pub open spec fn ask_servers_ok(r: FieldVal, exe: Seq<char>, url: Seq<char>, token: Seq<char>) -> bool {
    &&& r matches FieldVal::Array(a) && a@.len() == 1 && {
        let s = a@[0];
        let args = at(s, 2);
        let env = at(s, 3);
        &&& has_keys(s, seq!["name"@, "command"@, "args"@, "env"@])
        &&& is_text(at(s, 0), ASK_MCP_NAME@) && is_text(at(s, 1), exe)
        &&& args matches FieldVal::Array(x) && x@.len() == 1 && is_text(x@[0], "__mcp-ask"@)
        &&& env matches FieldVal::Array(e) && e@.len() == 2
            && has_keys(e@[0], seq!["name"@, "value"@]) && is_text(at(e@[0], 0), "GGOK_ASK_URL"@) && is_text(at(e@[0], 1), url)
            && has_keys(e@[1], seq!["name"@, "value"@]) && is_text(at(e@[1], 0), "GGOK_ASK_TOKEN"@) && is_text(at(e@[1], 1), token)
    }
}

fn env_entry(name: &str, value: &str) -> (r: FieldVal)
    ensures
        has_keys(r, seq!["name"@, "value"@]) && is_text(at(r, 0), name@) && is_text(at(r, 1), value@),
{
    let mut fs: Vec<(String, FieldVal)> = Vec::new();
    fs.push(entry("name", text(name)));
    fs.push(entry("value", text(value)));
    FieldVal::Object(fs)
}

/// The MCP servers of a session: the ask bridge.
pub fn mcp_ask_servers(bridge: &AskBridge) -> (r: FieldVal)
    ensures
        ask_servers_ok(r, bridge.exe@, bridge.url@, bridge.token@),
{
    let mut args: Vec<FieldVal> = Vec::new();
    args.push(text("__mcp-ask"));
    let mut env: Vec<FieldVal> = Vec::new();
    env.push(env_entry("GGOK_ASK_URL", bridge.url.as_str()));
    env.push(env_entry("GGOK_ASK_TOKEN", bridge.token.as_str()));
    let mut s: Vec<(String, FieldVal)> = Vec::new();
    s.push(entry("name", text(ASK_MCP_NAME)));
    s.push(entry("command", text(bridge.exe.as_str())));
    s.push(entry("args", FieldVal::Array(args)));
    s.push(entry("env", FieldVal::Array(env)));
    let mut out: Vec<FieldVal> = Vec::new();
    out.push(FieldVal::Object(s));
    FieldVal::Array(out)
}

/// The key a JSON-RPC request id is filed under: a string as it is, a
/// number as its decimal text (a fraction by its JSON text), `true` or
/// `false`; `None` for null, arrays and objects.
pub open spec fn rpc_key_spec(id: FieldVal) -> Option<Seq<char>> {
    match id {
        FieldVal::Str(s) => Some(s@),
        FieldVal::UInt(n) => Some(crate::numfmt::dec(n as nat)),
        FieldVal::NegInt(n) => Some(crate::numfmt::idec(n as int)),
        FieldVal::Float(t) => Some(t@),
        FieldVal::Bool(b) => Some(
            if b {
                "true"@
            } else {
                "false"@
            },
        ),
        _ => None,
    }
}

pub fn rpc_key(id: &FieldVal) -> (r: Option<String>)
    ensures
        match rpc_key_spec(*id) {
            Some(k) => r matches Some(s) && s@ == k,
            None => r is None,
        },
{
    match id {
        FieldVal::Str(s) => Some(string_of(&chars_of(s.as_str()))),
        FieldVal::UInt(n) => Some(string_of(&crate::numfmt::u64_chars(*n))),
        FieldVal::NegInt(n) => Some(string_of(&crate::numfmt::i64_chars(*n))),
        FieldVal::Float(t) => Some(string_of(&chars_of(t.as_str()))),
        FieldVal::Bool(b) => Some(if *b {
            "true".to_string()
        } else {
            "false".to_string()
        }),
        _ => None,
    }
}

/// What to do with an `ask_user_question` request.
#[derive(Debug, Clone)]
pub enum AskPlan {
    /// It names no session (and none is shown on the web page) or holds no
    /// question: answered at once with `skip_interview` where it has an id.
    Skip { reply: bool },
    /// Shown as a card of `session`, filed under `key`.
    Pending { session: String, key: String },
}

/// The session a question belongs to: the one it names, else the one the
/// web page shows.
pub open spec fn ask_session(named: Seq<char>, web_active: Option<Seq<char>>) -> Seq<char> {
    if named.len() > 0 {
        named
    } else {
        match web_active {
            Some(w) => w,
            None => Seq::empty(),
        }
    }
}

/// The decision on an `ask_user_question` request: with no session or no
/// question it is skipped (with a reply where the request has an id, that
/// is, its id is not null); else it is filed under its tool-call id, else
/// its request id's key, else `fresh` (a new id the caller made).
pub fn ask_user_plan(parsed: &ParsedAsk, web_active: Option<&str>, rpc_id: &FieldVal, fresh: &str) -> (r: AskPlan)
    ensures
        ({
            let session = ask_session(
                parsed.session_id@,
                match web_active {
                    Some(w) => Some(w@),
                    None => None,
                },
            );
            &&& (session.len() == 0 || parsed.questions@.len() == 0) ==> (r matches AskPlan::Skip { reply }
                && reply == !(*rpc_id is Null))
            &&& (session.len() > 0 && parsed.questions@.len() > 0) ==> (r matches AskPlan::Pending {
                session: s,
                key: k,
            } && s@ == session && k@ == (if parsed.tool_id@.len() > 0 {
                parsed.tool_id@
            } else {
                match rpc_key_spec(*rpc_id) {
                    Some(x) => x,
                    None => fresh@,
                }
            }))
        }),
{
    let session: String = if parsed.session_id.as_str().is_empty() {
        match web_active {
            Some(w) => w.to_string(),
            None => String::new(),
        }
    } else {
        string_of(&chars_of(parsed.session_id.as_str()))
    };
    let is_null = match rpc_id {
        FieldVal::Null => true,
        _ => false,
    };
    if session.as_str().is_empty() || parsed.questions.len() == 0 {
        return AskPlan::Skip { reply: !is_null };
    }
    let key: String = if !parsed.tool_id.as_str().is_empty() {
        string_of(&chars_of(parsed.tool_id.as_str()))
    } else {
        match rpc_key(rpc_id) {
            Some(k) => k,
            None => fresh.to_string(),
        }
    };
    AskPlan::Pending { session, key }
}

/// The request id kept with a question filed again under the same key:
/// a null id keeps the earlier one where that is not null.
pub fn pending_rpc_id(new_id: FieldVal, prev: Option<FieldVal>) -> (r: FieldVal)
    ensures
        r == (match prev {
            Some(p) => if new_id is Null && !(p is Null) {
                p
            } else {
                new_id
            },
            None => new_id,
        }),
{
    match prev {
        Some(p) => {
            let keep = match (&new_id, &p) {
                (FieldVal::Null, FieldVal::Null) => false,
                (FieldVal::Null, _) => true,
                _ => false,
            };
            if keep {
                p
            } else {
                new_id
            }
        },
        None => new_id,
    }
}

} // verus!
