//! What the agent side decides: the models and slash commands grok offers,
//! permission answers, and what a session update sends to the browser.
use vstd::prelude::*;
use crate::parse::{FieldVal, field_of, get_field, Parser, ParserView, Update, Ingest, ingest_spec, str_or_empty, get_str_or_empty, block_of_buf, tool_idx, note_meta_spec, TextKind};
use crate::types::{Block, BlockView, ModelInfo, EffortInfo, SlashCommand, TokenUsage, opt_view};
use crate::control::{get, get_of};
use crate::text::{chars_of, string_of, contains, contains_str, str_eq};

verus! {

/// One server-sent event for the browser.
#[derive(Debug, Clone)]
pub struct SseEvent {
    pub kind: String,
    pub data: String,
}

/// A session that `session/new` made.
#[derive(Debug, Clone)]
pub struct NewSession {
    pub id: String,
    pub cwd: String,
    pub model: String,
}

/// A session whose `updates.jsonl` is followed.
#[derive(Debug, Clone)]
pub struct TailJob {
    pub path: String,
    pub grok_home: String,
    pub session_id: String,
    pub agent_pid: Option<u32>,
    pub start_offset: u64,
    pub model: String,
}

/// An MCP server to add with `grok mcp add`.
#[derive(Debug, Clone)]
pub struct AddSpec<'a> {
    pub name: &'a str,
    pub transport: &'a str,
    pub command_or_url: &'a str,
    pub args: &'a [String],
    pub scope: &'a str,
    pub env: &'a [String],
    pub headers: &'a [String],
}

/// One option of a permission request.
#[derive(Debug, Clone)]
pub struct PermOpt {
    pub id: String,
    pub kind: String,
    pub name: String,
}

pub open spec fn is_allow_once(o: PermOpt) -> bool {
    contains(o.kind@, "allow"@) && !contains(o.kind@, "always"@)
}

pub open spec fn is_allow(o: PermOpt) -> bool {
    contains(o.kind@, "allow"@)
}

pub open spec fn is_reject(o: PermOpt) -> bool {
    contains(o.kind@, "reject"@) || contains(o.kind@, "deny"@)
}

/// The first option with the property.
pub open spec fn first_with(s: Seq<PermOpt>, p: spec_fn(PermOpt) -> bool) -> Option<PermOpt>
    decreases s.len(),
{
    if s.len() == 0 {
        None
    } else if p(s[0]) {
        Some(s[0])
    } else {
        first_with(s.drop_first(), p)
    }
}

/// The option that answers a permission request: to allow, the first
/// one-time allow, else the first allow, else the first option; to refuse,
/// the first reject or deny, else the last option.
pub open spec fn pick_spec(s: Seq<PermOpt>, allow: bool) -> Option<Seq<char>> {
    let o = if allow {
        match first_with(s, |o: PermOpt| is_allow_once(o)) {
            Some(x) => Some(x),
            None => match first_with(s, |o: PermOpt| is_allow(o)) {
                Some(x) => Some(x),
                None => if s.len() > 0 {
                    Some(s[0])
                } else {
                    None
                },
            },
        }
    } else {
        match first_with(s, |o: PermOpt| is_reject(o)) {
            Some(x) => Some(x),
            None => if s.len() > 0 {
                Some(s.last())
            } else {
                None
            },
        }
    };
    match o {
        Some(x) => Some(x.id@),
        None => None,
    }
}

fn first_matching(s: &[PermOpt], which: u8) -> (r: Option<usize>)
    requires
        which < 3,
    ensures
        match r {
            Some(i) => i < s@.len() && first_with(
                s@,
                if which == 0 {
                    |o: PermOpt| is_allow_once(o)
                } else if which == 1 {
                    |o: PermOpt| is_allow(o)
                } else {
                    |o: PermOpt| is_reject(o)
                },
            ) == Some(s@[i as int]),
            None => first_with(
                s@,
                if which == 0 {
                    |o: PermOpt| is_allow_once(o)
                } else if which == 1 {
                    |o: PermOpt| is_allow(o)
                } else {
                    |o: PermOpt| is_reject(o)
                },
            ) is None,
        },
{
    let ghost p = if which == 0 {
        |o: PermOpt| is_allow_once(o)
    } else if which == 1 {
        |o: PermOpt| is_allow(o)
    } else {
        |o: PermOpt| is_reject(o)
    };
    let mut i: usize = 0;
    proof {
        assert(s@.subrange(0, s@.len() as int) =~= s@);
    }
    while i < s.len()
        invariant
            i <= s@.len(),
            which < 3,
            p == (if which == 0 {
                |o: PermOpt| is_allow_once(o)
            } else if which == 1 {
                |o: PermOpt| is_allow(o)
            } else {
                |o: PermOpt| is_reject(o)
            }),
            first_with(s@, p) == first_with(s@.subrange(i as int, s@.len() as int), p),
        decreases s.len() - i,
    {
        let ghost rest = s@.subrange(i as int, s@.len() as int);
        assert(rest[0] == s@[i as int]);
        let k = chars_of(s[i].kind.as_str());
        let hit = if which == 0 {
            contains_str(&k, "allow") && !contains_str(&k, "always")
        } else if which == 1 {
            contains_str(&k, "allow")
        } else {
            contains_str(&k, "reject") || contains_str(&k, "deny")
        };
        if hit {
            return Some(i);
        }
        proof {
            assert(rest.drop_first() =~= s@.subrange(i + 1, s@.len() as int));
        }
        i += 1;
    }
    None
}

/// The option that answers a permission request.
pub fn pick_option(options: &[PermOpt], allow: bool) -> (r: Option<String>)
    ensures
        opt_view(r) == pick_spec(options@, allow),
{
    if allow {
        match first_matching(options, 0) {
            Some(i) => Some(options[i].id.clone()),
            None => match first_matching(options, 1) {
                Some(i) => Some(options[i].id.clone()),
                None => if options.len() > 0 {
                    Some(options[0].id.clone())
                } else {
                    None
                },
            },
        }
    } else {
        match first_matching(options, 2) {
            Some(i) => Some(options[i].id.clone()),
            None => if options.len() > 0 {
                Some(options[options.len() - 1].id.clone())
            } else {
                None
            },
        }
    }
}

/// An option of a permission request: it must have a string `optionId`;
/// its `kind` and `name` default to empty.
pub open spec fn perm_opt_spec(o: FieldVal) -> Option<(Seq<char>, Seq<char>, Seq<char>)> {
    match get(o, "optionId"@) {
        Some(FieldVal::Str(id)) => Some((id@, str_or(o, "kind"@, Seq::empty()), str_or(o, "name"@, Seq::empty()))),
        _ => None,
    }
}

/// The options of a list, those that have an id, in order.
pub open spec fn perm_opts_from(a: Seq<FieldVal>) -> Seq<(Seq<char>, Seq<char>, Seq<char>)>
    decreases a.len(),
{
    if a.len() == 0 {
        Seq::empty()
    } else {
        let rest = perm_opts_from(a.drop_last());
        match perm_opt_spec(a.last()) {
            Some(o) => rest.push(o),
            None => rest,
        }
    }
}

pub open spec fn perm_view(o: PermOpt) -> (Seq<char>, Seq<char>, Seq<char>) {
    (o.id@, o.kind@, o.name@)
}

/// A permission request from grok: its session, the tool call it is about
/// (id and title), and the options offered.
pub struct PermRequest {
    pub session_id: String,
    pub tool_id: String,
    pub title: String,
    pub options: Vec<PermOpt>,
}

/// Reads a `session/request_permission` request's parameters: `sessionId`,
/// `toolCall.toolCallId` and `toolCall.title` (empty where missing), and the
/// `options` that have an `optionId`.
pub fn parse_permission_request(params: &FieldVal) -> (r: PermRequest)
    ensures
        r.session_id@ == str_or(*params, "sessionId"@, Seq::empty()),
        r.tool_id@ == (match get(*params, "toolCall"@) {
            Some(t) => str_or(t, "toolCallId"@, Seq::empty()),
            None => Seq::empty(),
        }),
        r.title@ == (match get(*params, "toolCall"@) {
            Some(t) => str_or(t, "title"@, Seq::empty()),
            None => Seq::empty(),
        }),
        r.options@.map_values(|o: PermOpt| perm_view(o)) == (match get(*params, "options"@) {
            Some(FieldVal::Array(a)) => perm_opts_from(a@),
            _ => Seq::empty(),
        }),
{
    let session_id = str_or_blank(params, "sessionId");
    let (tool_id, title) = match get_of(params, "toolCall") {
        Some(t) => (str_or_blank(t, "toolCallId"), str_or_blank(t, "title")),
        None => (String::new(), String::new()),
    };
    let mut options: Vec<PermOpt> = Vec::new();
    match get_of(params, "options") {
        Some(FieldVal::Array(a)) => {
            let mut i: usize = 0;
            assert(a@.take(0) =~= Seq::<FieldVal>::empty());
            while i < a.len()
                invariant
                    i <= a.len(),
                    options@.map_values(|o: PermOpt| perm_view(o)) == perm_opts_from(a@.take(i as int)),
                decreases a.len() - i,
            {
                proof {
                    assert(a@.take(i + 1).drop_last() =~= a@.take(i as int));
                    assert(a@.take(i + 1).last() == a@[i as int]);
                }
                match get_of(&a[i], "optionId") {
                    Some(FieldVal::Str(id)) => {
                        let o = PermOpt {
                            id: id.clone(),
                            kind: str_or_blank(&a[i], "kind"),
                            name: str_or_blank(&a[i], "name"),
                        };
                        let ghost before = options@;
                        options.push(o);
                        proof {
                            assert(options@.map_values(|o: PermOpt| perm_view(o)) =~= before.map_values(
                                |o: PermOpt| perm_view(o),
                            ).push(perm_view(o)));
                        }
                    },
                    _ => {},
                }
                i += 1;
            }
            proof {
                assert(a@.take(a.len() as int) =~= a@);
            }
        },
        _ => {
            assert(options@.map_values(|o: PermOpt| perm_view(o)) =~= Seq::<(Seq<char>, Seq<char>, Seq<char>)>::empty());
        },
    }
    PermRequest { session_id, tool_id, title, options }
}

/// What a message from grok's agent is: a request to answer (it has a
/// `method` and an `id`), a notification (a `method` only), the reply to a
/// request of ours (an `id` read as a number), or nothing to act on.
#[derive(Debug, Clone, Copy, PartialEq, Eq, Structural)]
pub enum MessageKind {
    Request,
    Note,
    Reply(u64),
    Ignored,
}

/// A JSON-RPC id read as a number: a whole number that fits `u64`, or a
/// string that `str::parse::<u64>` reads.
pub open spec fn id_u64_spec(id: Option<FieldVal>) -> Option<u64> {
    match id {
        Some(FieldVal::UInt(n)) => Some(n),
        Some(FieldVal::Str(s)) => match crate::numfmt::parse_unsigned(s@, u64::MAX as int) {
            Some(n) => Some(n as u64),
            None => None,
        },
        _ => None,
    }
}

pub fn json_id_u64(id: Option<&FieldVal>) -> (r: Option<u64>)
    ensures
        r == id_u64_spec(crate::account::opt_ref(id)),
{
    match id {
        Some(FieldVal::UInt(n)) => Some(*n),
        Some(FieldVal::Str(s)) => crate::numfmt::parse_u64(&chars_of(s.as_str())),
        _ => None,
    }
}

pub open spec fn message_kind_spec(msg: FieldVal) -> MessageKind {
    if get(msg, "method"@) is Some && get(msg, "id"@) is Some {
        MessageKind::Request
    } else if get(msg, "method"@) is Some {
        MessageKind::Note
    } else {
        match id_u64_spec(get(msg, "id"@)) {
            Some(n) => MessageKind::Reply(n),
            None => MessageKind::Ignored,
        }
    }
}

/// What a message from grok's agent is.
pub fn classify_message(msg: &FieldVal) -> (r: MessageKind)
    ensures
        r == message_kind_spec(*msg),
{
    let method = get_of(msg, "method");
    let id = get_of(msg, "id");
    if method.is_some() && id.is_some() {
        return MessageKind::Request;
    }
    if method.is_some() {
        return MessageKind::Note;
    }
    match json_id_u64(id) {
        Some(n) => MessageKind::Reply(n),
        None => MessageKind::Ignored,
    }
}

/// What a notification from grok is about.
#[derive(Debug, Clone, Copy, PartialEq, Eq, Structural)]
pub enum NoteKind {
    SessionUpdate,
    QueueChanged,
    AskUser,
    ModelsUpdate,
    Other,
}

pub open spec fn note_kind_spec(method: Seq<char>, params: FieldVal) -> NoteKind {
    if method == "session/update"@ || method == "_x.ai/session/update"@ {
        NoteKind::SessionUpdate
    } else if method == "_x.ai/queue/changed"@ {
        NoteKind::QueueChanged
    } else if crate::ask::ask_method_spec(method) || crate::ask::layer_questions(params, 0).len() > 0 {
        NoteKind::AskUser
    } else if method == "_x.ai/models/update"@ {
        NoteKind::ModelsUpdate
    } else {
        NoteKind::Other
    }
}

/// What a notification is about: a session update, a change of the prompt
/// queue, a question for the user (by its method, or because it holds
/// questions), new models, or something else.
pub fn classify_note(method: &str, params: &FieldVal) -> (r: NoteKind)
    ensures
        r == note_kind_spec(method@, *params),
{
    if str_eq(method, "session/update") || str_eq(method, "_x.ai/session/update") {
        NoteKind::SessionUpdate
    } else if str_eq(method, "_x.ai/queue/changed") {
        NoteKind::QueueChanged
    } else if crate::ask::is_ask_user_method(method) || crate::ask::looks_like_ask_user(params) {
        NoteKind::AskUser
    } else if str_eq(method, "_x.ai/models/update") {
        NoteKind::ModelsUpdate
    } else {
        NoteKind::Other
    }
}

/// How a request from grok is answered.
#[derive(Debug, Clone, Copy, PartialEq, Eq, Structural)]
pub enum RequestKind {
    AskUser,
    Permission,
    MethodNotFound,
}

pub open spec fn request_kind_spec(method: Seq<char>, params: FieldVal) -> RequestKind {
    if crate::ask::ask_method_spec(method) {
        RequestKind::AskUser
    } else if method == "session/request_permission"@ {
        RequestKind::Permission
    } else if crate::ask::layer_questions(params, 0).len() > 0 {
        RequestKind::AskUser
    } else {
        RequestKind::MethodNotFound
    }
}

/// How a request (its method and parameters taken out of an extension
/// envelope) is answered: a question card, a permission card, or the
/// JSON-RPC "method not found" error.
pub fn classify_request(method: &str, params: &FieldVal) -> (r: RequestKind)
    ensures
        r == request_kind_spec(method@, *params),
{
    if crate::ask::is_ask_user_method(method) {
        RequestKind::AskUser
    } else if str_eq(method, "session/request_permission") {
        RequestKind::Permission
    } else if crate::ask::looks_like_ask_user(params) {
        RequestKind::AskUser
    } else {
        RequestKind::MethodNotFound
    }
}

/// The effort shown with a model announced for a session: the session's
/// own, else the default effort of the model as listed, else none.
pub open spec fn announced_effort_spec(session_effort: Option<Seq<char>>, models: Seq<ModelInfo>, current: Seq<char>) -> Seq<char> {
    match session_effort {
        Some(e) => e,
        None => match model_named(models, current) {
            Some(m) => match m.effort {
                Some(e) => e@,
                None => Seq::empty(),
            },
            None => Seq::empty(),
        },
    }
}

/// The first model with the id.
pub open spec fn model_named(models: Seq<ModelInfo>, id: Seq<char>) -> Option<ModelInfo>
    decreases models.len(),
{
    if models.len() == 0 {
        None
    } else if models[0].id@ == id {
        Some(models[0])
    } else {
        model_named(models.drop_first(), id)
    }
}

pub fn announced_effort(session_effort: Option<&str>, models: &[ModelInfo], current: &str) -> (r: String)
    ensures
        r@ == announced_effort_spec(crate::files::opt_str_view(session_effort), models@, current@),
{
    match session_effort {
        Some(e) => {
            return e.to_string();
        },
        None => {},
    }
    let mut i: usize = 0;
    proof {
        assert(models@.skip(0) =~= models@);
    }
    while i < models.len()
        invariant
            i <= models.len(),
            session_effort is None,
            model_named(models@, current@) == model_named(models@.skip(i as int), current@),
        decreases models.len() - i,
    {
        proof {
            assert(models@.skip(i as int)[0] == models@[i as int]);
            assert(models@.skip(i as int).drop_first() =~= models@.skip(i + 1));
        }
        if str_eq(models[i].id.as_str(), current) {
            return match &models[i].effort {
                Some(e) => e.clone(),
                None => String::new(),
            };
        }
        i += 1;
    }
    String::new()
}

/// An effort that was given and is not empty.
pub open spec fn given_effort(effort: Option<Seq<char>>) -> Option<Seq<char>> {
    match effort {
        Some(e) => if e.len() > 0 {
            Some(e)
        } else {
            None
        },
        None => None,
    }
}

/// The slash command that switches the model where grok's
/// `session/set_model` fails: `/model <model>`, then the effort where one is given.
pub open spec fn model_command_spec(model: Seq<char>, effort: Option<Seq<char>>) -> Seq<char> {
    match given_effort(effort) {
        Some(e) => "/model "@ + model + seq![' '] + e,
        None => "/model "@ + model,
    }
}

pub fn model_command(model: &str, effort: Option<&str>) -> (r: String)
    ensures
        r@ == model_command_spec(model@, crate::files::opt_str_view(effort)),
{
    let mut out = chars_of("/model ");
    crate::text::extend_str(&mut out, model);
    match effort {
        Some(e) => if !e.is_empty() {
            out.push(' ');
            crate::text::extend_str(&mut out, e);
        },
        None => {},
    }
    string_of(&out)
}

/// The default effort of a model as listed, or the empty text.
pub open spec fn default_effort_spec(models: Seq<ModelInfo>, model: Seq<char>) -> Seq<char> {
    match model_named(models, model) {
        Some(m) => match m.effort {
            Some(e) => e@,
            None => Seq::empty(),
        },
        None => Seq::empty(),
    }
}

/// The effort a session keeps after its model was switched (its current
/// effort is `session_effort`, `None` where the session is not live): the
/// effort given, else the model's default, else the one it had. Without a
/// live session, the effort given (or none).
pub open spec fn stored_effort_spec(
    models: Seq<ModelInfo>,
    model: Seq<char>,
    effort: Option<Seq<char>>,
    session_effort: Option<Seq<char>>,
) -> Seq<char> {
    match session_effort {
        Some(cur) => match given_effort(effort) {
            Some(e) => e,
            None => if default_effort_spec(models, model).len() > 0 {
                default_effort_spec(models, model)
            } else {
                cur
            },
        },
        None => match effort {
            Some(e) => e,
            None => Seq::empty(),
        },
    }
}

pub fn stored_effort(models: &[ModelInfo], model: &str, effort: Option<&str>, session_effort: Option<&str>) -> (r:
    String)
    ensures
        r@ == stored_effort_spec(
            models@,
            model@,
            crate::files::opt_str_view(effort),
            crate::files::opt_str_view(session_effort),
        ),
{
    match session_effort {
        Some(cur) => {
            match effort {
                Some(e) => if !e.is_empty() {
                    return e.to_string();
                },
                None => {},
            }
            let d = announced_effort(None, models, model);
            if !d.as_str().is_empty() {
                d
            } else {
                cur.to_string()
            }
        },
        None => match effort {
            Some(e) => e.to_string(),
            None => String::new(),
        },
    }
}

/// A reasoning effort the chosen model does not offer.
#[derive(Debug, Clone, Copy, PartialEq, Eq, Structural)]
pub struct InvalidEffort;

/// Whether an effort may be asked of a model: any is, where no effort is
/// given or the model is not listed; else it must be one the model lists.
pub open spec fn effort_ok(models: Seq<ModelInfo>, model: Seq<char>, effort: Option<Seq<char>>) -> bool {
    match effort {
        None => true,
        Some(e) => e.len() == 0 || !(exists|i: int| 0 <= i < models.len() && (#[trigger] models[i]).id@
            == model) || ({
            let i = choose|i: int|
                0 <= i < models.len() && (#[trigger] models[i]).id@ == model && forall|j: int|
                    0 <= j < i ==> models[j].id@ != model;
            exists|k: int| 0 <= k < models[i].efforts@.len() && (#[trigger] models[i].efforts@[k]).id@ == e
        }),
    }
}

fn first_model(models: &[ModelInfo], model: &str) -> (r: Option<usize>)
    ensures
        match r {
            Some(i) => i < models@.len() && models@[i as int].id@ == model@ && forall|j: int|
                0 <= j < i ==> models@[j].id@ != model@,
            None => forall|j: int| 0 <= j < models@.len() ==> (#[trigger] models@[j]).id@ != model@,
        },
{
    let mut i: usize = 0;
    while i < models.len()
        invariant
            i <= models@.len(),
            forall|j: int| 0 <= j < i ==> (#[trigger] models@[j]).id@ != model@,
        decreases models.len() - i,
    {
        if str_eq(models[i].id.as_str(), model) {
            return Some(i);
        }
        i += 1;
    }
    None
}

/// Checks a reasoning effort against the model's list.
pub fn validate_effort(models: &[ModelInfo], model: &str, effort: Option<&str>) -> (r: Result<(), InvalidEffort>)
    ensures
        r is Ok <==> effort_ok(models@, model@, crate::files::opt_str_view(effort)),
{
    let e = match effort {
        Some(e) => if e.is_empty() {
            return Ok(());
        } else {
            e
        },
        None => {
            return Ok(());
        },
    };
    match first_model(models, model) {
        None => Ok(()),
        Some(i) => {
            proof {
                let k = choose|k: int|
                    0 <= k < models@.len() && (#[trigger] models@[k]).id@ == model@ && forall|j: int|
                        0 <= j < k ==> models@[j].id@ != model@;
                if k < i {
                    assert(models@[k].id@ != model@);
                }
                if k > i {
                    assert(models@[i as int].id@ != model@);
                }
                assert(k == i);
            }
            let info = &models[i];
            let mut k: usize = 0;
            while k < info.efforts.len()
                invariant
                    k <= info.efforts@.len(),
                    i < models@.len(),
                    *info == models@[i as int],
                    e@.len() > 0,
                    crate::files::opt_str_view(effort) == Some(e@),
                    exists|x: int| 0 <= x < models@.len() && (#[trigger] models@[x]).id@ == model@,
                    (choose|x: int|
                        0 <= x < models@.len() && (#[trigger] models@[x]).id@ == model@ && forall|j: int|
                            0 <= j < x ==> models@[j].id@ != model@) == i as int,
                    forall|j: int| 0 <= j < k ==> (#[trigger] info.efforts@[j]).id@ != e@,
                decreases info.efforts.len() - k,
            {
                if str_eq(info.efforts[k].id.as_str(), e) {
                    assert(info.efforts@[k as int].id@ == e@);
                    return Ok(());
                }
                k += 1;
            }
            Err(InvalidEffort)
        },
    }
}


/// What a session update sends to the browser: an entry to show, the usage
/// counters, and the new context size.
pub struct UpdateOutcome {
    pub block: Option<Block>,
    pub usage: Option<TokenUsage>,
    pub context_used: Option<u64>,
}

/// The entry a session update shows, after it was taken.
pub open spec fn shown_block(
    s2: ParserView,
    ing: Ingest,
    user_emitted: bool,
    last_tool: Seq<char>,
) -> Option<BlockView> {
    match ing {
        Ingest::Text => match s2.buf {
            Some(b) => if user_emitted && b.kind == TextKind::User {
                None
            } else {
                Some(block_of_buf(b))
            },
            None => None,
        },
        Ingest::Tool => match tool_idx(s2.blocks, last_tool) {
            Some(i) => Some(s2.blocks[i]),
            None => None,
        },
        Ingest::TurnEnd => if s2.blocks.len() > 0 {
            Some(s2.blocks.last())
        } else {
            None
        },
        _ => None,
    }
}

pub open spec fn opt_block_view(b: Option<Block>) -> Option<BlockView> {
    match b {
        Some(x) => Some(x@),
        None => None,
    }
}

/// Whether a session update is a user chunk the browser already shows.
pub open spec fn echoed_user(u: Update, user_emitted: bool) -> bool {
    str_or_empty(u.fields@, "sessionUpdate"@) == "user_message_chunk"@ && user_emitted
}

/// The usage counters as plain values.
pub open spec fn usage_view(u: TokenUsage) -> (bool, crate::types::Counters, Seq<(Seq<char>, crate::types::RowCounters)>) {
    (u.recorded, u.counters(), crate::types::rows_view(u.models@))
}

/// Takes one `session/update` of a live session: the parser takes the
/// update (for the prompt `prompt_id`, at `ts`) and its `_meta`. A user chunk
/// the browser already shows sends nothing. Otherwise the outcome holds the
/// entry to show (the streamed text, unless it is an echoed prompt; the
/// tool call last named; the turn end), the counters after a turn end or a
/// usage record (kept in `usage`, sent where any were recorded), and the
/// context size where `_meta` changed it.
pub fn session_update(
    parser: &mut Parser,
    update: &Update,
    prompt_id: &str,
    ts: Option<u64>,
    meta: &[(String, FieldVal)],
    user_emitted: bool,
    last_tool_id: &mut String,
    usage: &mut TokenUsage,
) -> (r: UpdateOutcome)
    requires
        ingest_spec(old(parser)@, *update, prompt_id@, ts) is Some,
    ensures
        ({
            let (s1, ing) = ingest_spec(old(parser)@, *update, prompt_id@, ts).unwrap();
            let s2 = note_meta_spec(s1, meta@);
            let id = str_or_empty(update.fields@, "sessionUpdate"@);
            let tid = str_or_empty(update.fields@, "toolCallId"@);
            &&& final(parser)@ == s2
            &&& if echoed_user(*update, user_emitted) {
                &&& r.block is None
                &&& r.usage is None
                &&& r.context_used is None
                &&& *final(last_tool_id) == *old(last_tool_id)
                &&& usage_view(*final(usage)) == usage_view(*old(usage))
            } else {
                let last = if ing == Ingest::Tool && tid.len() > 0 {
                    tid
                } else {
                    old(last_tool_id)@
                };
                let emit = ing == Ingest::TurnEnd || ing == Ingest::Usage;
                &&& final(last_tool_id)@ == last
                &&& opt_block_view(r.block) == shown_block(s2, ing, user_emitted, last)
                &&& (emit ==> usage_view(*final(usage)) == (s2.recorded, s2.counters, s2.models))
                &&& (!emit ==> usage_view(*final(usage)) == usage_view(*old(usage)))
                &&& (r.usage is Some <==> (emit && s2.recorded))
                &&& (r.usage matches Some(u) ==> usage_view(u) == (s2.recorded, s2.counters, s2.models))
                &&& (r.context_used is Some <==> s2.context_tokens != s1.context_tokens)
                &&& (r.context_used matches Some(n) ==> n == s2.context_tokens)
            }
        }),
{
    let kind = get_str_or_empty(update.fields.as_slice(), "sessionUpdate");
    let echoed = str_eq(kind.as_str(), "user_message_chunk") && user_emitted;
    if echoed {
        let _ = parser.ingest_at(update, prompt_id, ts);
        parser.note_meta(meta);
        return UpdateOutcome { block: None, usage: None, context_used: None };
    }
    let ing = parser.ingest_at(update, prompt_id, ts);
    let before = parser.context_tokens();
    parser.note_meta(meta);
    let block = match ing {
        Ingest::Text => {
            let open = parser.open_text();
            match open {
                Some(Block::User { .. }) => if user_emitted {
                    None
                } else {
                    open
                },
                _ => open,
            }
        },
        Ingest::Tool => {
            let id = get_str_or_empty(update.fields.as_slice(), "toolCallId");
            if !id.as_str().is_empty() {
                *last_tool_id = id;
            }
            parser.tool(last_tool_id.as_str())
        },
        Ingest::TurnEnd => parser.last_block(),
        _ => None,
    };
    let emit = ing == Ingest::TurnEnd || ing == Ingest::Usage;
    if emit {
        *usage = parser.usage_snapshot();
    }
    let after = parser.context_tokens();
    let sent = if emit && usage.recorded {
        Some(parser.usage_snapshot())
    } else {
        None
    };
    UpdateOutcome { block, usage: sent, context_used: if after != before {
        Some(after)
    } else {
        None
    } }
}


pub type EffortV = (Seq<char>, Seq<char>, Seq<char>);

pub type ModelV = (Seq<char>, Seq<char>, Seq<char>, Option<Seq<char>>, Seq<EffortV>, Option<u64>);

pub open spec fn effort_view(e: EffortInfo) -> EffortV {
    (e.id@, e.label@, e.description@)
}

pub open spec fn model_view(m: ModelInfo) -> ModelV {
    (
        m.id@,
        m.name@,
        m.description@,
        opt_view(m.effort),
        Seq::new(m.efforts@.len(), |i: int| effort_view(m.efforts@[i])),
        m.context_window,
    )
}

pub open spec fn models_view(v: Seq<ModelInfo>) -> Seq<ModelV> {
    Seq::new(v.len(), |i: int| model_view(v[i]))
}

/// A string field, or the empty string.
pub open spec fn str_at(v: FieldVal, key: Seq<char>) -> Option<Seq<char>> {
    match get(v, key) {
        Some(FieldVal::Str(s)) => Some(s@),
        _ => None,
    }
}

pub open spec fn str_or(v: FieldVal, key: Seq<char>, d: Seq<char>) -> Seq<char> {
    match str_at(v, key) {
        Some(s) => s,
        None => d,
    }
}

fn str_at_exec(v: &FieldVal, key: &str) -> (r: Option<String>)
    ensures
        opt_view(r) == str_at(*v, key@),
{
    match get_of(v, key) {
        Some(FieldVal::Str(s)) => Some(s.clone()),
        _ => None,
    }
}

fn str_or_blank(v: &FieldVal, key: &str) -> (r: String)
    ensures
        r@ == str_or(*v, key@, Seq::empty()),
{
    match str_at_exec(v, key) {
        Some(s) => s,
        None => String::new(),
    }
}

fn str_or_exec(v: &FieldVal, key: &str, d: &str) -> (r: String)
    ensures
        r@ == str_or(*v, key@, d@),
{
    match str_at_exec(v, key) {
        Some(s) => s,
        None => d.to_string(),
    }
}

/// A reasoning effort from a list: its `id` (which it must have), `label`
/// and `description`.
pub open spec fn effort_spec(x: FieldVal) -> Option<EffortV> {
    match str_at(x, "id"@) {
        Some(id) => Some((id, str_or(x, "label"@, Seq::empty()), str_or(x, "description"@, Seq::empty()))),
        None => None,
    }
}

pub open spec fn efforts_spec(a: Seq<FieldVal>) -> Seq<EffortV>
    decreases a.len(),
{
    if a.len() == 0 {
        Seq::empty()
    } else {
        let rest = efforts_spec(a.drop_last());
        match effort_spec(a.last()) {
            Some(e) => rest.push(e),
            None => rest,
        }
    }
}

/// The reasoning efforts under a key: those of its list that have an id.
pub open spec fn efforts_under(v: FieldVal, key: Seq<char>) -> Seq<EffortV> {
    match get(v, key) {
        Some(FieldVal::Array(a)) => efforts_spec(a@),
        _ => Seq::empty(),
    }
}

fn efforts_of(v: &FieldVal, key: &str) -> (r: Vec<EffortInfo>)
    ensures
        Seq::new(r@.len(), |i: int| effort_view(r@[i])) == efforts_under(*v, key@),
{
    let a = match get_of(v, key) {
        Some(FieldVal::Array(a)) => a,
        _ => {
            let r: Vec<EffortInfo> = Vec::new();
            assert(Seq::new(r@.len(), |i: int| effort_view(r@[i])) =~= Seq::<EffortV>::empty());
            return r;
        },
    };
    let mut out: Vec<EffortInfo> = Vec::new();
    let mut i: usize = 0;
    proof {
        assert(a@.take(0) =~= Seq::<FieldVal>::empty());
        assert(Seq::new(out@.len(), |k: int| effort_view(out@[k])) =~= Seq::<EffortV>::empty());
    }
    while i < a.len()
        invariant
            i <= a@.len(),
            Seq::new(out@.len(), |k: int| effort_view(out@[k])) == efforts_spec(a@.take(i as int)),
        decreases a.len() - i,
    {
        proof {
            assert(a@.take(i + 1).drop_last() =~= a@.take(i as int));
            assert(a@.take(i + 1).last() == a@[i as int]);
        }
        match str_at_exec(&a[i], "id") {
            Some(id) => {
                let e = EffortInfo {
                    id,
                    label: str_or_blank(&a[i], "label"),
                    description: str_or_blank(&a[i], "description"),
                };
                let ghost before = Seq::new(out@.len(), |k: int| effort_view(out@[k]));
                out.push(e);
                proof {
                    assert(Seq::new(out@.len(), |k: int| effort_view(out@[k])) =~= before.push(
                        effort_view(e),
                    ));
                }
            },
            None => {},
        }
        i += 1;
    }
    proof {
        assert(a@.take(a@.len() as int) =~= a@);
    }
    out
}

/// The first of two keys present.
pub open spec fn either(v: FieldVal, k1: Seq<char>, k2: Seq<char>) -> Option<FieldVal> {
    match get(v, k1) {
        Some(x) => Some(x),
        None => get(v, k2),
    }
}

/// A positive whole number.
pub open spec fn positive(v: Option<FieldVal>) -> Option<u64> {
    match v {
        Some(FieldVal::UInt(n)) => if n > 0 {
            Some(n)
        } else {
            None
        },
        _ => None,
    }
}

/// A model from grok's `availableModels`: its `modelId` (or `id`), which it
/// must have as a string; its name (else the id), description, reasoning
/// effort and efforts from `_meta`, and a positive context window from
/// `contextWindow`/`context_window` of the model or of its `_meta`.
pub open spec fn acp_model_spec(m: FieldVal) -> Option<ModelV> {
    match either(m, "modelId"@, "id"@) {
        Some(FieldVal::Str(id)) => {
            let meta = match get(m, "_meta"@) {
                Some(x) => x,
                None => FieldVal::Null,
            };
            let cw = match either(m, "contextWindow"@, "context_window"@) {
                Some(x) => Some(x),
                None => either(meta, "contextWindow"@, "context_window"@),
            };
            Some(
                (
                    id@,
                    str_or(m, "name"@, id@),
                    str_or(m, "description"@, Seq::empty()),
                    str_at(meta, "reasoningEffort"@),
                    efforts_under(meta, "reasoningEfforts"@),
                    positive(cw),
                ),
            )
        },
        _ => None,
    }
}

pub open spec fn acp_models_spec(a: Seq<FieldVal>) -> Seq<ModelV>
    decreases a.len(),
{
    if a.len() == 0 {
        Seq::empty()
    } else {
        let rest = acp_models_spec(a.drop_last());
        match acp_model_spec(a.last()) {
            Some(m) => rest.push(m),
            None => rest,
        }
    }
}

fn either_exec<'a>(v: &'a FieldVal, k1: &str, k2: &str) -> (r: Option<&'a FieldVal>)
    ensures
        match r {
            Some(x) => either(*v, k1@, k2@) == Some(*x),
            None => either(*v, k1@, k2@) is None,
        },
{
    match get_of(v, k1) {
        Some(x) => Some(x),
        None => get_of(v, k2),
    }
}

fn positive_exec(v: Option<&FieldVal>) -> (r: Option<u64>)
    ensures
        r == positive(match v {
            Some(x) => Some(*x),
            None => None,
        }),
{
    match v {
        Some(FieldVal::UInt(n)) => if *n > 0 {
            Some(*n)
        } else {
            None
        },
        _ => None,
    }
}

fn acp_model(m: &FieldVal) -> (r: Option<ModelInfo>)
    ensures
        match r {
            Some(x) => acp_model_spec(*m) == Some(model_view(x)),
            None => acp_model_spec(*m) is None,
        },
{
    let id = match either_exec(m, "modelId", "id") {
        Some(FieldVal::Str(id)) => id,
        _ => {
            return None;
        },
    };
    let null = FieldVal::Null;
    let meta: &FieldVal = match get_of(m, "_meta") {
        Some(x) => x,
        None => &null,
    };
    let cw = match either_exec(m, "contextWindow", "context_window") {
        Some(x) => Some(x),
        None => either_exec(meta, "contextWindow", "context_window"),
    };
    let info = ModelInfo {
        id: id.clone(),
        name: str_or_exec(m, "name", id.as_str()),
        description: str_or_blank(m, "description"),
        effort: str_at_exec(meta, "reasoningEffort"),
        efforts: efforts_of(meta, "reasoningEfforts"),
        context_window: positive_exec(cw),
    };
    Some(info)
}

/// The current model and the models grok offers, from its `session/new` or
/// `session/load` reply: `currentModelId`, and the models of
/// `availableModels` that have an id.
pub fn parse_models(v: &FieldVal) -> (r: (String, Vec<ModelInfo>))
    ensures
        r.0@ == str_or(*v, "currentModelId"@, Seq::empty()),
        models_view(r.1@) == (match get(*v, "availableModels"@) {
            Some(FieldVal::Array(a)) => acp_models_spec(a@),
            _ => Seq::empty(),
        }),
{
    let current = str_or_blank(v, "currentModelId");
    let a = match get_of(v, "availableModels") {
        Some(FieldVal::Array(a)) => a,
        _ => {
            let r: Vec<ModelInfo> = Vec::new();
            assert(models_view(r@) =~= Seq::<ModelV>::empty());
            return (current, r);
        },
    };
    let mut out: Vec<ModelInfo> = Vec::new();
    let mut i: usize = 0;
    proof {
        assert(a@.take(0) =~= Seq::<FieldVal>::empty());
        assert(models_view(out@) =~= Seq::<ModelV>::empty());
    }
    while i < a.len()
        invariant
            i <= a@.len(),
            models_view(out@) == acp_models_spec(a@.take(i as int)),
        decreases a.len() - i,
    {
        proof {
            assert(a@.take(i + 1).drop_last() =~= a@.take(i as int));
            assert(a@.take(i + 1).last() == a@[i as int]);
        }
        match acp_model(&a[i]) {
            Some(m) => {
                let ghost before = models_view(out@);
                out.push(m);
                proof {
                    assert(models_view(out@) =~= before.push(model_view(m)));
                }
            },
            None => {},
        }
        i += 1;
    }
    proof {
        assert(a@.take(a@.len() as int) =~= a@);
    }
    (current, out)
}

/// A model from grok's `models_cache.json` entry under `id`: its `info` (or
/// the entry itself), left out where hidden; its name (else the id),
/// description, reasoning effort and efforts, and a positive context window.
pub open spec fn cache_model_spec(id: Seq<char>, entry: FieldVal) -> Option<ModelV> {
    let info = match get(entry, "info"@) {
        Some(x) => x,
        None => entry,
    };
    if get(info, "hidden"@) == Some(FieldVal::Bool(true)) {
        None
    } else {
        Some(
            (
                id,
                str_or(info, "name"@, id),
                str_or(info, "description"@, Seq::empty()),
                str_at(info, "reasoning_effort"@),
                efforts_under(info, "reasoning_efforts"@),
                positive(get(info, "context_window"@)),
            ),
        )
    }
}

pub open spec fn cache_models_spec(fs: Seq<(String, FieldVal)>) -> Seq<ModelV>
    decreases fs.len(),
{
    if fs.len() == 0 {
        Seq::empty()
    } else {
        let rest = cache_models_spec(fs.drop_last());
        match cache_model_spec(fs.last().0@, fs.last().1) {
            Some(m) => rest.push(m),
            None => rest,
        }
    }
}

fn cache_model(id: &String, entry: &FieldVal) -> (r: Option<ModelInfo>)
    ensures
        match r {
            Some(x) => cache_model_spec(id@, *entry) == Some(model_view(x)),
            None => cache_model_spec(id@, *entry) is None,
        },
{
    let info: &FieldVal = match get_of(entry, "info") {
        Some(x) => x,
        None => entry,
    };
    match get_of(info, "hidden") {
        Some(FieldVal::Bool(true)) => {
            return None;
        },
        _ => {},
    }
    Some(
        ModelInfo {
            id: id.clone(),
            name: str_or_exec(info, "name", id.as_str()),
            description: str_or_blank(info, "description"),
            effort: str_at_exec(info, "reasoning_effort"),
            efforts: efforts_of(info, "reasoning_efforts"),
            context_window: positive_exec(get_of(info, "context_window")),
        },
    )
}

/// The models listed in grok's `models_cache.json` (its `models` object),
/// hidden ones left out.
pub fn models_from_cache(v: &FieldVal) -> (r: Vec<ModelInfo>)
    ensures
        models_view(r@) == (match get(*v, "models"@) {
            Some(FieldVal::Object(fs)) => cache_models_spec(fs@),
            _ => Seq::empty(),
        }),
{
    let fs = match get_of(v, "models") {
        Some(FieldVal::Object(fs)) => fs,
        _ => {
            let r: Vec<ModelInfo> = Vec::new();
            assert(models_view(r@) =~= Seq::<ModelV>::empty());
            return r;
        },
    };
    let mut out: Vec<ModelInfo> = Vec::new();
    let mut i: usize = 0;
    proof {
        assert(fs@.take(0) =~= Seq::<(String, FieldVal)>::empty());
        assert(models_view(out@) =~= Seq::<ModelV>::empty());
    }
    while i < fs.len()
        invariant
            i <= fs@.len(),
            models_view(out@) == cache_models_spec(fs@.take(i as int)),
        decreases fs.len() - i,
    {
        proof {
            assert(fs@.take(i + 1).drop_last() =~= fs@.take(i as int));
            assert(fs@.take(i + 1).last() == fs@[i as int]);
        }
        match cache_model(&fs[i].0, &fs[i].1) {
            Some(m) => {
                let ghost before = models_view(out@);
                out.push(m);
                proof {
                    assert(models_view(out@) =~= before.push(model_view(m)));
                }
            },
            None => {},
        }
        i += 1;
    }
    proof {
        assert(fs@.take(fs@.len() as int) =~= fs@);
    }
    out
}


pub type CommandV = (Seq<char>, Seq<char>, Option<Seq<char>>, Seq<Seq<char>>);

pub open spec fn command_view(c: SlashCommand) -> CommandV {
    (c.name@, c.description@, opt_view(c.hint), Seq::new(c.aliases@.len(), |i: int| c.aliases@[i]@))
}

pub open spec fn commands_view(v: Seq<SlashCommand>) -> Seq<CommandV> {
    Seq::new(v.len(), |i: int| command_view(v[i]))
}

pub open spec fn strings_of(a: Seq<FieldVal>) -> Seq<Seq<char>>
    decreases a.len(),
{
    if a.len() == 0 {
        Seq::empty()
    } else {
        match a.last() {
            FieldVal::Str(s) => strings_of(a.drop_last()).push(s@),
            _ => strings_of(a.drop_last()),
        }
    }
}

/// A slash command grok announces: its `name` (which it must have as a
/// string), `description`, `input.hint` and string `aliases`.
pub open spec fn command_spec(c: FieldVal) -> Option<CommandV> {
    match str_at(c, "name"@) {
        Some(name) => Some(
            (
                name,
                str_or(c, "description"@, Seq::empty()),
                match get(c, "input"@) {
                    Some(i) => str_at(i, "hint"@),
                    None => None,
                },
                match get(c, "aliases"@) {
                    Some(FieldVal::Array(a)) => strings_of(a@),
                    _ => Seq::empty(),
                },
            ),
        ),
        None => None,
    }
}

pub open spec fn commands_spec(a: Seq<FieldVal>) -> Seq<CommandV>
    decreases a.len(),
{
    if a.len() == 0 {
        Seq::empty()
    } else {
        let rest = commands_spec(a.drop_last());
        match command_spec(a.last()) {
            Some(c) => rest.push(c),
            None => rest,
        }
    }
}

fn strings_in(a: &Vec<FieldVal>) -> (r: Vec<String>)
    ensures
        Seq::new(r@.len(), |i: int| r@[i]@) == strings_of(a@),
{
    let mut out: Vec<String> = Vec::new();
    let mut i: usize = 0;
    proof {
        assert(a@.take(0) =~= Seq::<FieldVal>::empty());
        assert(Seq::new(out@.len(), |k: int| out@[k]@) =~= Seq::<Seq<char>>::empty());
    }
    while i < a.len()
        invariant
            i <= a@.len(),
            Seq::new(out@.len(), |k: int| out@[k]@) == strings_of(a@.take(i as int)),
        decreases a.len() - i,
    {
        proof {
            assert(a@.take(i + 1).drop_last() =~= a@.take(i as int));
            assert(a@.take(i + 1).last() == a@[i as int]);
        }
        match &a[i] {
            FieldVal::Str(s) => {
                let ghost before = Seq::new(out@.len(), |k: int| out@[k]@);
                out.push(s.clone());
                proof {
                    assert(Seq::new(out@.len(), |k: int| out@[k]@) =~= before.push(s@));
                }
            },
            _ => {},
        }
        i += 1;
    }
    proof {
        assert(a@.take(a@.len() as int) =~= a@);
    }
    out
}

fn command_of(c: &FieldVal) -> (r: Option<SlashCommand>)
    ensures
        match r {
            Some(x) => command_spec(*c) == Some(command_view(x)),
            None => command_spec(*c) is None,
        },
{
    let name = match str_at_exec(c, "name") {
        Some(n) => n,
        None => {
            return None;
        },
    };
    let hint = match get_of(c, "input") {
        Some(i) => str_at_exec(i, "hint"),
        None => None,
    };
    let aliases: Vec<String> = match get_of(c, "aliases") {
        Some(FieldVal::Array(a)) => strings_in(a),
        _ => {
            let r: Vec<String> = Vec::new();
            assert(Seq::new(r@.len(), |k: int| r@[k]@) =~= Seq::<Seq<char>>::empty());
            r
        },
    };
    Some(SlashCommand { name, description: str_or_blank(c, "description"), hint, aliases })
}

/// The slash commands of grok's `available_commands_update`, those with a
/// name.
pub fn parse_commands(v: &FieldVal) -> (r: Vec<SlashCommand>)
    ensures
        commands_view(r@) == (match *v {
            FieldVal::Array(a) => commands_spec(a@),
            _ => Seq::empty(),
        }),
{
    let a = match v {
        FieldVal::Array(a) => a,
        _ => {
            let r: Vec<SlashCommand> = Vec::new();
            assert(commands_view(r@) =~= Seq::<CommandV>::empty());
            return r;
        },
    };
    let mut out: Vec<SlashCommand> = Vec::new();
    let mut i: usize = 0;
    proof {
        assert(a@.take(0) =~= Seq::<FieldVal>::empty());
        assert(commands_view(out@) =~= Seq::<CommandV>::empty());
    }
    while i < a.len()
        invariant
            i <= a@.len(),
            commands_view(out@) == commands_spec(a@.take(i as int)),
        decreases a.len() - i,
    {
        proof {
            assert(a@.take(i + 1).drop_last() =~= a@.take(i as int));
            assert(a@.take(i + 1).last() == a@[i as int]);
        }
        match command_of(&a[i]) {
            Some(c) => {
                let ghost before = commands_view(out@);
                out.push(c);
                proof {
                    assert(commands_view(out@) =~= before.push(command_view(c)));
                }
            },
            None => {},
        }
        i += 1;
    }
    proof {
        assert(a@.take(a@.len() as int) =~= a@);
    }
    out
}

/// Where a command goes among commands sorted by name.
pub open spec fn cmd_pos(s: Seq<CommandV>, name: Seq<char>) -> int
    decreases s.len(),
{
    if s.len() == 0 {
        0
    } else if crate::text::lex_order(s[0].0, name) < 0 {
        1 + cmd_pos(s.drop_first(), name)
    } else {
        0
    }
}

/// A command put in place by name, replacing one of the same name.
pub open spec fn cmd_put(s: Seq<CommandV>, c: CommandV) -> Seq<CommandV> {
    let p = cmd_pos(s, c.0);
    if p < s.len() && s[p].0 == c.0 {
        s.update(p, c)
    } else {
        s.insert(p, c)
    }
}

/// Aliases added to a command's: those that are neither its name nor
/// already listed, in order.
pub open spec fn add_aliases(have: Seq<Seq<char>>, name: Seq<char>, more: Seq<Seq<char>>) -> Seq<Seq<char>>
    decreases more.len(),
{
    if more.len() == 0 {
        have
    } else {
        let h = add_aliases(have, name, more.drop_last());
        let a = more.last();
        if a != name && !h.contains(a) {
            h.push(a)
        } else {
            h
        }
    }
}

/// A command grok announces merged into the documented ones: it fills in a
/// missing description and hint and adds aliases, or is added.
pub open spec fn cmd_merge(s: Seq<CommandV>, c: CommandV) -> Seq<CommandV> {
    let p = cmd_pos(s, c.0);
    if p < s.len() && s[p].0 == c.0 {
        let e = s[p];
        s.update(
            p,
            (
                e.0,
                if e.1.len() == 0 && c.1.len() > 0 {
                    c.1
                } else {
                    e.1
                },
                if e.2 is None {
                    c.2
                } else {
                    e.2
                },
                add_aliases(e.3, e.0, c.3),
            ),
        )
    } else {
        s.insert(p, c)
    }
}

pub open spec fn put_all(cs: Seq<CommandV>) -> Seq<CommandV>
    decreases cs.len(),
{
    if cs.len() == 0 {
        Seq::empty()
    } else {
        cmd_put(put_all(cs.drop_last()), cs.last())
    }
}

pub open spec fn merge_all(s: Seq<CommandV>, cs: Seq<CommandV>) -> Seq<CommandV>
    decreases cs.len(),
{
    if cs.len() == 0 {
        s
    } else {
        cmd_merge(merge_all(s, cs.drop_last()), cs.last())
    }
}

pub(crate) fn cmd_pos_exec(v: &Vec<SlashCommand>, name: &String) -> (p: usize)
    ensures
        p as int == cmd_pos(commands_view(v@), name@),
        p <= v@.len(),
{
    let ghost cv = commands_view(v@);
    let nv = chars_of(name.as_str());
    let mut j: usize = 0;
    proof {
        assert(cv.subrange(0, cv.len() as int) =~= cv);
    }
    while j < v.len()
        invariant
            j <= v@.len(),
            cv == commands_view(v@),
            nv@ == name@,
            cmd_pos(cv, name@) == j + cmd_pos(cv.subrange(j as int, cv.len() as int), name@),
        decreases v.len() - j,
    {
        let mv = chars_of(v[j].name.as_str());
        let ghost rest = cv.subrange(j as int, cv.len() as int);
        assert(rest[0] == cv[j as int]);
        if crate::text::lex_compare(&mv, &nv) >= 0 {
            return j;
        }
        proof {
            assert(rest.drop_first() =~= cv.subrange(j + 1, cv.len() as int));
        }
        j += 1;
    }
    proof {
        assert(cv.subrange(j as int, cv.len() as int) =~= Seq::<CommandV>::empty());
    }
    j
}

pub(crate) fn contains_string(v: &Vec<String>, a: &String) -> (r: bool)
    ensures
        r == Seq::new(v@.len(), |i: int| v@[i]@).contains(a@),
{
    let ghost s = Seq::new(v@.len(), |i: int| v@[i]@);
    let mut i: usize = 0;
    while i < v.len()
        invariant
            i <= v@.len(),
            s == Seq::new(v@.len(), |k: int| v@[k]@),
            forall|k: int| 0 <= k < i ==> s[k] != a@,
        decreases v.len() - i,
    {
        if v[i] == *a {
            assert(s[i as int] == a@);
            return true;
        }
        i += 1;
    }
    false
}

/// The commands shown in the prompt box: the documented ones, each name
/// once (a later one replacing an earlier), with those grok announces merged
/// in; sorted by name.
pub fn merge_commands(docs: Vec<SlashCommand>, acp: Vec<SlashCommand>) -> (r: Vec<SlashCommand>)
    ensures
        commands_view(r@) == merge_all(put_all(commands_view(docs@)), commands_view(acp@)),
{
    let ghost dv = commands_view(docs@);
    let ghost av = commands_view(acp@);
    let mut out: Vec<SlashCommand> = Vec::new();
    let mut docs = docs;
    proof {
        assert(dv.take(0) =~= Seq::<CommandV>::empty());
        assert(commands_view(out@) =~= Seq::<CommandV>::empty());
    }
    let n = docs.len();
    while docs.len() > 0
        invariant
            docs@.len() <= n,
            dv.len() == n,
            forall|k: int| 0 <= k < docs@.len() ==> command_view(#[trigger] docs@[k]) == dv[n - docs@.len() + k],
            commands_view(out@) == put_all(dv.take(n - docs@.len())),
        decreases docs.len(),
    {
        let c = docs.remove(0);
        let ghost idx = n - docs@.len() - 1;
        proof {
            assert(command_view(c) == dv[idx]);
            assert(dv.take(idx + 1).drop_last() =~= dv.take(idx));
            assert(dv.take(idx + 1).last() == dv[idx]);
        }
        let ghost before = commands_view(out@);
        let p = cmd_pos_exec(&out, &c.name);
        if p < out.len() && out[p].name == c.name {
            let ghost cv = command_view(c);
            out.set(p, c);
            proof {
                assert(commands_view(out@) =~= before.update(p as int, cv));
            }
        } else {
            let ghost cv = command_view(c);
            out.insert(p, c);
            proof {
                assert(commands_view(out@) =~= before.insert(p as int, cv));
            }
        }
        proof {
            assert forall|k: int| 0 <= k < docs@.len() implies command_view(#[trigger] docs@[k]) == dv[n
                - docs@.len() + k] by {
            }
        }
    }
    proof {
        assert(dv.take(n as int) =~= dv);
    }
    let ghost base = commands_view(out@);
    let m = acp.len();
    let mut acp = acp;
    while acp.len() > 0
        invariant
            acp@.len() <= m,
            av.len() == m,
            forall|k: int| 0 <= k < acp@.len() ==> command_view(#[trigger] acp@[k]) == av[m - acp@.len() + k],
            commands_view(out@) == merge_all(base, av.take(m - acp@.len())),
        decreases acp.len(),
    {
        let c = acp.remove(0);
        let ghost idx = m - acp@.len() - 1;
        proof {
            assert(command_view(c) == av[idx]);
            assert(av.take(idx + 1).drop_last() =~= av.take(idx));
            assert(av.take(idx + 1).last() == av[idx]);
        }
        let ghost before = commands_view(out@);
        let ghost cv = command_view(c);
        let p = cmd_pos_exec(&out, &c.name);
        if p < out.len() && out[p].name == c.name {
            let e = out.remove(p);
            let ghost ev = command_view(e);
            let description = if e.description.as_str().is_empty() && !c.description.as_str().is_empty() {
                c.description
            } else {
                e.description
            };
            let hint = match e.hint {
                None => c.hint,
                Some(h) => Some(h),
            };
            let mut aliases = e.aliases;
            let ghost start = Seq::new(aliases@.len(), |k: int| aliases@[k]@);
            let more = c.aliases;
            let ghost mv = Seq::new(more@.len(), |k: int| more@[k]@);
            let mut j: usize = 0;
            proof {
                assert(mv.take(0) =~= Seq::<Seq<char>>::empty());
            }
            while j < more.len()
                invariant
                    j <= more@.len(),
                    mv == Seq::new(more@.len(), |k: int| more@[k]@),
                    Seq::new(aliases@.len(), |k: int| aliases@[k]@) == add_aliases(start, e.name@, mv.take(j as int)),
                decreases more.len() - j,
            {
                proof {
                    assert(mv.take(j + 1).drop_last() =~= mv.take(j as int));
                    assert(mv.take(j + 1).last() == more@[j as int]@);
                }
                let a = &more[j];
                if *a != e.name && !contains_string(&aliases, a) {
                    let ghost hv = Seq::new(aliases@.len(), |k: int| aliases@[k]@);
                    aliases.push(a.clone());
                    proof {
                        assert(Seq::new(aliases@.len(), |k: int| aliases@[k]@) =~= hv.push(a@));
                    }
                }
                j += 1;
            }
            proof {
                assert(mv.take(more@.len() as int) =~= mv);
            }
            let merged = SlashCommand { name: e.name, description, hint, aliases };
            out.insert(p, merged);
            proof {
                assert(commands_view(out@) =~= before.update(p as int, command_view(merged)));
            }
        } else {
            out.insert(p, c);
            proof {
                assert(commands_view(out@) =~= before.insert(p as int, cv));
            }
        }
    }
    proof {
        assert(av.take(m as int) =~= av);
    }
    out
}


/// What a transcript update is, by its `sessionUpdate` kind: streamed text,
/// a tool call, the turn's end, a usage record, or nothing shown.
pub open spec fn kind_ingest(kind: Seq<char>) -> Ingest {
    if kind == "user_message_chunk"@ || kind == "agent_thought_chunk"@ || kind == "agent_message_chunk"@ {
        Ingest::Text
    } else if kind == "tool_call"@ || kind == "tool_call_update"@ {
        Ingest::Tool
    } else if kind == "turn_completed"@ {
        Ingest::TurnEnd
    } else if kind == "usage_update"@ {
        Ingest::Usage
    } else {
        Ingest::Nothing
    }
}

pub open spec fn last_of(s: Seq<BlockView>) -> Option<BlockView> {
    if s.len() > 0 {
        Some(s.last())
    } else {
        None
    }
}

/// The entry a followed transcript shows after an update: the open text
/// (else the last entry) for text; the tool call it names (the last entry
/// where it names none); the last entry at a turn's end.
pub open spec fn tail_block(s: ParserView, ing: Ingest, tool_id: Seq<char>) -> Option<BlockView> {
    match ing {
        Ingest::Text => match s.buf {
            Some(b) => Some(block_of_buf(b)),
            None => last_of(s.blocks),
        },
        Ingest::Tool => if tool_id.len() == 0 {
            last_of(s.blocks)
        } else {
            match tool_idx(s.blocks, tool_id) {
                Some(i) => Some(s.blocks[i]),
                None => None,
            }
        },
        Ingest::TurnEnd => last_of(s.blocks),
        _ => None,
    }
}

/// What a followed transcript sends after one line.
pub struct TailOutcome {
    /// The context size, where the line changed it.
    pub context_used: Option<u64>,
    pub block: Option<Block>,
    /// The counters, after a turn's end or a usage record.
    pub usage: Option<TokenUsage>,
}

/// Takes one line of a transcript that is followed (not attached): the
/// parser takes it; the outcome holds the new context size where it
/// changed, the entry to show, and the counters after a turn's end or a
/// usage record.
pub fn tail_event(parser: &mut Parser, ev: &crate::parse::Event) -> (r: TailOutcome)
    requires
        crate::parse::apply_event_spec(old(parser)@, *ev) is Some,
    ensures
        ({
            let s = crate::parse::apply_event_spec(old(parser)@, *ev).unwrap().0;
            let ing = kind_ingest(str_or_empty(ev.update.fields@, "sessionUpdate"@));
            &&& final(parser)@ == s
            &&& (r.context_used is Some <==> s.context_tokens != old(parser)@.context_tokens)
            &&& (r.context_used matches Some(n) ==> n == s.context_tokens)
            &&& opt_block_view(r.block) == tail_block(s, ing, str_or_empty(ev.update.fields@, "toolCallId"@))
            &&& (r.usage is Some <==> (ing == Ingest::TurnEnd || ing == Ingest::Usage))
            &&& (r.usage matches Some(u) ==> usage_view(u) == (s.recorded, s.counters, s.models))
        }),
{
    let before = parser.context_tokens();
    crate::parse::apply_event(parser, ev);
    let after = parser.context_tokens();
    let context_used = if after != before {
        Some(after)
    } else {
        None
    };
    let kind = get_str_or_empty(ev.update.fields.as_slice(), "sessionUpdate");
    let k = kind.as_str();
    let ing = if str_eq(k, "user_message_chunk") || str_eq(k, "agent_thought_chunk") || str_eq(
        k,
        "agent_message_chunk",
    ) {
        Ingest::Text
    } else if str_eq(k, "tool_call") || str_eq(k, "tool_call_update") {
        Ingest::Tool
    } else if str_eq(k, "turn_completed") {
        Ingest::TurnEnd
    } else if str_eq(k, "usage_update") {
        Ingest::Usage
    } else {
        Ingest::Nothing
    };
    let block = match ing {
        Ingest::Text => match parser.open_text() {
            Some(b) => Some(b),
            None => parser.last_block(),
        },
        Ingest::Tool => {
            let id = get_str_or_empty(ev.update.fields.as_slice(), "toolCallId");
            if id.as_str().is_empty() {
                parser.last_block()
            } else {
                parser.tool(id.as_str())
            }
        },
        Ingest::TurnEnd => parser.last_block(),
        _ => None,
    };
    let usage = match ing {
        Ingest::TurnEnd | Ingest::Usage => Some(parser.usage_snapshot()),
        _ => None,
    };
    TailOutcome { context_used, block, usage }
}


/// The usage a live session shows, and its context size: the parser's
/// counters, unless it recorded none and the session kept some.
pub fn live_usage(parser: &Parser, saved: &TokenUsage) -> (r: (TokenUsage, u64))
    ensures
        !parser@.recorded && saved.recorded ==> usage_view(r.0) == usage_view(*saved),
        parser@.recorded || !saved.recorded ==> usage_view(r.0) == (parser@.recorded, parser@.counters, parser@.models),
        r.1 == parser@.context_tokens,
{
    let usage = parser.usage_snapshot();
    let chosen = if !usage.recorded && saved.recorded {
        saved.copy()
    } else {
        usage
    };
    (chosen, parser.context_tokens())
}

/// A new parser for the next prompt of a live session: no entries, but the
/// usage recorded so far (kept in `saved` too) and the context size.
pub fn restart_parser(parser: &Parser, saved: &mut TokenUsage) -> (r: Parser)
    ensures
        ({
            let base = crate::parse::empty_parser();
            let with_usage = if parser@.recorded {
                ParserView {
                    recorded: true,
                    counters: parser@.counters,
                    models: crate::parse::models_put_all(parser@.models),
                    ..base
                }
            } else {
                base
            };
            r@ == (if parser@.context_tokens > 0 {
                ParserView { context_tokens: parser@.context_tokens, ..with_usage }
            } else {
                with_usage
            })
        }),
        parser@.recorded ==> usage_view(*final(saved)) == (true, parser@.counters, parser@.models),
        !parser@.recorded ==> usage_view(*final(saved)) == usage_view(*old(saved)),
{
    let usage = parser.usage_snapshot();
    let ctx = parser.context_tokens();
    let mut fresh = Parser::new();
    if usage.recorded {
        let copy = usage.copy();
        fresh.replace_usage(usage);
        *saved = copy;
    }
    fresh.set_context_tokens(ctx);
    fresh
}

} // verus!
