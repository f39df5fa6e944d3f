//! Session controls: permission modes, rewind points and background tasks,
//! as grok's extension methods report them.
use vstd::prelude::*;
use crate::parse::{FieldVal, field_of, get_field};
use crate::text::{chars_of, string_of, trim, trim_str, lower_ascii, lower_chars, str_eq, eq_str, contains, contains_str};
use crate::types::{Block, BlockView, blocks_view};

verus! {

/// A point a session can be rewound to.
#[derive(Debug, Clone)]
pub struct RewindPoint {
    pub prompt_index: u64,
    pub preview: String,
    pub created_at: String,
    pub disabled: bool,
    pub reason: Option<String>,
}

/// A forked session.
#[derive(Debug, Clone)]
pub struct ForkedSession {
    pub id: String,
    pub cwd: String,
    pub parent_id: String,
}

/// A background task of a session.
#[derive(Debug, Clone)]
pub struct TaskRow {
    pub id: String,
    pub title: String,
    pub status: String,
}

/// A permission mode that grok does not know.
#[derive(Debug, Clone, Copy, PartialEq, Eq, Structural)]
pub struct InvalidMode;

/// The permission modes, with their aliases, after trimming and in any
/// ASCII case: `ask`, `auto`, `always-approve` (also `always_approve` and
/// `yolo`) and `plan`.
pub open spec fn mode_spec(raw: Seq<char>) -> Option<Seq<char>> {
    let m = lower_ascii(trim(raw));
    if m == "ask"@ {
        Some("ask"@)
    } else if m == "auto"@ {
        Some("auto"@)
    } else if m == "always-approve"@ || m == "always_approve"@ || m == "yolo"@ {
        Some("always-approve"@)
    } else if m == "plan"@ {
        Some("plan"@)
    } else {
        None
    }
}

/// A permission mode by its name or alias.
pub fn normalize_mode(mode: &str) -> (r: Result<&'static str, InvalidMode>)
    ensures
        match mode_spec(mode@) {
            Some(m) => r matches Ok(s) && s@ == m,
            None => r is Err,
        },
{
    let t = trim_str(mode);
    let m = lower_chars(&t);
    if eq_str(&m, "ask") {
        Ok("ask")
    } else if eq_str(&m, "auto") {
        Ok("auto")
    } else if eq_str(&m, "always-approve") || eq_str(&m, "always_approve") || eq_str(&m, "yolo") {
        Ok("always-approve")
    } else if eq_str(&m, "plan") {
        Ok("plan")
    } else {
        Err(InvalidMode)
    }
}

/// Whether an error from grok says the method does not exist.
pub open spec fn method_missing_spec(msg: Seq<char>) -> bool {
    let m = lower_ascii(msg);
    contains(m, "method not found"@) || (contains(m, "not found"@) && contains(m, "method"@))
        || contains(m, "-32601"@)
}

/// Whether an error from grok says the method does not exist.
pub fn is_method_missing(msg: &str) -> (r: bool)
    ensures
        r == method_missing_spec(msg@),
{
    let v = chars_of(msg);
    let m = lower_chars(&v);
    contains_str(&m, "method not found") || (contains_str(&m, "not found") && contains_str(
        &m,
        "method",
    )) || contains_str(&m, "-32601")
}

/// The field under `key` of an object.
pub open spec fn get(v: FieldVal, key: Seq<char>) -> Option<FieldVal> {
    match v {
        FieldVal::Object(fs) => field_of(fs@, key),
        _ => None,
    }
}

pub(crate) fn get_of<'a>(v: &'a FieldVal, key: &str) -> (r: Option<&'a FieldVal>)
    ensures
        match r {
            Some(x) => get(*v, key@) == Some(*x),
            None => get(*v, key@) is None,
        },
{
    match v {
        FieldVal::Object(fs) => get_field(fs.as_slice(), key),
        _ => None,
    }
}

/// The first of `keys` holding a string that is not blank, trimmed; else
/// the empty string.
pub open spec fn json_str_spec(v: FieldVal, keys: Seq<Seq<char>>) -> Seq<char>
    decreases keys.len(),
{
    if keys.len() == 0 {
        Seq::empty()
    } else {
        match get(v, keys[0]) {
            Some(FieldVal::Str(s)) => if trim(s@).len() > 0 {
                trim(s@)
            } else {
                json_str_spec(v, keys.drop_first())
            },
            _ => json_str_spec(v, keys.drop_first()),
        }
    }
}

fn json_str(v: &FieldVal, keys: &[&str]) -> (r: String)
    ensures
        r@ == json_str_spec(*v, crate::parse::strs_view(keys@)),
{
    let ghost ks = crate::parse::strs_view(keys@);
    let mut i: usize = 0;
    proof {
        assert(ks.subrange(0, ks.len() as int) =~= ks);
    }
    while i < keys.len()
        invariant
            i <= keys@.len(),
            ks == crate::parse::strs_view(keys@),
            json_str_spec(*v, ks) == json_str_spec(*v, ks.subrange(i as int, ks.len() as int)),
        decreases keys.len() - i,
    {
        let ghost rest = ks.subrange(i as int, ks.len() as int);
        assert(rest[0] == keys@[i as int]@);
        match get_of(v, keys[i]) {
            Some(FieldVal::Str(s)) => {
                let t = trim_str(s.as_str());
                if t.len() > 0 {
                    return string_of(&t);
                }
            },
            _ => {},
        }
        proof {
            assert(rest.drop_first() =~= ks.subrange(i + 1, ks.len() as int));
        }
        i += 1;
    }
    proof {
        assert(ks.subrange(i as int, ks.len() as int) =~= Seq::<Seq<char>>::empty());
    }
    String::new()
}

/// The first of `keys` holding a whole number that fits `u64`.
pub open spec fn json_u64_spec(v: FieldVal, keys: Seq<Seq<char>>) -> Option<u64>
    decreases keys.len(),
{
    if keys.len() == 0 {
        None
    } else {
        match get(v, keys[0]) {
            Some(FieldVal::UInt(n)) => Some(n),
            _ => json_u64_spec(v, keys.drop_first()),
        }
    }
}

fn json_u64(v: &FieldVal, keys: &[&str]) -> (r: Option<u64>)
    ensures
        r == json_u64_spec(*v, crate::parse::strs_view(keys@)),
{
    let ghost ks = crate::parse::strs_view(keys@);
    let mut i: usize = 0;
    proof {
        assert(ks.subrange(0, ks.len() as int) =~= ks);
    }
    while i < keys.len()
        invariant
            i <= keys@.len(),
            ks == crate::parse::strs_view(keys@),
            json_u64_spec(*v, ks) == json_u64_spec(*v, ks.subrange(i as int, ks.len() as int)),
        decreases keys.len() - i,
    {
        let ghost rest = ks.subrange(i as int, ks.len() as int);
        assert(rest[0] == keys@[i as int]@);
        match get_of(v, keys[i]) {
            Some(FieldVal::UInt(n)) => {
                return Some(*n);
            },
            _ => {},
        }
        proof {
            assert(rest.drop_first() =~= ks.subrange(i + 1, ks.len() as int));
        }
        i += 1;
    }
    proof {
        assert(ks.subrange(i as int, ks.len() as int) =~= Seq::<Seq<char>>::empty());
    }
    None
}

/// The list a reply holds under the first of `keys` present, or the reply
/// itself where it is a list and none is.
pub open spec fn list_of(v: FieldVal, k1: Seq<char>, k2: Seq<char>, k3: Seq<char>) -> Option<Seq<FieldVal>> {
    let pick = match get(v, k1) {
        Some(x) => Some(x),
        None => match get(v, k2) {
            Some(x) => Some(x),
            None => match get(v, k3) {
                Some(x) => Some(x),
                None => match v {
                    FieldVal::Array(_) => Some(v),
                    _ => None,
                },
            },
        },
    };
    match pick {
        Some(FieldVal::Array(a)) => Some(a@),
        _ => None,
    }
}

fn list_of_exec<'a>(v: &'a FieldVal, k1: &str, k2: &str, k3: &str) -> (r: Option<&'a Vec<FieldVal>>)
    ensures
        match r {
            Some(a) => list_of(*v, k1@, k2@, k3@) == Some(a@),
            None => list_of(*v, k1@, k2@, k3@) is None,
        },
{
    let pick: Option<&FieldVal> = match get_of(v, k1) {
        Some(x) => Some(x),
        None => match get_of(v, k2) {
            Some(x) => Some(x),
            None => match get_of(v, k3) {
                Some(x) => Some(x),
                None => match v {
                    FieldVal::Array(_) => Some(v),
                    _ => None,
                },
            },
        },
    };
    match pick {
        Some(FieldVal::Array(a)) => Some(a),
        _ => None,
    }
}

pub open spec fn point_view(p: RewindPoint) -> (u64, Seq<char>, Seq<char>, bool, Option<Seq<char>>) {
    (p.prompt_index, p.preview@, p.created_at@, p.disabled, crate::types::opt_view(p.reason))
}

pub open spec fn points_view(v: Seq<RewindPoint>) -> Seq<(u64, Seq<char>, Seq<char>, bool, Option<Seq<char>>)> {
    Seq::new(v.len(), |i: int| point_view(v[i]))
}

pub open spec fn index_keys() -> Seq<Seq<char>> {
    seq!["prompt_index"@, "promptIndex"@, "index"@]
}

pub open spec fn preview_keys() -> Seq<Seq<char>> {
    seq!["preview"@, "prompt_preview"@, "text"@, "content"@]
}

pub open spec fn created_keys() -> Seq<Seq<char>> {
    seq!["created_at"@, "createdAt"@]
}

/// A rewind point from one row of grok's reply; rows without a prompt index
/// are dropped.
pub open spec fn point_spec(row: FieldVal) -> Option<(u64, Seq<char>, Seq<char>, bool, Option<Seq<char>>)> {
    match json_u64_spec(row, index_keys()) {
        None => None,
        Some(n) => Some(
            (
                n,
                json_str_spec(row, preview_keys()),
                json_str_spec(row, created_keys()),
                match get(row, "disabled"@) {
                    Some(FieldVal::Bool(b)) => b,
                    _ => false,
                },
                match get(row, "reason"@) {
                    Some(FieldVal::Str(s)) => if trim(s@).len() > 0 {
                        Some(trim(s@))
                    } else {
                        None
                    },
                    _ => None,
                },
            ),
        ),
    }
}

pub open spec fn points_spec(rows: Seq<FieldVal>) -> Seq<(u64, Seq<char>, Seq<char>, bool, Option<Seq<char>>)>
    decreases rows.len(),
{
    if rows.len() == 0 {
        Seq::empty()
    } else {
        let rest = points_spec(rows.drop_last());
        match point_spec(rows.last()) {
            Some(p) => rest.push(p),
            None => rest,
        }
    }
}

/// The rewind points of grok's `x.ai/rewind/points` reply, in snake or camel
/// case: the rows under `points`, `rewindPoints` or `items`, or the reply
/// itself where it is a list.
pub open spec fn rewind_points_spec(v: FieldVal) -> Seq<(u64, Seq<char>, Seq<char>, bool, Option<Seq<char>>)> {
    match list_of(v, "points"@, "rewindPoints"@, "items"@) {
        Some(rows) => points_spec(rows),
        None => Seq::empty(),
    }
}

fn point_of(row: &FieldVal) -> (r: Option<RewindPoint>)
    ensures
        match r {
            Some(p) => point_spec(*row) == Some(point_view(p)),
            None => point_spec(*row) is None,
        },
{
    let ik: [&str; 3] = ["prompt_index", "promptIndex", "index"];
    let pk: [&str; 4] = ["preview", "prompt_preview", "text", "content"];
    let ck: [&str; 2] = ["created_at", "createdAt"];
    proof {
        assert(crate::parse::strs_view(ik@) =~= index_keys());
        assert(crate::parse::strs_view(pk@) =~= preview_keys());
        assert(crate::parse::strs_view(ck@) =~= created_keys());
    }
    let n = match json_u64(row, &ik) {
        Some(n) => n,
        None => {
            return None;
        },
    };
    let preview = json_str(row, &pk);
    let created_at = json_str(row, &ck);
    let disabled = match get_of(row, "disabled") {
        Some(FieldVal::Bool(b)) => *b,
        _ => false,
    };
    let reason = match get_of(row, "reason") {
        Some(FieldVal::Str(s)) => {
            let t = trim_str(s.as_str());
            if t.len() > 0 {
                Some(string_of(&t))
            } else {
                None
            }
        },
        _ => None,
    };
    Some(RewindPoint { prompt_index: n, preview, created_at, disabled, reason })
}

/// The rewind points of grok's reply.
pub fn normalize_rewind_points(v: &FieldVal) -> (r: Vec<RewindPoint>)
    ensures
        points_view(r@) == rewind_points_spec(*v),
{
    let rows = match list_of_exec(v, "points", "rewindPoints", "items") {
        Some(a) => a,
        None => {
            return Vec::new();
        },
    };
    let ghost rv = rows@;
    let mut out: Vec<RewindPoint> = Vec::new();
    let mut i: usize = 0;
    proof {
        assert(rv.take(0) =~= Seq::<FieldVal>::empty());
        assert(points_view(out@) =~= Seq::<(u64, Seq<char>, Seq<char>, bool, Option<Seq<char>>)>::empty());
    }
    while i < rows.len()
        invariant
            i <= rv.len(),
            rv == rows@,
            points_view(out@) == points_spec(rv.take(i as int)),
        decreases rv.len() - i,
    {
        proof {
            assert(rv.take(i + 1).drop_last() =~= rv.take(i as int));
            assert(rv.take(i + 1).last() == rv[i as int]);
        }
        match point_of(&rows[i]) {
            Some(p) => {
                let ghost before = points_view(out@);
                out.push(p);
                proof {
                    assert(points_view(out@) =~= before.push(point_view(p)));
                }
            },
            None => {},
        }
        i += 1;
    }
    proof {
        assert(rv.take(rv.len() as int) =~= rv);
    }
    out
}

/// Rewind points made from the user entries of a transcript, numbered from
/// 0, each with the first 80 characters of its prompt.
pub open spec fn user_points_spec(b: Seq<BlockView>) -> Seq<(u64, Seq<char>, Seq<char>, bool, Option<Seq<char>>)>
    decreases b.len(),
{
    if b.len() == 0 {
        Seq::empty()
    } else {
        let rest = user_points_spec(b.drop_last());
        match b.last() {
            BlockView::User { text, .. } => rest.push(
                (
                    rest.len() as u64,
                    if text.len() <= 80 {
                        text
                    } else {
                        text.take(80)
                    },
                    Seq::empty(),
                    false,
                    None,
                ),
            ),
            _ => rest,
        }
    }
}

proof fn lemma_user_points_len(b: Seq<BlockView>)
    ensures
        user_points_spec(b).len() <= b.len(),
    decreases b.len(),
{
    if b.len() > 0 {
        lemma_user_points_len(b.drop_last());
    }
}

/// Rewind points made from the user entries of a transcript.
pub fn user_points_from_blocks(blocks: &[Block]) -> (r: Vec<RewindPoint>)
    ensures
        points_view(r@) == user_points_spec(blocks_view(blocks@)),
{
    let ghost bv = blocks_view(blocks@);
    let mut out: Vec<RewindPoint> = Vec::new();
    let mut i: usize = 0;
    proof {
        assert(bv.take(0) =~= Seq::<BlockView>::empty());
        assert(points_view(out@) =~= Seq::<(u64, Seq<char>, Seq<char>, bool, Option<Seq<char>>)>::empty());
    }
    while i < blocks.len()
        invariant
            i <= blocks@.len(),
            bv == blocks_view(blocks@),
            points_view(out@) == user_points_spec(bv.take(i as int)),
        decreases blocks.len() - i,
    {
        proof {
            assert(bv.take(i + 1).drop_last() =~= bv.take(i as int));
            assert(bv.take(i + 1).last() == bv[i as int]);
            lemma_user_points_len(bv.take(i as int));
        }
        match &blocks[i] {
            Block::User { text, .. } => {
                let tv = chars_of(text.as_str());
                let pv = if tv.len() <= 80 {
                    tv
                } else {
                    let t = crate::text::slice_of(&tv, 0, 80);
                    assert(tv@.subrange(0, 80) =~= tv@.take(80));
                    t
                };
                let ghost before = points_view(out@);
                let p = RewindPoint {
                    prompt_index: out.len() as u64,
                    preview: string_of(&pv),
                    created_at: String::new(),
                    disabled: false,
                    reason: None,
                };
                out.push(p);
                proof {
                    assert(points_view(out@) =~= before.push(point_view(p)));
                }
            },
            _ => {},
        }
        i += 1;
    }
    proof {
        assert(bv.take(blocks@.len() as int) =~= bv);
    }
    out
}

pub open spec fn task_view(t: TaskRow) -> (Seq<char>, Seq<char>, Seq<char>) {
    (t.id@, t.title@, t.status@)
}

pub open spec fn tasks_view(v: Seq<TaskRow>) -> Seq<(Seq<char>, Seq<char>, Seq<char>)> {
    Seq::new(v.len(), |i: int| task_view(v[i]))
}

pub open spec fn task_id_keys() -> Seq<Seq<char>> {
    seq!["id"@, "taskId"@, "task_id"@, "sessionId"@, "session_id"@]
}

pub open spec fn task_title_keys() -> Seq<Seq<char>> {
    seq!["title"@, "name"@, "description"@]
}

pub open spec fn task_status_keys() -> Seq<Seq<char>> {
    seq!["status"@, "state"@]
}

pub open spec fn tasks_spec(rows: Seq<FieldVal>) -> Seq<(Seq<char>, Seq<char>, Seq<char>)>
    decreases rows.len(),
{
    if rows.len() == 0 {
        Seq::empty()
    } else {
        let rest = tasks_spec(rows.drop_last());
        let row = rows.last();
        let id = json_str_spec(row, task_id_keys());
        if id.len() == 0 {
            rest
        } else {
            rest.push((id, json_str_spec(row, task_title_keys()), json_str_spec(row, task_status_keys())))
        }
    }
}

/// The tasks of grok's `x.ai/subagent/list` reply: the rows under `tasks`,
/// `subagents` or `items`, or the reply itself where it is a list; rows
/// without an id are dropped.
pub open spec fn normalize_tasks_spec(v: FieldVal) -> Seq<(Seq<char>, Seq<char>, Seq<char>)> {
    match list_of(v, "tasks"@, "subagents"@, "items"@) {
        Some(rows) => tasks_spec(rows),
        None => Seq::empty(),
    }
}

/// The tasks of grok's reply.
pub fn normalize_tasks(v: &FieldVal) -> (r: Vec<TaskRow>)
    ensures
        tasks_view(r@) == normalize_tasks_spec(*v),
{
    let rows = match list_of_exec(v, "tasks", "subagents", "items") {
        Some(a) => a,
        None => {
            return Vec::new();
        },
    };
    let ik: [&str; 5] = ["id", "taskId", "task_id", "sessionId", "session_id"];
    let tk: [&str; 3] = ["title", "name", "description"];
    let sk: [&str; 2] = ["status", "state"];
    proof {
        assert(crate::parse::strs_view(ik@) =~= task_id_keys());
        assert(crate::parse::strs_view(tk@) =~= task_title_keys());
        assert(crate::parse::strs_view(sk@) =~= task_status_keys());
    }
    let ghost rv = rows@;
    let mut out: Vec<TaskRow> = Vec::new();
    let mut i: usize = 0;
    proof {
        assert(rv.take(0) =~= Seq::<FieldVal>::empty());
        assert(tasks_view(out@) =~= Seq::<(Seq<char>, Seq<char>, Seq<char>)>::empty());
    }
    while i < rows.len()
        invariant
            i <= rv.len(),
            rv == rows@,
            crate::parse::strs_view(ik@) == task_id_keys(),
            crate::parse::strs_view(tk@) == task_title_keys(),
            crate::parse::strs_view(sk@) == task_status_keys(),
            tasks_view(out@) == tasks_spec(rv.take(i as int)),
        decreases rv.len() - i,
    {
        proof {
            assert(rv.take(i + 1).drop_last() =~= rv.take(i as int));
            assert(rv.take(i + 1).last() == rv[i as int]);
        }
        let id = json_str(&rows[i], &ik);
        if !id.as_str().is_empty() {
            let t = TaskRow { id, title: json_str(&rows[i], &tk), status: json_str(&rows[i], &sk) };
            let ghost before = tasks_view(out@);
            out.push(t);
            proof {
                assert(tasks_view(out@) =~= before.push(task_view(t)));
            }
        }
        i += 1;
    }
    proof {
        assert(rv.take(rv.len() as int) =~= rv);
    }
    out
}

/// The params of `session/fork`: the session, no worktree, and the
/// directive (trimmed) where one is given that is not blank; `None` where
/// a worktree is asked for, which is not supported.
pub fn fork_params(id: &str, directive: Option<&str>, worktree: bool) -> (r: Option<FieldVal>)
    ensures
        worktree ==> r is None,
        !worktree ==> (r matches Some(v) && {
            let d = match directive {
                Some(x) => trim(x@),
                None => Seq::empty(),
            };
            &&& d.len() == 0 ==> crate::ask::has_keys(v, seq!["sessionId"@, "worktree"@])
            &&& d.len() > 0 ==> crate::ask::has_keys(v, seq!["sessionId"@, "worktree"@, "directive"@])
                && crate::ask::is_text(crate::ask::at(v, 2), d)
            &&& crate::ask::is_text(crate::ask::at(v, 0), id@)
            &&& crate::ask::at(v, 1) == FieldVal::Bool(false)
        }),
{
    if worktree {
        return None;
    }
    let mut fs: Vec<(String, FieldVal)> = Vec::new();
    fs.push(crate::ask::entry("sessionId", crate::ask::text(id)));
    fs.push(crate::ask::entry("worktree", FieldVal::Bool(false)));
    match directive {
        Some(x) => {
            let t = trim_str(x);
            if t.len() > 0 {
                fs.push(crate::ask::entry("directive", FieldVal::Str(string_of(&t))));
            }
        },
        None => {},
    }
    Some(FieldVal::Object(fs))
}

/// The params of the compact request: the session, and the context
/// (trimmed) where one is given that is not blank.
pub fn compact_params(id: &str, context: Option<&str>) -> (r: FieldVal)
    ensures
        ({
            let c = match context {
                Some(x) => trim(x@),
                None => Seq::empty(),
            };
            &&& c.len() == 0 ==> crate::ask::has_keys(r, seq!["sessionId"@])
            &&& c.len() > 0 ==> crate::ask::has_keys(r, seq!["sessionId"@, "context"@])
                && crate::ask::is_text(crate::ask::at(r, 1), c)
            &&& crate::ask::is_text(crate::ask::at(r, 0), id@)
        }),
{
    let mut fs: Vec<(String, FieldVal)> = Vec::new();
    fs.push(crate::ask::entry("sessionId", crate::ask::text(id)));
    match context {
        Some(x) => {
            let t = trim_str(x);
            if t.len() > 0 {
                fs.push(crate::ask::entry("context", FieldVal::Str(string_of(&t))));
            }
        },
        None => {},
    }
    FieldVal::Object(fs)
}

pub open spec fn fork_id_keys() -> Seq<Seq<char>> {
    seq!["sessionId"@, "session_id"@, "id"@, "newSessionId"@, "new_session_id"@]
}

pub open spec fn fork_cwd_keys() -> Seq<Seq<char>> {
    seq!["cwd"@, "workingDirectory"@, "working_directory"@]
}

/// The session a `session/fork` answered with: its id (the first of
/// `sessionId`, `session_id`, `id`, `newSessionId`, `new_session_id` that
/// holds a non-blank string, trimmed) and its working directory (likewise
/// under `cwd`, `workingDirectory`, `working_directory`, else the one
/// forked from); `None` where the answer names no id.
pub fn forked_session(result: &FieldVal, cwd: &str, parent: &str) -> (r: Option<ForkedSession>)
    ensures
        json_str_spec(*result, fork_id_keys()).len() == 0 ==> r is None,
        json_str_spec(*result, fork_id_keys()).len() > 0 ==> (r matches Some(f) && f.id@ == json_str_spec(
            *result,
            fork_id_keys(),
        ) && f.cwd@ == (if json_str_spec(*result, fork_cwd_keys()).len() > 0 {
            json_str_spec(*result, fork_cwd_keys())
        } else {
            cwd@
        }) && f.parent_id@ == parent@),
{
    let ik: [&str; 5] = ["sessionId", "session_id", "id", "newSessionId", "new_session_id"];
    let ck: [&str; 3] = ["cwd", "workingDirectory", "working_directory"];
    proof {
        assert(crate::parse::strs_view(ik@) =~= fork_id_keys());
        assert(crate::parse::strs_view(ck@) =~= fork_cwd_keys());
    }
    let id = json_str(result, &ik);
    if id.as_str().is_empty() {
        return None;
    }
    let c = json_str(result, &ck);
    let new_cwd = if c.as_str().is_empty() {
        cwd.to_string()
    } else {
        c
    };
    Some(ForkedSession { id, cwd: new_cwd, parent_id: parent.to_string() })
}

} // verus!
