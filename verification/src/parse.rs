//! The transcript of a session, rebuilt from grok's `session/update` events.
//!
//! Each event arrives as JSON; the caller hands over, as plain values, the
//! parts of it that the transcript is made from (see [`Event`]).
use vstd::prelude::*;
use crate::text::{chars_of, string_of, extend, extend_str, contains, ends_with, eq_str, contains_str, ends_with_str, slice_of};
use crate::types::{
    Block, BlockView, PromptFile, TokenUsage, ModelUsageRow, Counters, RowCounters, blocks_view,
    rows_view, copy_block, copy_blocks, copy_rows, copy_row, files_view, copy_files,
};

verus! {

/// A JSON value.
pub enum FieldVal {
    Null,
    /// `true` or `false`.
    Bool(bool),
    /// A whole number that fits `u64`.
    UInt(u64),
    /// A negative whole number that fits `i64`.
    NegInt(i64),
    /// Any other number, by its JSON text.
    Float(String),
    /// A string.
    Str(String),
    /// An array.
    Array(Vec<FieldVal>),
    /// An object: its fields in order.
    Object(Vec<(String, FieldVal)>),
}

/// The fields of a JSON object, in the object's order; empty for a value that
/// is not an object.
pub type Fields = Vec<(String, FieldVal)>;

/// A JSON value, as far as the transcript reads it.
pub enum Shape {
    Null,
    Str(String),
    Object(Fields),
    /// Any other value (a number, a boolean, an array).
    Other,
}

/// A tool's `rawInput`: its shape, and its compact JSON text.
pub struct RawInput {
    pub shape: Shape,
    pub text: String,
}

/// What a `modelUsage` field of a usage record holds.
pub enum ModelUsage {
    Absent,
    /// Present but not an object.
    NotObject,
    /// Per model name, the fields of its usage record.
    Object(Vec<(String, Fields)>),
}

/// A usage record: its own fields and its per-model records, under the
/// `modelUsage` and the `model_usage` keys.
pub struct UsageInput {
    pub fields: Fields,
    pub model_usage_camel: ModelUsage,
    pub model_usage_snake: ModelUsage,
}

/// The `update` of a `session/update` event.
pub struct Update {
    /// The fields of the update (`sessionUpdate`, `toolCallId`, `title`, ...).
    pub fields: Fields,
    /// Its `content`, where present.
    pub content: Option<Shape>,
    /// Its `rawInput`, where present.
    pub raw_input: Option<RawInput>,
    /// Its `usage`, where present.
    pub usage: Option<UsageInput>,
}

/// One line of a session's `updates.jsonl`.
pub struct Event {
    /// `params.update`.
    pub update: Update,
    /// The fields of `params._meta`.
    pub meta: Fields,
    /// The event's `timestamp`, where present.
    pub timestamp: Option<FieldVal>,
    /// `params.timestamp`, where present.
    pub params_timestamp: Option<FieldVal>,
}

/// The value under `key` in `fs`, the first where the key occurs twice.
pub open spec fn field_of(fs: Seq<(String, FieldVal)>, key: Seq<char>) -> Option<FieldVal>
    decreases fs.len(),
{
    if fs.len() == 0 {
        None
    } else if fs[0].0@ == key {
        Some(fs[0].1)
    } else {
        field_of(fs.drop_first(), key)
    }
}

/// The string under `key`, where it is a string.
pub open spec fn str_field(fs: Seq<(String, FieldVal)>, key: Seq<char>) -> Option<Seq<char>> {
    match field_of(fs, key) {
        Some(FieldVal::Str(s)) => Some(s@),
        _ => None,
    }
}

/// The string under `key`, or the empty string.
pub open spec fn str_or_empty(fs: Seq<(String, FieldVal)>, key: Seq<char>) -> Seq<char> {
    match str_field(fs, key) {
        Some(s) => s,
        None => Seq::empty(),
    }
}

/// The field under `key`.
pub fn get_field<'a>(fs: &'a [(String, FieldVal)], key: &str) -> (r: Option<&'a FieldVal>)
    ensures
        match r {
            Some(v) => field_of(fs@, key@) == Some(*v),
            None => field_of(fs@, key@) is None,
        },
{
    let mut i: usize = 0;
    proof {
        assert(fs@.subrange(0, fs@.len() as int) =~= fs@);
    }
    while i < fs.len()
        invariant
            i <= fs.len(),
            field_of(fs@, key@) == field_of(fs@.subrange(i as int, fs@.len() as int), key@),
        decreases fs.len() - i,
    {
        let ghost rest = fs@.subrange(i as int, fs@.len() as int);
        if crate::text::str_eq(fs[i].0.as_str(), key) {
            assert(rest[0] == fs@[i as int]);
            return Some(&fs[i].1);
        }
        proof {
            assert(rest.drop_first() =~= fs@.subrange(i + 1, fs@.len() as int));
        }
        i += 1;
    }
    None
}

/// The string under `key`, where it is a string.
pub fn get_str(fs: &[(String, FieldVal)], key: &str) -> (r: Option<String>)
    ensures
        match r {
            Some(s) => str_field(fs@, key@) == Some(s@),
            None => str_field(fs@, key@) is None,
        },
{
    match get_field(fs, key) {
        Some(FieldVal::Str(s)) => Some(s.clone()),
        _ => None,
    }
}

/// The string under `key`, or the empty string.
pub fn get_str_or_empty(fs: &[(String, FieldVal)], key: &str) -> (r: String)
    ensures
        r@ == str_or_empty(fs@, key@),
{
    match get_str(fs, key) {
        Some(s) => s,
        None => String::new(),
    }
}

pub open spec fn strs_view(keys: Seq<&str>) -> Seq<Seq<char>> {
    Seq::new(keys.len(), |i: int| keys[i]@)
}

/// The first of `keys` under which a whole number stands: its value where it
/// fits `u64`, `None` where it is negative; `None` where none of the keys holds
/// a whole number.
pub open spec fn u64_of(fs: Seq<(String, FieldVal)>, keys: Seq<Seq<char>>) -> Option<u64>
    decreases keys.len(),
{
    if keys.len() == 0 {
        None
    } else {
        match field_of(fs, keys[0]) {
            Some(FieldVal::UInt(n)) => Some(n),
            Some(FieldVal::NegInt(_)) => None,
            _ => u64_of(fs, keys.drop_first()),
        }
    }
}

pub open spec fn u64_or_zero(fs: Seq<(String, FieldVal)>, keys: Seq<Seq<char>>) -> u64 {
    match u64_of(fs, keys) {
        Some(n) => n,
        None => 0,
    }
}

/// The number under the first of `keys` that holds a whole number.
pub fn get_u64(fs: &[(String, FieldVal)], keys: &[&str]) -> (r: Option<u64>)
    ensures
        r == u64_of(fs@, strs_view(keys@)),
{
    let ghost ks = strs_view(keys@);
    let mut i: usize = 0;
    proof {
        assert(ks.subrange(0, ks.len() as int) =~= ks);
    }
    while i < keys.len()
        invariant
            i <= keys.len(),
            ks == strs_view(keys@),
            u64_of(fs@, ks) == u64_of(fs@, ks.subrange(i as int, ks.len() as int)),
        decreases keys.len() - i,
    {
        let ghost rest = ks.subrange(i as int, ks.len() as int);
        assert(rest[0] == keys@[i as int]@);
        match get_field(fs, keys[i]) {
            Some(FieldVal::UInt(n)) => {
                return Some(*n);
            },
            Some(FieldVal::NegInt(_)) => {
                return None;
            },
            _ => {},
        }
        proof {
            assert(rest.drop_first() =~= ks.subrange(i + 1, ks.len() as int));
        }
        i += 1;
    }
    None
}

/// The number under the first of `keys` that holds a whole number, or 0.
pub fn get_u64_or_zero(fs: &[(String, FieldVal)], keys: &[&str]) -> (r: u64)
    ensures
        r == u64_or_zero(fs@, strs_view(keys@)),
{
    match get_u64(fs, keys) {
        Some(n) => n,
        None => 0,
    }
}

/// The text of a chunk's `content`: the string itself, or its `text` field.
pub open spec fn content_text_spec(c: Option<Shape>) -> Seq<char> {
    match c {
        Some(Shape::Str(s)) => s@,
        Some(Shape::Object(fs)) => str_or_empty(fs@, "text"@),
        _ => Seq::empty(),
    }
}

fn content_text(c: &Option<Shape>) -> (r: Vec<char>)
    ensures
        r@ == content_text_spec(*c),
{
    match c {
        Some(Shape::Str(s)) => chars_of(s.as_str()),
        Some(Shape::Object(fs)) => {
            let t = get_str_or_empty(fs.as_slice(), "text");
            chars_of(t.as_str())
        },
        _ => Vec::new(),
    }
}

/// The number of search results a tool reported: the length of the first of
/// its `results`, `items`, `sources` and `matches` arrays.
pub open spec fn count_results_spec(c: Shape) -> Option<u64> {
    match c {
        Shape::Object(fs) => match array_len_spec(fs@, "results"@) {
            Some(n) => Some(n),
            None => match array_len_spec(fs@, "items"@) {
                Some(n) => Some(n),
                None => match array_len_spec(fs@, "sources"@) {
                    Some(n) => Some(n),
                    None => array_len_spec(fs@, "matches"@),
                },
            },
        },
        _ => None,
    }
}

/// The length of the array under `key`, where there is one.
pub open spec fn array_len_spec(fs: Seq<(String, FieldVal)>, key: Seq<char>) -> Option<u64> {
    match field_of(fs, key) {
        Some(FieldVal::Array(v)) => Some(v@.len() as u64),
        _ => None,
    }
}

fn array_len(fs: &[(String, FieldVal)], key: &str) -> (r: Option<u64>)
    ensures
        r == array_len_spec(fs@, key@),
{
    match get_field(fs, key) {
        Some(FieldVal::Array(v)) => Some(v.len() as u64),
        _ => None,
    }
}

fn count_results(c: &Shape) -> (r: Option<u64>)
    ensures
        r == count_results_spec(*c),
{
    match c {
        Shape::Object(fs) => {
            let f = fs.as_slice();
            match array_len(f, "results") {
                Some(n) => Some(n),
                None => match array_len(f, "items") {
                    Some(n) => Some(n),
                    None => match array_len(f, "sources") {
                        Some(n) => Some(n),
                        None => array_len(f, "matches"),
                    },
                },
            }
        },
        _ => None,
    }
}

/// The longest tool input preview, in characters, before the ellipsis.
pub const PREVIEW_CHARS: usize = 200;

/// `s` cut to `max` characters, with `…` appended where it was longer.
pub open spec fn truncate_spec(s: Seq<char>, max: nat) -> Seq<char> {
    if s.len() <= max {
        s
    } else {
        s.take(max as int).push('…')
    }
}

/// `s` cut to `max` characters, with `…` appended where it was longer.
pub fn truncate(s: &str, max: usize) -> (r: String)
    ensures
        r@ == truncate_spec(s@, max as nat),
{
    let v = chars_of(s);
    if v.len() <= max {
        return string_of(&v);
    }
    let mut out = slice_of(&v, 0, max);
    out.push('…');
    proof {
        assert(v@.subrange(0, max as int) =~= v@.take(max as int));
    }
    string_of(&out)
}

/// The keys whose string value stands for a tool's input, in the order they
/// are looked for.
pub open spec fn preview_keys() -> Seq<Seq<char>> {
    seq![
        "path"@,
        "target_file"@,
        "target_directory"@,
        "command"@,
        "query"@,
        "pattern"@,
        "url"@,
    ]
}

/// The first of `keys` with a string value in `fs`, and that value.
pub open spec fn first_str_key(fs: Seq<(String, FieldVal)>, keys: Seq<Seq<char>>) -> Option<(Seq<char>, Seq<char>)>
    decreases keys.len(),
{
    if keys.len() == 0 {
        None
    } else {
        match str_field(fs, keys[0]) {
            Some(v) => Some((keys[0], v)),
            None => first_str_key(fs, keys.drop_first()),
        }
    }
}

/// The one-line preview of a tool's input: nothing for `null`, the string
/// itself, `key: value` for the first of the preview keys, or else the JSON
/// text; cut to `PREVIEW_CHARS`.
pub open spec fn input_preview_spec(raw: RawInput) -> Seq<char> {
    match raw.shape {
        Shape::Null => Seq::empty(),
        Shape::Str(s) => truncate_spec(s@, PREVIEW_CHARS as nat),
        Shape::Object(fs) => match first_str_key(fs@, preview_keys()) {
            Some((k, v)) => truncate_spec(k + ": "@ + v, PREVIEW_CHARS as nat),
            None => truncate_spec(raw.text@, PREVIEW_CHARS as nat),
        },
        Shape::Other => truncate_spec(raw.text@, PREVIEW_CHARS as nat),
    }
}

fn keyed_preview(key: &str, v: &String) -> (r: String)
    ensures
        r@ == truncate_spec(key@ + ": "@ + v@, PREVIEW_CHARS as nat),
{
    let mut t: Vec<char> = chars_of(key);
    extend_str(&mut t, ": ");
    extend_str(&mut t, v.as_str());
    let s = string_of(&t);
    truncate(s.as_str(), PREVIEW_CHARS)
}

/// The one-line preview of a tool's input.
pub fn input_preview(raw: &RawInput) -> (r: String)
    ensures
        r@ == input_preview_spec(*raw),
{
    match &raw.shape {
        Shape::Null => String::new(),
        Shape::Str(s) => truncate(s.as_str(), PREVIEW_CHARS),
        Shape::Object(fs) => {
            let f = fs.as_slice();
            proof {
                reveal_strlit("path");
                reveal_strlit("target_file");
                reveal_strlit("target_directory");
                reveal_strlit("command");
                reveal_strlit("query");
                reveal_strlit("pattern");
                reveal_strlit("url");
                reveal_with_fuel(first_str_key, 8);
                let ks = preview_keys();
                assert(ks.drop_first()[0] == "target_file"@);
                assert(ks.drop_first().drop_first()[0] == "target_directory"@);
            }
            if let Some(v) = get_str(f, "path") {
                return keyed_preview("path", &v);
            }
            if let Some(v) = get_str(f, "target_file") {
                return keyed_preview("target_file", &v);
            }
            if let Some(v) = get_str(f, "target_directory") {
                return keyed_preview("target_directory", &v);
            }
            if let Some(v) = get_str(f, "command") {
                return keyed_preview("command", &v);
            }
            if let Some(v) = get_str(f, "query") {
                return keyed_preview("query", &v);
            }
            if let Some(v) = get_str(f, "pattern") {
                return keyed_preview("pattern", &v);
            }
            if let Some(v) = get_str(f, "url") {
                return keyed_preview("url", &v);
            }
            truncate(raw.text.as_str(), PREVIEW_CHARS)
        },
        Shape::Other => truncate(raw.text.as_str(), PREVIEW_CHARS),
    }
}


/// What an event added to the transcript.
#[derive(Debug, Clone, Copy, PartialEq, Eq, Structural)]
pub enum Ingest {
    /// The event added nothing.
    Nothing,
    Text,
    Tool,
    TurnEnd,
    Usage,
}

/// The kind of text being streamed.
#[derive(Debug, Clone, Copy, PartialEq, Eq, Structural)]
pub enum TextKind {
    User,
    Thought,
    Assistant,
}

/// Text still being streamed: its kind, prompt and characters so far.
struct TextBuf {
    kind: TextKind,
    prompt_id: String,
    text: Vec<char>,
}

/// Streamed text as plain values.
pub struct BufView {
    pub kind: TextKind,
    pub pid: Seq<char>,
    pub text: Seq<char>,
}

/// A transcript parser as plain values.
pub struct ParserView {
    /// The finished entries.
    pub blocks: Seq<BlockView>,
    /// The text still being streamed.
    pub buf: Option<BufView>,
    /// Whether any usage was recorded.
    pub recorded: bool,
    /// The session's counters.
    pub counters: Counters,
    /// The counters per model, in the order of the models' names.
    pub models: Seq<(Seq<char>, RowCounters)>,
    /// The context size last reported.
    pub context_tokens: u64,
    /// When the open turn started.
    pub turn_start: Option<u64>,
    /// The last time seen in the open turn.
    pub last_ts: Option<u64>,
    /// The prompt that new entries belong to.
    pub current: Seq<char>,
}

/// Rebuilds a transcript from `session/update` events, as they arrive or
/// from a session's `updates.jsonl`.
pub struct Parser {
    blocks: Vec<Block>,
    buf: Option<TextBuf>,
    usage: TokenUsage,
    models: Vec<ModelUsageRow>,
    context_tokens: u64,
    turn_start_ms: Option<u64>,
    last_ts_ms: Option<u64>,
    current_prompt_id: String,
}

spec fn buf_view(b: Option<TextBuf>) -> Option<BufView> {
    match b {
        Some(t) => Some(BufView { kind: t.kind, pid: t.prompt_id@, text: t.text@ }),
        None => None,
    }
}

impl View for Parser {
    type V = ParserView;

    closed spec fn view(&self) -> ParserView {
        ParserView {
            blocks: blocks_view(self.blocks@),
            buf: buf_view(self.buf),
            recorded: self.usage.recorded,
            counters: self.usage.counters(),
            models: rows_view(self.models@),
            context_tokens: self.context_tokens,
            turn_start: self.turn_start_ms,
            last_ts: self.last_ts_ms,
            current: self.current_prompt_id@,
        }
    }
}

/// A fresh parser: no entries, no text, no usage.
pub open spec fn empty_parser() -> ParserView {
    ParserView {
        blocks: Seq::empty(),
        buf: None,
        recorded: false,
        counters: (0u64, 0u64, 0u64, 0u64, 0u64, 0u64, 0u64, 0u64, 0u64, 0u64),
        models: Seq::empty(),
        context_tokens: 0,
        turn_start: None,
        last_ts: None,
        current: Seq::empty(),
    }
}

/// The entry that streamed text becomes.
pub open spec fn block_of_buf(b: BufView) -> BlockView {
    match b.kind {
        TextKind::User => BlockView::User { prompt_id: b.pid, text: b.text, files: Seq::empty() },
        TextKind::Thought => BlockView::Thought { prompt_id: b.pid, text: b.text },
        TextKind::Assistant => BlockView::Assistant { prompt_id: b.pid, text: b.text },
    }
}

/// A time seen: the last time, and the start of the turn if none was set.
pub open spec fn note_time_spec(st: ParserView, ts: Option<u64>) -> ParserView {
    match ts {
        None => st,
        Some(t) => ParserView {
            last_ts: Some(t),
            turn_start: if st.turn_start is None { Some(t) } else { st.turn_start },
            ..st
        },
    }
}

/// The streamed text, if any, becomes an entry.
pub open spec fn flush_spec(st: ParserView) -> ParserView {
    match st.buf {
        Some(b) => ParserView { blocks: st.blocks.push(block_of_buf(b)), buf: None, ..st },
        None => st,
    }
}

/// Where the open turn starts: just after the last turn end, or at 0.
pub open spec fn turn_start_idx(blocks: Seq<BlockView>) -> int
    decreases blocks.len(),
{
    if blocks.len() == 0 {
        0
    } else if blocks.last() is TurnEnd {
        blocks.len() as int
    } else {
        turn_start_idx(blocks.drop_last())
    }
}

pub open spec fn is_user_with(b: BlockView, text: Seq<char>) -> bool {
    b matches BlockView::User { text: t, .. } && t == text
}

/// Whether the open turn already holds a user entry with this text, streamed
/// or finished.
pub open spec fn open_turn_has_user_spec(st: ParserView, text: Seq<char>) -> bool {
    (st.buf matches Some(b) && b.kind == TextKind::User && b.text == text) || exists|i: int|
        turn_start_idx(st.blocks) <= i < st.blocks.len() && #[trigger] is_user_with(
            st.blocks[i],
            text,
        )
}

/// The prompt id is given to the user text of the turn that lacks one: the
/// streamed user text, or else a last user entry.
pub open spec fn backfill_spec(st: ParserView, pid: Seq<char>) -> ParserView {
    if pid.len() == 0 {
        st
    } else if st.buf matches Some(b) && b.kind == TextKind::User && b.pid.len() == 0 {
        ParserView { buf: Some(BufView { pid, ..st.buf.unwrap() }), ..st }
    } else if st.blocks.len() > 0 && user_without_pid(st.blocks.last()) {
        ParserView {
            blocks: st.blocks.update(st.blocks.len() - 1, with_pid(st.blocks.last(), pid)),
            ..st
        }
    } else {
        st
    }
}

pub open spec fn user_without_pid(b: BlockView) -> bool {
    b matches BlockView::User { prompt_id: p, .. } && p.len() == 0
}

pub open spec fn with_pid(b: BlockView, pid: Seq<char>) -> BlockView {
    match b {
        BlockView::User { text, files, .. } => BlockView::User { prompt_id: pid, text, files },
        _ => b,
    }
}

/// A chunk of streamed text of one kind for one prompt.
pub open spec fn push_text_spec(
    st: ParserView,
    kind: TextKind,
    pid: Seq<char>,
    text: Seq<char>,
) -> ParserView {
    if st.buf matches Some(b) && b.kind == kind && (b.pid == pid || pid.len() == 0 || b.pid.len()
        == 0) {
        let b = st.buf.unwrap();
        ParserView {
            buf: Some(
                BufView {
                    kind: b.kind,
                    pid: if b.pid.len() == 0 && pid.len() > 0 {
                        pid
                    } else {
                        b.pid
                    },
                    text: b.text + text,
                },
            ),
            ..st
        }
    } else if kind == TextKind::User && text.len() > 0 && open_turn_has_user_spec(st, text) {
        if pid.len() > 0 {
            ParserView { current: pid, ..backfill_spec(st, pid) }
        } else {
            st
        }
    } else {
        let f = flush_spec(st);
        ParserView {
            current: if pid.len() > 0 {
                pid
            } else {
                f.current
            },
            buf: Some(BufView { kind, pid, text }),
            ..f
        }
    }
}

pub open spec fn is_tool_with(b: BlockView, id: Seq<char>) -> bool {
    b matches BlockView::Tool { id: x, .. } && x == id
}

pub open spec fn first_tool(blocks: Seq<BlockView>, id: Seq<char>, i: int) -> bool {
    0 <= i < blocks.len() && is_tool_with(blocks[i], id) && forall|j: int|
        0 <= j < i ==> !#[trigger] is_tool_with(blocks[j], id)
}

/// The entry of the tool call with this id.
pub open spec fn tool_idx(blocks: Seq<BlockView>, id: Seq<char>) -> Option<int> {
    if exists|i: int| first_tool(blocks, id, i) {
        Some(choose|i: int| first_tool(blocks, id, i))
    } else {
        None
    }
}

/// A tool call starts: a new entry, unless one with this id exists.
pub open spec fn start_tool_spec(
    st: ParserView,
    id: Seq<char>,
    title: Seq<char>,
    preview: Seq<char>,
) -> ParserView {
    let f = flush_spec(st);
    if tool_idx(f.blocks, id) is Some {
        f
    } else {
        ParserView {
            blocks: f.blocks.push(
                BlockView::Tool {
                    id,
                    title,
                    status: Seq::empty(),
                    input_preview: preview,
                    prompt_id: f.current,
                    result_count: None,
                },
            ),
            ..f
        }
    }
}

pub open spec fn nonempty_or(v: Option<Seq<char>>, d: Seq<char>) -> Seq<char> {
    match v {
        Some(x) => if x.len() > 0 {
            x
        } else {
            d
        },
        None => d,
    }
}

/// News of the tool call at `idx`: a missing prompt id, a new title or
/// status, the input preview if there was none, the result count.
pub open spec fn update_found_spec(
    st: ParserView,
    idx: int,
    title: Option<Seq<char>>,
    status: Option<Seq<char>>,
    raw: Option<RawInput>,
    content: Option<Shape>,
) -> ParserView {
    match st.blocks[idx] {
        BlockView::Tool { id, title: t, status: s, input_preview: p, prompt_id: pid, result_count: rc } => {
            let pid2 = if pid.len() == 0 && st.current.len() > 0 {
                st.current
            } else {
                pid
            };
            let p2 = match raw {
                Some(r) => if p.len() == 0 {
                    input_preview_spec(r)
                } else {
                    p
                },
                None => p,
            };
            let rc2 = match content {
                Some(c) => match count_results_spec(c) {
                    Some(n) => Some(n),
                    None => rc,
                },
                None => rc,
            };
            ParserView {
                blocks: st.blocks.update(
                    idx,
                    BlockView::Tool {
                        id,
                        title: nonempty_or(title, t),
                        status: nonempty_or(status, s),
                        input_preview: p2,
                        prompt_id: pid2,
                        result_count: rc2,
                    },
                ),
                ..st
            }
        },
        _ => st,
    }
}

pub open spec fn preview_of(raw: Option<RawInput>) -> Seq<char> {
    match raw {
        Some(r) => input_preview_spec(r),
        None => Seq::empty(),
    }
}

/// A tool call update: applied to its entry, which is first made where the
/// call was not seen.
pub open spec fn update_tool_spec(
    st: ParserView,
    id: Seq<char>,
    title: Option<Seq<char>>,
    status: Option<Seq<char>>,
    raw: Option<RawInput>,
    content: Option<Shape>,
) -> ParserView {
    match tool_idx(st.blocks, id) {
        Some(i) => update_found_spec(st, i, title, status, raw, content),
        None => {
            let t = match title {
                Some(x) => x,
                None => Seq::empty(),
            };
            let s1 = start_tool_spec(st, id, t, preview_of(raw));
            match tool_idx(s1.blocks, id) {
                Some(i) => update_found_spec(s1, i, None, status, None, content),
                None => s1,
            }
        },
    }
}

/// The turn ends: its duration is the larger of the reported one and the
/// span of the times seen in it.
pub open spec fn turn_end_spec(
    st: ParserView,
    pid: Seq<char>,
    cancelled: bool,
    elapsed: Option<u64>,
) -> ParserView {
    let f = flush_spec(st);
    let g = if pid.len() > 0 {
        backfill_spec(f, pid)
    } else {
        f
    };
    let from_ts: u64 = match (g.turn_start, g.last_ts) {
        (Some(a), Some(b)) => if b >= a {
            (b - a) as u64
        } else {
            0
        },
        _ => 0,
    };
    let e: u64 = match elapsed {
        Some(x) => x,
        None => 0,
    };
    let d: u64 = if e >= from_ts {
        e
    } else {
        from_ts
    };
    ParserView {
        turn_start: None,
        last_ts: None,
        blocks: g.blocks.push(BlockView::TurnEnd { prompt_id: pid, duration_ms: d, cancelled }),
        ..g
    }
}


pub open spec fn k_input() -> Seq<Seq<char>> { seq!["inputTokens"@, "input_tokens"@] }
pub open spec fn k_cached() -> Seq<Seq<char>> {
    seq!["cachedReadTokens"@, "cached_read_tokens"@, "cache_read_input_tokens"@]
}
pub open spec fn k_creation() -> Seq<Seq<char>> {
    seq!["cacheCreationTokens"@, "cache_creation_tokens"@, "cache_creation_input_tokens"@]
}
pub open spec fn k_output() -> Seq<Seq<char>> { seq!["outputTokens"@, "output_tokens"@] }
pub open spec fn k_reasoning() -> Seq<Seq<char>> { seq!["reasoningTokens"@, "reasoning_tokens"@] }
pub open spec fn k_total() -> Seq<Seq<char>> { seq!["totalTokens"@, "total_tokens"@] }
pub open spec fn k_calls() -> Seq<Seq<char>> { seq!["modelCalls"@, "model_calls"@] }
pub open spec fn k_api() -> Seq<Seq<char>> { seq!["apiDurationMs"@, "api_duration_ms"@] }
pub open spec fn k_cost() -> Seq<Seq<char>> {
    seq!["costUsdTicks"@, "cost_usd_ticks"@, "total_cost_usd_ticks"@]
}
pub open spec fn k_turns() -> Seq<Seq<char>> { seq!["numTurns"@, "num_turns"@] }

/// What a usage record adds to each counter of a model's row.
pub open spec fn row_delta(fs: Seq<(String, FieldVal)>) -> RowCounters {
    (
        u64_or_zero(fs, k_input()),
        u64_or_zero(fs, k_cached()),
        u64_or_zero(fs, k_creation()),
        u64_or_zero(fs, k_output()),
        u64_or_zero(fs, k_reasoning()),
        u64_or_zero(fs, k_total()),
        u64_or_zero(fs, k_calls()),
        u64_or_zero(fs, k_api()),
        u64_or_zero(fs, k_cost()),
    )
}

pub open spec fn fits(a: u64, b: u64) -> bool {
    a + b <= u64::MAX
}

/// A row's counters plus a record's, where no sum overflows.
pub open spec fn add_row(r: RowCounters, fs: Seq<(String, FieldVal)>) -> Option<RowCounters> {
    let d = row_delta(fs);
    if fits(r.0, d.0) && fits(r.1, d.1) && fits(r.2, d.2) && fits(r.3, d.3) && fits(r.4, d.4)
        && fits(r.5, d.5) && fits(r.6, d.6) && fits(r.7, d.7) && fits(r.8, d.8) {
        Some(
            (
                (r.0 + d.0) as u64,
                (r.1 + d.1) as u64,
                (r.2 + d.2) as u64,
                (r.3 + d.3) as u64,
                (r.4 + d.4) as u64,
                (r.5 + d.5) as u64,
                (r.6 + d.6) as u64,
                (r.7 + d.7) as u64,
                (r.8 + d.8) as u64,
            ),
        )
    } else {
        None
    }
}

/// The session's counters plus a record's (the turns included), where no sum
/// overflows.
pub open spec fn add_counters(c: Counters, fs: Seq<(String, FieldVal)>) -> Option<Counters> {
    match add_row((c.0, c.1, c.2, c.3, c.4, c.5, c.6, c.7, c.8), fs) {
        Some(r) => {
            let t = u64_or_zero(fs, k_turns());
            if fits(c.9, t) {
                Some((r.0, r.1, r.2, r.3, r.4, r.5, r.6, r.7, r.8, (c.9 + t) as u64))
            } else {
                None
            }
        },
        None => None,
    }
}

/// Where a row for `name` stands or would be inserted: after the rows whose
/// names come before it.
pub open spec fn ins_pos(s: Seq<(Seq<char>, RowCounters)>, name: Seq<char>) -> int
    decreases s.len(),
{
    if s.len() == 0 {
        0
    } else if crate::text::lex_order(s[0].0, name) < 0 {
        1 + ins_pos(s.drop_first(), name)
    } else {
        0
    }
}

pub open spec fn zero_row() -> RowCounters {
    (0u64, 0u64, 0u64, 0u64, 0u64, 0u64, 0u64, 0u64, 0u64)
}

/// A model's record added to its row, which is made where missing.
pub open spec fn models_add(
    s: Seq<(Seq<char>, RowCounters)>,
    name: Seq<char>,
    fs: Seq<(String, FieldVal)>,
) -> Option<Seq<(Seq<char>, RowCounters)>> {
    let p = ins_pos(s, name);
    if p < s.len() && s[p].0 == name {
        match add_row(s[p].1, fs) {
            Some(r) => Some(s.update(p, (name, r))),
            None => None,
        }
    } else {
        match add_row(zero_row(), fs) {
            Some(r) => Some(s.insert(p, (name, r))),
            None => None,
        }
    }
}

/// All models' records added, in order.
pub open spec fn models_add_all(
    s: Seq<(Seq<char>, RowCounters)>,
    es: Seq<(String, Fields)>,
) -> Option<Seq<(Seq<char>, RowCounters)>>
    decreases es.len(),
{
    if es.len() == 0 {
        Some(s)
    } else {
        match models_add_all(s, es.drop_last()) {
            Some(t) => models_add(t, es.last().0@, es.last().1@),
            None => None,
        }
    }
}

/// The per-model records of a usage record: those under `modelUsage`, or if
/// that key is missing, under `model_usage`.
pub open spec fn chosen_models(u: UsageInput) -> Seq<(String, Fields)> {
    match u.model_usage_camel {
        ModelUsage::Object(v) => v@,
        ModelUsage::NotObject => Seq::empty(),
        ModelUsage::Absent => match u.model_usage_snake {
            ModelUsage::Object(v) => v@,
            _ => Seq::empty(),
        },
    }
}

/// A usage record added to the session's and the models' counters; `None`
/// where a counter would overflow.
pub open spec fn add_usage_spec(st: ParserView, u: UsageInput) -> Option<ParserView> {
    match add_counters(st.counters, u.fields@) {
        Some(c) => match models_add_all(st.models, chosen_models(u)) {
            Some(m) => Some(ParserView { recorded: true, counters: c, models: m, ..st }),
            None => None,
        },
        None => None,
    }
}

/// The stop reason of a finished turn: `stop_reason`, or if that key is
/// missing, `stopReason`.
pub open spec fn stop_reason_spec(fs: Seq<(String, FieldVal)>) -> Seq<char> {
    match field_of(fs, "stop_reason"@) {
        Some(FieldVal::Str(x)) => x@,
        Some(_) => Seq::empty(),
        None => str_or_empty(fs, "stopReason"@),
    }
}

pub open spec fn is_cancel_reason(r: Seq<char>) -> bool {
    r == "cancelled"@ || r == "canceled"@ || r == "interrupted"@ || r == "user_cancelled"@
}

/// A chunk of text of one kind.
pub open spec fn text_spec(
    st: ParserView,
    kind: TextKind,
    pid: Seq<char>,
    u: Update,
    ts: Option<u64>,
    backfill: bool,
) -> ParserView {
    let s1 = note_time_spec(st, ts);
    let s2 = if backfill {
        backfill_spec(s1, pid)
    } else {
        s1
    };
    push_text_spec(s2, kind, pid, content_text_spec(u.content))
}

/// One update, for the prompt `pid_in` (or else the update's own), at the
/// time `ts`: the parser after it and what it added; `None` where a counter
/// would overflow.
pub open spec fn ingest_spec(st: ParserView, u: Update, pid_in: Seq<char>, ts: Option<u64>) -> Option<(ParserView, Ingest)> {
    let fs = u.fields@;
    let kind = str_or_empty(fs, "sessionUpdate"@);
    let pid = if pid_in.len() == 0 {
        str_or_empty(fs, "prompt_id"@)
    } else {
        pid_in
    };
    let s0 = if pid.len() > 0 {
        ParserView { current: pid, ..st }
    } else {
        st
    };
    if kind == "user_message_chunk"@ {
        Some((text_spec(s0, TextKind::User, pid, u, ts, false), Ingest::Text))
    } else if kind == "agent_thought_chunk"@ {
        Some((text_spec(s0, TextKind::Thought, pid, u, ts, true), Ingest::Text))
    } else if kind == "agent_message_chunk"@ {
        Some((text_spec(s0, TextKind::Assistant, pid, u, ts, true), Ingest::Text))
    } else if kind == "tool_call"@ {
        let s1 = backfill_spec(note_time_spec(s0, ts), pid);
        let id = str_or_empty(fs, "toolCallId"@);
        if id.len() == 0 {
            Some((s1, Ingest::Nothing))
        } else {
            Some(
                (
                    start_tool_spec(s1, id, str_or_empty(fs, "title"@), preview_of(u.raw_input)),
                    Ingest::Tool,
                ),
            )
        }
    } else if kind == "tool_call_update"@ {
        let s1 = note_time_spec(s0, ts);
        let id = str_or_empty(fs, "toolCallId"@);
        if id.len() == 0 {
            Some((s1, Ingest::Nothing))
        } else {
            Some(
                (
                    update_tool_spec(
                        s1,
                        id,
                        str_field(fs, "title"@),
                        str_field(fs, "status"@),
                        u.raw_input,
                        u.content,
                    ),
                    Ingest::Tool,
                ),
            )
        }
    } else if kind == "turn_completed"@ {
        let s1 = note_time_spec(s0, ts);
        let s2 = match u.usage {
            Some(us) => add_usage_spec(s1, us),
            None => Some(s1),
        };
        match s2 {
            Some(s2) => Some(
                (
                    turn_end_spec(
                        s2,
                        pid,
                        is_cancel_reason(stop_reason_spec(fs)),
                        u64_of(fs, seq!["elapsed_ms"@, "elapsedMs"@]),
                    ),
                    Ingest::TurnEnd,
                ),
            ),
            None => None,
        }
    } else {
        match u.usage {
            None => Some((s0, Ingest::Nothing)),
            Some(us) => match add_usage_spec(s0, us) {
                Some(s1) => Some((s1, Ingest::Usage)),
                None => None,
            },
        }
    }
}

/// A timestamp in milliseconds: numbers under 10^12 are taken as seconds.
pub open spec fn normalize_ts_spec(n: u64) -> u64 {
    if n >= 1_000_000_000_000 {
        n
    } else if n * 1000 <= u64::MAX {
        (n * 1000) as u64
    } else {
        u64::MAX
    }
}


pub proof fn lemma_first_tool_unique(blocks: Seq<BlockView>, id: Seq<char>, i: int, j: int)
    requires
        first_tool(blocks, id, i),
        first_tool(blocks, id, j),
    ensures
        i == j,
{
    if i < j {
        assert(!is_tool_with(blocks[i], id));
    } else if j < i {
        assert(!is_tool_with(blocks[j], id));
    }
}

/// Where the open turn of `blocks` starts.
fn turn_start_of(blocks: &[Block]) -> (r: usize)
    ensures
        r as int == turn_start_idx(blocks_view(blocks@)),
        r <= blocks@.len(),
{
    let ghost bv = blocks_view(blocks@);
    let mut j: usize = blocks.len();
    proof {
        assert(bv.take(j as int) =~= bv);
    }
    while j > 0
        invariant
            j <= blocks@.len(),
            bv == blocks_view(blocks@),
            turn_start_idx(bv) == turn_start_idx(bv.take(j as int)),
        decreases j,
    {
        let is_end = match &blocks[j - 1] {
            Block::TurnEnd { .. } => true,
            _ => false,
        };
        if is_end {
            assert(bv.take(j as int).last() == bv[j - 1]);
            return j;
        }
        proof {
            assert(bv.take(j as int).drop_last() =~= bv.take(j - 1));
        }
        j -= 1;
    }
    proof {
        assert(bv.take(0) =~= Seq::<BlockView>::empty());
    }
    0
}

fn block_of(b: TextBuf) -> (r: Block)
    ensures
        r@ == block_of_buf(buf_view(Some(b)).unwrap()),
{
    let text = string_of(&b.text);
    match b.kind {
        TextKind::User => {
            let files: Vec<PromptFile> = Vec::new();
            proof {
                assert(files_view(files@) =~= Seq::empty());
            }
            Block::User { prompt_id: b.prompt_id, text, files }
        },
        TextKind::Thought => Block::Thought { prompt_id: b.prompt_id, text },
        TextKind::Assistant => Block::Assistant { prompt_id: b.prompt_id, text },
    }
}

fn chars_eq_string(s: &String, t: &[char]) -> (r: bool)
    ensures
        r == (s@ == t@),
{
    let v = chars_of(s.as_str());
    crate::text::eq_chars(&v, t)
}

fn copy_chars(t: &[char]) -> (r: Vec<char>)
    ensures
        r@ == t@,
{
    let r = slice_of(t, 0, t.len());
    assert(t@.subrange(0, t@.len() as int) =~= t@);
    r
}

pub open spec fn rc_zero() -> Counters {
    (0u64, 0u64, 0u64, 0u64, 0u64, 0u64, 0u64, 0u64, 0u64, 0u64)
}

impl Parser {
    /// A parser with no entries, no streamed text and no usage.
    pub fn new() -> (r: Parser)
        ensures
            r@ == empty_parser(),
    {
        let p = Parser {
            blocks: Vec::new(),
            buf: None,
            usage: TokenUsage::empty(),
            models: Vec::new(),
            context_tokens: 0,
            turn_start_ms: None,
            last_ts_ms: None,
            current_prompt_id: String::new(),
        };
        proof {
            assert(blocks_view(p.blocks@) =~= Seq::empty());
            assert(rows_view(p.models@) =~= Seq::empty());
        }
        p
    }

    /// Records a time seen in the open turn.
    pub fn note_time(&mut self, ts_ms: Option<u64>)
        ensures
            final(self)@ == note_time_spec(old(self)@, ts_ms),
    {
        match ts_ms {
            None => {},
            Some(ts) => {
                self.last_ts_ms = Some(ts);
                if self.turn_start_ms.is_none() {
                    self.turn_start_ms = Some(ts);
                }
            },
        }
    }

    /// The last finished entry.
    pub fn last_block(&self) -> (r: Option<Block>)
        ensures
            match r {
                Some(b) => self@.blocks.len() > 0 && b@ == self@.blocks.last(),
                None => self@.blocks.len() == 0,
            },
    {
        let n = self.blocks.len();
        if n == 0 {
            None
        } else {
            Some(copy_block(&self.blocks[n - 1]))
        }
    }

    /// When the open turn started, if a time was seen in it.
    pub fn work_started_ms(&self) -> (r: Option<u64>)
        ensures
            r == self@.turn_start,
    {
        self.turn_start_ms
    }

    fn flush_text(&mut self)
        ensures
            final(self)@ == flush_spec(old(self)@),
    {
        match self.buf.take() {
            Some(b) => {
                let blk = block_of(b);
                self.blocks.push(blk);
                proof {
                    assert(blocks_view(self.blocks@) =~= blocks_view(old(self).blocks@).push(blk@));
                }
            },
            None => {},
        }
    }

    fn open_turn_has_user(&self, text: &[char]) -> (r: bool)
        ensures
            r == open_turn_has_user_spec(self@, text@),
    {
        match &self.buf {
            Some(b) => {
                if b.kind == TextKind::User && crate::text::eq_chars(&b.text, text) {
                    return true;
                }
            },
            None => {},
        }
        let ghost bv = blocks_view(self.blocks@);
        let start = turn_start_of(self.blocks.as_slice());
        let mut i = start;
        while i < self.blocks.len()
            invariant
                start <= i <= self.blocks@.len(),
                bv == blocks_view(self.blocks@),
                start as int == turn_start_idx(bv),
                forall|j: int| start <= j < i ==> !#[trigger] is_user_with(bv[j], text@),
            decreases self.blocks.len() - i,
        {
            let hit = match &self.blocks[i] {
                Block::User { text: t, .. } => chars_eq_string(t, text),
                _ => false,
            };
            if hit {
                proof {
                    assert(self@.blocks == bv);
                    assert(is_user_with(bv[i as int], text@));
                    assert(turn_start_idx(self@.blocks) <= i < self@.blocks.len()
                        && is_user_with(self@.blocks[i as int], text@));
                }
                return true;
            }
            i += 1;
        }
        false
    }

    fn backfill_user_prompt(&mut self, prompt_id: &str)
        ensures
            final(self)@ == backfill_spec(old(self)@, prompt_id@),
    {
        if prompt_id.is_empty() {
            return;
        }
        let buf_user = match &self.buf {
            Some(b) => b.kind == TextKind::User && b.prompt_id.as_str().is_empty(),
            None => false,
        };
        if buf_user {
            let mut b = self.buf.take().unwrap();
            b.prompt_id = prompt_id.to_string();
            self.buf = Some(b);
            return;
        }
        let n = self.blocks.len();
        if n > 0 {
            let nb = match &self.blocks[n - 1] {
                Block::User { prompt_id: p, text, files } => {
                    if p.as_str().is_empty() {
                        Some(
                            Block::User {
                                prompt_id: prompt_id.to_string(),
                                text: text.clone(),
                                files: copy_files(files),
                            },
                        )
                    } else {
                        None
                    }
                },
                _ => None,
            };
            match nb {
                Some(b) => {
                    let ghost old_bv = blocks_view(self.blocks@);
                    self.blocks.set(n - 1, b);
                    proof {
                        assert(blocks_view(self.blocks@) =~= old_bv.update(n - 1, b@));
                    }
                },
                None => {},
            }
        }
    }

    fn push_text(&mut self, kind: TextKind, prompt_id: String, text: &[char])
        ensures
            final(self)@ == push_text_spec(old(self)@, kind, prompt_id@, text@),
    {
        let pid_empty = prompt_id.as_str().is_empty();
        let cont = match &self.buf {
            Some(b) => b.kind == kind && (b.prompt_id == prompt_id || pid_empty
                || b.prompt_id.as_str().is_empty()),
            None => false,
        };
        if cont {
            let mut b = self.buf.take().unwrap();
            if b.prompt_id.as_str().is_empty() && !pid_empty {
                b.prompt_id = prompt_id;
            }
            extend(&mut b.text, text);
            self.buf = Some(b);
            return;
        }
        if kind == TextKind::User && text.len() > 0 && self.open_turn_has_user(text) {
            if !pid_empty {
                self.backfill_user_prompt(prompt_id.as_str());
                self.current_prompt_id = prompt_id;
            }
            return;
        }
        self.flush_text();
        if !pid_empty {
            self.current_prompt_id = prompt_id.clone();
        }
        self.buf = Some(TextBuf { kind, prompt_id, text: copy_chars(text) });
    }

    fn find_tool(&self, id: &str) -> (r: Option<usize>)
        ensures
            match r {
                Some(i) => i < self@.blocks.len() && tool_idx(self@.blocks, id@) == Some(i as int),
                None => tool_idx(self@.blocks, id@) is None,
            },
    {
        let ghost bv = blocks_view(self.blocks@);
        let mut i: usize = 0;
        while i < self.blocks.len()
            invariant
                i <= self.blocks@.len(),
                bv == blocks_view(self.blocks@),
                forall|j: int| 0 <= j < i ==> !#[trigger] is_tool_with(bv[j], id@),
            decreases self.blocks.len() - i,
        {
            let hit = match &self.blocks[i] {
                Block::Tool { id: x, .. } => crate::text::str_eq(x.as_str(), id),
                _ => false,
            };
            if hit {
                proof {
                    assert(first_tool(bv, id@, i as int));
                    let k = choose|k: int| first_tool(bv, id@, k);
                    lemma_first_tool_unique(bv, id@, i as int, k);
                }
                return Some(i);
            }
            i += 1;
        }
        proof {
            if exists|k: int| first_tool(bv, id@, k) {
                let k = choose|k: int| first_tool(bv, id@, k);
                assert(is_tool_with(bv[k], id@));
            }
        }
        None
    }

    fn start_tool(&mut self, id: String, title: String, preview: String)
        ensures
            final(self)@ == start_tool_spec(old(self)@, id@, title@, preview@),
    {
        self.flush_text();
        if self.find_tool(id.as_str()).is_some() {
            return;
        }
        let blk = Block::Tool {
            id,
            title,
            status: String::new(),
            input_preview: preview,
            prompt_id: self.current_prompt_id.clone(),
            result_count: None,
        };
        let ghost old_bv = blocks_view(self.blocks@);
        self.blocks.push(blk);
        proof {
            assert(blocks_view(self.blocks@) =~= old_bv.push(blk@));
        }
    }

    fn update_found(
        &mut self,
        idx: usize,
        title: Option<String>,
        status: Option<String>,
        raw: &Option<RawInput>,
        content: &Option<Shape>,
    )
        requires
            idx < old(self)@.blocks.len(),
        ensures
            final(self)@ == update_found_spec(
                old(self)@,
                idx as int,
                crate::types::opt_view(title),
                crate::types::opt_view(status),
                *raw,
                *content,
            ),
    {
        let cur = self.current_prompt_id.clone();
        let nb = match &self.blocks[idx] {
            Block::Tool { id, title: t, status: s, input_preview: p, prompt_id: pid, result_count: rc } => {
                let pid2 = if pid.as_str().is_empty() && !cur.as_str().is_empty() {
                    cur
                } else {
                    pid.clone()
                };
                let t2 = match title {
                    Some(x) => if !x.as_str().is_empty() {
                        x
                    } else {
                        t.clone()
                    },
                    None => t.clone(),
                };
                let s2 = match status {
                    Some(x) => if !x.as_str().is_empty() {
                        x
                    } else {
                        s.clone()
                    },
                    None => s.clone(),
                };
                let p2 = match raw {
                    Some(r) => if p.as_str().is_empty() {
                        input_preview(r)
                    } else {
                        p.clone()
                    },
                    None => p.clone(),
                };
                let rc2 = match content {
                    Some(c) => match count_results(c) {
                        Some(n) => Some(n),
                        None => *rc,
                    },
                    None => *rc,
                };
                Some(
                    Block::Tool {
                        id: id.clone(),
                        title: t2,
                        status: s2,
                        input_preview: p2,
                        prompt_id: pid2,
                        result_count: rc2,
                    },
                )
            },
            _ => None,
        };
        match nb {
            Some(b) => {
                let ghost old_bv = blocks_view(self.blocks@);
                self.blocks.set(idx, b);
                proof {
                    assert(blocks_view(self.blocks@) =~= old_bv.update(idx as int, b@));
                }
            },
            None => {},
        }
    }

    fn update_tool(
        &mut self,
        id: &str,
        title: Option<String>,
        status: Option<String>,
        raw: &Option<RawInput>,
        content: &Option<Shape>,
    )
        ensures
            final(self)@ == update_tool_spec(
                old(self)@,
                id@,
                crate::types::opt_view(title),
                crate::types::opt_view(status),
                *raw,
                *content,
            ),
    {
        match self.find_tool(id) {
            Some(i) => self.update_found(i, title, status, raw, content),
            None => {
                let t = match title {
                    Some(x) => x,
                    None => String::new(),
                };
                let pv = match raw {
                    Some(r) => input_preview(r),
                    None => String::new(),
                };
                self.start_tool(id.to_string(), t, pv);
                match self.find_tool(id) {
                    Some(i) => {
                        let nr: Option<RawInput> = None;
                        self.update_found(i, None, status, &nr, content);
                    },
                    None => {},
                }
            },
        }
    }

    fn turn_end(&mut self, prompt_id: String, cancelled: bool, elapsed_ms: Option<u64>)
        ensures
            final(self)@ == turn_end_spec(old(self)@, prompt_id@, cancelled, elapsed_ms),
    {
        self.flush_text();
        if !prompt_id.as_str().is_empty() {
            self.backfill_user_prompt(prompt_id.as_str());
        }
        let from_ts: u64 = match (self.turn_start_ms, self.last_ts_ms) {
            (Some(a), Some(b)) => if b >= a {
                b - a
            } else {
                0
            },
            _ => 0,
        };
        let e: u64 = match elapsed_ms {
            Some(x) => x,
            None => 0,
        };
        let d: u64 = if e >= from_ts {
            e
        } else {
            from_ts
        };
        self.turn_start_ms = None;
        self.last_ts_ms = None;
        let blk = Block::TurnEnd { prompt_id, duration_ms: d, cancelled };
        let ghost old_bv = blocks_view(self.blocks@);
        self.blocks.push(blk);
        proof {
            assert(blocks_view(self.blocks@) =~= old_bv.push(blk@));
        }
    }
}


/// What a usage record adds to each counter of a model's row.
fn row_delta_of(fs: &[(String, FieldVal)]) -> (r: RowCounters)
    ensures
        r == row_delta(fs@),
{
    let k1: [&str; 2] = ["inputTokens", "input_tokens"];
    let k2: [&str; 3] = ["cachedReadTokens", "cached_read_tokens", "cache_read_input_tokens"];
    let k3: [&str; 3] = ["cacheCreationTokens", "cache_creation_tokens", "cache_creation_input_tokens"];
    let k4: [&str; 2] = ["outputTokens", "output_tokens"];
    let k5: [&str; 2] = ["reasoningTokens", "reasoning_tokens"];
    let k6: [&str; 2] = ["totalTokens", "total_tokens"];
    let k7: [&str; 2] = ["modelCalls", "model_calls"];
    let k8: [&str; 2] = ["apiDurationMs", "api_duration_ms"];
    let k9: [&str; 3] = ["costUsdTicks", "cost_usd_ticks", "total_cost_usd_ticks"];
    proof {
        assert(strs_view(k1@) =~= k_input());
        assert(strs_view(k2@) =~= k_cached());
        assert(strs_view(k3@) =~= k_creation());
        assert(strs_view(k4@) =~= k_output());
        assert(strs_view(k5@) =~= k_reasoning());
        assert(strs_view(k6@) =~= k_total());
        assert(strs_view(k7@) =~= k_calls());
        assert(strs_view(k8@) =~= k_api());
        assert(strs_view(k9@) =~= k_cost());
    }
    (
        get_u64_or_zero(fs, &k1),
        get_u64_or_zero(fs, &k2),
        get_u64_or_zero(fs, &k3),
        get_u64_or_zero(fs, &k4),
        get_u64_or_zero(fs, &k5),
        get_u64_or_zero(fs, &k6),
        get_u64_or_zero(fs, &k7),
        get_u64_or_zero(fs, &k8),
        get_u64_or_zero(fs, &k9),
    )
}

fn add_row_exec(r: RowCounters, fs: &[(String, FieldVal)]) -> (o: Option<RowCounters>)
    ensures
        o == add_row(r, fs@),
{
    let d = row_delta_of(fs);
    let a0 = r.0.checked_add(d.0);
    let a1 = r.1.checked_add(d.1);
    let a2 = r.2.checked_add(d.2);
    let a3 = r.3.checked_add(d.3);
    let a4 = r.4.checked_add(d.4);
    let a5 = r.5.checked_add(d.5);
    let a6 = r.6.checked_add(d.6);
    let a7 = r.7.checked_add(d.7);
    let a8 = r.8.checked_add(d.8);
    match (a0, a1, a2, a3, a4, a5, a6, a7, a8) {
        (Some(b0), Some(b1), Some(b2), Some(b3), Some(b4), Some(b5), Some(b6), Some(b7), Some(b8)) =>
            Some((b0, b1, b2, b3, b4, b5, b6, b7, b8)),
        _ => None,
    }
}

fn add_counters_exec(c: Counters, fs: &[(String, FieldVal)]) -> (o: Option<Counters>)
    ensures
        o == add_counters(c, fs@),
{
    match add_row_exec((c.0, c.1, c.2, c.3, c.4, c.5, c.6, c.7, c.8), fs) {
        Some(r) => {
            let k: [&str; 2] = ["numTurns", "num_turns"];
            proof {
                assert(strs_view(k@) =~= k_turns());
            }
            let t = get_u64_or_zero(fs, &k);
            match c.9.checked_add(t) {
                Some(n) => Some((r.0, r.1, r.2, r.3, r.4, r.5, r.6, r.7, r.8, n)),
                None => None,
            }
        },
        None => None,
    }
}

fn row_counters(r: &ModelUsageRow) -> (c: RowCounters)
    ensures
        c == r@.1,
{
    (
        r.input_tokens,
        r.cached_tokens,
        r.cache_creation_tokens,
        r.output_tokens,
        r.reasoning_tokens,
        r.total_tokens,
        r.model_calls,
        r.api_duration_ms,
        r.cost_usd_ticks,
    )
}

fn make_row(name: &String, c: RowCounters) -> (r: ModelUsageRow)
    ensures
        r@ == (name@, c),
{
    ModelUsageRow {
        model: name.clone(),
        input_tokens: c.0,
        cached_tokens: c.1,
        cache_creation_tokens: c.2,
        output_tokens: c.3,
        reasoning_tokens: c.4,
        total_tokens: c.5,
        model_calls: c.6,
        api_duration_ms: c.7,
        cost_usd_ticks: c.8,
    }
}

/// Where a row for `name` stands or would be inserted.
fn row_pos(v: &Vec<ModelUsageRow>, name: &String) -> (p: usize)
    ensures
        p as int == ins_pos(rows_view(v@), name@),
        p <= v@.len(),
{
    let ghost rv = rows_view(v@);
    let nv = chars_of(name.as_str());
    let mut j: usize = 0;
    proof {
        assert(rv.subrange(0, rv.len() as int) =~= rv);
    }
    while j < v.len()
        invariant
            j <= v@.len(),
            rv == rows_view(v@),
            nv@ == name@,
            ins_pos(rv, name@) == j + ins_pos(rv.subrange(j as int, rv.len() as int), name@),
        decreases v.len() - j,
    {
        let mv = chars_of(v[j].model.as_str());
        let ghost rest = rv.subrange(j as int, rv.len() as int);
        assert(rest[0] == rv[j as int]);
        if crate::text::lex_compare(&mv, &nv) >= 0 {
            return j;
        }
        proof {
            assert(rest.drop_first() =~= rv.subrange(j + 1, rv.len() as int));
        }
        j += 1;
    }
    proof {
        assert(rv.subrange(j as int, rv.len() as int) =~= Seq::<(Seq<char>, RowCounters)>::empty());
    }
    j
}

fn models_add_one(v: &mut Vec<ModelUsageRow>, name: &String, fs: &[(String, FieldVal)]) -> (ok: bool)
    ensures
        ok == models_add(rows_view(old(v)@), name@, fs@) is Some,
        ok ==> rows_view(final(v)@) == models_add(rows_view(old(v)@), name@, fs@).unwrap(),
{
    let ghost rv = rows_view(v@);
    let p = row_pos(v, name);
    if p < v.len() && v[p].model == *name {
        let cur = row_counters(&v[p]);
        match add_row_exec(cur, fs) {
            Some(c) => {
                let row = make_row(name, c);
                v.set(p, row);
                proof {
                    assert(rows_view(v@) =~= rv.update(p as int, (name@, c)));
                }
                true
            },
            None => false,
        }
    } else {
        let z: RowCounters = (0, 0, 0, 0, 0, 0, 0, 0, 0);
        match add_row_exec(z, fs) {
            Some(c) => {
                let row = make_row(name, c);
                v.insert(p, row);
                proof {
                    assert(rows_view(v@) =~= rv.insert(p as int, (name@, c)));
                }
                true
            },
            None => false,
        }
    }
}

pub proof fn lemma_add_all_prefix(
    s: Seq<(Seq<char>, RowCounters)>,
    es: Seq<(String, Fields)>,
    i: int,
)
    requires
        models_add_all(s, es) is Some,
        0 <= i <= es.len(),
    ensures
        models_add_all(s, es.take(i)) is Some,
    decreases es.len(),
{
    if i == es.len() {
        assert(es.take(i) =~= es);
    } else {
        lemma_add_all_prefix(s, es.drop_last(), i);
        assert(es.drop_last().take(i) =~= es.take(i));
    }
}

/// The per-model rows after all the records were added; `None` where a
/// counter would overflow.
fn models_after(v: &Vec<ModelUsageRow>, es: &Vec<(String, Fields)>) -> (r: Option<Vec<ModelUsageRow>>)
    ensures
        match r {
            Some(w) => models_add_all(rows_view(v@), es@) == Some(rows_view(w@)),
            None => models_add_all(rows_view(v@), es@) is None,
        },
{
    let ghost rv = rows_view(v@);
    let mut w = copy_rows(v);
    let mut i: usize = 0;
    proof {
        assert(es@.take(0) =~= Seq::<(String, Fields)>::empty());
    }
    while i < es.len()
        invariant
            i <= es@.len(),
            rv == rows_view(v@),
            models_add_all(rv, es@.take(i as int)) == Some(rows_view(w@)),
        decreases es.len() - i,
    {
        proof {
            assert(es@.take(i + 1).drop_last() =~= es@.take(i as int));
            assert(es@.take(i + 1).last() == es@[i as int]);
        }
        let ok = models_add_one(&mut w, &es[i].0, es[i].1.as_slice());
        if !ok {
            proof {
                if models_add_all(rv, es@) is Some {
                    lemma_add_all_prefix(rv, es@, i + 1);
                }
            }
            return None;
        }
        i += 1;
    }
    proof {
        assert(es@.take(es@.len() as int) =~= es@);
    }
    Some(w)
}

fn chosen_entries(u: &UsageInput) -> (r: Option<&Vec<(String, Fields)>>)
    ensures
        match r {
            Some(v) => v@ == chosen_models(*u),
            None => chosen_models(*u).len() == 0,
        },
{
    match &u.model_usage_camel {
        ModelUsage::Object(v) => Some(v),
        ModelUsage::NotObject => None,
        ModelUsage::Absent => match &u.model_usage_snake {
            ModelUsage::Object(v) => Some(v),
            _ => None,
        },
    }
}

impl Parser {
    /// The counters and per-model rows after a usage record, where nothing
    /// overflows.
    fn usage_after(&self, u: &UsageInput) -> (r: Option<(Counters, Vec<ModelUsageRow>)>)
        ensures
            match r {
                Some((c, m)) => add_usage_spec(self@, *u) == Some(
                    ParserView { recorded: true, counters: c, models: rows_view(m@), ..self@ },
                ),
                None => add_usage_spec(self@, *u) is None,
            },
    {
        let c0 = (
            self.usage.input_tokens,
            self.usage.cached_tokens,
            self.usage.cache_creation_tokens,
            self.usage.output_tokens,
            self.usage.reasoning_tokens,
            self.usage.total_tokens,
            self.usage.model_calls,
            self.usage.api_duration_ms,
            self.usage.cost_usd_ticks,
            self.usage.num_turns,
        );
        match add_counters_exec(c0, self.usage_fields(u)) {
            Some(c) => {
                let m = match chosen_entries(u) {
                    Some(es) => models_after(&self.models, es),
                    None => {
                        proof {
                            assert(chosen_models(*u) =~= Seq::<(String, Fields)>::empty());
                        }
                        Some(copy_rows(&self.models))
                    },
                };
                match m {
                    Some(m) => Some((c, m)),
                    None => None,
                }
            },
            None => None,
        }
    }

    fn usage_fields<'a>(&self, u: &'a UsageInput) -> (r: &'a [(String, FieldVal)])
        ensures
            r@ == u.fields@,
    {
        u.fields.as_slice()
    }

    fn add_usage(&mut self, u: &UsageInput)
        requires
            add_usage_spec(old(self)@, *u) is Some,
        ensures
            final(self)@ == add_usage_spec(old(self)@, *u).unwrap(),
    {
        match self.usage_after(u) {
            Some((c, m)) => {
                self.usage.recorded = true;
                self.usage.input_tokens = c.0;
                self.usage.cached_tokens = c.1;
                self.usage.cache_creation_tokens = c.2;
                self.usage.output_tokens = c.3;
                self.usage.reasoning_tokens = c.4;
                self.usage.total_tokens = c.5;
                self.usage.model_calls = c.6;
                self.usage.api_duration_ms = c.7;
                self.usage.cost_usd_ticks = c.8;
                self.usage.num_turns = c.9;
                self.models = m;
            },
            None => {},
        }
    }
}


/// One step of dropping repeated user entries: a user entry whose text is
/// that of the last user entry kept in the same turn is dropped.
pub open spec fn compact_step(
    acc: (Seq<BlockView>, Option<Seq<char>>),
    b: BlockView,
) -> (Seq<BlockView>, Option<Seq<char>>) {
    match b {
        BlockView::TurnEnd { .. } => (acc.0.push(b), None),
        BlockView::User { text, .. } => if acc.1 == Some(text) {
            acc
        } else {
            (acc.0.push(b), Some(text))
        },
        _ => (acc.0.push(b), acc.1),
    }
}

pub open spec fn compact_fold(s: Seq<BlockView>) -> (Seq<BlockView>, Option<Seq<char>>)
    decreases s.len(),
{
    if s.len() == 0 {
        (Seq::empty(), None)
    } else {
        compact_step(compact_fold(s.drop_last()), s.last())
    }
}

/// The entries without user entries that repeat the last user text of their
/// turn.
pub open spec fn compact_spec(s: Seq<BlockView>) -> Seq<BlockView> {
    compact_fold(s).0
}

/// The entries without user entries that repeat the last user text of their
/// turn (a replayed prompt).
pub fn compact_duplicate_open_users(blocks: &[Block]) -> (r: Vec<Block>)
    ensures
        blocks_view(r@) == compact_spec(blocks_view(blocks@)),
{
    let ghost bv = blocks_view(blocks@);
    let mut out: Vec<Block> = Vec::new();
    let mut seen: Option<String> = None;
    let mut i: usize = 0;
    proof {
        assert(bv.take(0) =~= Seq::<BlockView>::empty());
        assert(blocks_view(out@) =~= Seq::<BlockView>::empty());
    }
    while i < blocks.len()
        invariant
            i <= blocks@.len(),
            bv == blocks_view(blocks@),
            (blocks_view(out@), crate::types::opt_view(seen)) == compact_fold(bv.take(i as int)),
        decreases blocks.len() - i,
    {
        proof {
            assert(bv.take(i + 1).drop_last() =~= bv.take(i as int));
            assert(bv.take(i + 1).last() == bv[i as int]);
        }
        let ghost old_out = blocks_view(out@);
        match &blocks[i] {
            Block::TurnEnd { .. } => {
                let b = copy_block(&blocks[i]);
                out.push(b);
                seen = None;
                proof {
                    assert(blocks_view(out@) =~= old_out.push(b@));
                }
            },
            Block::User { text, .. } => {
                let dup = match &seen {
                    Some(t) => *t == *text,
                    None => false,
                };
                if !dup {
                    let b = copy_block(&blocks[i]);
                    out.push(b);
                    seen = Some(text.clone());
                    proof {
                        assert(blocks_view(out@) =~= old_out.push(b@));
                    }
                }
            },
            _ => {
                let b = copy_block(&blocks[i]);
                out.push(b);
                proof {
                    assert(blocks_view(out@) =~= old_out.push(b@));
                }
            },
        }
        i += 1;
    }
    proof {
        assert(bv.take(blocks@.len() as int) =~= bv);
    }
    out
}

/// A transcript and its counters, as a finished parse gives them.
#[derive(Debug, Clone)]
pub struct ParsedSession {
    pub blocks: Vec<Block>,
    pub usage: TokenUsage,
    pub context_tokens: u64,
    pub work_started_ms: Option<u64>,
}

/// A row put in place by its model name, replacing one with the same name.
pub open spec fn models_put(
    s: Seq<(Seq<char>, RowCounters)>,
    row: (Seq<char>, RowCounters),
) -> Seq<(Seq<char>, RowCounters)> {
    let p = ins_pos(s, row.0);
    if p < s.len() && s[p].0 == row.0 {
        s.update(p, row)
    } else {
        s.insert(p, row)
    }
}

/// The rows with a model name put in place one after the other.
pub open spec fn models_put_all(rows: Seq<(Seq<char>, RowCounters)>) -> Seq<(Seq<char>, RowCounters)>
    decreases rows.len(),
{
    if rows.len() == 0 {
        Seq::empty()
    } else if rows.last().0.len() == 0 {
        models_put_all(rows.drop_last())
    } else {
        models_put(models_put_all(rows.drop_last()), rows.last())
    }
}

pub open spec fn note_meta_spec(st: ParserView, meta: Seq<(String, FieldVal)>) -> ParserView {
    match u64_of(meta, k_total()) {
        Some(n) => ParserView { context_tokens: n, ..st },
        None => st,
    }
}

impl Parser {
    /// The text still being streamed, as the entry it will become.
    pub fn open_text(&self) -> (r: Option<Block>)
        ensures
            match r {
                Some(b) => self@.buf is Some && b@ == block_of_buf(self@.buf.unwrap()),
                None => self@.buf is None,
            },
    {
        match &self.buf {
            Some(b) => {
                let t = TextBuf { kind: b.kind, prompt_id: b.prompt_id.clone(), text: copy_chars(&b.text) };
                Some(block_of(t))
            },
            None => None,
        }
    }

    /// The entry of the tool call with this id.
    pub fn tool(&self, id: &str) -> (r: Option<Block>)
        ensures
            match r {
                Some(b) => tool_idx(self@.blocks, id@) is Some && b@ == self@.blocks[tool_idx(
                    self@.blocks,
                    id@,
                ).unwrap()],
                None => tool_idx(self@.blocks, id@) is None,
            },
    {
        match self.find_tool(id) {
            Some(i) => Some(copy_block(&self.blocks[i])),
            None => None,
        }
    }

    /// The counters so far, with a row per model in the order of the names.
    pub fn usage_snapshot(&self) -> (r: TokenUsage)
        ensures
            r.recorded == self@.recorded,
            r.counters() == self@.counters,
            rows_view(r.models@) == self@.models,
    {
        TokenUsage {
            recorded: self.usage.recorded,
            input_tokens: self.usage.input_tokens,
            cached_tokens: self.usage.cached_tokens,
            cache_creation_tokens: self.usage.cache_creation_tokens,
            output_tokens: self.usage.output_tokens,
            reasoning_tokens: self.usage.reasoning_tokens,
            total_tokens: self.usage.total_tokens,
            model_calls: self.usage.model_calls,
            api_duration_ms: self.usage.api_duration_ms,
            cost_usd_ticks: self.usage.cost_usd_ticks,
            num_turns: self.usage.num_turns,
            models: copy_rows(&self.models),
        }
    }

    /// Takes over counters kept elsewhere; rows without a model name are
    /// dropped, and a later row replaces an earlier one of the same name.
    pub fn replace_usage(&mut self, snap: TokenUsage)
        ensures
            final(self)@ == (ParserView {
                recorded: snap.recorded,
                counters: snap.counters(),
                models: models_put_all(rows_view(snap.models@)),
                ..old(self)@
            }),
    {
        let ghost sv = rows_view(snap.models@);
        let mut m: Vec<ModelUsageRow> = Vec::new();
        let mut i: usize = 0;
        proof {
            assert(sv.take(0) =~= Seq::<(Seq<char>, RowCounters)>::empty());
            assert(rows_view(m@) =~= Seq::<(Seq<char>, RowCounters)>::empty());
        }
        while i < snap.models.len()
            invariant
                i <= snap.models@.len(),
                sv == rows_view(snap.models@),
                rows_view(m@) == models_put_all(sv.take(i as int)),
            decreases snap.models.len() - i,
        {
            proof {
                assert(sv.take(i + 1).drop_last() =~= sv.take(i as int));
                assert(sv.take(i + 1).last() == sv[i as int]);
            }
            let row = copy_row(&snap.models[i]);
            if !row.model.as_str().is_empty() {
                let ghost before = rows_view(m@);
                let p = row_pos(&m, &row.model);
                if p < m.len() && m[p].model == row.model {
                    m.set(p, row);
                    proof {
                        assert(rows_view(m@) =~= before.update(p as int, row@));
                    }
                } else {
                    m.insert(p, row);
                    proof {
                        assert(rows_view(m@) =~= before.insert(p as int, row@));
                    }
                }
            }
            i += 1;
        }
        proof {
            assert(sv.take(snap.models@.len() as int) =~= sv);
        }
        self.models = m;
        self.usage = TokenUsage {
            recorded: snap.recorded,
            input_tokens: snap.input_tokens,
            cached_tokens: snap.cached_tokens,
            cache_creation_tokens: snap.cache_creation_tokens,
            output_tokens: snap.output_tokens,
            reasoning_tokens: snap.reasoning_tokens,
            total_tokens: snap.total_tokens,
            model_calls: snap.model_calls,
            api_duration_ms: snap.api_duration_ms,
            cost_usd_ticks: snap.cost_usd_ticks,
            num_turns: snap.num_turns,
            models: Vec::new(),
        };
    }

    /// The context size last reported.
    pub fn context_tokens(&self) -> (r: u64)
        ensures
            r == self@.context_tokens,
    {
        self.context_tokens
    }

    /// A context size to show; 0 leaves the last one in place.
    pub fn set_context_tokens(&mut self, n: u64)
        ensures
            final(self)@ == (if n > 0 {
                ParserView { context_tokens: n, ..old(self)@ }
            } else {
                old(self)@
            }),
    {
        if n > 0 {
            self.context_tokens = n;
        }
    }

    /// The context size an event's `_meta` reports (`totalTokens`).
    pub fn note_meta(&mut self, meta: &[(String, FieldVal)])
        ensures
            final(self)@ == note_meta_spec(old(self)@, meta@),
    {
        let k: [&str; 2] = ["totalTokens", "total_tokens"];
        proof {
            assert(strs_view(k@) =~= k_total());
        }
        match get_u64(meta, &k) {
            Some(n) => {
                self.context_tokens = n;
            },
            None => {},
        }
    }

    /// The finished entries and the streamed text, without replayed prompts.
    pub fn snapshot_blocks(&self) -> (r: Vec<Block>)
        ensures
            blocks_view(r@) == compact_spec(flush_spec(self@).blocks),
    {
        let mut out = copy_blocks(self.blocks.as_slice(), 0, self.blocks.len());
        proof {
            assert(blocks_view(self.blocks@).subrange(0, self.blocks@.len() as int) =~= blocks_view(
                self.blocks@,
            ));
        }
        match self.open_text() {
            Some(b) => {
                let ghost before = blocks_view(out@);
                out.push(b);
                proof {
                    assert(blocks_view(out@) =~= before.push(b@));
                }
            },
            None => {},
        }
        compact_duplicate_open_users(out.as_slice())
    }

    /// The parse's result: the entries without replayed prompts, the counters
    /// with a row per model, the context size, and when the open turn started.
    pub fn finish(self) -> (r: ParsedSession)
        ensures
            blocks_view(r.blocks@) == compact_spec(flush_spec(self@).blocks),
            r.usage.recorded == self@.recorded,
            r.usage.counters() == self@.counters,
            rows_view(r.usage.models@) == self@.models,
            r.context_tokens == self@.context_tokens,
            r.work_started_ms == self@.turn_start,
    {
        let blocks = self.snapshot_blocks();
        let usage = self.usage_snapshot();
        ParsedSession {
            blocks,
            usage,
            context_tokens: self.context_tokens,
            work_started_ms: self.turn_start_ms,
        }
    }
}


fn stop_reason(fs: &[(String, FieldVal)]) -> (r: String)
    ensures
        r@ == stop_reason_spec(fs@),
{
    match get_field(fs, "stop_reason") {
        Some(FieldVal::Str(x)) => x.clone(),
        Some(_) => String::new(),
        None => get_str_or_empty(fs, "stopReason"),
    }
}

fn is_cancel(r: &str) -> (b: bool)
    ensures
        b == is_cancel_reason(r@),
{
    crate::text::str_eq(r, "cancelled") || crate::text::str_eq(r, "canceled")
        || crate::text::str_eq(r, "interrupted") || crate::text::str_eq(r, "user_cancelled")
}

impl Parser {
    fn ingest_text(
        &mut self,
        kind: TextKind,
        prompt_id: String,
        update: &Update,
        ts_ms: Option<u64>,
        backfill: bool,
    )
        ensures
            final(self)@ == text_spec(old(self)@, kind, prompt_id@, *update, ts_ms, backfill),
    {
        self.note_time(ts_ms);
        if backfill {
            self.backfill_user_prompt(prompt_id.as_str());
        }
        let text = content_text(&update.content);
        self.push_text(kind, prompt_id, &text);
    }

    /// Whether `ingest_at` can take this update without a counter overflowing.
    pub fn can_ingest(&self, update: &Update, prompt_id: &str, ts_ms: Option<u64>) -> (r: bool)
        ensures
            r == ingest_spec(self@, *update, prompt_id@, ts_ms) is Some,
    {
        let fs = update.fields.as_slice();
        let kind = get_str_or_empty(fs, "sessionUpdate");
        let k = kind.as_str();
        if crate::text::str_eq(k, "user_message_chunk") || crate::text::str_eq(k, "agent_thought_chunk")
            || crate::text::str_eq(k, "agent_message_chunk") || crate::text::str_eq(k, "tool_call")
            || crate::text::str_eq(k, "tool_call_update") {
            return true;
        }
        match &update.usage {
            None => true,
            Some(us) => self.usage_after(us).is_some(),
        }
    }

    /// Takes one update, for the prompt `prompt_id` (or else the update's
    /// own), at the time `ts_ms`, and says what it added.
    pub fn ingest_at(&mut self, update: &Update, prompt_id: &str, ts_ms: Option<u64>) -> (r: Ingest)
        requires
            ingest_spec(old(self)@, *update, prompt_id@, ts_ms) is Some,
        ensures
            (final(self)@, r) == ingest_spec(old(self)@, *update, prompt_id@, ts_ms).unwrap(),
    {
        let fs = update.fields.as_slice();
        let kind = get_str_or_empty(fs, "sessionUpdate");
        let pid: String = if prompt_id.is_empty() {
            get_str_or_empty(fs, "prompt_id")
        } else {
            prompt_id.to_string()
        };
        if !pid.as_str().is_empty() {
            self.current_prompt_id = pid.clone();
        }
        let k = kind.as_str();
        if crate::text::str_eq(k, "user_message_chunk") {
            self.ingest_text(TextKind::User, pid, update, ts_ms, false);
            Ingest::Text
        } else if crate::text::str_eq(k, "agent_thought_chunk") {
            self.ingest_text(TextKind::Thought, pid, update, ts_ms, true);
            Ingest::Text
        } else if crate::text::str_eq(k, "agent_message_chunk") {
            self.ingest_text(TextKind::Assistant, pid, update, ts_ms, true);
            Ingest::Text
        } else if crate::text::str_eq(k, "tool_call") {
            self.note_time(ts_ms);
            self.backfill_user_prompt(pid.as_str());
            let id = get_str_or_empty(fs, "toolCallId");
            if id.as_str().is_empty() {
                return Ingest::Nothing;
            }
            let title = get_str_or_empty(fs, "title");
            let pv = match &update.raw_input {
                Some(r) => input_preview(r),
                None => String::new(),
            };
            self.start_tool(id, title, pv);
            Ingest::Tool
        } else if crate::text::str_eq(k, "tool_call_update") {
            self.note_time(ts_ms);
            let id = get_str_or_empty(fs, "toolCallId");
            if id.as_str().is_empty() {
                return Ingest::Nothing;
            }
            let title = get_str(fs, "title");
            let status = get_str(fs, "status");
            self.update_tool(id.as_str(), title, status, &update.raw_input, &update.content);
            Ingest::Tool
        } else if crate::text::str_eq(k, "turn_completed") {
            self.note_time(ts_ms);
            match &update.usage {
                Some(us) => self.add_usage(us),
                None => {},
            }
            let stop = stop_reason(fs);
            let cancelled = is_cancel(stop.as_str());
            let k2: [&str; 2] = ["elapsed_ms", "elapsedMs"];
            proof {
                assert(strs_view(k2@) =~= seq!["elapsed_ms"@, "elapsedMs"@]);
            }
            let elapsed = get_u64(fs, &k2);
            self.turn_end(pid, cancelled, elapsed);
            Ingest::TurnEnd
        } else {
            match &update.usage {
                None => Ingest::Nothing,
                Some(us) => {
                    self.add_usage(us);
                    Ingest::Usage
                },
            }
        }
    }
}

/// Milliseconds since the epoch of an RFC 3339 date and time, as chrono's
/// `DateTime::parse_from_rfc3339` and `timestamp_millis` give them; `None`
/// where the text does not parse.
pub uninterp spec fn rfc3339_ms(s: Seq<char>) -> Option<i64>;

/// Calls chrono's `DateTime::parse_from_rfc3339` and then `timestamp_millis`.
/// The contract names the result and says nothing more of it.
#[verifier::external_body]
pub(crate) fn rfc3339_millis(s: &str) -> (r: Option<i64>)
    ensures
        r == rfc3339_ms(s@),
{
    match chrono::DateTime::parse_from_rfc3339(s) {
        Ok(dt) => Some(dt.timestamp_millis()),
        Err(_) => None,
    }
}

/// An event time in milliseconds: a number (seconds where under 10^12), or an
/// RFC 3339 text (times before 1970 count as 0).
pub open spec fn timestamp_spec(v: Option<FieldVal>) -> Option<u64> {
    match v {
        Some(FieldVal::UInt(n)) => Some(normalize_ts_spec(n)),
        Some(FieldVal::Str(s)) => match rfc3339_ms(s@) {
            Some(ms) => Some(if ms < 0 {
                0u64
            } else {
                ms as u64
            }),
            None => None,
        },
        _ => None,
    }
}

fn normalize_ts(n: u64) -> (r: u64)
    ensures
        r == normalize_ts_spec(n),
{
    if n >= 1_000_000_000_000 {
        n
    } else {
        n * 1000
    }
}

/// An event time in milliseconds.
pub fn timestamp_ms(v: &Option<FieldVal>) -> (r: Option<u64>)
    ensures
        r == timestamp_spec(*v),
{
    match v {
        Some(FieldVal::UInt(n)) => Some(normalize_ts(*n)),
        Some(FieldVal::Str(s)) => match rfc3339_millis(s.as_str()) {
            Some(ms) => Some(if ms < 0 {
                0u64
            } else {
                ms as u64
            }),
            None => None,
        },
        _ => None,
    }
}

/// The prompt an event belongs to: `_meta.promptId`, or else the update's
/// `prompt_id`.
pub open spec fn event_pid(ev: Event) -> Seq<char> {
    let m = str_or_empty(ev.meta@, "promptId"@);
    if m.len() == 0 {
        str_or_empty(ev.update.fields@, "prompt_id"@)
    } else {
        m
    }
}

/// The time of an event: its `timestamp`, or else that of its params.
pub open spec fn event_ts(ev: Event) -> Option<u64> {
    match timestamp_spec(ev.timestamp) {
        Some(t) => Some(t),
        None => timestamp_spec(ev.params_timestamp),
    }
}

/// One line of `updates.jsonl`: its `_meta` noted, then its update taken.
pub open spec fn apply_event_spec(st: ParserView, ev: Event) -> Option<(ParserView, Ingest)> {
    ingest_spec(note_meta_spec(st, ev.meta@), ev.update, event_pid(ev), event_ts(ev))
}

fn event_pid_of(ev: &Event) -> (r: String)
    ensures
        r@ == event_pid(*ev),
{
    let m = get_str_or_empty(ev.meta.as_slice(), "promptId");
    if m.as_str().is_empty() {
        get_str_or_empty(ev.update.fields.as_slice(), "prompt_id")
    } else {
        m
    }
}

fn event_ts_of(ev: &Event) -> (r: Option<u64>)
    ensures
        r == event_ts(*ev),
{
    match timestamp_ms(&ev.timestamp) {
        Some(t) => Some(t),
        None => timestamp_ms(&ev.params_timestamp),
    }
}

impl Parser {
    /// Whether `apply_event` can take this event without a counter
    /// overflowing.
    pub fn can_apply(&self, ev: &Event) -> (r: bool)
        ensures
            r == apply_event_spec(self@, *ev) is Some,
    {
        let pid = event_pid_of(ev);
        let ts = event_ts_of(ev);
        self.can_ingest(&ev.update, pid.as_str(), ts)
    }
}

/// Takes one line of a session's `updates.jsonl`.
pub fn apply_event(parser: &mut Parser, ev: &Event)
    requires
        apply_event_spec(old(parser)@, *ev) is Some,
    ensures
        final(parser)@ == apply_event_spec(old(parser)@, *ev).unwrap().0,
{
    let pid = event_pid_of(ev);
    let ts = event_ts_of(ev);
    parser.note_meta(ev.meta.as_slice());
    let _ = parser.ingest_at(&ev.update, pid.as_str(), ts);
}


/// The first non-empty prompt id among the entries.
pub open spec fn first_pid(s: Seq<BlockView>) -> Option<Seq<char>>
    decreases s.len(),
{
    if s.len() == 0 {
        None
    } else if s[0].pid().len() > 0 {
        Some(s[0].pid())
    } else {
        first_pid(s.drop_first())
    }
}

/// Whether the last entry ends the turn of prompt `pid` (a known one).
pub open spec fn ends_turn_of(disk: Seq<BlockView>, pid: Option<Seq<char>>) -> bool {
    disk.len() > 0 && disk.last() is TurnEnd && disk.last().pid().len() > 0 && pid == Some(
        disk.last().pid(),
    )
}

/// The live entries of a session laid over those on disk: the disk's
/// finished turns, then the live entries, without replayed prompts. Where the
/// disk already ends with the live prompt's turn, the disk stands as it is.
pub open spec fn merge_spec(disk: Seq<BlockView>, live: Seq<BlockView>) -> Seq<BlockView> {
    if live.len() == 0 {
        disk
    } else if ends_turn_of(disk, first_pid(live)) {
        disk
    } else {
        compact_spec(disk.take(turn_start_idx(disk)) + live)
    }
}

fn first_pid_of(live: &[Block]) -> (r: Option<String>)
    ensures
        crate::types::opt_view(r) == first_pid(blocks_view(live@)),
{
    let ghost lv = blocks_view(live@);
    let mut i: usize = 0;
    proof {
        assert(lv.subrange(0, lv.len() as int) =~= lv);
    }
    while i < live.len()
        invariant
            i <= live@.len(),
            lv == blocks_view(live@),
            first_pid(lv) == first_pid(lv.subrange(i as int, lv.len() as int)),
        decreases live.len() - i,
    {
        let ghost rest = lv.subrange(i as int, lv.len() as int);
        assert(rest[0] == lv[i as int]);
        let p = live[i].prompt_id();
        if !p.is_empty() {
            return Some(p.to_string());
        }
        proof {
            assert(rest.drop_first() =~= lv.subrange(i + 1, lv.len() as int));
        }
        i += 1;
    }
    proof {
        assert(lv.subrange(i as int, lv.len() as int) =~= Seq::<BlockView>::empty());
    }
    None
}

/// The live entries of a session laid over those on disk.
pub fn merge_live_over_disk(disk: &[Block], live: &[Block]) -> (r: Vec<Block>)
    ensures
        blocks_view(r@) == merge_spec(blocks_view(disk@), blocks_view(live@)),
{
    let ghost dv = blocks_view(disk@);
    proof {
        assert(dv.subrange(0, disk@.len() as int) =~= dv);
    }
    if live.len() == 0 {
        return copy_blocks(disk, 0, disk.len());
    }
    let lpid = first_pid_of(live);
    let n = disk.len();
    let same = if n > 0 {
        match &disk[n - 1] {
            Block::TurnEnd { prompt_id: d, .. } => {
                !d.as_str().is_empty() && match &lpid {
                    Some(l) => *l == *d,
                    None => false,
                }
            },
            _ => false,
        }
    } else {
        false
    };
    proof {
        if n > 0 {
            assert(dv.last() == disk@[n - 1]@);
        }
    }
    if same {
        return copy_blocks(disk, 0, disk.len());
    }
    let cut = turn_start_of(disk);
    let mut out = copy_blocks(disk, 0, cut);
    let tail = copy_blocks(live, 0, live.len());
    let ghost a = blocks_view(out@);
    let mut i: usize = 0;
    while i < tail.len()
        invariant
            i <= tail@.len(),
            blocks_view(out@) == a + blocks_view(tail@).take(i as int),
        decreases tail.len() - i,
    {
        let ghost before = blocks_view(out@);
        let b = copy_block(&tail[i]);
        out.push(b);
        proof {
            assert(blocks_view(out@) =~= before.push(b@));
            assert(blocks_view(tail@).take(i + 1) =~= blocks_view(tail@).take(i as int).push(
                blocks_view(tail@)[i as int],
            ));
            assert(a + blocks_view(tail@).take(i + 1) =~= (a + blocks_view(tail@).take(
                i as int,
            )).push(blocks_view(tail@)[i as int]));
        }
        i += 1;
    }
    proof {
        assert(blocks_view(tail@).take(tail@.len() as int) =~= blocks_view(tail@));
        assert(blocks_view(live@).subrange(0, live@.len() as int) =~= blocks_view(live@));
        assert(dv.subrange(0, cut as int) =~= dv.take(cut as int));
    }
    compact_duplicate_open_users(out.as_slice())
}

/// One entry of the Markdown export; the flag says whether a tools list is
/// open.
pub open spec fn md_step(acc: (Seq<char>, bool), b: BlockView) -> (Seq<char>, bool) {
    match b {
        BlockView::User { text, .. } => (acc.0 + "## User\n"@ + text + "\n\n"@, false),
        BlockView::Thought { text, .. } => (acc.0 + "## Thought\n"@ + text + "\n\n"@, false),
        BlockView::Assistant { text, .. } => (acc.0 + "## Assistant\n"@ + text + "\n\n"@, false),
        BlockView::Tool { title, input_preview, .. } => (
            acc.0 + (if acc.1 {
                Seq::empty()
            } else {
                "## Tools\n"@
            }) + "- `"@ + title + "`: "@ + input_preview + "\n"@,
            true,
        ),
        BlockView::TurnEnd { .. } => (acc.0 + "\n"@, false),
    }
}

pub open spec fn md_fold(s: Seq<BlockView>) -> (Seq<char>, bool)
    decreases s.len(),
{
    if s.len() == 0 {
        (Seq::empty(), false)
    } else {
        md_step(md_fold(s.drop_last()), s.last())
    }
}

/// A transcript as Markdown: a heading per text entry, a list of the tool
/// calls that follow each other, a blank line at each turn end.
pub open spec fn markdown_spec(s: Seq<BlockView>) -> Seq<char> {
    md_fold(s).0
}

/// A transcript as Markdown.
pub fn blocks_to_markdown(blocks: &[Block]) -> (r: String)
    ensures
        r@ == markdown_spec(blocks_view(blocks@)),
{
    let ghost bv = blocks_view(blocks@);
    let mut out: Vec<char> = Vec::new();
    let mut tools_open = false;
    let mut i: usize = 0;
    proof {
        assert(bv.take(0) =~= Seq::<BlockView>::empty());
    }
    while i < blocks.len()
        invariant
            i <= blocks@.len(),
            bv == blocks_view(blocks@),
            (out@, tools_open) == md_fold(bv.take(i as int)),
        decreases blocks.len() - i,
    {
        proof {
            assert(bv.take(i + 1).drop_last() =~= bv.take(i as int));
            assert(bv.take(i + 1).last() == bv[i as int]);
        }
        let ghost o = out@;
        match &blocks[i] {
            Block::User { text, .. } => {
                tools_open = false;
                extend_str(&mut out, "## User\n");
                extend_str(&mut out, text.as_str());
                extend_str(&mut out, "\n\n");
            },
            Block::Thought { text, .. } => {
                tools_open = false;
                extend_str(&mut out, "## Thought\n");
                extend_str(&mut out, text.as_str());
                extend_str(&mut out, "\n\n");
            },
            Block::Assistant { text, .. } => {
                tools_open = false;
                extend_str(&mut out, "## Assistant\n");
                extend_str(&mut out, text.as_str());
                extend_str(&mut out, "\n\n");
            },
            Block::Tool { title, input_preview, .. } => {
                let ghost head = if tools_open {
                    Seq::<char>::empty()
                } else {
                    "## Tools\n"@
                };
                if !tools_open {
                    extend_str(&mut out, "## Tools\n");
                    tools_open = true;
                }
                assert(out@ =~= o + head);
                extend_str(&mut out, "- `");
                extend_str(&mut out, title.as_str());
                extend_str(&mut out, "`: ");
                extend_str(&mut out, input_preview.as_str());
                extend_str(&mut out, "\n");
            },
            Block::TurnEnd { .. } => {
                tools_open = false;
                extend_str(&mut out, "\n");
            },
        }
        i += 1;
    }
    proof {
        assert(bv.take(blocks@.len() as int) =~= bv);
    }
    string_of(&out)
}

/// A model id without its `-build` suffix.
pub open spec fn strip_build(m: Seq<char>) -> Seq<char> {
    if ends_with(m, "-build"@) {
        m.take(m.len() - "-build"@.len())
    } else {
        m
    }
}

/// The context window taken for a model that the models cache does not
/// list: 500 000 tokens for the grok 4 family (`4.6`, `4.5`, `grok-4`),
/// otherwise 200 000.
pub open spec fn fallback_window_spec(model: Seq<char>) -> u64 {
    let id = strip_build(model);
    if contains(id, "4.6"@) || contains(id, "4.5"@) || contains(id, "grok-4"@) {
        500_000
    } else {
        200_000
    }
}

/// The context window taken for a model that the models cache does not
/// list.
pub fn fallback_window(model: &str) -> (r: u64)
    ensures
        r == fallback_window_spec(model@),
{
    let m = chars_of(model);
    let suf = chars_of("-build");
    let id = if crate::text::ends_with_chars(&m, &suf) {
        slice_of(&m, 0, m.len() - suf.len())
    } else {
        copy_chars(&m)
    };
    proof {
        assert(m@.subrange(0, m@.len() - suf@.len()) =~= m@.take(m@.len() - suf@.len()));
    }
    if contains_str(&id, "4.6") || contains_str(&id, "4.5") || contains_str(&id, "grok-4") {
        500_000
    } else {
        200_000
    }
}


proof fn lemma_compact_fold_fixed(s: Seq<BlockView>)
    ensures
        compact_fold(compact_fold(s).0) == compact_fold(s),
    decreases s.len(),
{
    if s.len() > 0 {
        let prev = compact_fold(s.drop_last());
        lemma_compact_fold_fixed(s.drop_last());
        let x = s.last();
        let out = compact_fold(s).0;
        if out.len() > 0 && out != prev.0 {
            assert(out == prev.0.push(x));
            assert(out.drop_last() =~= prev.0);
        }
    }
}

/// Dropping replayed prompts twice drops nothing more.
pub proof fn law_compact_idempotent(s: Seq<BlockView>)
    ensures
        compact_spec(compact_spec(s)) == compact_spec(s),
{
    lemma_compact_fold_fixed(s);
}

proof fn lemma_lex_trans(a: Seq<char>, b: Seq<char>, c: Seq<char>)
    requires
        crate::text::lex_order(a, b) < 0,
        crate::text::lex_order(b, c) < 0,
    ensures
        crate::text::lex_order(a, c) < 0,
    decreases a.len(),
{
    if a.len() > 0 && b.len() > 0 && c.len() > 0 && a[0] == b[0] && b[0] == c[0] {
        lemma_lex_trans(a.drop_first(), b.drop_first(), c.drop_first());
    }
}

/// Model rows ordered strictly by their names, none of which is empty.
pub open spec fn rows_sorted(s: Seq<(Seq<char>, RowCounters)>) -> bool {
    &&& forall|i: int| 0 <= i < s.len() ==> (#[trigger] s[i]).0.len() > 0
    &&& forall|i: int, j: int|
        0 <= i < j < s.len() ==> crate::text::lex_order(#[trigger] s[i].0, #[trigger] s[j].0) < 0
}

proof fn lemma_ins_pos(s: Seq<(Seq<char>, RowCounters)>, name: Seq<char>)
    requires
        rows_sorted(s),
    ensures
        0 <= ins_pos(s, name) <= s.len(),
        forall|k: int| 0 <= k < ins_pos(s, name) ==> crate::text::lex_order(#[trigger] s[k].0, name) < 0,
        ins_pos(s, name) < s.len() ==> crate::text::lex_order(s[ins_pos(s, name)].0, name) >= 0,
    decreases s.len(),
{
    if s.len() > 0 && crate::text::lex_order(s[0].0, name) < 0 {
        let t = s.drop_first();
        assert forall|i: int, j: int| 0 <= i < j < t.len() implies crate::text::lex_order(
            #[trigger] t[i].0,
            #[trigger] t[j].0,
        ) < 0 by {
            assert(t[i] == s[i + 1] && t[j] == s[j + 1]);
        }
        assert forall|i: int| 0 <= i < t.len() implies (#[trigger] t[i]).0.len() > 0 by {
            assert(t[i] == s[i + 1]);
        }
        lemma_ins_pos(t, name);
        assert forall|k: int| 0 <= k < ins_pos(s, name) implies crate::text::lex_order(
            #[trigger] s[k].0,
            name,
        ) < 0 by {
            if k > 0 {
                assert(s[k] == t[k - 1]);
            }
        }
        if ins_pos(s, name) < s.len() {
            assert(s[ins_pos(s, name)] == t[ins_pos(t, name)]);
        }
    }
}

proof fn lemma_put_sorted(s: Seq<(Seq<char>, RowCounters)>, row: (Seq<char>, RowCounters))
    requires
        rows_sorted(s),
        row.0.len() > 0,
    ensures
        rows_sorted(models_put(s, row)),
{
    lemma_ins_pos(s, row.0);
    let p = ins_pos(s, row.0);
    let r = models_put(s, row);
    if p < s.len() && s[p].0 == row.0 {
        assert forall|i: int, j: int| 0 <= i < j < r.len() implies crate::text::lex_order(
            #[trigger] r[i].0,
            #[trigger] r[j].0,
        ) < 0 by {
            assert(r[i].0 == s[i].0 && r[j].0 == s[j].0);
        }
    } else {
        if p < s.len() {
            crate::text::lemma_lex_order_antisym(s[p].0, row.0);
        }
        assert forall|i: int, j: int| 0 <= i < j < r.len() implies crate::text::lex_order(
            #[trigger] r[i].0,
            #[trigger] r[j].0,
        ) < 0 by {
            if j < p {
                assert(r[i] == s[i] && r[j] == s[j]);
            } else if j == p {
                assert(r[i] == s[i] && r[j] == row);
            } else if i < p {
                assert(r[i] == s[i] && r[j] == s[j - 1]);
                assert(crate::text::lex_order(row.0, s[p].0) < 0);
                if j - 1 > p {
                    lemma_lex_trans(row.0, s[p].0, s[j - 1].0);
                }
                lemma_lex_trans(s[i].0, row.0, s[j - 1].0);
            } else if i == p {
                assert(r[i] == row && r[j] == s[j - 1]);
                assert(crate::text::lex_order(row.0, s[p].0) < 0);
                if j - 1 > p {
                    lemma_lex_trans(row.0, s[p].0, s[j - 1].0);
                }
            } else {
                assert(r[i] == s[i - 1] && r[j] == s[j - 1]);
            }
        }
        assert forall|i: int| 0 <= i < r.len() implies (#[trigger] r[i]).0.len() > 0 by {
            if i < p {
                assert(r[i] == s[i]);
            } else if i > p {
                assert(r[i] == s[i - 1]);
            }
        }
    }
}

/// The counters' model rows, however they were handed over, come out in
/// strict order of their names, none of them empty.
pub proof fn law_usage_rows_sorted(rows: Seq<(Seq<char>, RowCounters)>)
    ensures
        rows_sorted(models_put_all(rows)),
    decreases rows.len(),
{
    if rows.len() > 0 {
        law_usage_rows_sorted(rows.drop_last());
        if rows.last().0.len() > 0 {
            lemma_put_sorted(models_put_all(rows.drop_last()), rows.last());
        }
    }
}

proof fn lemma_ins_pos_end(s: Seq<(Seq<char>, RowCounters)>, name: Seq<char>)
    requires
        forall|k: int| 0 <= k < s.len() ==> crate::text::lex_order(#[trigger] s[k].0, name) < 0,
    ensures
        ins_pos(s, name) == s.len(),
    decreases s.len(),
{
    if s.len() > 0 {
        let t = s.drop_first();
        assert forall|k: int| 0 <= k < t.len() implies crate::text::lex_order(#[trigger] t[k].0, name) < 0 by {
            assert(t[k] == s[k + 1]);
        }
        lemma_ins_pos_end(t, name);
    }
}

/// Counters whose model rows are already in strict order of their
/// non-empty names are taken over unchanged: what `replace_usage` was
/// given, `usage_snapshot` gives back.
pub proof fn law_usage_round_trip(rows: Seq<(Seq<char>, RowCounters)>)
    requires
        rows_sorted(rows),
    ensures
        models_put_all(rows) == rows,
    decreases rows.len(),
{
    if rows.len() > 0 {
        let d = rows.drop_last();
        assert forall|i: int, j: int| 0 <= i < j < d.len() implies crate::text::lex_order(
            #[trigger] d[i].0,
            #[trigger] d[j].0,
        ) < 0 by {
            assert(d[i] == rows[i] && d[j] == rows[j]);
        }
        assert forall|i: int| 0 <= i < d.len() implies (#[trigger] d[i]).0.len() > 0 by {
            assert(d[i] == rows[i]);
        }
        law_usage_round_trip(d);
        let x = rows.last();
        assert(x == rows[rows.len() - 1]);
        assert(x.0.len() > 0);
        assert forall|k: int| 0 <= k < d.len() implies crate::text::lex_order(#[trigger] d[k].0, x.0) < 0 by {
            assert(d[k] == rows[k]);
        }
        lemma_ins_pos_end(d, x.0);
        assert(d.insert(d.len() as int, x) =~= rows);
    }
}

/// The index of the last row named `name`.
pub open spec fn last_with(rows: Seq<(Seq<char>, RowCounters)>, name: Seq<char>) -> Option<int>
    decreases rows.len(),
{
    if rows.len() == 0 {
        None
    } else if rows.last().0 == name {
        Some(rows.len() - 1)
    } else {
        last_with(rows.drop_last(), name)
    }
}

proof fn lemma_last_with_range(rows: Seq<(Seq<char>, RowCounters)>, name: Seq<char>)
    ensures
        last_with(rows, name) matches Some(i) ==> 0 <= i < rows.len() && rows[i].0 == name,
    decreases rows.len(),
{
    if rows.len() > 0 && rows.last().0 != name {
        lemma_last_with_range(rows.drop_last(), name);
    }
}

/// Each row taken over is the last one handed over with its name, and
/// every name handed over (but the empty one) has its row.
pub open spec fn last_rows_kept(rows: Seq<(Seq<char>, RowCounters)>, r: Seq<(Seq<char>, RowCounters)>) -> bool {
    &&& forall|k: int|
        0 <= k < r.len() ==> (last_with(rows, (#[trigger] r[k]).0) matches Some(i) && r[k] == rows[i])
    &&& forall|i: int|
        0 <= i < rows.len() && (#[trigger] rows[i]).0.len() > 0 ==> exists|k: int|
            0 <= k < r.len() && (#[trigger] r[k]).0 == rows[i].0
}

/// Counters handed over keep, for each model name but the empty one, the
/// last row given with it (the rows come out one per name, in order of
/// the names: [`law_usage_rows_sorted`]).
pub proof fn law_usage_last_row_per_name(rows: Seq<(Seq<char>, RowCounters)>)
    ensures
        last_rows_kept(rows, models_put_all(rows)),
    decreases rows.len(),
{
    if rows.len() == 0 {
        return;
    }
    let d = rows.drop_last();
    let x = rows.last();
    law_usage_last_row_per_name(d);
    law_usage_rows_sorted(d);
    let rd = models_put_all(d);
    let r = models_put_all(rows);
    assert(x == rows[rows.len() - 1]);
    if x.0.len() == 0 {
        assert(r == rd);
        assert forall|k: int| 0 <= k < r.len() implies (last_with(rows, (#[trigger] r[k]).0) matches Some(i)
            && r[k] == rows[i]) by {
            assert(r[k].0.len() > 0);
            lemma_last_with_range(d, r[k].0);
            let i = last_with(d, r[k].0).unwrap();
            assert(rows[i] == d[i]);
        }
        assert forall|i: int| 0 <= i < rows.len() && (#[trigger] rows[i]).0.len() > 0 implies exists|k: int|
            0 <= k < r.len() && (#[trigger] r[k]).0 == rows[i].0 by {
            assert(i < d.len());
            assert(rows[i] == d[i]);
        }
        return;
    }
    lemma_ins_pos(rd, x.0);
    let p = ins_pos(rd, x.0);
    if p < rd.len() && rd[p].0 == x.0 {
        assert(r == rd.update(p, x));
        assert forall|k: int| 0 <= k < r.len() implies (last_with(rows, (#[trigger] r[k]).0) matches Some(i)
            && r[k] == rows[i]) by {
            if k != p {
                assert(r[k] == rd[k]);
                if k < p {
                    crate::text::lemma_lex_order_antisym(rd[k].0, rd[p].0);
                } else {
                    crate::text::lemma_lex_order_antisym(rd[p].0, rd[k].0);
                }
                assert(rd[k].0 != x.0);
                lemma_last_with_range(d, rd[k].0);
                let i = last_with(d, rd[k].0).unwrap();
                assert(rows[i] == d[i]);
            }
        }
        assert forall|i: int| 0 <= i < rows.len() && (#[trigger] rows[i]).0.len() > 0 implies exists|k: int|
            0 <= k < r.len() && (#[trigger] r[k]).0 == rows[i].0 by {
            if i == rows.len() - 1 {
                assert(r[p].0 == rows[i].0);
            } else {
                assert(rows[i] == d[i]);
                let k = choose|k: int| 0 <= k < rd.len() && (#[trigger] rd[k]).0 == d[i].0;
                if k == p {
                    assert(r[p].0 == rows[i].0);
                } else {
                    assert(r[k] == rd[k]);
                }
            }
        }
    } else {
        assert(r == rd.insert(p, x));
        if p < rd.len() {
            crate::text::lemma_lex_order_antisym(rd[p].0, x.0);
        }
        assert forall|j: int| 0 <= j < rd.len() implies (#[trigger] rd[j]).0 != x.0 by {
            if j < p {
                crate::text::lemma_lex_order_antisym(rd[j].0, x.0);
            } else if j > p {
                lemma_lex_trans(x.0, rd[p].0, rd[j].0);
                crate::text::lemma_lex_order_antisym(x.0, rd[j].0);
            }
        }
        assert forall|k: int| 0 <= k < r.len() implies (last_with(rows, (#[trigger] r[k]).0) matches Some(i)
            && r[k] == rows[i]) by {
            if k != p {
                let j = if k < p { k } else { k - 1 };
                assert(r[k] == rd[j]);
                assert(rd[j].0 != x.0);
                lemma_last_with_range(d, rd[j].0);
                let i = last_with(d, rd[j].0).unwrap();
                assert(rows[i] == d[i]);
            }
        }
        assert forall|i: int| 0 <= i < rows.len() && (#[trigger] rows[i]).0.len() > 0 implies exists|k: int|
            0 <= k < r.len() && (#[trigger] r[k]).0 == rows[i].0 by {
            if i == rows.len() - 1 {
                assert(r[p].0 == rows[i].0);
            } else {
                assert(rows[i] == d[i]);
                let k = choose|k: int| 0 <= k < rd.len() && (#[trigger] rd[k]).0 == d[i].0;
                if k < p {
                    assert(r[k] == rd[k]);
                } else {
                    assert(r[k + 1] == rd[k]);
                }
            }
        }
    }
}

/// The text of a user entry.
pub open spec fn user_text(b: BlockView) -> Option<Seq<char>> {
    match b {
        BlockView::User { text, .. } => Some(text),
        _ => None,
    }
}

/// No user entry repeats the text of the user entry before it in its turn
/// (with no other user entry and no turn end between them).
pub open spec fn no_replayed_users(s: Seq<BlockView>) -> bool {
    forall|i: int, j: int|
        0 <= i < j < s.len() && (#[trigger] user_text(s[i])) is Some && (#[trigger] user_text(s[j])) is Some
            && (forall|k: int| i < k < j ==> (#[trigger] user_text(s[k])) is None && !(s[k] is TurnEnd))
            ==> user_text(s[i]) != user_text(s[j])
}

/// The text of the last user entry of the open turn.
pub open spec fn last_user_text(s: Seq<BlockView>) -> Option<Seq<char>>
    decreases s.len(),
{
    if s.len() == 0 {
        None
    } else if s.last() is TurnEnd {
        None
    } else if user_text(s.last()) is Some {
        user_text(s.last())
    } else {
        last_user_text(s.drop_last())
    }
}

proof fn lemma_last_user(s: Seq<BlockView>, i: int)
    requires
        0 <= i < s.len(),
        user_text(s[i]) is Some,
        forall|k: int| i < k < s.len() ==> (#[trigger] user_text(s[k])) is None && !(s[k] is TurnEnd),
    ensures
        last_user_text(s) == user_text(s[i]),
    decreases s.len(),
{
    if i < s.len() - 1 {
        let d = s.drop_last();
        assert(user_text(s[s.len() - 1]) is None);
        assert forall|k: int| i < k < d.len() implies (#[trigger] user_text(d[k])) is None && !(
        d[k] is TurnEnd) by {
            assert(d[k] == s[k]);
            assert(user_text(s[k]) is None);
        }
        assert(d[i] == s[i]);
        lemma_last_user(d, i);
    }
}

proof fn lemma_compact_fold_inv(s: Seq<BlockView>)
    ensures
        compact_fold(s).1 == last_user_text(compact_fold(s).0),
        no_replayed_users(compact_fold(s).0),
    decreases s.len(),
{
    if s.len() == 0 {
        return;
    }
    lemma_compact_fold_inv(s.drop_last());
    let prev = compact_fold(s.drop_last());
    let out = prev.0;
    let b = s.last();
    let now = compact_fold(s);
    if now.0 == out {
        return;
    }
    assert(now.0 == out.push(b));
    let n = now.0;
    assert(n.drop_last() =~= out);
    assert forall|i: int, j: int|
        0 <= i < j < n.len() && (#[trigger] user_text(n[i])) is Some && (#[trigger] user_text(n[j])) is Some
            && (forall|k: int| i < k < j ==> (#[trigger] user_text(n[k])) is None && !(n[k] is TurnEnd))
        implies user_text(n[i]) != user_text(n[j]) by {
        if j < out.len() {
            assert(n[i] == out[i] && n[j] == out[j]);
            assert forall|k: int| i < k < j implies (#[trigger] user_text(out[k])) is None && !(
            out[k] is TurnEnd) by {
                assert(n[k] == out[k]);
                assert(user_text(n[k]) is None);
            }
        } else {
            assert(n[j] == b);
            assert(n[i] == out[i]);
            assert forall|k: int| i < k < out.len() implies (#[trigger] user_text(out[k])) is None && !(
            out[k] is TurnEnd) by {
                assert(n[k] == out[k]);
                assert(user_text(n[k]) is None);
            }
            lemma_last_user(out, i);
        }
    }
}

/// A snapshot never shows a user entry that repeats the user entry before
/// it in its turn (a replayed prompt).
pub proof fn law_snapshot_has_no_replayed_prompt(st: ParserView)
    ensures
        no_replayed_users(compact_spec(flush_spec(st).blocks)),
{
    lemma_compact_fold_inv(flush_spec(st).blocks);
}

/// The text being streamed, unless it is a user prompt, is the last entry
/// of a snapshot.
pub proof fn law_snapshot_ends_with_open_text(st: ParserView)
    requires
        st.buf matches Some(b) && b.kind != TextKind::User,
    ensures
        compact_spec(flush_spec(st).blocks).len() > 0,
        compact_spec(flush_spec(st).blocks).last() == block_of_buf(st.buf.unwrap()),
{
    let s = flush_spec(st).blocks;
    assert(s.drop_last() =~= st.blocks);
    assert(s.last() == block_of_buf(st.buf.unwrap()));
}

/// With no live entries, the transcript on disk is shown as it is.
pub proof fn law_merge_without_live(disk: Seq<BlockView>)
    ensures
        merge_spec(disk, Seq::empty()) == disk,
{
}

/// The index just past the last turn end of `s` (0 where there is none),
/// said without reference to how merging finds it.
pub open spec fn finished_upto(s: Seq<BlockView>, k: int) -> bool {
    &&& 0 <= k <= s.len()
    &&& (k == 0 || s[k - 1] is TurnEnd)
    &&& forall|j: int| k <= j < s.len() ==> !(#[trigger] s[j] is TurnEnd)
}

proof fn lemma_turn_start_is_finished(s: Seq<BlockView>, k: int)
    requires
        finished_upto(s, k),
    ensures
        turn_start_idx(s) == k,
    decreases s.len(),
{
    if s.len() > k {
        assert(!(s[s.len() - 1] is TurnEnd));
        let d = s.drop_last();
        assert forall|j: int| k <= j < d.len() implies !(#[trigger] d[j] is TurnEnd) by {
            assert(d[j] == s[j]);
        }
        if k > 0 {
            assert(d[k - 1] == s[k - 1]);
        }
        lemma_turn_start_is_finished(d, k);
    }
}

/// No user entry repeats the text of the last user entry of its turn
/// before it.
pub open spec fn no_repeat_prompts(s: Seq<BlockView>) -> bool
    decreases s.len(),
{
    s.len() == 0 || (no_repeat_prompts(s.drop_last()) && (user_text(s.last()) is Some
        ==> last_user_text(s.drop_last()) != user_text(s.last())))
}

/// A transcript with no repeated prompt is left as it is by compaction.
proof fn lemma_compact_clean(s: Seq<BlockView>)
    requires
        no_repeat_prompts(s),
    ensures
        compact_fold(s) == (s, last_user_text(s)),
    decreases s.len(),
{
    if s.len() > 0 {
        let d = s.drop_last();
        lemma_compact_clean(d);
        assert(d.push(s.last()) =~= s);
    }
}

/// Compaction starts afresh after a turn end.
proof fn lemma_compact_concat(a: Seq<BlockView>, b: Seq<BlockView>)
    requires
        a.len() == 0 || a.last() is TurnEnd,
    ensures
        compact_fold(a + b) == (compact_fold(a).0 + compact_fold(b).0, compact_fold(b).1),
    decreases b.len(),
{
    if b.len() == 0 {
        assert(a + b =~= a);
        assert(compact_fold(a).0 + compact_fold(b).0 =~= compact_fold(a).0);
        if a.len() > 0 {
            assert(compact_fold(a).1 is None);
        }
    } else {
        let bd = b.drop_last();
        lemma_compact_concat(a, bd);
        assert((a + b).drop_last() =~= a + bd);
        assert((a + b).last() == b.last());
        let x = b.last();
        let pa = compact_fold(a).0;
        let pb = compact_fold(bd);
        assert((pa + pb.0).push(x) =~= pa + pb.0.push(x));
    }
}

/// Laying live entries over the transcript on disk keeps every finished turn
/// on disk: the result begins with the disk's entries up to and including its
/// last turn end (where they hold no replayed prompt), and, where the live
/// entries hold no replayed prompt either, the live entries follow them, all
/// of them and in order. This holds unless there are no live entries or the
/// disk already ends with the live prompt's turn.
pub proof fn law_merge_keeps_finished_turns(disk: Seq<BlockView>, live: Seq<BlockView>, k: int)
    requires
        live.len() > 0,
        !(disk.len() > 0 && disk.last() is TurnEnd && disk.last().pid().len() > 0 && first_pid(live)
            == Some(disk.last().pid())),
        finished_upto(disk, k),
        no_repeat_prompts(disk.take(k)),
    ensures
        merge_spec(disk, live).len() >= k,
        merge_spec(disk, live).take(k) == disk.take(k),
        no_repeat_prompts(live) ==> merge_spec(disk, live) == disk.take(k) + live,
{
    lemma_turn_start_is_finished(disk, k);
    let a = disk.take(k);
    if k > 0 {
        assert(a.last() == disk[k - 1]);
    }
    lemma_compact_concat(a, live);
    lemma_compact_clean(a);
    let r = merge_spec(disk, live);
    assert(r == a + compact_fold(live).0);
    assert(r.take(k) =~= a);
    if no_repeat_prompts(live) {
        lemma_compact_clean(live);
    }
}

/// Where the disk already ends with the turn end of the live prompt, the
/// transcript on disk is shown as it is.
pub proof fn law_merge_finished_live_turn_keeps_disk(disk: Seq<BlockView>, live: Seq<BlockView>)
    requires
        disk.len() > 0,
        disk.last() is TurnEnd,
        disk.last().pid().len() > 0,
        first_pid(live) == Some(disk.last().pid()),
    ensures
        merge_spec(disk, live) == disk,
{
}

/// The Markdown export grows entry by entry: a user, thought or assistant
/// entry adds its own heading (`## User`, `## Thought`, `## Assistant`), its
/// text and a blank line; a turn end adds a blank line; a tool call adds a
/// list item, under a `## Tools` heading unless the entry before it was a
/// tool call too.
pub proof fn law_markdown_appends_entry(s: Seq<BlockView>, b: BlockView)
    ensures
        b matches BlockView::User { text, .. } ==> markdown_spec(s.push(b)) == markdown_spec(s)
            + "## User\n"@ + text + "\n\n"@,
        b matches BlockView::Thought { text, .. } ==> markdown_spec(s.push(b)) == markdown_spec(s)
            + "## Thought\n"@ + text + "\n\n"@,
        b matches BlockView::Assistant { text, .. } ==> markdown_spec(s.push(b)) == markdown_spec(s)
            + "## Assistant\n"@ + text + "\n\n"@,
        b is TurnEnd ==> markdown_spec(s.push(b)) == markdown_spec(s) + "\n"@,
        b matches BlockView::Tool { title, input_preview, .. } ==> markdown_spec(s.push(b))
            == markdown_spec(s) + (if s.len() > 0 && s.last() is Tool {
            Seq::empty()
        } else {
            "## Tools\n"@
        }) + "- `"@ + title + "`: "@ + input_preview + "\n"@,
{
    assert(s.push(b).drop_last() =~= s);
    lemma_md_flag(s);
}

proof fn lemma_md_flag(s: Seq<BlockView>)
    ensures
        md_fold(s).1 == (s.len() > 0 && s.last() is Tool),
{
}

/// The export of a single text entry is its heading, its text and a blank
/// line; only a user entry is headed `## User`.
pub proof fn law_markdown_single_entry(b: BlockView)
    ensures
        b matches BlockView::User { text, .. } ==> markdown_spec(seq![b]) == "## User\n"@ + text + "\n\n"@,
        b matches BlockView::Assistant { text, .. } ==> markdown_spec(seq![b]) == "## Assistant\n"@ + text
            + "\n\n"@,
        b matches BlockView::Thought { text, .. } ==> markdown_spec(seq![b]) == "## Thought\n"@ + text
            + "\n\n"@,
{
    let e = Seq::<BlockView>::empty();
    assert(e.push(b) =~= seq![b]);
    law_markdown_appends_entry(e, b);
    assert(markdown_spec(e) =~= Seq::<char>::empty());
    assert forall|t: Seq<char>, h: Seq<char>| Seq::<char>::empty() + h + t + "\n\n"@ =~= h + t + "\n\n"@ by {}
}

/// A user chunk that replays a prompt the open turn already holds, arriving
/// while no text is being streamed, adds no entry (session load and MCP
/// re-initialisation replay user chunks).
pub proof fn law_replayed_prompt_adds_no_entry(st: ParserView, u: Update, pid: Seq<char>, ts: Option<u64>, i: int)
    requires
        str_or_empty(u.fields@, "sessionUpdate"@) == "user_message_chunk"@,
        st.buf is None,
        content_text_spec(u.content).len() > 0,
        turn_start_idx(st.blocks) <= i < st.blocks.len(),
        is_user_with(st.blocks[i], content_text_spec(u.content)),
    ensures
        ingest_spec(st, u, pid, ts) is Some,
        ingest_spec(st, u, pid, ts).unwrap().0.blocks.len() == st.blocks.len(),
        ingest_spec(st, u, pid, ts).unwrap().0.buf is None,
{
    let fs = u.fields@;
    let p = if pid.len() == 0 {
        str_or_empty(fs, "prompt_id"@)
    } else {
        pid
    };
    let s0 = if p.len() > 0 {
        ParserView { current: p, ..st }
    } else {
        st
    };
    let s1 = note_time_spec(s0, ts);
    assert(s1.blocks == st.blocks);
    assert(open_turn_has_user_spec(s1, content_text_spec(u.content)));
}

/// A finished turn closes the open turn: it ends with a turn-end entry that
/// lasts at least the reported time, and no turn start remains.
pub proof fn law_turn_end_closes_turn(st: ParserView, u: Update, pid: Seq<char>, ts: Option<u64>)
    requires
        str_or_empty(u.fields@, "sessionUpdate"@) == "turn_completed"@,
        ingest_spec(st, u, pid, ts) is Some,
    ensures
        ({
            let (s2, r) = ingest_spec(st, u, pid, ts).unwrap();
            &&& r == Ingest::TurnEnd
            &&& s2.turn_start is None
            &&& s2.last_ts is None
            &&& s2.buf is None
            &&& s2.blocks.len() > 0
            &&& s2.blocks.last() matches BlockView::TurnEnd { duration_ms, .. }
            &&& (u64_of(u.fields@, seq!["elapsed_ms"@, "elapsedMs"@]) matches Some(e) ==> duration_ms
                >= e)
        }),
{
    reveal_strlit("turn_completed");
    reveal_strlit("user_message_chunk");
    reveal_strlit("agent_thought_chunk");
    reveal_strlit("agent_message_chunk");
    reveal_strlit("tool_call");
    reveal_strlit("tool_call_update");
    let fs = u.fields@;
    let kind = str_or_empty(fs, "sessionUpdate"@);
    assert(kind != "user_message_chunk"@) by {
        assert(kind[0] != "user_message_chunk"@[0]);
    }
    assert(kind != "agent_thought_chunk"@) by {
        assert(kind[0] != "agent_thought_chunk"@[0]);
    }
    assert(kind != "agent_message_chunk"@) by {
        assert(kind[0] != "agent_message_chunk"@[0]);
    }
    assert(kind != "tool_call"@) by {
        assert(kind.len() != "tool_call"@.len());
    }
    assert(kind != "tool_call_update"@) by {
        assert(kind[1] != "tool_call_update"@[1]);
    }
}

/// Taking a usage record never lowers a counter, and marks usage as
/// recorded.
pub proof fn law_usage_never_decreases(st: ParserView, u: UsageInput)
    requires
        add_usage_spec(st, u) is Some,
    ensures
        ({
            let s2 = add_usage_spec(st, u).unwrap();
            &&& s2.recorded
            &&& s2.counters.0 >= st.counters.0
            &&& s2.counters.1 >= st.counters.1
            &&& s2.counters.2 >= st.counters.2
            &&& s2.counters.3 >= st.counters.3
            &&& s2.counters.4 >= st.counters.4
            &&& s2.counters.5 >= st.counters.5
            &&& s2.counters.6 >= st.counters.6
            &&& s2.counters.7 >= st.counters.7
            &&& s2.counters.8 >= st.counters.8
            &&& s2.counters.9 >= st.counters.9
        }),
{
}


pub open spec fn tool_id(b: BlockView) -> Seq<char> {
    match b {
        BlockView::Tool { id, .. } => id,
        _ => Seq::empty(),
    }
}

/// No two tool entries share an id.
pub open spec fn tools_unique(b: Seq<BlockView>) -> bool {
    forall|i: int, j: int|
        0 <= i < j < b.len() && (#[trigger] b[i]) is Tool && (#[trigger] b[j]) is Tool ==> tool_id(b[i])
            != tool_id(b[j])
}

proof fn lemma_push_keeps(b: Seq<BlockView>, x: BlockView)
    requires
        tools_unique(b),
        !(x is Tool) || (forall|i: int| 0 <= i < b.len() ==> !#[trigger] is_tool_with(b[i], tool_id(x))),
    ensures
        tools_unique(b.push(x)),
{
    let c = b.push(x);
    assert forall|i: int, j: int|
        0 <= i < j < c.len() && (#[trigger] c[i]) is Tool && (#[trigger] c[j]) is Tool implies tool_id(c[i])
            != tool_id(c[j]) by {
        if j == b.len() {
            assert(!is_tool_with(b[i], tool_id(x)));
        } else {
            assert(c[i] == b[i] && c[j] == b[j]);
        }
    }
}

proof fn lemma_update_keeps(b: Seq<BlockView>, k: int, x: BlockView)
    requires
        tools_unique(b),
        0 <= k < b.len(),
        (x is Tool) == (b[k] is Tool),
        x is Tool ==> tool_id(x) == tool_id(b[k]),
    ensures
        tools_unique(b.update(k, x)),
{
    let c = b.update(k, x);
    assert forall|i: int, j: int|
        0 <= i < j < c.len() && (#[trigger] c[i]) is Tool && (#[trigger] c[j]) is Tool implies tool_id(c[i])
            != tool_id(c[j]) by {
        assert(b[i] is Tool && b[j] is Tool);
        assert(tool_id(c[i]) == tool_id(b[i]));
        assert(tool_id(c[j]) == tool_id(b[j]));
    }
}

proof fn lemma_flush_keeps(st: ParserView)
    requires
        tools_unique(st.blocks),
    ensures
        tools_unique(flush_spec(st).blocks),
{
    if let Some(b) = st.buf {
        lemma_push_keeps(st.blocks, block_of_buf(b));
    }
}

proof fn lemma_backfill_keeps(st: ParserView, pid: Seq<char>)
    requires
        tools_unique(st.blocks),
    ensures
        tools_unique(backfill_spec(st, pid).blocks),
{
    if pid.len() > 0 && !(st.buf matches Some(b) && b.kind == TextKind::User && b.pid.len() == 0)
        && st.blocks.len() > 0 && user_without_pid(st.blocks.last()) {
        lemma_update_keeps(st.blocks, st.blocks.len() - 1, with_pid(st.blocks.last(), pid));
    }
}

proof fn lemma_push_text_keeps(st: ParserView, kind: TextKind, pid: Seq<char>, text: Seq<char>)
    requires
        tools_unique(st.blocks),
    ensures
        tools_unique(push_text_spec(st, kind, pid, text).blocks),
{
    lemma_backfill_keeps(st, pid);
    lemma_flush_keeps(st);
}

proof fn lemma_tool_idx_none(b: Seq<BlockView>, id: Seq<char>)
    requires
        tool_idx(b, id) is None,
    ensures
        forall|i: int| 0 <= i < b.len() ==> !#[trigger] is_tool_with(b[i], id),
{
    assert forall|i: int| 0 <= i < b.len() implies !#[trigger] is_tool_with(b[i], id) by {
        if is_tool_with(b[i], id) {
            lemma_first_exists(b, id, i);
        }
    }
}

proof fn lemma_first_exists(b: Seq<BlockView>, id: Seq<char>, i: int)
    requires
        0 <= i < b.len(),
        is_tool_with(b[i], id),
    ensures
        exists|k: int| first_tool(b, id, k),
    decreases i,
{
    if forall|j: int| 0 <= j < i ==> !#[trigger] is_tool_with(b[j], id) {
        assert(first_tool(b, id, i));
    } else {
        let j = choose|j: int| 0 <= j < i && #[trigger] is_tool_with(b[j], id);
        lemma_first_exists(b, id, j);
    }
}

proof fn lemma_start_tool_keeps(st: ParserView, id: Seq<char>, title: Seq<char>, preview: Seq<char>)
    requires
        tools_unique(st.blocks),
    ensures
        tools_unique(start_tool_spec(st, id, title, preview).blocks),
{
    lemma_flush_keeps(st);
    let f = flush_spec(st);
    if tool_idx(f.blocks, id) is None {
        lemma_tool_idx_none(f.blocks, id);
        let x = BlockView::Tool {
            id,
            title,
            status: Seq::empty(),
            input_preview: preview,
            prompt_id: f.current,
            result_count: None,
        };
        lemma_push_keeps(f.blocks, x);
    }
}

proof fn lemma_update_found_keeps(
    st: ParserView,
    idx: int,
    title: Option<Seq<char>>,
    status: Option<Seq<char>>,
    raw: Option<RawInput>,
    content: Option<Shape>,
)
    requires
        tools_unique(st.blocks),
        0 <= idx < st.blocks.len(),
    ensures
        tools_unique(update_found_spec(st, idx, title, status, raw, content).blocks),
{
    let r = update_found_spec(st, idx, title, status, raw, content);
    if st.blocks[idx] is Tool {
        lemma_update_keeps(st.blocks, idx, r.blocks[idx]);
        assert(r.blocks =~= st.blocks.update(idx, r.blocks[idx]));
    }
}

proof fn lemma_update_tool_keeps(
    st: ParserView,
    id: Seq<char>,
    title: Option<Seq<char>>,
    status: Option<Seq<char>>,
    raw: Option<RawInput>,
    content: Option<Shape>,
)
    requires
        tools_unique(st.blocks),
    ensures
        tools_unique(update_tool_spec(st, id, title, status, raw, content).blocks),
{
    match tool_idx(st.blocks, id) {
        Some(i) => {
            let k = choose|k: int| first_tool(st.blocks, id, k);
            assert(first_tool(st.blocks, id, k));
            lemma_update_found_keeps(st, i, title, status, raw, content);
        },
        None => {
            let t = match title {
                Some(x) => x,
                None => Seq::empty(),
            };
            lemma_start_tool_keeps(st, id, t, preview_of(raw));
            let s1 = start_tool_spec(st, id, t, preview_of(raw));
            if let Some(i) = tool_idx(s1.blocks, id) {
                let k = choose|k: int| first_tool(s1.blocks, id, k);
                assert(first_tool(s1.blocks, id, k));
                lemma_update_found_keeps(s1, i, None, status, None, content);
            }
        },
    }
}

proof fn lemma_turn_end_keeps(st: ParserView, pid: Seq<char>, cancelled: bool, elapsed: Option<u64>)
    requires
        tools_unique(st.blocks),
    ensures
        tools_unique(turn_end_spec(st, pid, cancelled, elapsed).blocks),
{
    lemma_flush_keeps(st);
    let f = flush_spec(st);
    lemma_backfill_keeps(f, pid);
    let g = if pid.len() > 0 {
        backfill_spec(f, pid)
    } else {
        f
    };
    let r = turn_end_spec(st, pid, cancelled, elapsed);
    lemma_push_keeps(g.blocks, r.blocks.last());
    assert(r.blocks =~= g.blocks.push(r.blocks.last()));
}

/// No update ever gives two tool entries the same id: a tool call whose id
/// is known updates the entry it has.
pub proof fn law_tool_ids_stay_unique(st: ParserView, u: Update, pid: Seq<char>, ts: Option<u64>)
    requires
        tools_unique(st.blocks),
        ingest_spec(st, u, pid, ts) is Some,
    ensures
        tools_unique(ingest_spec(st, u, pid, ts).unwrap().0.blocks),
{
    let fs = u.fields@;
    let p = if pid.len() == 0 {
        str_or_empty(fs, "prompt_id"@)
    } else {
        pid
    };
    let s0 = if p.len() > 0 {
        ParserView { current: p, ..st }
    } else {
        st
    };
    let s1 = note_time_spec(s0, ts);
    assert(s1.blocks == st.blocks);
    lemma_backfill_keeps(s1, p);
    let s2 = backfill_spec(s1, p);
    lemma_push_text_keeps(s1, TextKind::User, p, content_text_spec(u.content));
    lemma_push_text_keeps(s2, TextKind::Thought, p, content_text_spec(u.content));
    lemma_push_text_keeps(s2, TextKind::Assistant, p, content_text_spec(u.content));
    lemma_start_tool_keeps(s2, str_or_empty(fs, "toolCallId"@), str_or_empty(fs, "title"@), preview_of(u.raw_input));
    lemma_update_tool_keeps(
        s1,
        str_or_empty(fs, "toolCallId"@),
        str_field(fs, "title"@),
        str_field(fs, "status"@),
        u.raw_input,
        u.content,
    );
    match u.usage {
        Some(us) => {
            if let Some(s3) = add_usage_spec(s1, us) {
                assert(s3.blocks == s1.blocks);
                lemma_turn_end_keeps(
                    s3,
                    p,
                    is_cancel_reason(stop_reason_spec(fs)),
                    u64_of(fs, seq!["elapsed_ms"@, "elapsedMs"@]),
                );
            }
        },
        None => {
            lemma_turn_end_keeps(
                s1,
                p,
                is_cancel_reason(stop_reason_spec(fs)),
                u64_of(fs, seq!["elapsed_ms"@, "elapsedMs"@]),
            );
        },
    }
}


/// Where `models_cache.json` keeps a model's context window: the JSON
/// pointer `/models/<id>/info/context_window`, the id without `-build`.
pub fn context_pointer(model: &str) -> (r: String)
    ensures
        r@ == "/models/"@ + strip_build(model@) + "/info/context_window"@,
{
    let m = chars_of(model);
    let suf = chars_of("-build");
    let id = if crate::text::ends_with_chars(&m, &suf) {
        slice_of(&m, 0, m.len() - suf.len())
    } else {
        copy_chars(&m)
    };
    proof {
        assert(m@.subrange(0, m@.len() - suf@.len()) =~= m@.take(m@.len() - suf@.len()));
    }
    let mut out = chars_of("/models/");
    extend(&mut out, &id);
    extend_str(&mut out, "/info/context_window");
    string_of(&out)
}

/// A model's context window: the positive number found in the models cache,
/// else the one taken by default.
pub fn context_window(found: Option<u64>, model: &str) -> (r: u64)
    ensures
        r == (match found {
            Some(n) => if n > 0 {
                n
            } else {
                fallback_window_spec(model@)
            },
            None => fallback_window_spec(model@),
        }),
{
    match found {
        Some(n) => if n > 0 {
            n
        } else {
            fallback_window(model)
        },
        None => fallback_window(model),
    }
}

} // verus!
