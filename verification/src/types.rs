//! The rows, blocks and counters that the session list, the transcript view
//! and the usage panel are built from.
use vstd::prelude::*;

verus! {

/// A project (working directory) with the number of sessions under it.
#[derive(Debug, Clone)]
pub struct ProjectRow {
    pub cwd: String,
    pub sessions: usize,
    pub updated_at: String,
}

/// One session in the session list.
#[derive(Debug, Clone)]
pub struct SessionRow {
    pub id: String,
    pub cwd: String,
    pub title: String,
    pub created_at: String,
    pub updated_at: String,
    pub model: String,
    pub agent_name: String,
    pub num_messages: u64,
    pub parent_id: Option<String>,
    pub empty: bool,
    pub running: bool,
    pub source: String,
    pub pinned: bool,
}

/// What the scan of a session directory found out about one session.
#[derive(Debug, Clone)]
pub struct SessionMeta {
    pub id: String,
    pub cwd: String,
    pub title: String,
    pub created_at: String,
    pub updated_at: String,
    pub updated_sort: i64,
    pub model: String,
    pub agent_name: String,
    pub num_messages: u64,
    pub parent_id: Option<String>,
    pub empty: bool,
    pub dir: String,
}

pub open spec fn opt_view(o: Option<String>) -> Option<Seq<char>> {
    match o {
        Some(s) => Some(s@),
        None => None,
    }
}

/// An owned copy of an optional string.
pub fn copy_opt(o: &Option<String>) -> (r: Option<String>)
    ensures
        r == *o,
{
    match o {
        Some(s) => Some(s.clone()),
        None => None,
    }
}

impl SessionMeta {
    /// The list row of a session found on disk: not running, not pinned, from
    /// the disk source.
    pub fn to_row(&self) -> (r: SessionRow)
        ensures
            r.id == self.id,
            r.cwd == self.cwd,
            r.title == self.title,
            r.created_at == self.created_at,
            r.updated_at == self.updated_at,
            r.model == self.model,
            r.agent_name == self.agent_name,
            r.num_messages == self.num_messages,
            r.parent_id == self.parent_id,
            r.empty == self.empty,
            !r.running,
            r.source@ == "disk"@,
            !r.pinned,
    {
        SessionRow {
            id: self.id.clone(),
            cwd: self.cwd.clone(),
            title: self.title.clone(),
            created_at: self.created_at.clone(),
            updated_at: self.updated_at.clone(),
            model: self.model.clone(),
            agent_name: self.agent_name.clone(),
            num_messages: self.num_messages,
            parent_id: copy_opt(&self.parent_id),
            empty: self.empty,
            running: false,
            source: "disk".to_string(),
            pinned: false,
        }
    }
}

/// A file attached to a prompt.
#[derive(Debug, Clone)]
pub struct PromptFile {
    pub path: String,
    pub mime: Option<String>,
}

impl View for PromptFile {
    type V = (Seq<char>, Option<Seq<char>>);

    open spec fn view(&self) -> (Seq<char>, Option<Seq<char>>) {
        (self.path@, opt_view(self.mime))
    }
}

pub open spec fn files_view(v: Seq<PromptFile>) -> Seq<(Seq<char>, Option<Seq<char>>)> {
    Seq::new(v.len(), |i: int| v[i]@)
}

/// An owned copy of a list of attached files.
pub fn copy_files(v: &Vec<PromptFile>) -> (r: Vec<PromptFile>)
    ensures
        files_view(r@) == files_view(v@),
{
    let mut out: Vec<PromptFile> = Vec::new();
    let mut i: usize = 0;
    while i < v.len()
        invariant
            i <= v.len(),
            out@.len() == i,
            forall|k: int| 0 <= k < i ==> out@[k]@ == v@[k]@,
        decreases v.len() - i,
    {
        let f = PromptFile { path: v[i].path.clone(), mime: copy_opt(&v[i].mime) };
        out.push(f);
        i += 1;
    }
    proof {
        assert(files_view(out@) =~= files_view(v@));
    }
    out
}

/// One entry of a session transcript.
#[derive(Debug, Clone)]
pub enum Block {
    User { prompt_id: String, text: String, files: Vec<PromptFile> },
    Thought { prompt_id: String, text: String },
    Assistant { prompt_id: String, text: String },
    Tool {
        id: String,
        title: String,
        status: String,
        input_preview: String,
        prompt_id: String,
        result_count: Option<u64>,
    },
    TurnEnd { prompt_id: String, duration_ms: u64, cancelled: bool },
}

/// A transcript entry as plain values.
pub enum BlockView {
    User { prompt_id: Seq<char>, text: Seq<char>, files: Seq<(Seq<char>, Option<Seq<char>>)> },
    Thought { prompt_id: Seq<char>, text: Seq<char> },
    Assistant { prompt_id: Seq<char>, text: Seq<char> },
    Tool {
        id: Seq<char>,
        title: Seq<char>,
        status: Seq<char>,
        input_preview: Seq<char>,
        prompt_id: Seq<char>,
        result_count: Option<u64>,
    },
    TurnEnd { prompt_id: Seq<char>, duration_ms: u64, cancelled: bool },
}

impl BlockView {
    pub open spec fn pid(self) -> Seq<char> {
        match self {
            BlockView::User { prompt_id, .. } => prompt_id,
            BlockView::Thought { prompt_id, .. } => prompt_id,
            BlockView::Assistant { prompt_id, .. } => prompt_id,
            BlockView::Tool { prompt_id, .. } => prompt_id,
            BlockView::TurnEnd { prompt_id, .. } => prompt_id,
        }
    }
}

impl View for Block {
    type V = BlockView;

    open spec fn view(&self) -> BlockView {
        match self {
            Block::User { prompt_id, text, files } => BlockView::User {
                prompt_id: prompt_id@,
                text: text@,
                files: files_view(files@),
            },
            Block::Thought { prompt_id, text } => BlockView::Thought {
                prompt_id: prompt_id@,
                text: text@,
            },
            Block::Assistant { prompt_id, text } => BlockView::Assistant {
                prompt_id: prompt_id@,
                text: text@,
            },
            Block::Tool { id, title, status, input_preview, prompt_id, result_count } =>
                BlockView::Tool {
                id: id@,
                title: title@,
                status: status@,
                input_preview: input_preview@,
                prompt_id: prompt_id@,
                result_count: *result_count,
            },
            Block::TurnEnd { prompt_id, duration_ms, cancelled } => BlockView::TurnEnd {
                prompt_id: prompt_id@,
                duration_ms: *duration_ms,
                cancelled: *cancelled,
            },
        }
    }
}

pub open spec fn blocks_view(v: Seq<Block>) -> Seq<BlockView> {
    Seq::new(v.len(), |i: int| v[i]@)
}

impl Block {
    /// The prompt the entry belongs to (empty where none is known).
    pub fn prompt_id(&self) -> (r: &str)
        ensures
            r@ == self@.pid(),
    {
        match self {
            Block::User { prompt_id, .. } => prompt_id.as_str(),
            Block::Thought { prompt_id, .. } => prompt_id.as_str(),
            Block::Assistant { prompt_id, .. } => prompt_id.as_str(),
            Block::Tool { prompt_id, .. } => prompt_id.as_str(),
            Block::TurnEnd { prompt_id, .. } => prompt_id.as_str(),
        }
    }
}

/// An owned copy of a transcript entry.
pub fn copy_block(b: &Block) -> (r: Block)
    ensures
        r@ == b@,
{
    match b {
        Block::User { prompt_id, text, files } => Block::User {
            prompt_id: prompt_id.clone(),
            text: text.clone(),
            files: copy_files(files),
        },
        Block::Thought { prompt_id, text } => Block::Thought {
            prompt_id: prompt_id.clone(),
            text: text.clone(),
        },
        Block::Assistant { prompt_id, text } => Block::Assistant {
            prompt_id: prompt_id.clone(),
            text: text.clone(),
        },
        Block::Tool { id, title, status, input_preview, prompt_id, result_count } => Block::Tool {
            id: id.clone(),
            title: title.clone(),
            status: status.clone(),
            input_preview: input_preview.clone(),
            prompt_id: prompt_id.clone(),
            result_count: *result_count,
        },
        Block::TurnEnd { prompt_id, duration_ms, cancelled } => Block::TurnEnd {
            prompt_id: prompt_id.clone(),
            duration_ms: *duration_ms,
            cancelled: *cancelled,
        },
    }
}

/// An owned copy of the entries `from..to` of a transcript.
pub fn copy_blocks(v: &[Block], from: usize, to: usize) -> (r: Vec<Block>)
    requires
        from <= to <= v@.len(),
    ensures
        blocks_view(r@) == blocks_view(v@).subrange(from as int, to as int),
{
    let mut out: Vec<Block> = Vec::new();
    let mut i: usize = from;
    while i < to
        invariant
            from <= i <= to <= v@.len(),
            out@.len() == i - from,
            forall|k: int| 0 <= k < i - from ==> out@[k]@ == v@[from + k]@,
        decreases to - i,
    {
        out.push(copy_block(&v[i]));
        i += 1;
    }
    proof {
        assert(blocks_view(out@) =~= blocks_view(v@).subrange(from as int, to as int));
    }
    out
}

/// A session as the transcript page shows it.
#[derive(Debug, Clone)]
pub struct SessionDetail {
    pub id: String,
    pub cwd: String,
    pub title: String,
    pub model: String,
    pub effort: Option<String>,
    pub source: String,
    pub writable: bool,
    pub running: bool,
    pub blocks: Vec<Block>,
    pub usage: TokenUsage,
    pub context: ContextUse,
    pub work_started_ms: Option<u64>,
}

/// A slash command offered in the prompt box.
#[derive(Debug, Clone)]
pub struct SlashCommand {
    pub name: String,
    pub description: String,
    pub hint: Option<String>,
    pub aliases: Vec<String>,
}

/// A model offered in the model picker.
#[derive(Debug, Clone)]
pub struct ModelInfo {
    pub id: String,
    pub name: String,
    pub description: String,
    pub effort: Option<String>,
    pub efforts: Vec<EffortInfo>,
    pub context_window: Option<u64>,
}

/// A reasoning effort a model accepts.
#[derive(Debug, Clone)]
pub struct EffortInfo {
    pub id: String,
    pub label: String,
    pub description: String,
}

/// A prompt waiting in the send queue.
#[derive(Debug, Clone)]
pub struct QueueItem {
    pub id: String,
    pub text: String,
    pub files: Vec<PromptFile>,
}

/// How much of the context window is in use.
#[derive(Debug, Clone, Copy, Default, PartialEq, Eq, Structural)]
pub struct ContextUse {
    pub used: u64,
    pub window: u64,
}

/// Token and cost counters of one model.
#[derive(Debug, Clone, Default)]
pub struct ModelUsageRow {
    pub model: String,
    pub input_tokens: u64,
    pub cached_tokens: u64,
    pub cache_creation_tokens: u64,
    pub output_tokens: u64,
    pub reasoning_tokens: u64,
    pub total_tokens: u64,
    pub model_calls: u64,
    pub api_duration_ms: u64,
    pub cost_usd_ticks: u64,
}

/// The counters of a usage record, by position: input, cached, cache creation,
/// output, reasoning, total, model calls, API time, cost, turns.
pub type Counters = (u64, u64, u64, u64, u64, u64, u64, u64, u64, u64);

/// The counters of one model's row: those of `Counters` without the turns.
pub type RowCounters = (u64, u64, u64, u64, u64, u64, u64, u64, u64);

impl View for ModelUsageRow {
    type V = (Seq<char>, RowCounters);

    open spec fn view(&self) -> (Seq<char>, RowCounters) {
        (
            self.model@,
            (
                self.input_tokens,
                self.cached_tokens,
                self.cache_creation_tokens,
                self.output_tokens,
                self.reasoning_tokens,
                self.total_tokens,
                self.model_calls,
                self.api_duration_ms,
                self.cost_usd_ticks,
            ),
        )
    }
}

pub open spec fn rows_view(v: Seq<ModelUsageRow>) -> Seq<(Seq<char>, RowCounters)> {
    Seq::new(v.len(), |i: int| v[i]@)
}

/// An owned copy of a model's counters.
pub fn copy_row(r0: &ModelUsageRow) -> (r: ModelUsageRow)
    ensures
        r@ == r0@,
{
    ModelUsageRow {
        model: r0.model.clone(),
        input_tokens: r0.input_tokens,
        cached_tokens: r0.cached_tokens,
        cache_creation_tokens: r0.cache_creation_tokens,
        output_tokens: r0.output_tokens,
        reasoning_tokens: r0.reasoning_tokens,
        total_tokens: r0.total_tokens,
        model_calls: r0.model_calls,
        api_duration_ms: r0.api_duration_ms,
        cost_usd_ticks: r0.cost_usd_ticks,
    }
}

/// An owned copy of a list of per-model counters.
pub fn copy_rows(v: &Vec<ModelUsageRow>) -> (r: Vec<ModelUsageRow>)
    ensures
        rows_view(r@) == rows_view(v@),
{
    let mut out: Vec<ModelUsageRow> = Vec::new();
    let mut i: usize = 0;
    while i < v.len()
        invariant
            i <= v.len(),
            out@.len() == i,
            forall|k: int| 0 <= k < i ==> out@[k]@ == v@[k]@,
        decreases v.len() - i,
    {
        out.push(copy_row(&v[i]));
        i += 1;
    }
    proof {
        assert(rows_view(out@) =~= rows_view(v@));
    }
    out
}

/// Token and cost counters of a session, with a row per model.
#[derive(Debug, Clone, Default)]
pub struct TokenUsage {
    pub recorded: bool,
    pub input_tokens: u64,
    pub cached_tokens: u64,
    pub cache_creation_tokens: u64,
    pub output_tokens: u64,
    pub reasoning_tokens: u64,
    pub total_tokens: u64,
    pub model_calls: u64,
    pub api_duration_ms: u64,
    pub cost_usd_ticks: u64,
    pub num_turns: u64,
    pub models: Vec<ModelUsageRow>,
}

impl TokenUsage {
    pub open spec fn counters(self) -> Counters {
        (
            self.input_tokens,
            self.cached_tokens,
            self.cache_creation_tokens,
            self.output_tokens,
            self.reasoning_tokens,
            self.total_tokens,
            self.model_calls,
            self.api_duration_ms,
            self.cost_usd_ticks,
            self.num_turns,
        )
    }

    /// Usage with nothing recorded and no model rows.
    /// An owned copy.
    pub fn copy(&self) -> (r: TokenUsage)
        ensures
            r.recorded == self.recorded,
            r.counters() == self.counters(),
            rows_view(r.models@) == rows_view(self.models@),
    {
        TokenUsage {
            recorded: self.recorded,
            input_tokens: self.input_tokens,
            cached_tokens: self.cached_tokens,
            cache_creation_tokens: self.cache_creation_tokens,
            output_tokens: self.output_tokens,
            reasoning_tokens: self.reasoning_tokens,
            total_tokens: self.total_tokens,
            model_calls: self.model_calls,
            api_duration_ms: self.api_duration_ms,
            cost_usd_ticks: self.cost_usd_ticks,
            num_turns: self.num_turns,
            models: copy_rows(&self.models),
        }
    }

    pub fn empty() -> (r: TokenUsage)
        ensures
            !r.recorded,
            r.counters() == (0u64, 0u64, 0u64, 0u64, 0u64, 0u64, 0u64, 0u64, 0u64, 0u64),
            r.models@.len() == 0,
    {
        TokenUsage {
            recorded: false,
            input_tokens: 0,
            cached_tokens: 0,
            cache_creation_tokens: 0,
            output_tokens: 0,
            reasoning_tokens: 0,
            total_tokens: 0,
            model_calls: 0,
            api_duration_ms: 0,
            cost_usd_ticks: 0,
            num_turns: 0,
            models: Vec::new(),
        }
    }
}

/// The `summary.json` that grok keeps in each session directory.
#[derive(Debug)]
pub struct SummaryFile {
    pub info: SummaryInfo,
    pub generated_title: Option<String>,
    pub session_summary: Option<String>,
    pub created_at: Option<String>,
    pub updated_at: Option<String>,
    pub current_model_id: Option<String>,
    pub agent_name: Option<String>,
    pub num_messages: u64,
    pub parent_session_id: Option<String>,
}

/// The `info` part of a session summary.
#[derive(Debug)]
pub struct SummaryInfo {
    pub id: String,
    pub cwd: Option<String>,
}

/// The parent/child link of a subagent session.
#[derive(Debug)]
pub struct SubagentMeta {
    pub parent_session_id: Option<String>,
    pub child_session_id: Option<String>,
}

} // verus!
