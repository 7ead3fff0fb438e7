//! The conversation vocabulary shared with model providers: prompts, tool
//! calls and their results, assistant responses and stream events.

use vstd::prelude::*;
use crate::json::JsonValue;

verus! {

/// A prompt written by the user.
#[derive(Debug)]
pub struct UserPrompt {
    pub message: String,
}

impl UserPrompt {
    pub fn new(message: String) -> (r: UserPrompt)
        ensures
            r.message == message,
    {
        UserPrompt { message }
    }
}

/// A tool call requested by the model.
#[derive(Debug)]
pub struct ToolCallRequest {
    pub id: String,
    pub name: String,
    /// The arguments, as JSON text.
    pub arguments: String,
}

/// The result of a tool call, as handed back to the model.
#[derive(Debug)]
pub struct ToolResult {
    pub tool_call_id: String,
    pub content: String,
}

/// One block of an assistant response.
#[derive(Debug)]
pub enum Block {
    Text(String),
    Reasoning { text: String },
    ToolCall(ToolCallRequest),
}

/// A response of the model: its blocks, in order.
#[derive(Debug)]
pub struct AssistantResponse {
    pub blocks: Vec<Block>,
}

/// The tool calls among `blocks`, in order.
pub open spec fn tool_calls_of(blocks: Seq<Block>) -> Seq<ToolCallRequest>
    decreases blocks.len(),
{
    if blocks.len() == 0 {
        seq![]
    } else {
        let rest = tool_calls_of(blocks.drop_last());
        match blocks.last() {
            Block::ToolCall(call) => rest.push(call),
            _ => rest,
        }
    }
}

impl AssistantResponse {
    pub open spec fn spec_tool_calls(&self) -> Seq<ToolCallRequest> {
        tool_calls_of(self.blocks@)
    }

    /// The tool calls the model requested in this response, in order.
    pub fn tool_calls(&self) -> (r: Vec<ToolCallRequest>)
        ensures
            r@ == self.spec_tool_calls(),
    {
        let mut out: Vec<ToolCallRequest> = Vec::new();
        let mut i: usize = 0;
        while i < self.blocks.len()
            invariant
                i <= self.blocks.len(),
                out@ == tool_calls_of(self.blocks@.take(i as int)),
            decreases self.blocks.len() - i,
        {
            assert(self.blocks@.take(i + 1).drop_last() =~= self.blocks@.take(i as int));
            match &self.blocks[i] {
                Block::ToolCall(call) => out.push(call.clone()),
                _ => {},
            }
            i = i + 1;
        }
        assert(self.blocks@.take(self.blocks.len() as int) =~= self.blocks@);
        out
    }
}

/// A message of the conversation as sent to the model.
#[derive(Debug, Clone)]
pub enum Message {
    System(String),
    User { message: UserPrompt, tool_call_results: Vec<ToolResult> },
    Assistant { response: AssistantResponse },
}

/// Token counts reported for a model turn.
#[derive(Debug, Clone, Copy)]
pub struct TokenUsage {
    pub prompt_tokens: Option<i32>,
    pub completion_tokens: Option<i32>,
    pub total_tokens: Option<i32>,
    pub cached_tokens: Option<i32>,
    pub cache_creation_tokens: Option<i32>,
}

/// The kind of block a stream is opening.
#[derive(Debug, Clone)]
pub enum BlockKind {
    Text,
    Reasoning,
    ToolCall { id: String, name: String },
}

/// An event of a streamed model response.
#[derive(Debug, Clone)]
pub enum StreamEvent {
    BlockStart { index: usize, kind: BlockKind },
    BlockDelta { index: usize, delta: String },
    BlockEnd { index: usize },
    Done { usage: Option<TokenUsage>, stop_reason: Option<String> },
}

/// Whether a failed request may succeed when retried.
#[derive(Debug, Clone, Copy, PartialEq, Eq)]
pub enum LlmErrorKind {
    /// Retrying may help, after `retry_after` seconds when the server said so.
    Transient { retry_after: Option<u64> },
    /// Retrying will not help.
    Fatal,
}

/// A failed model request.
#[derive(Debug)]
pub struct LlmError {
    pub kind: LlmErrorKind,
    pub message: String,
    pub status: Option<u16>,
    pub request_id: Option<String>,
}

impl Clone for LlmError {
    fn clone(&self) -> (r: Self)
        ensures
            r == *self,
    {
        LlmError {
            kind: self.kind,
            message: self.message.clone(),
            status: self.status,
            request_id: match &self.request_id {
                Some(id) => Some(id.clone()),
                None => None,
            },
        }
    }
}

impl Clone for UserPrompt {
    fn clone(&self) -> (r: Self)
        ensures
            r == *self,
    {
        UserPrompt { message: self.message.clone() }
    }
}

impl Clone for ToolCallRequest {
    fn clone(&self) -> (r: Self)
        ensures
            r == *self,
    {
        ToolCallRequest {
            id: self.id.clone(),
            name: self.name.clone(),
            arguments: self.arguments.clone(),
        }
    }
}

impl Clone for ToolResult {
    fn clone(&self) -> (r: Self)
        ensures
            r == *self,
    {
        ToolResult { tool_call_id: self.tool_call_id.clone(), content: self.content.clone() }
    }
}

impl Clone for Block {
    fn clone(&self) -> (r: Self)
        ensures
            r == *self,
    {
        match self {
            Block::Text(t) => Block::Text(t.clone()),
            Block::Reasoning { text } => Block::Reasoning { text: text.clone() },
            Block::ToolCall(call) => Block::ToolCall(call.clone()),
        }
    }
}

impl Clone for AssistantResponse {
    fn clone(&self) -> (r: Self)
        ensures
            r.blocks@ == self.blocks@,
    {
        let mut blocks: Vec<Block> = Vec::new();
        let mut i: usize = 0;
        while i < self.blocks.len()
            invariant
                i <= self.blocks.len(),
                blocks@ == self.blocks@.take(i as int),
            decreases self.blocks.len() - i,
        {
            blocks.push(self.blocks[i].clone());
            assert(self.blocks@.take(i + 1) =~= self.blocks@.take(i as int).push(self.blocks@[i as int]));
            i = i + 1;
        }
        assert(self.blocks@.take(self.blocks.len() as int) =~= self.blocks@);
        AssistantResponse { blocks }
    }
}

/// A model the agent talks to.
#[derive(Debug)]
pub struct LlmModel {
    pub provider: String,
    pub name: String,
}

impl Clone for LlmModel {
    fn clone(&self) -> (r: Self)
        ensures
            r == *self,
    {
        LlmModel { provider: self.provider.clone(), name: self.name.clone() }
    }
}

/// A tool the model may call.
#[derive(Debug)]
pub struct ToolDefinition {
    pub name: String,
    pub description: Option<String>,
    /// JSON schema of the parameters.
    pub parameters: JsonValue,
}

impl AssistantResponse {
    /// A response with these blocks; `None` when there are none.
    pub fn new(blocks: Vec<Block>) -> (r: Option<AssistantResponse>)
        ensures
            match r {
                Some(resp) => blocks@.len() > 0 && resp.blocks@ == blocks@,
                None => blocks@.len() == 0,
            },
    {
        if blocks.len() == 0 {
            None
        } else {
            Some(AssistantResponse { blocks })
        }
    }
}

/// A whole response of the model with its token counts and the reason it
/// stopped.
#[derive(Debug)]
pub struct CompletedLlmResponse {
    pub response: AssistantResponse,
    pub usage: Option<TokenUsage>,
    pub stop_reason: Option<String>,
}

/// The kind of a block a stream opens, as values.
pub enum KindView {
    Text,
    Reasoning,
    ToolCall(Seq<char>, Seq<char>),
}

/// A stream event, as values.
pub enum EventView {
    Start(usize, KindView),
    Delta(usize, Seq<char>),
    End(usize),
    Done,
}

/// A stream event as values.
pub open spec fn event_view(e: StreamEvent) -> EventView {
    match e {
        StreamEvent::BlockStart { index, kind } => EventView::Start(
            index,
            match kind {
                BlockKind::Text => KindView::Text,
                BlockKind::Reasoning => KindView::Reasoning,
                BlockKind::ToolCall { id, name } => KindView::ToolCall(id@, name@),
            },
        ),
        StreamEvent::BlockDelta { index, delta } => EventView::Delta(index, delta@),
        StreamEvent::BlockEnd { index } => EventView::End(index),
        StreamEvent::Done { .. } => EventView::Done,
    }
}

/// Stream events as values.
pub open spec fn events_view(es: Seq<StreamEvent>) -> Seq<EventView> {
    es.map_values(|e: StreamEvent| event_view(e))
}

/// A block of a response, as values.
pub enum BlockView {
    Text(Seq<char>),
    Reasoning(Seq<char>),
    Call(Seq<char>, Seq<char>, Seq<char>),
}

/// A block as values.
pub open spec fn block_v(b: Block) -> BlockView {
    match b {
        Block::Text(t) => BlockView::Text(t@),
        Block::Reasoning { text } => BlockView::Reasoning(text@),
        Block::ToolCall(c) => BlockView::Call(c.id@, c.name@, c.arguments@),
    }
}

/// Blocks as values.
pub open spec fn blocks_v(bs: Seq<Block>) -> Seq<BlockView> {
    bs.map_values(|b: Block| block_v(b))
}

/// `b` with `d` added to its text, or to its arguments for a tool call.
pub open spec fn extended(b: BlockView, d: Seq<char>) -> BlockView {
    match b {
        BlockView::Text(t) => BlockView::Text(t + d),
        BlockView::Reasoning(t) => BlockView::Reasoning(t + d),
        BlockView::Call(id, name, args) => BlockView::Call(id, name, args + d),
    }
}

/// What one event does to the blocks so far: a start opens a block, a delta
/// extends the block opened last; ends and the final event change nothing.
pub open spec fn fold_step(blocks: Seq<BlockView>, e: EventView) -> Seq<BlockView> {
    match e {
        EventView::Start(_, KindView::Text) => blocks.push(BlockView::Text(seq![])),
        EventView::Start(_, KindView::Reasoning) => blocks.push(BlockView::Reasoning(seq![])),
        EventView::Start(_, KindView::ToolCall(id, name)) => blocks.push(BlockView::Call(id, name, seq![])),
        EventView::Delta(_, d) => if blocks.len() == 0 {
            blocks
        } else {
            blocks.update(blocks.len() - 1, extended(blocks.last(), d))
        },
        _ => blocks,
    }
}

/// The blocks a stream's events build, in the order they were opened.
pub open spec fn fold_spec(events: Seq<EventView>) -> Seq<BlockView>
    decreases events.len(),
{
    if events.len() == 0 {
        seq![]
    } else {
        fold_step(fold_spec(events.drop_last()), events.last())
    }
}

/// The blocks of a streamed response, from its events (see `fold_spec`).
pub fn fold_events(events: &Vec<StreamEvent>) -> (r: Vec<Block>)
    ensures
        blocks_v(r@) == fold_spec(events_view(events@)),
{
    let mut out: Vec<Block> = Vec::new();
    let mut i: usize = 0;
    while i < events.len()
        invariant
            i <= events.len(),
            blocks_v(out@) == fold_spec(events_view(events@).take(i as int)),
        decreases events.len() - i,
    {
        let ghost before = blocks_v(out@);
        assert(events_view(events@).take(i + 1).drop_last() =~= events_view(events@).take(i as int));
        match &events[i] {
            StreamEvent::BlockStart { index: _, kind } => {
                let b = match kind {
                    BlockKind::Text => Block::Text(String::new()),
                    BlockKind::Reasoning => Block::Reasoning { text: String::new() },
                    BlockKind::ToolCall { id, name } => Block::ToolCall(
                        ToolCallRequest { id: id.clone(), name: name.clone(), arguments: String::new() },
                    ),
                };
                let ghost o = out@;
                out.push(b);
                assert(out@ =~= o.push(b));
                assert(blocks_v(out@) =~= before.push(block_v(b)));
            },
            StreamEvent::BlockDelta { index: _, delta } => {
                if out.len() > 0 {
                    let ghost o = out@;
                    let last = out.pop().unwrap();
                    let ghost lv = block_v(last);
                    let b = match last {
                        Block::Text(mut t) => {
                            crate::text::append_str(&mut t, delta.as_str());
                            Block::Text(t)
                        },
                        Block::Reasoning { mut text } => {
                            crate::text::append_str(&mut text, delta.as_str());
                            Block::Reasoning { text }
                        },
                        Block::ToolCall(mut c) => {
                            crate::text::append_str(&mut c.arguments, delta.as_str());
                            Block::ToolCall(c)
                        },
                    };
                    assert(block_v(b) == extended(lv, delta@));
                    out.push(b);
                    assert(out@ =~= o.drop_last().push(b));
                    assert(blocks_v(out@) =~= before.update(before.len() - 1, extended(before.last(), delta@)));
                }
            },
            _ => {},
        }
        i = i + 1;
    }
    assert(events_view(events@).take(events.len() as int) =~= events_view(events@));
    out
}

} // verus!
