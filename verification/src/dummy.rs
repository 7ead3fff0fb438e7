//! A scripted model provider for tests: it answers each request with the
//! next of the responses it was given, and keeps the requests it saw.

use vstd::prelude::*;
use crate::agent::StreamEnd;
use crate::provider::{
    Block, BlockKind, BlockView, CompletedLlmResponse, EventView, KindView, LlmError, LlmErrorKind, Message,
    StreamEvent, ToolDefinition, block_v, blocks_v, event_view, events_view, fold_spec, fold_step,
};

verus! {

/// A request to a model: the conversation and the tools it may call.
#[derive(Debug)]
pub struct LlmRequest {
    pub messages: Vec<Message>,
    pub tools: Vec<ToolDefinition>,
}

/// A scripted answer.
#[derive(Debug)]
pub enum DummyResponse {
    /// A whole response.
    Response(CompletedLlmResponse),
    /// A failure.
    Error(LlmError),
    /// Stream events, or a failure where the stream breaks off.
    Stream(Vec<Result<StreamEvent, LlmError>>),
    /// The same, handed out as a stream that is polled.
    PendingStream(Vec<Result<StreamEvent, LlmError>>),
}

/// The stream events that replay a whole response: each non-empty text or
/// reasoning opens a block and carries its text; each tool call opens a
/// block, carries its arguments and closes it. All blocks have index 0.
pub open spec fn replay_events(blocks: Seq<Block>) -> Seq<EventView>
    decreases blocks.len(),
{
    if blocks.len() == 0 {
        seq![]
    } else {
        replay_events(blocks.drop_last()) + match blocks.last() {
            Block::Text(t) => if t@.len() > 0 {
                seq![EventView::Start(0, KindView::Text), EventView::Delta(0, t@)]
            } else {
                seq![]
            },
            Block::Reasoning { text } => if text@.len() > 0 {
                seq![EventView::Start(0, KindView::Reasoning), EventView::Delta(0, text@)]
            } else {
                seq![]
            },
            Block::ToolCall(tc) => seq![
                EventView::Start(0, KindView::ToolCall(tc.id@, tc.name@)),
                EventView::Delta(0, tc.arguments@),
                EventView::End(0),
            ],
        }
    }
}

/// The stream events that replay `response` (see `replay_events`).
pub fn response_to_stream_events(response: &CompletedLlmResponse) -> (r: Vec<StreamEvent>)
    ensures
        events_view(r@) == replay_events(response.response.blocks@),
{
    let blocks = &response.response.blocks;
    let mut events: Vec<StreamEvent> = Vec::new();
    let mut i: usize = 0;
    while i < blocks.len()
        invariant
            i <= blocks.len(),
            events_view(events@) == replay_events(blocks@.take(i as int)),
        decreases blocks.len() - i,
    {
        assert(blocks@.take(i + 1).drop_last() =~= blocks@.take(i as int));
        let ghost before = events@;
        match &blocks[i] {
            Block::Text(text) => {
                if crate::text::chars_of(text.as_str()).len() > 0 {
                    events.push(StreamEvent::BlockStart { index: 0, kind: BlockKind::Text });
                    events.push(StreamEvent::BlockDelta { index: 0, delta: text.clone() });
                }
            },
            Block::Reasoning { text } => {
                if crate::text::chars_of(text.as_str()).len() > 0 {
                    events.push(StreamEvent::BlockStart { index: 0, kind: BlockKind::Reasoning });
                    events.push(StreamEvent::BlockDelta { index: 0, delta: text.clone() });
                }
            },
            Block::ToolCall(tc) => {
                events.push(
                    StreamEvent::BlockStart { index: 0, kind: BlockKind::ToolCall { id: tc.id.clone(), name: tc.name.clone() } },
                );
                events.push(StreamEvent::BlockDelta { index: 0, delta: tc.arguments.clone() });
                events.push(StreamEvent::BlockEnd { index: 0 });
            },
        }
        assert(events_view(events@) =~= events_view(before) + (match blocks@[i as int] {
            Block::Text(t) => if t@.len() > 0 {
                seq![EventView::Start(0, KindView::Text), EventView::Delta(0, t@)]
            } else {
                seq![]
            },
            Block::Reasoning { text } => if text@.len() > 0 {
                seq![EventView::Start(0, KindView::Reasoning), EventView::Delta(0, text@)]
            } else {
                seq![]
            },
            Block::ToolCall(tc) => seq![
                EventView::Start(0, KindView::ToolCall(tc.id@, tc.name@)),
                EventView::Delta(0, tc.arguments@),
                EventView::End(0),
            ],
        }));
        i = i + 1;
    }
    assert(blocks@.take(blocks.len() as int) =~= blocks@);
    events
}

/// The events of a scripted stream up to its first failure.
pub open spec fn stream_prefix(items: Seq<Result<StreamEvent, LlmError>>) -> Seq<EventView>
    decreases items.len(),
{
    if items.len() == 0 {
        seq![]
    } else {
        match items[0] {
            Ok(e) => seq![event_view(e)] + stream_prefix(items.drop_first()),
            Err(_) => seq![],
        }
    }
}

/// The first failure of a scripted stream, if any.
pub open spec fn stream_failure(items: Seq<Result<StreamEvent, LlmError>>) -> Option<LlmError>
    decreases items.len(),
{
    if items.len() == 0 {
        None
    } else {
        match items[0] {
            Ok(_) => stream_failure(items.drop_first()),
            Err(e) => Some(e),
        }
    }
}

/// The failure of a provider with nothing left to answer.
pub open spec fn exhausted(e: LlmError) -> bool {
    e.kind == LlmErrorKind::Fatal && e.message@ == "dummy provider has no queued response"@ && e.status is None
        && e.request_id is None
}

/// A provider that answers from a script.
pub struct DummyProvider {
    requests: Vec<LlmRequest>,
    responses: Vec<DummyResponse>,
}

impl DummyProvider {
    /// The requests seen so far, in order.
    pub closed spec fn requests_spec(&self) -> Seq<LlmRequest> {
        self.requests@
    }

    /// The answers not given yet, in order.
    pub closed spec fn queue(&self) -> Seq<DummyResponse> {
        self.responses@
    }

    /// A provider that gives the responses `responses`, in order.
    pub fn new(responses: Vec<CompletedLlmResponse>) -> (r: DummyProvider)
        ensures
            r.requests_spec().len() == 0,
            r.queue().len() == responses@.len(),
            forall|i: int| 0 <= i < responses@.len() ==> #[trigger] r.queue()[i] == DummyResponse::Response(responses@[i]),
    {
        let ghost all = responses@;
        let mut rest = responses;
        let mut rev: Vec<CompletedLlmResponse> = Vec::new();
        while rest.len() > 0
            invariant
                rev@.len() + rest@.len() == all.len(),
                rest@ == all.take(rest@.len() as int),
                forall|k: int| 0 <= k < rev@.len() ==> #[trigger] rev@[k] == all[all.len() - 1 - k],
            decreases rest.len(),
        {
            let x = rest.pop().unwrap();
            rev.push(x);
            assert(rest@ =~= all.take(rest@.len() as int));
        }
        let mut queue: Vec<DummyResponse> = Vec::new();
        while rev.len() > 0
            invariant
                rev@.len() + queue@.len() == all.len(),
                forall|k: int| 0 <= k < rev@.len() ==> #[trigger] rev@[k] == all[all.len() - 1 - k],
                forall|k: int| 0 <= k < queue@.len() ==> #[trigger] queue@[k] == DummyResponse::Response(all[k]),
            decreases rev.len(),
        {
            let x = rev.pop().unwrap();
            queue.push(DummyResponse::Response(x));
        }
        DummyProvider { requests: Vec::new(), responses: queue }
    }

    /// A provider that gives the answers `responses`, in order.
    pub fn new_responses(responses: Vec<DummyResponse>) -> (r: DummyProvider)
        ensures
            r.requests_spec().len() == 0,
            r.queue() == responses@,
    {
        DummyProvider { requests: Vec::new(), responses }
    }

    /// The requests seen so far, in order.
    pub fn requests(&self) -> (r: &Vec<LlmRequest>)
        ensures
            r@ == self.requests_spec(),
    {
        &self.requests
    }

    /// Keeps `request` and takes the next answer; fails when there is none.
    fn next_response(&mut self, request: LlmRequest) -> (r: Result<DummyResponse, LlmError>)
        ensures
            final(self).requests_spec() == old(self).requests_spec().push(request),
            old(self).queue().len() == 0 ==> final(self).queue().len() == 0 && (r matches Err(e) && exhausted(e)),
            old(self).queue().len() > 0 ==> final(self).queue() == old(self).queue().drop_first() && r == Ok::<
                DummyResponse,
                LlmError,
            >(old(self).queue()[0]),
    {
        self.requests.push(request);
        if self.responses.len() == 0 {
            return Err(LlmError {
                kind: LlmErrorKind::Fatal,
                message: "dummy provider has no queued response".to_owned(),
                status: None,
                request_id: None,
            });
        }
        let next = self.responses.remove(0);
        assert(self.responses@ =~= old(self).queue().drop_first());
        Ok(next)
    }

    /// Answers `request` whole with the next answer: a response is given,
    /// a failure is returned, and a scripted stream is refused.
    pub fn complete(&mut self, request: LlmRequest) -> (r: Result<CompletedLlmResponse, LlmError>)
        ensures
            final(self).requests_spec() == old(self).requests_spec().push(request),
            old(self).queue().len() == 0 ==> final(self).queue().len() == 0 && (r matches Err(e) && exhausted(e)),
            old(self).queue().len() > 0 ==> final(self).queue() == old(self).queue().drop_first() && match old(self).queue()[0] {
                DummyResponse::Response(resp) => r == Ok::<CompletedLlmResponse, LlmError>(resp),
                DummyResponse::Error(e) => r == Err::<CompletedLlmResponse, LlmError>(e),
                _ => r matches Err(e) && e.kind == LlmErrorKind::Fatal
                    && e.message@ == "dummy provider queued a stream response for complete"@ && e.status is None
                    && e.request_id is None,
            },
    {
        match self.next_response(request) {
            Err(e) => Err(e),
            Ok(DummyResponse::Response(resp)) => Ok(resp),
            Ok(DummyResponse::Error(e)) => Err(e),
            Ok(_) => Err(LlmError {
                kind: LlmErrorKind::Fatal,
                message: "dummy provider queued a stream response for complete".to_owned(),
                status: None,
                request_id: None,
            }),
        }
    }

    /// Answers `request` as a stream with the next answer: the events
    /// handed to the sink, and how the stream ended. A response is replayed
    /// (see `replay_events`) and ends with its counts and stop reason; a
    /// scripted stream gives its events up to its first failure, which it
    /// then returns.
    pub fn stream(&mut self, request: LlmRequest) -> (r: (Vec<StreamEvent>, Result<StreamEnd, LlmError>))
        ensures
            final(self).requests_spec() == old(self).requests_spec().push(request),
            old(self).queue().len() == 0 ==> final(self).queue().len() == 0 && r.0@.len() == 0 && (r.1 matches Err(e)
                && exhausted(e)),
            old(self).queue().len() > 0 ==> final(self).queue() == old(self).queue().drop_first() && match old(self).queue()[0] {
                DummyResponse::Response(resp) => events_view(r.0@) == replay_events(resp.response.blocks@) && (r.1 matches Ok(
                    end,
                ) && end.usage == resp.usage && end.stop_reason == resp.stop_reason),
                DummyResponse::Error(e) => r.0@.len() == 0 && r.1 == Err::<StreamEnd, LlmError>(e),
                DummyResponse::Stream(items) => events_view(r.0@) == stream_prefix(items@) && match stream_failure(items@) {
                    Some(e) => r.1 == Err::<StreamEnd, LlmError>(e),
                    None => r.1 matches Ok(end) && end.usage is None && end.stop_reason is None,
                },
                DummyResponse::PendingStream(items) => events_view(r.0@) == stream_prefix(items@) && match stream_failure(
                    items@,
                ) {
                    Some(e) => r.1 == Err::<StreamEnd, LlmError>(e),
                    None => r.1 matches Ok(end) && end.usage is None && end.stop_reason is None,
                },
            },
    {
        match self.next_response(request) {
            Err(e) => (Vec::new(), Err(e)),
            Ok(DummyResponse::Response(resp)) => {
                let events = response_to_stream_events(&resp);
                let CompletedLlmResponse { response: _, usage, stop_reason } = resp;
                (events, Ok(StreamEnd { usage, stop_reason }))
            },
            Ok(DummyResponse::Error(e)) => (Vec::new(), Err(e)),
            Ok(DummyResponse::Stream(items)) => replay_stream(items),
            Ok(DummyResponse::PendingStream(items)) => replay_stream(items),
        }
    }
}

/// The events of a scripted stream up to its first failure, and that
/// failure or a plain end.
fn replay_stream(items: Vec<Result<StreamEvent, LlmError>>) -> (r: (Vec<StreamEvent>, Result<StreamEnd, LlmError>))
    ensures
        events_view(r.0@) == stream_prefix(items@),
        match stream_failure(items@) {
            Some(e) => r.1 == Err::<StreamEnd, LlmError>(e),
            None => r.1 matches Ok(end) && end.usage is None && end.stop_reason is None,
        },
{
    let ghost all = items@;
    let mut rest = items;
    let mut events: Vec<StreamEvent> = Vec::new();
    while rest.len() > 0
        invariant
            all == items@,
            stream_prefix(all) == events_view(events@) + stream_prefix(rest@),
            stream_failure(all) == stream_failure(rest@),
        decreases rest.len(),
    {
        let ghost before = rest@;
        let item = rest.remove(0);
        assert(rest@ =~= before.drop_first());
        match item {
            Ok(e) => {
                let ghost prev = events@;
                events.push(e);
                assert(events_view(events@) =~= events_view(prev) + seq![event_view(e)]);
                assert(events_view(prev) + (seq![event_view(e)] + stream_prefix(rest@)) =~= events_view(events@)
                    + stream_prefix(rest@));
            },
            Err(e) => {
                assert(before[0] == Err::<StreamEvent, LlmError>(e));
                assert(stream_prefix(before) == Seq::<EventView>::empty());
                assert(stream_failure(before) == Some(e));
                assert(events_view(events@) + seq![] =~= events_view(events@));
                return (events, Err(e));
            },
        }
    }
    assert(events_view(events@) + seq![] =~= events_view(events@));
    (events, Ok(StreamEnd { usage: None, stop_reason: None }))
}

/// The blocks that `events` build on top of `acc`.
pub open spec fn fold_from(acc: Seq<BlockView>, events: Seq<EventView>) -> Seq<BlockView>
    decreases events.len(),
{
    if events.len() == 0 {
        acc
    } else {
        fold_step(fold_from(acc, events.drop_last()), events.last())
    }
}

/// Folding two runs of events one after the other.
proof fn lemma_fold_concat(a: Seq<EventView>, b: Seq<EventView>)
    ensures
        fold_spec(a + b) == fold_from(fold_spec(a), b),
    decreases b.len(),
{
    if b.len() == 0 {
        assert(a + b =~= a);
    } else {
        assert((a + b).drop_last() =~= a + b.drop_last());
        assert((a + b).last() == b.last());
        lemma_fold_concat(a, b.drop_last());
    }
}

/// Whether every text and reasoning block has some text: empty ones are not
/// replayed.
pub open spec fn texts_nonempty(blocks: Seq<Block>) -> bool {
    forall|i: int| 0 <= i < blocks.len() ==> match #[trigger] blocks[i] {
        Block::Text(t) => t@.len() > 0,
        Block::Reasoning { text } => text@.len() > 0,
        Block::ToolCall(_) => true,
    }
}

/// Folding the events that replay a response gives back its blocks, when
/// none of its text or reasoning blocks is empty.
pub proof fn law_fold_inverts_replay(blocks: Seq<Block>)
    requires
        texts_nonempty(blocks),
    ensures
        fold_spec(replay_events(blocks)) == blocks_v(blocks),
    decreases blocks.len(),
{
    if blocks.len() == 0 {
        assert(blocks_v(blocks) =~= Seq::<BlockView>::empty());
    } else {
        let init = blocks.drop_last();
        assert(texts_nonempty(init)) by {
            assert forall|i: int| 0 <= i < init.len() implies match #[trigger] init[i] {
                Block::Text(t) => t@.len() > 0,
                Block::Reasoning { text } => text@.len() > 0,
                Block::ToolCall(_) => true,
            } by {
                assert(init[i] == blocks[i]);
            }
        }
        law_fold_inverts_replay(init);
        let last = blocks.last();
        assert(match last {
            Block::Text(t) => t@.len() > 0,
            Block::Reasoning { text } => text@.len() > 0,
            Block::ToolCall(_) => true,
        }) by {
            assert(last == blocks[blocks.len() - 1]);
        }
        let tail = replay_events(blocks) .subrange(replay_events(init).len() as int, replay_events(blocks).len() as int);
        assert(replay_events(blocks) =~= replay_events(init) + tail);
        lemma_fold_concat(replay_events(init), tail);
        let acc = blocks_v(init);
        reveal_with_fuel(fold_from, 4);
        match last {
            Block::Text(t) => {
                assert(seq![] + t@ =~= t@);
            },
            Block::Reasoning { text } => {
                assert(seq![] + text@ =~= text@);
            },
            Block::ToolCall(c) => {
                assert(seq![] + c.arguments@ =~= c.arguments@);
            },
        }
        assert(blocks_v(blocks) =~= acc.push(block_v(last)));
    }
}

} // verus!
