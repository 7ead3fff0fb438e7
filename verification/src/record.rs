//! The session record: every turn of a session as it happened, with the
//! events of each turn, and the fold of the record back into the driver's
//! conversation.

use vstd::prelude::*;
use crate::agent::{
    HarnessEntry, InputEntry, Prompt, RestoreState, Tail, Turn, TurnView, turns_view,
};
use crate::provider::{AssistantResponse, LlmError, ToolResult, UserPrompt};
use crate::text::{append_str, push_char};
use crate::tool_batch::ToolCallId;

verus! {

/// A fresh random identifier (a version 4 uuid, as an integer).
#[verifier::external_body]
fn random_id() -> (r: u128) {
    uuid::Uuid::new_v4().as_u128()
}

/// A fresh identifier ordered by the time it was made (a version 7 uuid, as
/// an integer).
#[verifier::external_body]
pub(crate) fn time_ordered_id() -> (r: u128) {
    uuid::Uuid::now_v7().as_u128()
}

/// The current time, in microseconds since the Unix epoch.
#[verifier::external_body]
pub(crate) fn now_micros() -> (r: i64) {
    chrono::Utc::now().timestamp_micros()
}

/// The id of a session.
#[derive(Debug, Clone, Copy, PartialEq, Eq, Structural)]
pub struct SessionId(pub u128);

impl SessionId {
    /// A fresh random session id.
    pub fn new() -> (r: SessionId) {
        SessionId(random_id())
    }

    /// The id as a uuid's integer value.
    pub fn as_uuid(self) -> (r: u128)
        ensures
            r == self.0,
    {
        self.0
    }
}

/// The id of a turn; ids made later sort later.
#[derive(Debug, Clone, Copy, PartialEq, Eq, Structural)]
pub struct TurnId(pub u128);

/// The id of an event; ids made later sort later.
#[derive(Debug, Clone, Copy, PartialEq, Eq, Structural)]
pub struct EventId(pub u128);

/// Data produced by a tool.
#[derive(Debug, Clone)]
pub enum ToolData {
    Text { text: String },
}

/// How a tool call ended.
#[derive(Debug, Clone)]
pub enum ToolOutcome {
    Success { content: Vec<ToolData> },
    Error { error: Vec<ToolData> },
    Denied { reason: Option<String> },
    Interrupted,
}

/// The result of one tool call, as the harness records it.
#[derive(Debug, Clone)]
pub struct ToolCallResult {
    pub tool_call_id: ToolCallId,
    pub outcome: ToolOutcome,
}

/// The texts of `data` joined with single spaces.
pub open spec fn joined_text(data: Seq<ToolData>) -> Seq<char>
    decreases data.len(),
{
    if data.len() == 0 {
        seq![]
    } else if data.len() == 1 {
        match data[0] {
            ToolData::Text { text } => text@,
        }
    } else {
        joined_text(data.drop_last()) + seq![' '] + match data.last() {
            ToolData::Text { text } => text@,
        }
    }
}

/// What the model is told of an outcome.
pub open spec fn outcome_text(outcome: ToolOutcome) -> Seq<char> {
    match outcome {
        ToolOutcome::Success { content } => joined_text(content@),
        ToolOutcome::Error { error } => joined_text(error@),
        ToolOutcome::Denied { reason } => match reason {
            Some(r) => "Tool call was denied: "@ + r@,
            None => "Tool call was denied. Do not attempt to make the same tool call."@,
        },
        ToolOutcome::Interrupted => "Tool call was interrupted. Do not attempt to make the same tool call."@,
    }
}

/// The texts of `data` joined with single spaces.
fn join_texts(data: &Vec<ToolData>) -> (r: String)
    ensures
        r@ == joined_text(data@),
{
    let mut out = String::new();
    let mut i: usize = 0;
    while i < data.len()
        invariant
            i <= data.len(),
            out@ == joined_text(data@.take(i as int)),
        decreases data.len() - i,
    {
        assert(data@.take(i + 1).drop_last() =~= data@.take(i as int));
        if i > 0 {
            push_char(&mut out, ' ');
        }
        match &data[i] {
            ToolData::Text { text } => append_str(&mut out, text.as_str()),
        }
        i = i + 1;
    }
    assert(data@.take(data.len() as int) =~= data@);
    out
}

impl ToolCallResult {
    /// The result of a call that ran: its output when it succeeded, its
    /// error otherwise, each as one text.
    pub fn of_run(tool_call_id: ToolCallId, run: Result<String, String>) -> (r: ToolCallResult)
        ensures
            r.tool_call_id == tool_call_id,
            match run {
                Ok(out) => {
                    &&& r.outcome matches ToolOutcome::Success { content }
                    &&& content@.len() == 1
                    &&& content@[0] matches ToolData::Text { text }
                    &&& text == out
                },
                Err(e) => {
                    &&& r.outcome matches ToolOutcome::Error { error }
                    &&& error@.len() == 1
                    &&& error@[0] matches ToolData::Text { text }
                    &&& text == e
                },
            },
    {
        let outcome = match run {
            Ok(text) => {
                let mut content: Vec<ToolData> = Vec::new();
                content.push(ToolData::Text { text });
                ToolOutcome::Success { content }
            },
            Err(text) => {
                let mut error: Vec<ToolData> = Vec::new();
                error.push(ToolData::Text { text });
                ToolOutcome::Error { error }
            },
        };
        ToolCallResult { tool_call_id, outcome }
    }

    /// The id of the call this result answers.
    pub fn tool_call_id(&self) -> (r: ToolCallId)
        ensures
            r@ == self.tool_call_id@,
    {
        self.tool_call_id.clone()
    }

    /// The result as the model gets it: the outcome's text under the call's
    /// id.
    pub fn to_tool_result(&self) -> (r: ToolResult)
        ensures
            r.tool_call_id@ == self.tool_call_id@,
            r.content@ == outcome_text(self.outcome),
    {
        let content = match &self.outcome {
            ToolOutcome::Success { content } => join_texts(content),
            ToolOutcome::Error { error } => join_texts(error),
            ToolOutcome::Denied { reason } => match reason {
                Some(r) => {
                    let mut s = String::new();
                    append_str(&mut s, "Tool call was denied: ");
                    append_str(&mut s, r.as_str());
                    s
                },
                None => {
                    let mut s = String::new();
                    append_str(&mut s, "Tool call was denied. Do not attempt to make the same tool call.");
                    s
                },
            },
            ToolOutcome::Interrupted => {
                let mut s = String::new();
                append_str(&mut s, "Tool call was interrupted. Do not attempt to make the same tool call.");
                s
            },
        };
        ToolResult { tool_call_id: self.tool_call_id.0.clone(), content }
    }
}

/// Whether a tool call was allowed to run.
#[derive(Debug, Clone, Copy, PartialEq, Eq, Structural)]
pub enum ToolDecision {
    Approved,
    Denied,
}

/// The decision an approval gives.
pub open spec fn decision_of(approved: bool) -> ToolDecision {
    if approved {
        ToolDecision::Approved
    } else {
        ToolDecision::Denied
    }
}

/// Who decided whether a tool call could run.
#[derive(Debug, Clone, Copy, PartialEq, Eq, Structural)]
pub enum AuthorizationSource {
    User,
    Policy,
}

/// An event worth recording against a turn.
#[derive(Debug, Clone)]
pub enum RecordableEvent {
    ToolAuthorization {
        tool_call_id: ToolCallId,
        decision: ToolDecision,
        source: AuthorizationSource,
        reason: Option<String>,
    },
}

/// A recorded event.
#[derive(Debug, Clone)]
pub struct EventRecord {
    /// The logical parent of this event.
    pub parent_id: Option<EventId>,
    /// When the event happened, in microseconds since the Unix epoch.
    pub timestamp: i64,
    pub event_id: EventId,
    pub event: RecordableEvent,
}

/// An input recorded against a turn: like the driver's input entries, but
/// with the whole tool call result rather than the text the model gets.
#[derive(Debug, Clone)]
pub enum RecordedInput {
    User(UserPrompt),
    Harness(String),
    ToolResult(ToolCallResult),
}

/// Why an assistant turn did not settle.
#[derive(Debug, Clone)]
pub enum StopReason {
    /// The user interrupted it.
    Interrupted,
    /// The stream failed midway, or never started.
    Failed(LlmError),
}

/// How an assistant turn ended.
#[derive(Debug, Clone)]
pub enum AssistantTurnOutcome {
    /// The turn completed and the response is available.
    Completed { response: AssistantResponse },
    /// The turn never settled; there may be a partial response.
    Incomplete { partial_response: Option<AssistantResponse>, reason: StopReason },
}

/// What a turn holds.
#[derive(Debug, Clone)]
pub enum RecordableTurn {
    /// Input from the user or the harness, such as tool results.
    Input { entries: Vec<RecordedInput> },
    /// What the model answered.
    Assistant { outcome: AssistantTurnOutcome },
}

/// A turn and when it happened.
#[derive(Debug, Clone)]
pub struct TurnData {
    pub turn_id: TurnId,
    /// When the turn was opened, in microseconds since the Unix epoch.
    pub timestamp: i64,
    /// The turn before this one.
    pub parent_id: Option<TurnId>,
    pub turn: RecordableTurn,
}

/// A turn with the events that happened during it.
#[derive(Debug, Clone)]
pub struct TurnRecord {
    pub data: TurnData,
    pub events: Vec<EventRecord>,
}

/// The model a session talks to.
#[derive(Debug, Clone)]
pub struct ModelInfo {
    pub provider: String,
    pub id: String,
}

impl ModelInfo {
    pub fn new(provider: String, id: String) -> (r: ModelInfo)
        ensures
            r.provider == provider,
            r.id == id,
    {
        ModelInfo { provider, id }
    }
}

/// What is known of a session as a whole.
#[derive(Debug, Clone)]
pub struct SessionData {
    pub session_id: SessionId,
    /// When the session was created, in microseconds since the Unix epoch.
    pub created_at: i64,
    pub cwd: String,
    pub model_info: ModelInfo,
}

impl SessionData {
    pub fn new(session_id: SessionId, created_at: i64, cwd: String, model_info: ModelInfo) -> (r: SessionData)
        ensures
            r.session_id == session_id,
            r.created_at == created_at,
            r.cwd == cwd,
            r.model_info == model_info,
    {
        SessionData { session_id, created_at, cwd, model_info }
    }
}

/// Whether a recorded turn is an input turn.
pub open spec fn is_input(t: TurnRecord) -> bool {
    t.data.turn is Input
}

/// Whether a recorded turn is an assistant turn that never settled.
pub open spec fn is_incomplete(t: TurnRecord) -> bool {
    t.data.turn matches RecordableTurn::Assistant { outcome } && outcome is Incomplete
}

/// Whether a recorded turn is an assistant turn that completed.
pub open spec fn is_completed(t: TurnRecord) -> bool {
    t.data.turn matches RecordableTurn::Assistant { outcome } && outcome is Completed
}

impl TurnRecord {
    /// A turn made of recorded parts.
    pub fn from_parts(data: TurnData, events: Vec<EventRecord>) -> (r: TurnRecord)
        ensures
            r.data == data,
            r.events == events,
    {
        TurnRecord { data, events }
    }

    /// Adds an event read back from a trace.
    pub fn restore_event(&mut self, event: EventRecord)
        ensures
            final(self).data == old(self).data,
            final(self).events@ == old(self).events@.push(event),
    {
        self.events.push(event);
    }

    /// Records an event against this turn; only a completed assistant turn
    /// takes events.
    pub fn add_event(&mut self, event: RecordableEvent, parent_id: Option<EventId>) -> (r: Result<EventId, ()>)
        ensures
            final(self).data == old(self).data,
            is_completed(*old(self)) <==> r is Ok,
            r is Err ==> *final(self) == *old(self),
            match r {
                Ok(id) => final(self).events@.len() == old(self).events@.len() + 1
                    && final(self).events@.drop_last() == old(self).events@
                    && final(self).events@.last().event_id == id
                    && final(self).events@.last().event == event
                    && final(self).events@.last().parent_id == parent_id,
                Err(_) => final(self).events@ == old(self).events@,
            },
    {
        let completed = match &self.data.turn {
            RecordableTurn::Assistant { outcome } => match outcome {
                AssistantTurnOutcome::Completed { .. } => true,
                AssistantTurnOutcome::Incomplete { .. } => false,
            },
            RecordableTurn::Input { .. } => false,
        };
        if !completed {
            return Err(());
        }
        let timestamp = now_micros();
        let event_id = EventId(time_ordered_id());
        self.events.push(EventRecord { parent_id, timestamp, event_id, event });
        assert(self.events@.drop_last() =~= old(self).events@);
        Ok(event_id)
    }
}

/// The entry a recorded input restores to in the driver's conversation.
pub open spec fn input_restores(e: InputEntry, r: RecordedInput) -> bool {
    match r {
        RecordedInput::User(u) => e == InputEntry::User(u),
        RecordedInput::Harness(m) => e == InputEntry::Harness(HarnessEntry::Message(m)),
        RecordedInput::ToolResult(tcr) => e matches InputEntry::Harness(HarnessEntry::ToolResult(tr))
            && tr.tool_call_id@ == tcr.tool_call_id@ && tr.content@ == outcome_text(tcr.outcome),
    }
}

/// The turn a recorded turn restores to; incomplete assistant turns restore
/// to nothing.
pub open spec fn turn_restores(t: TurnView, r: TurnRecord) -> bool {
    match r.data.turn {
        RecordableTurn::Input { entries } => t matches TurnView::Input(es) && es.len() == entries@.len()
            && forall|i: int| 0 <= i < es.len() ==> input_restores(#[trigger] es[i], entries@[i]),
        RecordableTurn::Assistant { outcome } => match outcome {
            AssistantTurnOutcome::Completed { response } => t == TurnView::Output(response.blocks@),
            AssistantTurnOutcome::Incomplete { .. } => false,
        },
    }
}

/// The recorded turns that restore to a turn of the conversation.
pub open spec fn settled_turns(recs: Seq<TurnRecord>) -> Seq<TurnRecord>
    decreases recs.len(),
{
    if recs.len() == 0 {
        seq![]
    } else if is_incomplete(recs.last()) {
        settled_turns(recs.drop_last())
    } else {
        settled_turns(recs.drop_last()).push(recs.last())
    }
}

/// Whether `turns` is what `recs` restore to.
pub open spec fn restores(turns: Seq<TurnView>, recs: Seq<TurnRecord>) -> bool {
    let kept = settled_turns(recs);
    &&& turns.len() == kept.len()
    &&& forall|i: int| 0 <= i < turns.len() ==> turn_restores(#[trigger] turns[i], kept[i])
}

/// Whether `tail` is the tail that `recs` end with: an incomplete assistant
/// turn is kept as the partial response only when nothing follows it.
pub open spec fn tail_restores(tail: Tail, recs: Seq<TurnRecord>) -> bool {
    if recs.len() > 0 && is_incomplete(recs.last()) {
        match recs.last().data.turn {
            RecordableTurn::Assistant { outcome: AssistantTurnOutcome::Incomplete { partial_response, .. } } =>
                match (tail, partial_response) {
                    (Tail::Incomplete { partial: Some(p) }, Some(q)) => p.blocks@ == q.blocks@,
                    (Tail::Incomplete { partial: None }, None) => true,
                    _ => false,
                },
            _ => false,
        }
    } else {
        tail is Settled
    }
}

/// Whether `after` is `before` with `entry` recorded as input: added to the
/// open input turn, or in a new input turn, with id `id`, after the
/// assistant's.
pub open spec fn input_added(before: Seq<TurnRecord>, after: Seq<TurnRecord>, entry: RecordedInput, id: TurnId) -> bool {
    if before.len() > 0 && is_input(before.last()) {
        &&& after.len() == before.len()
        &&& after.drop_last() == before.drop_last()
        &&& after.last().data.turn_id == before.last().data.turn_id
        &&& after.last().data.timestamp == before.last().data.timestamp
        &&& after.last().data.parent_id == before.last().data.parent_id
        &&& after.last().events == before.last().events
        &&& after.last().data.turn matches RecordableTurn::Input { entries }
        &&& before.last().data.turn matches RecordableTurn::Input { entries: old_entries }
        &&& entries@ == old_entries@.push(entry)
        &&& id == before.last().data.turn_id
    } else {
        &&& after.len() == before.len() + 1
        &&& after.drop_last() == before
        &&& after.last().data.turn_id == id
        &&& after.last().data.parent_id == (if before.len() > 0 {
            Some(before.last().data.turn_id)
        } else {
            None
        })
        &&& after.last().events@.len() == 0
        &&& after.last().data.turn matches RecordableTurn::Input { entries }
        &&& entries@ == seq![entry]
    }
}

/// The index of the most recent turn of `recs` with id `id`, or -1.
pub open spec fn last_turn_index(recs: Seq<TurnRecord>, id: TurnId) -> int
    decreases recs.len(),
{
    if recs.len() == 0 {
        -1
    } else if recs.last().data.turn_id == id {
        recs.len() - 1
    } else {
        last_turn_index(recs.drop_last(), id)
    }
}

/// Whether `after` is `before` with `event` added to the most recent turn
/// with id `id`, which is a completed assistant turn.
pub open spec fn event_recorded(
    before: Seq<TurnRecord>,
    after: Seq<TurnRecord>,
    id: TurnId,
    event: RecordableEvent,
    parent_id: Option<EventId>,
) -> bool {
    let k = last_turn_index(before, id);
    &&& k >= 0
    &&& is_completed(before[k])
    &&& after.len() == before.len()
    &&& forall|i: int| 0 <= i < before.len() && i != k ==> #[trigger] after[i] == before[i]
    &&& after[k].data == before[k].data
    &&& after[k].events@.len() == before[k].events@.len() + 1
    &&& after[k].events@.drop_last() == before[k].events@
    &&& after[k].events@.last().event == event
    &&& after[k].events@.last().parent_id == parent_id
}

/// Whether `after` is `before` with `event` added to the most recent turn
/// with id `id`, as the result `r` says; nothing changes on a failure,
/// which comes when there is no such turn or it is not a completed
/// assistant turn.
pub open spec fn event_added(
    before: Seq<TurnRecord>,
    after: Seq<TurnRecord>,
    id: TurnId,
    event: RecordableEvent,
    parent_id: Option<EventId>,
    r: Result<EventId, ()>,
) -> bool {
    let k = last_turn_index(before, id);
    &&& (r is Ok <==> (k >= 0 && is_completed(before[k])))
    &&& match r {
        Ok(event_id) => event_recorded(before, after, id, event, parent_id)
            && after[k].events@.last().event_id == event_id,
        Err(_) => after == before,
    }
}

/// The driver's input entry for a recorded input.
fn restore_input(r: &RecordedInput) -> (e: InputEntry)
    ensures
        input_restores(e, *r),
{
    match r {
        RecordedInput::User(user) => InputEntry::User(user.clone()),
        RecordedInput::Harness(message) => InputEntry::Harness(HarnessEntry::Message(message.clone())),
        RecordedInput::ToolResult(result) => InputEntry::Harness(HarnessEntry::ToolResult(result.to_tool_result())),
    }
}

/// A record of a session.
pub struct SessionRecord {
    data: SessionData,
    turns: Vec<TurnRecord>,
}

impl SessionRecord {
    /// The recorded turns, oldest first.
    pub closed spec fn turns_spec(&self) -> Seq<TurnRecord> {
        self.turns@
    }

    /// What is known of the session as a whole.
    pub closed spec fn data_spec(&self) -> SessionData {
        self.data
    }

    /// A new record with no turns, created now.
    pub fn new(session_id: SessionId, cwd: String, model_info: ModelInfo) -> (r: SessionRecord)
        ensures
            r.turns_spec().len() == 0,
            r.data_spec().session_id == session_id,
            r.data_spec().cwd == cwd,
            r.data_spec().model_info == model_info,
    {
        let created_at = now_micros();
        SessionRecord { data: SessionData::new(session_id, created_at, cwd, model_info), turns: Vec::new() }
    }

    /// A record made of parts read back from a trace.
    pub fn from_trace_parts(session_id: SessionId, created_at: i64, cwd: String, model_info: ModelInfo, turns: Vec<TurnRecord>) -> (r: SessionRecord)
        ensures
            r.turns_spec() == turns@,
            r.data_spec() == (SessionData { session_id, created_at, cwd, model_info }),
    {
        SessionRecord { data: SessionData::new(session_id, created_at, cwd, model_info), turns }
    }

    /// The data of the session.
    pub fn data(&self) -> (r: &SessionData)
        ensures
            *r == self.data_spec(),
    {
        &self.data
    }

    /// The recorded turns, oldest first.
    pub fn turns(&self) -> (r: &Vec<TurnRecord>)
        ensures
            r@ == self.turns_spec(),
    {
        &self.turns
    }

    /// The most recent turn; `None` only right after the session started.
    pub fn get_previous_turn(&self) -> (r: Option<&TurnRecord>)
        ensures
            match r {
                Some(t) => self.turns_spec().len() > 0 && *t == self.turns_spec().last(),
                None => self.turns_spec().len() == 0,
            },
    {
        let n = self.turns.len();
        if n == 0 {
            None
        } else {
            Some(&self.turns[n - 1])
        }
    }

    /// Records an input: against the open input turn, or in a new input turn
    /// when the last turn was the assistant's.
    pub fn add_input(&mut self, entry: RecordedInput) -> (r: TurnId)
        ensures
            final(self).data_spec() == old(self).data_spec(),
            input_added(old(self).turns_spec(), final(self).turns_spec(), entry, r),
    {
        let ghost before = self.turns@;
        let n = self.turns.len();
        let mut parent_id: Option<TurnId> = None;
        if n > 0 {
            let last = self.turns.pop().unwrap();
            assert(self.turns@ =~= before.drop_last());
            let TurnRecord { data, events } = last;
            let TurnData { turn_id, timestamp, parent_id: last_parent, turn } = data;
            match turn {
                RecordableTurn::Input { entries } => {
                    let mut entries = entries;
                    entries.push(entry);
                    self.turns.push(TurnRecord {
                        data: TurnData { turn_id, timestamp, parent_id: last_parent, turn: RecordableTurn::Input { entries } },
                        events,
                    });
                    assert(self.turns@.drop_last() =~= before.drop_last());
                    return turn_id;
                },
                RecordableTurn::Assistant { outcome } => {
                    self.turns.push(TurnRecord {
                        data: TurnData { turn_id, timestamp, parent_id: last_parent, turn: RecordableTurn::Assistant { outcome } },
                        events,
                    });
                    assert(self.turns@ =~= before);
                    parent_id = Some(turn_id);
                },
            }
        }
        let timestamp = now_micros();
        let turn_id = TurnId(time_ordered_id());
        let mut entries: Vec<RecordedInput> = Vec::new();
        entries.push(entry);
        assert(entries@ =~= seq![entry]);
        self.turns.push(TurnRecord {
            data: TurnData { turn_id, timestamp, parent_id, turn: RecordableTurn::Input { entries } },
            events: Vec::new(),
        });
        assert(self.turns@.drop_last() =~= before);
        turn_id
    }

    /// Records an assistant turn; only valid right after an input turn.
    pub fn add_assistant(&mut self, outcome: AssistantTurnOutcome) -> (r: Result<TurnId, ()>)
        ensures
            final(self).data_spec() == old(self).data_spec(),
            ({
                let before = old(self).turns_spec();
                let after = final(self).turns_spec();
                (before.len() > 0 && is_input(before.last())) <==> r is Ok
            }),
            match r {
                Ok(id) => {
                    let before = old(self).turns_spec();
                    let after = final(self).turns_spec();
                    &&& after.len() == before.len() + 1
                    &&& after.drop_last() == before
                    &&& after.last().data.turn_id == id
                    &&& after.last().data.parent_id == Some(before.last().data.turn_id)
                    &&& after.last().data.turn == RecordableTurn::Assistant { outcome }
                    &&& after.last().events@.len() == 0
                },
                Err(_) => final(self).turns_spec() == old(self).turns_spec(),
            },
    {
        let n = self.turns.len();
        if n == 0 {
            return Err(());
        }
        let previous_id = self.turns[n - 1].data.turn_id;
        let is_input_turn = match &self.turns[n - 1].data.turn {
            RecordableTurn::Input { .. } => true,
            RecordableTurn::Assistant { .. } => false,
        };
        if !is_input_turn {
            return Err(());
        }
        let ghost before = self.turns@;
        let timestamp = now_micros();
        let turn_id = TurnId(time_ordered_id());
        self.turns.push(TurnRecord {
            data: TurnData { turn_id, timestamp, parent_id: Some(previous_id), turn: RecordableTurn::Assistant { outcome } },
            events: Vec::new(),
        });
        assert(self.turns@.drop_last() =~= before);
        Ok(turn_id)
    }

    /// Records an event against the most recent turn with id `turn_id`;
    /// fails when there is no such turn or it is not a completed assistant
    /// turn.
    pub fn add_event(&mut self, turn_id: TurnId, event: RecordableEvent, parent_id: Option<EventId>) -> (r: Result<EventId, ()>)
        ensures
            final(self).data_spec() == old(self).data_spec(),
            event_added(old(self).turns_spec(), final(self).turns_spec(), turn_id, event, parent_id, r),
    {
        let ghost before = self.turns@;
        assert(before.take(before.len() as int) =~= before);
        let mut i: usize = self.turns.len();
        while i > 0
            invariant
                i <= self.turns.len(),
                self.turns@ == before,
                before == old(self).turns_spec(),
                self.data == old(self).data,
                last_turn_index(before, turn_id) == last_turn_index(before.take(i as int), turn_id),
            decreases i,
        {
            let k = i - 1;
            assert(before.take(i as int).drop_last() =~= before.take(k as int));
            assert(before.take(i as int).last() == before[k as int]);
            if self.turns[k].data.turn_id == turn_id {
                let mut tr = self.turns.remove(k);
                assert(tr == before[k as int]);
                let r = tr.add_event(event, parent_id);
                self.turns.insert(k, tr);
                assert forall|m: int| 0 <= m < self.turns@.len() && m != k implies (#[trigger] self.turns@[m])
                    == before[m] by {}
                proof {
                    if r is Err {
                        assert(self.turns@ =~= before);
                    }
                }
                return r;
            }
            i = k;
        }
        assert(before.take(0) =~= Seq::<TurnRecord>::empty());
        Err(())
    }

    /// The driver's conversation this record restores to. Incomplete
    /// assistant turns are dropped; the last one is kept as the partial
    /// response only when nothing follows it.
    pub fn restore_state(&self) -> (r: RestoreState)
        ensures
            restores(turns_view(r.turns@), self.turns_spec()),
            tail_restores(r.tail, self.turns_spec()),
    {
        let mut turns: Vec<Turn> = Vec::new();
        let mut i: usize = 0;
        while i < self.turns.len()
            invariant
                i <= self.turns.len(),
                restores(turns_view(turns@), self.turns@.take(i as int)),
            decreases self.turns.len() - i,
        {
            let ghost prefix = self.turns@.take(i as int);
            let ghost tv = turns_view(turns@);
            assert(self.turns@.take(i + 1).drop_last() =~= prefix);
            assert(self.turns@.take(i + 1).last() == self.turns@[i as int]);
            match &self.turns[i].data.turn {
                RecordableTurn::Input { entries } => {
                    let mut restored: Vec<InputEntry> = Vec::new();
                    let mut j: usize = 0;
                    while j < entries.len()
                        invariant
                            j <= entries.len(),
                            restored@.len() == j,
                            forall|k: int| 0 <= k < j ==> input_restores(#[trigger] restored@[k], entries@[k]),
                        decreases entries.len() - j,
                    {
                        restored.push(restore_input(&entries[j]));
                        j = j + 1;
                    }
                    turns.push(Turn::Input { entries: restored });
                    assert(turns_view(turns@) =~= tv.push(turns@.last()@));
                },
                RecordableTurn::Assistant { outcome } => match outcome {
                    AssistantTurnOutcome::Completed { response } => {
                        let copy = response.clone();
                        turns.push(Turn::Output(copy));
                        assert(turns_view(turns@) =~= tv.push(turns@.last()@));
                    },
                    AssistantTurnOutcome::Incomplete { .. } => {},
                },
            }
            i = i + 1;
        }
        assert(self.turns@.take(self.turns.len() as int) =~= self.turns@);
        let n = self.turns.len();
        let tail = if n == 0 {
            Tail::Settled
        } else {
            match &self.turns[n - 1].data.turn {
                RecordableTurn::Assistant { outcome } => match outcome {
                    AssistantTurnOutcome::Incomplete { partial_response, .. } => match partial_response {
                        Some(p) => Tail::Incomplete { partial: Some(p.clone()) },
                        None => Tail::Incomplete { partial: None },
                    },
                    AssistantTurnOutcome::Completed { .. } => Tail::Settled,
                },
                RecordableTurn::Input { .. } => Tail::Settled,
            }
        };
        RestoreState { turns, tail }
    }
}

/// Records a session as it runs. Observers read the record after each call.
pub struct SessionRecorder {
    pub record: SessionRecord,
}

/// The recorded input a prompt becomes.
pub open spec fn prompt_input(p: Prompt) -> RecordedInput {
    match p {
        Prompt::User(u) => RecordedInput::User(u),
        Prompt::Harness(m) => RecordedInput::Harness(m),
    }
}

impl SessionRecorder {
    pub fn new(record: SessionRecord) -> (r: SessionRecorder)
        ensures
            r.record == record,
    {
        SessionRecorder { record }
    }

    /// The record so far.
    pub fn record(&self) -> (r: &SessionRecord)
        ensures
            *r == self.record,
    {
        &self.record
    }

    /// The id of the most recent turn.
    pub fn previous_turn_id(&self) -> (r: Option<TurnId>)
        ensures
            match r {
                Some(id) => self.record.turns_spec().len() > 0 && id == self.record.turns_spec().last().data.turn_id,
                None => self.record.turns_spec().len() == 0,
            },
    {
        match self.record.get_previous_turn() {
            Some(t) => Some(t.data.turn_id),
            None => None,
        }
    }

    /// Records an input against the open input turn, opening one if needed.
    pub fn record_input(&mut self, entry: RecordedInput) -> (r: TurnId)
        ensures
            final(self).record.data_spec() == old(self).record.data_spec(),
            input_added(old(self).record.turns_spec(), final(self).record.turns_spec(), entry, r),
    {
        self.record.add_input(entry)
    }

    /// Records a prompt from the user or the harness.
    pub fn record_prompt(&mut self, prompt: Prompt) -> (r: TurnId)
        ensures
            final(self).record.data_spec() == old(self).record.data_spec(),
            input_added(old(self).record.turns_spec(), final(self).record.turns_spec(), prompt_input(prompt), r),
    {
        let entry = match prompt {
            Prompt::User(user) => RecordedInput::User(user),
            Prompt::Harness(message) => RecordedInput::Harness(message),
        };
        self.record.add_input(entry)
    }

    /// Records an assistant turn; fails unless the last turn was an input.
    pub fn record_assistant(&mut self, outcome: AssistantTurnOutcome) -> (r: Result<TurnId, ()>)
        ensures
            final(self).record.data_spec() == old(self).record.data_spec(),
            ({
                let before = old(self).record.turns_spec();
                (before.len() > 0 && is_input(before.last())) <==> r is Ok
            }),
            match r {
                Ok(id) => {
                    let before = old(self).record.turns_spec();
                    let after = final(self).record.turns_spec();
                    &&& after.len() == before.len() + 1
                    &&& after.drop_last() == before
                    &&& after.last().data.turn_id == id
                    &&& after.last().data.parent_id == Some(before.last().data.turn_id)
                    &&& after.last().data.turn == RecordableTurn::Assistant { outcome }
                    &&& after.last().events@.len() == 0
                },
                Err(_) => final(self).record.turns_spec() == old(self).record.turns_spec(),
            },
    {
        self.record.add_assistant(outcome)
    }

    /// Records an event against the most recent turn with id `turn_id`.
    pub fn record_event(&mut self, turn_id: TurnId, event: RecordableEvent, parent_id: Option<EventId>) -> (r: Result<EventId, ()>)
        ensures
            final(self).record.data_spec() == old(self).record.data_spec(),
            event_added(old(self).record.turns_spec(), final(self).record.turns_spec(), turn_id, event, parent_id, r),
    {
        self.record.add_event(turn_id, event, parent_id)
    }

    /// Records the result of a tool call as input for the model's next turn.
    pub fn record_tool_result(&mut self, tool_result: ToolCallResult) -> (r: TurnId)
        ensures
            final(self).record.data_spec() == old(self).record.data_spec(),
            input_added(
                old(self).record.turns_spec(),
                final(self).record.turns_spec(),
                RecordedInput::ToolResult(tool_result),
                r,
            ),
    {
        self.record.add_input(RecordedInput::ToolResult(tool_result))
    }

    /// Records whether a tool call was allowed to run, and who decided.
    pub fn record_tool_decision(
        &mut self,
        turn_id: TurnId,
        tool_call_id: ToolCallId,
        decision: bool,
        source: AuthorizationSource,
        reason: Option<String>,
    ) -> (r: Result<EventId, ()>)
        ensures
            final(self).record.data_spec() == old(self).record.data_spec(),
            event_added(
                old(self).record.turns_spec(),
                final(self).record.turns_spec(),
                turn_id,
                RecordableEvent::ToolAuthorization {
                    tool_call_id,
                    decision: decision_of(decision),
                    source,
                    reason,
                },
                None,
                r,
            ),
    {
        let decision = if decision {
            ToolDecision::Approved
        } else {
            ToolDecision::Denied
        };
        let event = RecordableEvent::ToolAuthorization { tool_call_id, decision, source, reason };
        self.record.add_event(turn_id, event, None)
    }
}

/// Recording an input keeps the record in step with the conversation: the
/// record then restores to the conversation with the input added. This
/// holds unless the record ends with an assistant turn that never settled.
pub proof fn law_recorded_input_restores(
    turns: Seq<TurnView>,
    recs: Seq<TurnRecord>,
    after: Seq<TurnRecord>,
    recorded: RecordedInput,
    entry: InputEntry,
    id: TurnId,
)
    requires
        restores(turns, recs),
        recs.len() == 0 || !is_incomplete(recs.last()),
        input_added(recs, after, recorded, id),
        input_restores(entry, recorded),
    ensures
        restores(crate::agent::push_input_spec(turns, entry), after),
{
    let kept = settled_turns(recs);
    let kept2 = settled_turns(after);
    let turns2 = crate::agent::push_input_spec(turns, entry);
    if recs.len() > 0 && is_input(recs.last()) {
        assert(after.drop_last() == recs.drop_last());
        assert(!is_incomplete(after.last()));
        assert(kept == settled_turns(recs.drop_last()).push(recs.last()));
        assert(kept2 == settled_turns(after.drop_last()).push(after.last()));
        let n = turns.len() - 1;
        assert(turn_restores(turns[n], kept[n]));
        assert(turns.last() is Input);
        assert(turns2 == turns.drop_last().push(TurnView::Input(turns.last()->Input_0.push(entry))));
        assert forall|i: int| 0 <= i < turns2.len() implies turn_restores(#[trigger] turns2[i], kept2[i]) by {
            if i < n {
                assert(turns2[i] == turns[i]);
                assert(kept2[i] == kept[i]);
            } else {
                let es = turns.last()->Input_0;
                match after.last().data.turn {
                    RecordableTurn::Input { entries } => {
                        match recs.last().data.turn {
                            RecordableTurn::Input { entries: old_entries } => {
                                assert(entries@ == old_entries@.push(recorded));
                                assert forall|j: int| 0 <= j < es.push(entry).len() implies input_restores(
                                    #[trigger] es.push(entry)[j],
                                    entries@[j],
                                ) by {
                                    if j < es.len() {
                                        assert(es.push(entry)[j] == es[j]);
                                        assert(entries@[j] == old_entries@[j]);
                                    }
                                }
                            },
                            _ => {},
                        }
                    },
                    _ => {},
                }
            }
        }
    } else {
        assert(after.drop_last() == recs);
        assert(!is_incomplete(after.last()));
        assert(kept2 == kept.push(after.last()));
        if recs.len() > 0 {
            assert(kept == settled_turns(recs.drop_last()).push(recs.last()));
            let n = turns.len() - 1;
            assert(turn_restores(turns[n], kept[n]));
            assert(turns.last() is Output);
        }
        assert(turns2 == turns.push(TurnView::Input(seq![entry])));
        assert forall|i: int| 0 <= i < turns2.len() implies turn_restores(#[trigger] turns2[i], kept2[i]) by {
            if i < turns.len() {
                assert(turns2[i] == turns[i]);
                assert(kept2[i] == kept[i]);
            } else {
                match after.last().data.turn {
                    RecordableTurn::Input { entries } => {
                        assert(entries@ == seq![recorded]);
                        assert(seq![entry][0] == entry);
                    },
                    _ => {},
                }
            }
        }
    }
}

/// Recording a completed response keeps the record in step with the
/// conversation: the record then restores to the conversation with the
/// response added.
pub proof fn law_recorded_response_restores(
    turns: Seq<TurnView>,
    recs: Seq<TurnRecord>,
    after: Seq<TurnRecord>,
    response: AssistantResponse,
)
    requires
        restores(turns, recs),
        after.len() == recs.len() + 1,
        after.drop_last() == recs,
        after.last().data.turn == (RecordableTurn::Assistant {
            outcome: AssistantTurnOutcome::Completed { response },
        }),
    ensures
        restores(turns.push(TurnView::Output(response.blocks@)), after),
        tail_restores(Tail::Settled, after),
{
    let kept = settled_turns(recs);
    let kept2 = settled_turns(after);
    assert(!is_incomplete(after.last()));
    assert(kept2 == kept.push(after.last()));
    let turns2 = turns.push(TurnView::Output(response.blocks@));
    assert forall|i: int| 0 <= i < turns2.len() implies turn_restores(#[trigger] turns2[i], kept2[i]) by {
        if i < turns.len() {
            assert(turns2[i] == turns[i]);
            assert(kept2[i] == kept[i]);
        }
    }
}

/// Recording a response that never settled leaves the restored
/// conversation as it was, and keeps what had arrived as the partial
/// response.
pub proof fn law_recorded_incomplete_restores(
    turns: Seq<TurnView>,
    recs: Seq<TurnRecord>,
    after: Seq<TurnRecord>,
    partial: Option<AssistantResponse>,
    reason: StopReason,
)
    requires
        restores(turns, recs),
        after.len() == recs.len() + 1,
        after.drop_last() == recs,
        after.last().data.turn == (RecordableTurn::Assistant {
            outcome: AssistantTurnOutcome::Incomplete { partial_response: partial, reason },
        }),
    ensures
        restores(turns, after),
        tail_restores(Tail::Incomplete { partial }, after),
{
    assert(is_incomplete(after.last()));
    assert(settled_turns(after) == settled_turns(recs));
}

} // verus!
