//! The agent driver: the conversation as a list of turns, and the states an
//! agent moves through as the model is asked, answers, calls tools, is
//! interrupted or fails.

use vstd::prelude::*;
use crate::provider::{
    AssistantResponse, Block, LlmError, LlmModel, Message, TokenUsage, ToolCallRequest, ToolDefinition,
    ToolResult, UserPrompt, tool_calls_of,
};
use crate::text::append_str;
use crate::tool_batch::{ToolBatch, ToolCallId, Resolving, Resolved, has_key};

verus! {

/// An input entry supplied by the harness rather than the user.
#[derive(Debug)]
pub enum HarnessEntry {
    ToolResult(ToolResult),
    /// A harness level message.
    Message(String),
}

/// One entry of an input turn.
#[derive(Debug)]
pub enum InputEntry {
    User(UserPrompt),
    Harness(HarnessEntry),
}

/// A turn in the conversation. An input turn is everything the harness or the
/// user supplied before the model was asked to respond; an output turn is a
/// single response from the model.
#[derive(Debug)]
pub enum Turn {
    Input { entries: Vec<InputEntry> },
    Output(AssistantResponse),
}

/// A prompt from the user or from the harness.
#[derive(Debug)]
pub enum Prompt {
    User(UserPrompt),
    Harness(String),
}

/// A turn as a value: the entries of an input turn, or a response.
pub enum TurnView {
    Input(Seq<InputEntry>),
    Output(Seq<Block>),
}

impl View for Turn {
    type V = TurnView;

    open spec fn view(&self) -> TurnView {
        match self {
            Turn::Input { entries } => TurnView::Input(entries@),
            Turn::Output(r) => TurnView::Output(r.blocks@),
        }
    }
}

pub open spec fn turns_view(turns: Seq<Turn>) -> Seq<TurnView> {
    turns.map_values(|t: Turn| t@)
}

/// The input entry a prompt becomes.
pub open spec fn prompt_entry(p: Prompt) -> InputEntry {
    match p {
        Prompt::User(u) => InputEntry::User(u),
        Prompt::Harness(m) => InputEntry::Harness(HarnessEntry::Message(m)),
    }
}

impl Clone for Prompt {
    fn clone(&self) -> (r: Self)
        ensures
            r == *self,
    {
        match self {
            Prompt::User(u) => Prompt::User(u.clone()),
            Prompt::Harness(m) => Prompt::Harness(m.clone()),
        }
    }
}

impl Prompt {
    /// The input entry this prompt becomes.
    pub fn into_entry(self) -> (r: InputEntry)
        ensures
            r == prompt_entry(self),
    {
        match self {
            Prompt::User(user) => InputEntry::User(user),
            Prompt::Harness(msg) => InputEntry::Harness(HarnessEntry::Message(msg)),
        }
    }
}

/// `turns` with `entry` added: to the last turn when it is an input turn,
/// otherwise as a new input turn.
pub open spec fn push_input_spec(turns: Seq<TurnView>, entry: InputEntry) -> Seq<TurnView> {
    if turns.len() > 0 && turns.last() is Input {
        turns.drop_last().push(TurnView::Input(turns.last()->Input_0.push(entry)))
    } else {
        turns.push(TurnView::Input(seq![entry]))
    }
}

/// The most recent response in `turns`, if any.
pub open spec fn last_output_spec(turns: Seq<TurnView>) -> Option<Seq<Block>>
    decreases turns.len(),
{
    if turns.len() == 0 {
        None
    } else {
        match turns.last() {
            TurnView::Output(r) => Some(r),
            _ => last_output_spec(turns.drop_last()),
        }
    }
}

/// Whether an entry is the result of the call `id`.
pub open spec fn answers(e: InputEntry, id: Seq<char>) -> bool {
    e matches InputEntry::Harness(HarnessEntry::ToolResult(r)) && r.tool_call_id@ == id
}

/// Whether `entries` hold a result for the call `id`.
pub open spec fn answered(entries: Seq<InputEntry>, id: Seq<char>) -> bool {
    exists|i: int| 0 <= i < entries.len() && answers(#[trigger] entries[i], id)
}

/// The calls of `calls` that `entries` do not answer, in order.
pub open spec fn unanswered(calls: Seq<ToolCallRequest>, entries: Seq<InputEntry>) -> Seq<ToolCallRequest>
    decreases calls.len(),
{
    if calls.len() == 0 {
        seq![]
    } else {
        let rest = unanswered(calls.drop_last(), entries);
        if answered(entries, calls.last().id@) {
            rest
        } else {
            rest.push(calls.last())
        }
    }
}

/// The tool calls of the most recent response that are still waiting for a
/// result. Only the most recent output turn can have these.
pub open spec fn pending_spec(turns: Seq<TurnView>) -> Seq<ToolCallRequest> {
    if turns.len() == 0 {
        seq![]
    } else {
        match turns.last() {
            TurnView::Output(blocks) => tool_calls_of(blocks),
            TurnView::Input(entries) => if turns.len() >= 2 && turns[turns.len() - 2] is Output {
                unanswered(tool_calls_of(turns[turns.len() - 2]->Output_0), entries)
            } else {
                seq![]
            },
        }
    }
}

/// Whether `v` holds the result of the call `id`.
fn entries_answer(v: &Vec<InputEntry>, id: &String) -> (r: bool)
    ensures
        r == answered(v@, id@),
{
    let mut i: usize = 0;
    while i < v.len()
        invariant
            i <= v.len(),
            forall|j: int| 0 <= j < i ==> !answers(#[trigger] v@[j], id@),
        decreases v.len() - i,
    {
        match &v[i] {
            InputEntry::Harness(HarnessEntry::ToolResult(result)) => {
                if result.tool_call_id == *id {
                    assert(answers(v@[i as int], id@));
                    return true;
                }
            },
            _ => {},
        }
        i = i + 1;
    }
    false
}

/// The tool calls of the most recent response still waiting for a result.
pub fn pending_tool_calls(turns: &Vec<Turn>) -> (r: Vec<ToolCallRequest>)
    ensures
        r@ == pending_spec(turns_view(turns@)),
{
    let ghost tv = turns_view(turns@);
    let n = turns.len();
    if n == 0 {
        return Vec::new();
    }
    assert(tv.last() == turns@[n - 1]@);
    match &turns[n - 1] {
        Turn::Output(response) => response.tool_calls(),
        Turn::Input { entries } => {
            if n < 2 {
                return Vec::new();
            }
            assert(tv[n - 2] == turns@[n - 2]@);
            match &turns[n - 2] {
                Turn::Output(response) => {
                    let calls = response.tool_calls();
                    let mut out: Vec<ToolCallRequest> = Vec::new();
                    let mut i: usize = 0;
                    while i < calls.len()
                        invariant
                            i <= calls.len(),
                            out@ == unanswered(calls@.take(i as int), entries@),
                        decreases calls.len() - i,
                    {
                        assert(calls@.take(i + 1).drop_last() =~= calls@.take(i as int));
                        if !entries_answer(entries, &calls[i].id) {
                            out.push(calls[i].clone());
                        }
                        i = i + 1;
                    }
                    assert(calls@.take(calls.len() as int) =~= calls@);
                    out
                },
                Turn::Input { .. } => Vec::new(),
            }
        },
    }
}

/// The message sent to the model for one input turn: the user and harness
/// texts joined in order, and the tool results.
pub open spec fn input_text(entries: Seq<InputEntry>) -> Seq<char>
    decreases entries.len(),
{
    if entries.len() == 0 {
        seq![]
    } else {
        let rest = input_text(entries.drop_last());
        match entries.last() {
            InputEntry::User(p) => rest + p.message@,
            InputEntry::Harness(HarnessEntry::Message(m)) => rest + m@,
            InputEntry::Harness(HarnessEntry::ToolResult(_)) => rest,
        }
    }
}

/// The text of an input turn is the texts of its parts, one after
/// another.
pub proof fn lemma_input_text_concat(a: Seq<InputEntry>, b: Seq<InputEntry>)
    ensures
        input_text(a + b) == input_text(a) + input_text(b),
    decreases b.len(),
{
    if b.len() > 0 {
        lemma_input_text_concat(a, b.drop_last());
        assert((a + b).drop_last() =~= a + b.drop_last());
        assert((a + b).last() == b.last());
    } else {
        assert(a + b =~= a);
    }
}

/// The text of one entry: a user prompt gives its message, a harness
/// message its text, a tool result nothing.
pub proof fn lemma_input_text_entry(e: InputEntry)
    ensures
        input_text(seq![e]) == match e {
            InputEntry::User(p) => p.message@,
            InputEntry::Harness(HarnessEntry::Message(m)) => m@,
            InputEntry::Harness(HarnessEntry::ToolResult(_)) => Seq::<char>::empty(),
        },
{
    let z = Seq::<InputEntry>::empty();
    assert(seq![e].drop_last() =~= z);
    assert(seq![e].last() == e);
    assert(input_text(z) == Seq::<char>::empty());
    match e {
        InputEntry::User(p) => {
            assert(Seq::<char>::empty() + p.message@ =~= p.message@);
        },
        InputEntry::Harness(HarnessEntry::Message(m)) => {
            assert(Seq::<char>::empty() + m@ =~= m@);
        },
        InputEntry::Harness(HarnessEntry::ToolResult(_)) => {},
    }
}

/// What the user types reaches the model: after a user prompt is added to
/// any history, the message for the last turn is a user message whose text
/// ends with the prompt's text, and a prompt that opens a new input turn is
/// that message's whole text, with no tool results.
pub proof fn lemma_user_prompt_reaches_model(turns: Seq<TurnView>, p: UserPrompt)
    ensures
        ({
            let after = push_input_spec(turns, prompt_entry(Prompt::User(p)));
            &&& after.len() > 0
            &&& turn_message(after.last()) matches MessageView::User(text, _)
                && text.len() >= p.message@.len()
                && text.subrange(text.len() - p.message@.len(), text.len() as int) == p.message@
            &&& !(turns.len() > 0 && turns.last() is Input) ==> turn_message(after.last()) == MessageView::User(
                p.message@,
                Seq::<ToolResult>::empty(),
            )
        }),
{
    let e = InputEntry::User(p);
    let after = push_input_spec(turns, e);
    let entries = if turns.len() > 0 && turns.last() is Input { turns.last()->Input_0 } else { seq![] };
    assert(after.last() == TurnView::Input(entries.push(e)));
    lemma_input_text_concat(entries, seq![e]);
    lemma_input_text_entry(e);
    assert(entries + seq![e] =~= entries.push(e));
    let text = input_text(entries.push(e));
    assert(text.subrange(text.len() - p.message@.len(), text.len() as int) =~= p.message@);
    if !(turns.len() > 0 && turns.last() is Input) {
        assert(entries.push(e) =~= seq![e]);
        assert(input_results(seq![e]) =~= Seq::<ToolResult>::empty()) by {
            assert(seq![e].drop_last() =~= Seq::<InputEntry>::empty());
            assert(input_results(Seq::<InputEntry>::empty()) == Seq::<ToolResult>::empty());
        }
    }
}

/// The tool results among `entries`, in order.
pub open spec fn input_results(entries: Seq<InputEntry>) -> Seq<ToolResult>
    decreases entries.len(),
{
    if entries.len() == 0 {
        seq![]
    } else {
        let rest = input_results(entries.drop_last());
        match entries.last() {
            InputEntry::Harness(HarnessEntry::ToolResult(r)) => rest.push(r),
            _ => rest,
        }
    }
}

/// What a message says, as a value.
pub enum MessageView {
    System(Seq<char>),
    User(Seq<char>, Seq<ToolResult>),
    Assistant(Seq<Block>),
}

pub open spec fn message_view(m: Message) -> MessageView {
    match m {
        Message::System(s) => MessageView::System(s@),
        Message::User { message, tool_call_results } => MessageView::User(message.message@, tool_call_results@),
        Message::Assistant { response } => MessageView::Assistant(response.blocks@),
    }
}

/// The message the model gets for a turn.
pub open spec fn turn_message(t: TurnView) -> MessageView {
    match t {
        TurnView::Input(entries) => MessageView::User(input_text(entries), input_results(entries)),
        TurnView::Output(blocks) => MessageView::Assistant(blocks),
    }
}

/// The messages the model gets for the whole conversation, one per turn.
pub fn convert_turns_into_messages(turns: Vec<Turn>) -> (r: Vec<Message>)
    ensures
        r@.len() == turns@.len(),
        forall|i: int| 0 <= i < r@.len() ==> message_view(#[trigger] r@[i]) == turn_message(turns@[i]@),
{
    let mut out: Vec<Message> = Vec::new();
    let mut turns = turns;
    let ghost all = turns@;
    while turns.len() > 0
        invariant
            out@.len() + turns@.len() == all.len(),
            turns@ =~= all.subrange(out@.len() as int, all.len() as int),
            forall|j: int| 0 <= j < out@.len() ==> message_view(#[trigger] out@[j]) == turn_message(all[j]@),
        decreases turns.len(),
    {
        let ghost k = out@.len() as int;
        let turn = turns.remove(0);
        assert(turn == all[k]);
        let message = match turn {
            Turn::Input { entries } => {
                let mut text = String::new();
                let mut results: Vec<ToolResult> = Vec::new();
                let mut j: usize = 0;
                while j < entries.len()
                    invariant
                        j <= entries.len(),
                        text@ == input_text(entries@.take(j as int)),
                        results@ == input_results(entries@.take(j as int)),
                    decreases entries.len() - j,
                {
                    assert(entries@.take(j + 1).drop_last() =~= entries@.take(j as int));
                    match &entries[j] {
                        InputEntry::User(prompt) => append_str(&mut text, prompt.message.as_str()),
                        InputEntry::Harness(HarnessEntry::Message(m)) => append_str(&mut text, m.as_str()),
                        InputEntry::Harness(HarnessEntry::ToolResult(result)) => results.push(result.clone()),
                    }
                    j = j + 1;
                }
                assert(entries@.take(entries.len() as int) =~= entries@);
                Message::User { message: UserPrompt::new(text), tool_call_results: results }
            },
            Turn::Output(response) => Message::Assistant { response },
        };
        out.push(message);
        assert(all.subrange(out@.len() as int, all.len() as int) =~= turns@);
    }
    out
}


impl Clone for HarnessEntry {
    fn clone(&self) -> (r: Self)
        ensures
            r == *self,
    {
        match self {
            HarnessEntry::ToolResult(result) => HarnessEntry::ToolResult(result.clone()),
            HarnessEntry::Message(m) => HarnessEntry::Message(m.clone()),
        }
    }
}

impl Clone for InputEntry {
    fn clone(&self) -> (r: Self)
        ensures
            r == *self,
    {
        match self {
            InputEntry::User(p) => InputEntry::User(p.clone()),
            InputEntry::Harness(h) => InputEntry::Harness(h.clone()),
        }
    }
}

impl Clone for Turn {
    fn clone(&self) -> (r: Self)
        ensures
            r@ == self@,
    {
        match self {
            Turn::Input { entries } => {
                let mut out: Vec<InputEntry> = Vec::new();
                let mut i: usize = 0;
                while i < entries.len()
                    invariant
                        i <= entries.len(),
                        out@ == entries@.take(i as int),
                    decreases entries.len() - i,
                {
                    out.push(entries[i].clone());
                    assert(entries@.take(i + 1) =~= entries@.take(i as int).push(entries@[i as int]));
                    i = i + 1;
                }
                assert(entries@.take(entries.len() as int) =~= entries@);
                assert(out@ == entries@);
                let cloned = Turn::Input { entries: out };
                assert(cloned@ == self@);
                cloned
            },
            Turn::Output(response) => {
                let r = response.clone();
                assert(r.blocks@ == response.blocks@);
                Turn::Output(r)
            },
        }
    }
}

/// `turns` with each of `entries` added in order.
pub open spec fn push_inputs_spec(turns: Seq<TurnView>, entries: Seq<InputEntry>) -> Seq<TurnView>
    decreases entries.len(),
{
    if entries.len() == 0 {
        turns
    } else {
        push_input_spec(push_inputs_spec(turns, entries.drop_last()), entries.last())
    }
}

/// The input entries that hand `results` back to the model.
pub open spec fn result_entries(results: Seq<ToolResult>) -> Seq<InputEntry> {
    results.map_values(|r: ToolResult| InputEntry::Harness(HarnessEntry::ToolResult(r)))
}

/// Whether the conversation ends with a response of the model, or is empty.
pub open spec fn settled(turns: Seq<TurnView>) -> bool {
    turns.len() == 0 || turns.last() is Output
}

/// A state that the driver can be in.
pub trait State {
    /// Whether a conversation can stand in this state.
    spec fn admits(turns: Seq<TurnView>) -> bool;
}

/// The driver is waiting for a "user" message; the harness counts as a user
/// too. Adding a message makes it [`ReadyToStream`].
#[derive(Debug)]
pub struct WaitingForUserMessage;

impl State for WaitingForUserMessage {
    open spec fn admits(turns: Seq<TurnView>) -> bool {
        settled(turns)
    }
}

/// The driver is ready to stream the model's response.
#[derive(Debug)]
pub struct ReadyToStream {}

impl State for ReadyToStream {
    open spec fn admits(turns: Seq<TurnView>) -> bool {
        true
    }
}

/// The model has requested tool calls and the driver waits for their results.
#[derive(Debug)]
pub struct WaitingForToolResponses;

impl State for WaitingForToolResponses {
    open spec fn admits(turns: Seq<TurnView>) -> bool {
        last_output_spec(turns) is Some
    }
}

/// The model's stream was interrupted midway, by the user or by a failure;
/// `partial` is what had arrived.
#[derive(Debug)]
pub struct LlmStreamingInterrupted {
    pub partial: Option<AssistantResponse>,
}

impl State for LlmStreamingInterrupted {
    open spec fn admits(turns: Seq<TurnView>) -> bool {
        true
    }
}

impl LlmStreamingInterrupted {
    /// What had arrived of the response when the stream stopped.
    pub fn partial(&self) -> (r: &Option<AssistantResponse>)
        ensures
            *r == self.partial,
    {
        &self.partial
    }
}

/// The driver's state machine. The state is a type parameter, so that each
/// transition is only offered where it is valid.
pub struct TypedAgent<S: State> {
    pub(crate) model: LlmModel,
    pub(crate) system_prompt: String,
    /// The turns of the conversation, alternating input and output.
    pub(crate) turns: Vec<Turn>,
    pub(crate) tools: Vec<ToolDefinition>,
    pub(crate) state: S,
}

impl<S: State> TypedAgent<S> {
    #[verifier::type_invariant]
    spec fn admitted(self) -> bool {
        S::admits(turns_view(self.turns@))
    }

    /// The conversation, turn by turn.
    pub closed spec fn history(&self) -> Seq<TurnView> {
        turns_view(self.turns@)
    }

    pub closed spec fn model_spec(&self) -> LlmModel {
        self.model
    }

    pub closed spec fn system_prompt_spec(&self) -> Seq<char> {
        self.system_prompt@
    }

    pub closed spec fn tools_spec(&self) -> Seq<ToolDefinition> {
        self.tools@
    }

    pub closed spec fn state_spec(&self) -> S {
        self.state
    }

    /// The same model, system prompt and tools as `other`.
    pub open spec fn same_setup<T: State>(&self, other: &TypedAgent<T>) -> bool {
        &&& self.model_spec() == other.model_spec()
        &&& self.system_prompt_spec() == other.system_prompt_spec()
        &&& self.tools_spec() == other.tools_spec()
    }

    /// The turns of this session.
    pub fn turns(&self) -> (r: &Vec<Turn>)
        ensures
            turns_view(r@) == self.history(),
    {
        &self.turns
    }

    /// The model the agent talks to.
    pub fn model(&self) -> (r: &LlmModel)
        ensures
            *r == self.model_spec(),
    {
        &self.model
    }

    /// The tools the model may call.
    pub fn tools(&self) -> (r: &Vec<ToolDefinition>)
        ensures
            r@ == self.tools_spec(),
    {
        &self.tools
    }

    /// The state the agent is in.
    pub fn state(&self) -> (r: &S)
        ensures
            *r == self.state_spec(),
    {
        &self.state
    }

    /// The most recent response of the model, if it has responded yet.
    pub fn last_output(&self) -> (r: Option<&AssistantResponse>)
        ensures
            match r {
                Some(resp) => last_output_spec(self.history()) == Some(resp.blocks@),
                None => last_output_spec(self.history()) is None,
            },
    {
        let ghost tv = self.history();
        assert(tv.take(self.turns.len() as int) =~= tv);
        let mut i: usize = self.turns.len();
        while i > 0
            invariant
                i <= self.turns.len(),
                tv == turns_view(self.turns@),
                last_output_spec(tv) == last_output_spec(tv.take(i as int)),
            decreases i,
        {
            assert(tv.take(i as int).last() == self.turns@[i - 1]@);
            assert(tv.take(i as int).drop_last() =~= tv.take(i - 1));
            match &self.turns[i - 1] {
                Turn::Output(response) => return Some(response),
                _ => {},
            }
            i = i - 1;
        }
        assert(tv.take(0) =~= Seq::<TurnView>::empty());
        None
    }

}

/// Adds an input entry to `turns`: to the pending input turn, or as a new
/// input turn when the last turn was the model's.
fn push_input(turns: &mut Vec<Turn>, entry: InputEntry)
    ensures
        turns_view(final(turns)@) == push_input_spec(turns_view(old(turns)@), entry),
{
    let ghost before = turns_view(turns@);
    let n = turns.len();
    if n > 0 {
        let last = turns.pop().unwrap();
        assert(before.last() == last@);
        assert(turns_view(turns@) =~= before.drop_last());
        match last {
            Turn::Input { entries } => {
                let mut entries = entries;
                let ghost old_entries = entries@;
                entries.push(entry);
                turns.push(Turn::Input { entries });
                assert(before.last() == TurnView::Input(old_entries));
                assert(turns_view(turns@) =~= before.drop_last().push(
                    TurnView::Input(old_entries.push(entry)),
                ));
            },
            Turn::Output(response) => {
                turns.push(Turn::Output(response));
                assert(turns_view(turns@) =~= before);
                let mut fresh: Vec<InputEntry> = Vec::new();
                fresh.push(entry);
                assert(fresh@ =~= seq![entry]);
                turns.push(Turn::Input { entries: fresh });
                assert(turns_view(turns@) =~= before.push(TurnView::Input(seq![entry])));
            },
        }
    } else {
        let mut fresh: Vec<InputEntry> = Vec::new();
        fresh.push(entry);
        assert(fresh@ =~= seq![entry]);
        turns.push(Turn::Input { entries: fresh });
        assert(turns_view(turns@) =~= before.push(TurnView::Input(seq![entry])));
    }
}

/// Pushes each of `entries` as an input entry, in order.
fn push_inputs(turns: &mut Vec<Turn>, entries: Vec<InputEntry>)
    ensures
        turns_view(final(turns)@) == push_inputs_spec(turns_view(old(turns)@), entries@),
{
    let ghost start = turns_view(turns@);
    let mut entries = entries;
    let ghost all = entries@;
    let total = entries.len();
    let mut done: usize = 0;
    while entries.len() > 0
        invariant
            done + entries@.len() == all.len(),
            all.len() == total,
            entries@ == all.subrange(done as int, all.len() as int),
            turns_view(turns@) == push_inputs_spec(start, all.take(done as int)),
        decreases entries.len(),
    {
        let entry = entries.remove(0);
        assert(entry == all[done as int]);
        assert(all.take(done + 1).drop_last() =~= all.take(done as int));
        push_input(turns, entry);
        done = done + 1;
        assert(entries@ =~= all.subrange(done as int, all.len() as int));
    }
    assert(all.take(all.len() as int) =~= all);
}

impl TypedAgent<WaitingForUserMessage> {
    /// A new agent with the given model, system prompt and tools, and no
    /// conversation yet.
    pub fn new(model: LlmModel, system_prompt: String, tools: Vec<ToolDefinition>) -> (r: Self)
        ensures
            r.history().len() == 0,
            r.model_spec() == model,
            r.system_prompt_spec() == system_prompt@,
            r.tools_spec() == tools@,
    {
        let turns: Vec<Turn> = Vec::new();
        assert(turns_view(turns@) =~= Seq::<TurnView>::empty());
        TypedAgent { model, system_prompt, turns, tools, state: WaitingForUserMessage }
    }

    /// The response of the model that led to this state; `None` before the
    /// first turn.
    pub fn previous_message(&self) -> (r: Option<&AssistantResponse>)
        ensures
            match r {
                Some(resp) => self.history().len() > 0 && self.history().last()
                    == TurnView::Output(resp.blocks@),
                None => self.history().len() == 0,
            },
    {
        proof {
            use_type_invariant(self);
        }
        let n = self.turns.len();
        if n == 0 {
            return None;
        }
        assert(self.history().last() == self.turns@[n - 1]@);
        match &self.turns[n - 1] {
            Turn::Output(response) => Some(response),
            Turn::Input { .. } => None,
        }
    }

    /// Adds a message and makes the agent ready to stream.
    pub fn add_message(self, msg: Prompt) -> (r: TypedAgent<ReadyToStream>)
        ensures
            r.history() == push_input_spec(self.history(), prompt_entry(msg)),
            r.same_setup(&self),
    {
        let TypedAgent { model, system_prompt, turns, tools, state: _ } = self;
        let mut turns = turns;
        push_input(&mut turns, msg.into_entry());
        TypedAgent { model, system_prompt, turns, tools, state: ReadyToStream {} }
    }
}

/// How a stream ended: the token counts and the reason the model gave.
#[derive(Debug, Clone)]
pub struct StreamEnd {
    pub usage: Option<TokenUsage>,
    pub stop_reason: Option<String>,
}

/// What came of streaming a response.
pub enum StreamOutcome {
    /// The model answered in full.
    Completed { response: AssistantResponse, end: StreamEnd },
    /// The stream failed; `partial` is what had arrived.
    Failed { partial: Option<AssistantResponse>, error: LlmError },
    /// The stream was cancelled; `partial` is what had arrived.
    Interrupted { partial: Option<AssistantResponse> },
}

/// The state an agent is in after a stream.
#[allow(inconsistent_fields)]
pub enum StreamResult {
    /// The user interrupted the stream.
    Interrupted(TypedAgent<LlmStreamingInterrupted>),
    /// The stream could not start or failed midway.
    Failed { agent: TypedAgent<LlmStreamingInterrupted>, error: LlmError },
    /// The model answered and called tools.
    WaitingForToolResponses { agent: TypedAgent<WaitingForToolResponses>, end: StreamEnd },
    /// The model answered and called no tool.
    WaitingForUserMessage { agent: TypedAgent<WaitingForUserMessage>, end: StreamEnd },
}

impl TypedAgent<ReadyToStream> {
    /// The messages a stream sends the model: the system prompt, then one
    /// message per turn.
    pub fn request_messages(&self) -> (r: Vec<Message>)
        ensures
            r@.len() == self.history().len() + 1,
            message_view(r@[0]) == MessageView::System(self.system_prompt_spec()),
            forall|i: int|
                0 <= i < self.history().len() ==> message_view(#[trigger] r@[i + 1])
                    == turn_message(self.history()[i]),
    {
        let mut copy: Vec<Turn> = Vec::new();
        let mut i: usize = 0;
        while i < self.turns.len()
            invariant
                i <= self.turns.len(),
                copy@.len() == i,
                forall|j: int| 0 <= j < i ==> (#[trigger] copy@[j])@ == self.turns@[j]@,
            decreases self.turns.len() - i,
        {
            copy.push(self.turns[i].clone());
            i = i + 1;
        }
        let converted = convert_turns_into_messages(copy);
        let mut out: Vec<Message> = Vec::new();
        out.push(Message::System(self.system_prompt.clone()));
        let mut converted = converted;
        let ghost conv = converted@;
        let mut k: usize = 0;
        while converted.len() > 0
            invariant
                k + converted@.len() == conv.len(),
                conv.len() <= usize::MAX,
                converted@ == conv.subrange(k as int, conv.len() as int),
                out@.len() == k + 1,
                message_view(out@[0]) == MessageView::System(self.system_prompt@),
                forall|j: int| 0 <= j < k ==> #[trigger] out@[j + 1] == conv[j],
            decreases converted.len(),
        {
            let m = converted.remove(0);
            assert(m == conv[k as int]);
            out.push(m);
            k = k + 1;
            assert(converted@ =~= conv.subrange(k as int, conv.len() as int));
        }
        assert forall|j: int| 0 <= j < self.history().len() implies message_view(#[trigger] out@[j + 1])
            == turn_message(self.history()[j]) by {
            assert(out@[j + 1] == conv[j]);
            assert(copy@[j]@ == self.turns@[j]@);
        }
        out
    }

    /// The state after the stream: a full response becomes the last turn and
    /// the agent waits for tool results when it called tools, for a message
    /// otherwise; a failed or cancelled stream keeps what had arrived aside.
    pub fn finish_stream(self, outcome: StreamOutcome) -> (r: StreamResult)
        ensures
            match outcome {
                StreamOutcome::Completed { response, end } => match r {
                    StreamResult::WaitingForToolResponses { agent, end: e } => {
                        &&& tool_calls_of(response.blocks@).len() > 0
                        &&& agent.history() == self.history().push(TurnView::Output(response.blocks@))
                        &&& agent.same_setup(&self)
                        &&& e == end
                    },
                    StreamResult::WaitingForUserMessage { agent, end: e } => {
                        &&& tool_calls_of(response.blocks@).len() == 0
                        &&& agent.history() == self.history().push(TurnView::Output(response.blocks@))
                        &&& agent.same_setup(&self)
                        &&& e == end
                    },
                    _ => false,
                },
                StreamOutcome::Failed { partial, error } => match r {
                    StreamResult::Failed { agent, error: e } => {
                        &&& agent.history() == self.history()
                        &&& agent.same_setup(&self)
                        &&& agent.state_spec().partial == partial
                        &&& e == error
                    },
                    _ => false,
                },
                StreamOutcome::Interrupted { partial } => match r {
                    StreamResult::Interrupted(agent) => {
                        &&& agent.history() == self.history()
                        &&& agent.same_setup(&self)
                        &&& agent.state_spec().partial == partial
                    },
                    _ => false,
                },
            },
    {
        let TypedAgent { model, system_prompt, turns, tools, state: _ } = self;
        match outcome {
            StreamOutcome::Completed { response, end } => {
                let calls = response.tool_calls();
                let mut turns = turns;
                let ghost before = turns_view(turns@);
                let ghost blocks = response.blocks@;
                turns.push(Turn::Output(response));
                assert(turns_view(turns@) =~= before.push(TurnView::Output(blocks)));
                assert(last_output_spec(turns_view(turns@)) == Some(blocks));
                if calls.len() == 0 {
                    StreamResult::WaitingForUserMessage {
                        agent: TypedAgent { model, system_prompt, turns, tools, state: WaitingForUserMessage },
                        end,
                    }
                } else {
                    StreamResult::WaitingForToolResponses {
                        agent: TypedAgent { model, system_prompt, turns, tools, state: WaitingForToolResponses },
                        end,
                    }
                }
            },
            StreamOutcome::Failed { partial, error } => StreamResult::Failed {
                agent: TypedAgent { model, system_prompt, turns, tools, state: LlmStreamingInterrupted { partial } },
                error,
            },
            StreamOutcome::Interrupted { partial } => StreamResult::Interrupted(
                TypedAgent { model, system_prompt, turns, tools, state: LlmStreamingInterrupted { partial } },
            ),
        }
    }
}

impl TypedAgent<WaitingForToolResponses> {
    /// The response of the model that requested the tools.
    pub fn previous_message(&self) -> (r: &AssistantResponse)
        ensures
            last_output_spec(self.history()) == Some(r.blocks@),
    {
        proof {
            use_type_invariant(self);
        }
        self.last_output().unwrap()
    }

    fn get_tool_calls(&self) -> (r: Vec<ToolCallRequest>)
        ensures
            r@ == pending_spec(self.history()),
    {
        pending_tool_calls(&self.turns)
    }

    /// The names of the tools requested and still waiting for a result.
    pub fn tool_names_requested(&self) -> (r: Vec<String>)
        ensures
            r@.len() == pending_spec(self.history()).len(),
            forall|i: int| 0 <= i < r@.len() ==> r@[i]@ == (#[trigger] pending_spec(self.history())[i]).name@,
    {
        let calls = self.get_tool_calls();
        let mut names: Vec<String> = Vec::new();
        let mut i: usize = 0;
        while i < calls.len()
            invariant
                i <= calls.len(),
                names@.len() == i,
                forall|j: int| 0 <= j < i ==> names@[j]@ == (#[trigger] calls@[j]).name@,
            decreases calls.len() - i,
        {
            names.push(calls[i].name.clone());
            i = i + 1;
        }
        names
    }

    /// The tool calls requested and still waiting for a result.
    pub fn get_requested_tools(&self) -> (r: Vec<ToolCallRequest>)
        ensures
            r@ == pending_spec(self.history()),
    {
        self.get_tool_calls()
    }

    /// A batch for the tool calls still waiting for a result.
    pub fn get_batch(&self) -> (r: ToolBatch<Resolving>)
        ensures
            r.wf(),
            r.collected().len() == 0,
            forall|id: Seq<char>| #[trigger] has_key(r.pending(), id) <==> exists|i: int|
                0 <= i < pending_spec(self.history()).len() && pending_spec(self.history())[i].id@ == id,
    {
        ToolBatch::new(self.get_tool_calls())
    }

    /// Adds a prompt while waiting for the tools, to steer the model.
    pub fn inject(self, prompt: Prompt) -> (r: Self)
        ensures
            r.history() == push_input_spec(self.history(), prompt_entry(prompt)),
            r.same_setup(&self),
    {
        proof {
            use_type_invariant(&self);
        }
        let TypedAgent { model, system_prompt, turns, tools, state } = self;
        let mut turns = turns;
        let ghost before = turns_view(turns@);
        push_input(&mut turns, prompt.into_entry());
        proof {
            lemma_push_input_keeps_output(before, prompt_entry(prompt));
        }
        TypedAgent { model, system_prompt, turns, tools, state }
    }

    /// Hands the results of a resolved batch to the model, in the batch's
    /// order, and makes the agent ready to stream.
    pub fn add_all_tool_responses(self, responses: ToolBatch<Resolved>) -> (r: TypedAgent<ReadyToStream>)
        ensures
            r.history() == push_inputs_spec(
                self.history(),
                result_entries(responses.collected().map_values(|p: (ToolCallId, ToolResult)| p.1)),
            ),
            r.same_setup(&self),
    {
        let ghost collected = responses.collected();
        let results = responses.drain();
        let mut entries: Vec<InputEntry> = Vec::new();
        let mut i: usize = 0;
        while i < results.len()
            invariant
                i <= results.len(),
                entries@ == result_entries(results@.take(i as int)),
            decreases results.len() - i,
        {
            entries.push(InputEntry::Harness(HarnessEntry::ToolResult(results[i].clone())));
            assert(result_entries(results@.take(i + 1)) =~= result_entries(results@.take(i as int)).push(
                InputEntry::Harness(HarnessEntry::ToolResult(results@[i as int])),
            ));
            i = i + 1;
        }
        assert(results@.take(results.len() as int) =~= collected.map_values(|p: (ToolCallId, ToolResult)| p.1));
        let TypedAgent { model, system_prompt, turns, tools, state: _ } = self;
        let mut turns = turns;
        push_inputs(&mut turns, entries);
        TypedAgent { model, system_prompt, turns, tools, state: ReadyToStream {} }
    }
}

/// The conversation after an interrupted response is kept and `msg` added.
pub open spec fn sealed_history(turns: Seq<TurnView>, partial: Option<AssistantResponse>, msg: Prompt) -> Seq<TurnView> {
    push_input_spec(
        match partial {
            Some(p) => turns.push(TurnView::Output(p.blocks@)),
            None => turns,
        },
        prompt_entry(msg),
    )
}

/// Adding input never loses the most recent response.
pub proof fn lemma_push_input_keeps_output(turns: Seq<TurnView>, entry: InputEntry)
    ensures
        last_output_spec(push_input_spec(turns, entry)) == last_output_spec(turns),
{
    if turns.len() > 0 && turns.last() is Input {
        let t2 = push_input_spec(turns, entry);
        assert(t2.drop_last() =~= turns.drop_last());
    } else {
        let t2 = push_input_spec(turns, entry);
        assert(t2.drop_last() =~= turns);
    }
}

impl TypedAgent<LlmStreamingInterrupted> {
    /// Keeps what had arrived of the response as the model's turn and
    /// continues with `msg`.
    pub fn seal_and_continue(self, msg: Prompt) -> (r: TypedAgent<ReadyToStream>)
        ensures
            r.history() == sealed_history(self.history(), self.state_spec().partial, msg),
            r.same_setup(&self),
    {
        let TypedAgent { model, system_prompt, turns, tools, state } = self;
        let mut turns = turns;
        let ghost before = turns_view(turns@);
        match state.partial {
            Some(partial) => {
                let ghost blocks = partial.blocks@;
                turns.push(Turn::Output(partial));
                assert(turns_view(turns@) =~= before.push(TurnView::Output(blocks)));
            },
            None => {},
        }
        push_input(&mut turns, msg.into_entry());
        TypedAgent { model, system_prompt, turns, tools, state: ReadyToStream {} }
    }

    /// Replaces the last prompt with `msg`, dropping what had arrived of the
    /// response.
    pub fn amend(self, msg: Prompt) -> (r: TypedAgent<ReadyToStream>)
        ensures
            r.history() == (if self.history().len() > 0 && self.history().last() is Input {
                self.history().drop_last()
            } else {
                self.history()
            }).push(TurnView::Input(seq![prompt_entry(msg)])),
            r.same_setup(&self),
    {
        let TypedAgent { model, system_prompt, turns, tools, state: _ } = self;
        let mut turns = turns;
        let ghost before = turns_view(turns@);
        let n = turns.len();
        if n > 0 {
            assert(before.last() == turns@[n - 1]@);
            let is_input = match &turns[n - 1] {
                Turn::Input { .. } => true,
                Turn::Output(_) => false,
            };
            if is_input {
                turns.pop();
                assert(turns_view(turns@) =~= before.drop_last());
            }
        }
        let ghost mid = turns_view(turns@);
        let mut fresh: Vec<InputEntry> = Vec::new();
        fresh.push(msg.into_entry());
        let ghost e = fresh@;
        turns.push(Turn::Input { entries: fresh });
        assert(turns_view(turns@) =~= mid.push(TurnView::Input(e)));
        TypedAgent { model, system_prompt, turns, tools, state: ReadyToStream {} }
    }

    /// Streams the response again, without what had arrived.
    pub fn retry(self) -> (r: TypedAgent<ReadyToStream>)
        ensures
            r.history() == self.history(),
            r.same_setup(&self),
    {
        let TypedAgent { model, system_prompt, turns, tools, state: _ } = self;
        TypedAgent { model, system_prompt, turns, tools, state: ReadyToStream {} }
    }
}

/// How the stored conversation ends, as the persistence owner saw it.
pub enum Tail {
    /// The last turn completed.
    Settled,
    /// The last response was cut off; `partial` is what had arrived.
    Incomplete { partial: Option<AssistantResponse> },
}

/// Driver state reconstructed by the persistence owner.
pub struct RestoreState {
    pub turns: Vec<Turn>,
    pub tail: Tail,
}

/// An agent restored from persistent state.
pub enum RestoredAgent {
    WaitingForUserMessage(TypedAgent<WaitingForUserMessage>),
    WaitingForToolResponses(TypedAgent<WaitingForToolResponses>),
    Interrupted(TypedAgent<LlmStreamingInterrupted>),
}

/// Restores an agent into the state the stored conversation calls for: an
/// incomplete tail means an interrupted stream; otherwise the agent waits
/// for tool results when the last response called tools, and for a message
/// when it did not or when there is no conversation yet.
pub fn restore(model: LlmModel, system_prompt: String, tools: Vec<ToolDefinition>, state: RestoreState) -> (r: RestoredAgent)
    requires
        state.tail is Settled ==> settled(turns_view(state.turns@)),
    ensures
        match state.tail {
            Tail::Incomplete { partial } => match r {
                RestoredAgent::Interrupted(a) => a.history() == turns_view(state.turns@)
                    && a.state_spec().partial == partial && a.model_spec() == model
                    && a.system_prompt_spec() == system_prompt@ && a.tools_spec() == tools@,
                _ => false,
            },
            Tail::Settled => {
                let tv = turns_view(state.turns@);
                let awaiting = tv.len() > 0 && tool_calls_of(tv.last()->Output_0).len() > 0;
                match r {
                    RestoredAgent::WaitingForToolResponses(a) => awaiting && a.history() == tv
                        && a.model_spec() == model && a.system_prompt_spec() == system_prompt@
                        && a.tools_spec() == tools@,
                    RestoredAgent::WaitingForUserMessage(a) => !awaiting && a.history() == tv
                        && a.model_spec() == model && a.system_prompt_spec() == system_prompt@
                        && a.tools_spec() == tools@,
                    _ => false,
                }
            },
        },
{
    let RestoreState { turns, tail } = state;
    let ghost tv = turns_view(turns@);
    match tail {
        Tail::Incomplete { partial } => {
            return RestoredAgent::Interrupted(TypedAgent {
                model,
                system_prompt,
                turns,
                tools,
                state: LlmStreamingInterrupted { partial },
            });
        },
        Tail::Settled => {},
    }
    let n = turns.len();
    let awaiting_tools = if n == 0 {
        false
    } else {
        assert(tv.last() == turns@[n - 1]@);
        match &turns[n - 1] {
            Turn::Output(response) => response.tool_calls().len() > 0,
            Turn::Input { .. } => false,
        }
    };
    if awaiting_tools {
        assert(last_output_spec(tv) is Some);
        RestoredAgent::WaitingForToolResponses(TypedAgent {
            model,
            system_prompt,
            turns,
            tools,
            state: WaitingForToolResponses,
        })
    } else {
        RestoredAgent::WaitingForUserMessage(TypedAgent {
            model,
            system_prompt,
            turns,
            tools,
            state: WaitingForUserMessage,
        })
    }
}

/// The externally visible state of an [`Agent`].
#[derive(Debug, Clone, Copy, PartialEq, Eq, Structural)]
pub enum AgentStatus {
    WaitingForUserMessage,
    WaitingForToolResponses,
    Interrupted,
    Failed,
}

enum AgentInner {
    WaitingForUserMessage(TypedAgent<WaitingForUserMessage>),
    WaitingForToolResponses(TypedAgent<WaitingForToolResponses>),
    Interrupted(TypedAgent<LlmStreamingInterrupted>),
    Failed(TypedAgent<LlmStreamingInterrupted>, LlmError),
}

/// The driver's transitions behind one type, checked when called rather than
/// by the type system.
pub struct Agent {
    inner: AgentInner,
}

/// A rejected transition, with the agent unchanged.
pub struct InvalidTransition {
    agent: Agent,
    expected: AgentStatus,
}

impl Agent {
    pub closed spec fn status_spec(&self) -> AgentStatus {
        match self.inner {
            AgentInner::WaitingForUserMessage(_) => AgentStatus::WaitingForUserMessage,
            AgentInner::WaitingForToolResponses(_) => AgentStatus::WaitingForToolResponses,
            AgentInner::Interrupted(_) => AgentStatus::Interrupted,
            AgentInner::Failed(_, _) => AgentStatus::Failed,
        }
    }

    /// The conversation of the agent.
    pub closed spec fn history(&self) -> Seq<TurnView> {
        match self.inner {
            AgentInner::WaitingForUserMessage(a) => a.history(),
            AgentInner::WaitingForToolResponses(a) => a.history(),
            AgentInner::Interrupted(a) => a.history(),
            AgentInner::Failed(a, _) => a.history(),
        }
    }

    /// A new agent waiting for its first message.
    pub fn new(model: LlmModel, system_prompt: String, tools: Vec<ToolDefinition>) -> (r: Self)
        ensures
            r.status_spec() == AgentStatus::WaitingForUserMessage,
            r.history().len() == 0,
    {
        Agent { inner: AgentInner::WaitingForUserMessage(TypedAgent::new(model, system_prompt, tools)) }
    }

    /// The agent's state after a stream.
    pub fn from_stream_result(result: StreamResult) -> (r: Self)
        ensures
            r.status_spec() == match result {
                StreamResult::Interrupted(_) => AgentStatus::Interrupted,
                StreamResult::Failed { .. } => AgentStatus::Failed,
                StreamResult::WaitingForToolResponses { .. } => AgentStatus::WaitingForToolResponses,
                StreamResult::WaitingForUserMessage { .. } => AgentStatus::WaitingForUserMessage,
            },
    {
        let inner = match result {
            StreamResult::Interrupted(agent) => AgentInner::Interrupted(agent),
            StreamResult::Failed { agent, error } => AgentInner::Failed(agent, error),
            StreamResult::WaitingForToolResponses { agent, end: _ } => AgentInner::WaitingForToolResponses(agent),
            StreamResult::WaitingForUserMessage { agent, end: _ } => AgentInner::WaitingForUserMessage(agent),
        };
        Agent { inner }
    }

    /// The state the agent is in.
    pub fn status(&self) -> (r: AgentStatus)
        ensures
            r == self.status_spec(),
    {
        match &self.inner {
            AgentInner::WaitingForUserMessage(_) => AgentStatus::WaitingForUserMessage,
            AgentInner::WaitingForToolResponses(_) => AgentStatus::WaitingForToolResponses,
            AgentInner::Interrupted(_) => AgentStatus::Interrupted,
            AgentInner::Failed(_, _) => AgentStatus::Failed,
        }
    }

    /// The batch of tool calls waiting for results, when the agent waits for
    /// them.
    pub fn pending_tools(&self) -> (r: Option<ToolBatch<Resolving>>)
        ensures
            r is Some <==> self.status_spec() == AgentStatus::WaitingForToolResponses,
            r matches Some(b) ==> b.wf() && b.collected().len() == 0,
    {
        match &self.inner {
            AgentInner::WaitingForToolResponses(agent) => Some(agent.get_batch()),
            _ => None,
        }
    }

    /// Adds a message when the agent waits for one.
    pub fn send_message(self, message: UserPrompt) -> (r: Result<TypedAgent<ReadyToStream>, InvalidTransition>)
        ensures
            match r {
                Ok(a) => self.status_spec() == AgentStatus::WaitingForUserMessage
                    && a.history() == push_input_spec(self.history(), InputEntry::User(message)),
                Err(e) => self.status_spec() != AgentStatus::WaitingForUserMessage
                    && e.rejected_status() == self.status_spec()
                    && e.expected_spec() == AgentStatus::WaitingForUserMessage,
            },
    {
        match self.inner {
            AgentInner::WaitingForUserMessage(agent) => Ok(agent.add_message(Prompt::User(message))),
            other => Err(InvalidTransition { agent: Agent { inner: other }, expected: AgentStatus::WaitingForUserMessage }),
        }
    }

    /// Hands tool results back when the agent waits for them.
    pub fn submit_tool_results(self, results: ToolBatch<Resolved>) -> (r: Result<TypedAgent<ReadyToStream>, InvalidTransition>)
        ensures
            match r {
                Ok(a) => self.status_spec() == AgentStatus::WaitingForToolResponses
                    && a.history() == push_inputs_spec(
                        self.history(),
                        result_entries(results.collected().map_values(|p: (ToolCallId, ToolResult)| p.1)),
                    ),
                Err(e) => self.status_spec() != AgentStatus::WaitingForToolResponses
                    && e.rejected_status() == self.status_spec()
                    && e.expected_spec() == AgentStatus::WaitingForToolResponses,
            },
    {
        match self.inner {
            AgentInner::WaitingForToolResponses(agent) => Ok(agent.add_all_tool_responses(results)),
            other => Err(InvalidTransition { agent: Agent { inner: other }, expected: AgentStatus::WaitingForToolResponses }),
        }
    }

    /// Continues an interrupted response with a message, keeping what had
    /// arrived of the response.
    pub fn continue_after_interruption(self, message: UserPrompt) -> (r: Result<TypedAgent<ReadyToStream>, InvalidTransition>)
        ensures
            r is Ok <==> self.status_spec() == AgentStatus::Interrupted,
            r matches Err(e) ==> e.rejected_status() == self.status_spec()
                && e.expected_spec() == AgentStatus::Interrupted,
    {
        match self.inner {
            AgentInner::Interrupted(agent) => Ok(agent.seal_and_continue(Prompt::User(message))),
            other => Err(InvalidTransition { agent: Agent { inner: other }, expected: AgentStatus::Interrupted }),
        }
    }

    /// Streams a failed response again from the start of the model's turn.
    pub fn retry_after_failure(self) -> (r: Result<TypedAgent<ReadyToStream>, InvalidTransition>)
        ensures
            match r {
                Ok(a) => self.status_spec() == AgentStatus::Failed && a.history() == self.history(),
                Err(e) => self.status_spec() != AgentStatus::Failed
                    && e.rejected_status() == self.status_spec()
                    && e.expected_spec() == AgentStatus::Failed,
            },
    {
        match self.inner {
            AgentInner::Failed(agent, _) => Ok(agent.retry()),
            other => Err(InvalidTransition { agent: Agent { inner: other }, expected: AgentStatus::Failed }),
        }
    }

    /// Continues after a failed response with a message.
    pub fn continue_after_failure(self, message: UserPrompt) -> (r: Result<TypedAgent<ReadyToStream>, InvalidTransition>)
        ensures
            r is Ok <==> self.status_spec() == AgentStatus::Failed,
            r matches Err(e) ==> e.rejected_status() == self.status_spec()
                && e.expected_spec() == AgentStatus::Failed,
    {
        match self.inner {
            AgentInner::Failed(agent, _) => Ok(agent.seal_and_continue(Prompt::User(message))),
            other => Err(InvalidTransition { agent: Agent { inner: other }, expected: AgentStatus::Failed }),
        }
    }
}

impl InvalidTransition {
    pub closed spec fn rejected_status(&self) -> AgentStatus {
        self.agent.status_spec()
    }

    pub closed spec fn expected_spec(&self) -> AgentStatus {
        self.expected
    }

    /// The agent, unchanged.
    pub fn agent(self) -> (r: Agent)
        ensures
            r.status_spec() == self.rejected_status(),
    {
        self.agent
    }

    /// The state the agent was in.
    pub fn actual(&self) -> (r: AgentStatus)
        ensures
            r == self.rejected_status(),
    {
        self.agent.status()
    }

    /// The state the transition needed.
    pub fn expected(&self) -> (r: AgentStatus)
        ensures
            r == self.expected_spec(),
    {
        self.expected
    }
}

/// Input added after the model's turn goes to one new input turn.
pub proof fn lemma_push_inputs_after_output(turns: Seq<TurnView>, entries: Seq<InputEntry>)
    requires
        settled(turns),
        entries.len() > 0,
    ensures
        push_inputs_spec(turns, entries) == turns.push(TurnView::Input(entries)),
    decreases entries.len(),
{
    if entries.len() == 1 {
        assert(entries.drop_last() =~= Seq::<InputEntry>::empty());
        assert(push_inputs_spec(turns, entries.drop_last()) == turns);
        assert(push_inputs_spec(turns, entries) == push_input_spec(turns, entries.last()));
        assert(seq![entries.last()] =~= entries);
    } else {
        lemma_push_inputs_after_output(turns, entries.drop_last());
        let mid = turns.push(TurnView::Input(entries.drop_last()));
        assert(push_inputs_spec(turns, entries) == push_input_spec(mid, entries.last()));
        assert(mid.drop_last() =~= turns);
        assert(mid.last() == TurnView::Input(entries.drop_last()));
        assert(entries.drop_last().push(entries.last()) =~= entries);
        assert(push_input_spec(mid, entries.last()) == turns.push(TurnView::Input(entries)));
    }
}

/// Every call that `entries` answer leaves nothing unanswered.
pub proof fn lemma_all_answered(calls: Seq<ToolCallRequest>, entries: Seq<InputEntry>)
    requires
        forall|i: int| 0 <= i < calls.len() ==> answered(entries, (#[trigger] calls[i]).id@),
    ensures
        unanswered(calls, entries) == Seq::<ToolCallRequest>::empty(),
    decreases calls.len(),
{
    if calls.len() > 0 {
        let rest = calls.drop_last();
        assert forall|i: int| 0 <= i < rest.len() implies answered(entries, (#[trigger] rest[i]).id@) by {
            assert(rest[i] == calls[i]);
        }
        lemma_all_answered(rest, entries);
        assert(answered(entries, calls[calls.len() - 1].id@));
    }
}

/// Handing back a result for every call of the model's last response leaves
/// no call waiting.
pub proof fn law_results_answer_pending(turns: Seq<TurnView>, results: Seq<ToolResult>)
    requires
        turns.len() > 0,
        turns.last() is Output,
        results.len() > 0,
        forall|i: int| 0 <= i < tool_calls_of(turns.last()->Output_0).len() ==> exists|j: int|
            0 <= j < results.len() && (#[trigger] results[j]).tool_call_id@
                == (#[trigger] tool_calls_of(turns.last()->Output_0)[i]).id@,
    ensures
        pending_spec(push_inputs_spec(turns, result_entries(results))) == Seq::<ToolCallRequest>::empty(),
{
    let entries = result_entries(results);
    lemma_push_inputs_after_output(turns, entries);
    let after = turns.push(TurnView::Input(entries));
    assert(after[after.len() - 2] == turns.last());
    let calls = tool_calls_of(turns.last()->Output_0);
    assert forall|i: int| 0 <= i < calls.len() implies answered(entries, (#[trigger] calls[i]).id@) by {
        let j = choose|j: int| 0 <= j < results.len() && (#[trigger] results[j]).tool_call_id@ == calls[i].id@;
        assert(answers(entries[j], calls[i].id@));
    }
    lemma_all_answered(calls, entries);
}

} // verus!
