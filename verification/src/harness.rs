//! The session harness: the loop that drives an agent through a session.
//!
//! The loop itself, with its channels, streams and tool runs, belongs to the
//! host. What it decides lives here: [`Harness::step`] takes the current
//! state and the next message, and returns the next state together with the
//! effects the host has to carry out.

use vstd::prelude::*;
use crate::agent::{
    LlmStreamingInterrupted, Prompt, ReadyToStream, RestoredAgent, StreamEnd, StreamResult, TurnView, TypedAgent,
    WaitingForToolResponses, WaitingForUserMessage, pending_spec, prompt_entry, push_input_spec,
    push_inputs_spec, result_entries,
    restore, sealed_history, settled, turns_view,
};
use crate::provider::{
    AssistantResponse, Block, LlmModel, StreamEvent, TokenUsage, ToolCallRequest, ToolDefinition,
    ToolResult,
};
use crate::record::{
    AssistantTurnOutcome, AuthorizationSource, EventId, EventRecord, RecordableEvent, RecordableTurn, RecordedInput,
    SessionRecorder, StopReason, ToolCallResult, ToolDecision, TurnId, TurnRecord, event_added,
    event_recorded,
    decision_of, input_added, is_completed, outcome_text, is_incomplete, is_input, last_turn_index, prompt_input, restores,
    settled_turns, tail_restores, turn_restores,
};
use crate::shell_policy::{BashAutoApprovalPolicy, approves};
use crate::tool_batch::{
    Resolution, Resolved, Resolving, ToolBatch, ToolCallId, answers_exactly, has_key, keys_unique,
};

verus! {

/// A policy that lets some tool calls run without asking the user.
pub trait AutoApprovalPolicy {
    /// Whether the policy lets `call` run.
    spec fn approves_call(&self, call: ToolCallRequest) -> bool;

    /// Whether the policy lets `call` run.
    fn is_approved(&self, call: &ToolCallRequest) -> (r: bool)
        ensures
            r == self.approves_call(*call),
    ;
}

impl AutoApprovalPolicy for BashAutoApprovalPolicy {
    open spec fn approves_call(&self, call: ToolCallRequest) -> bool {
        approves(self.cwd(), call.name@, call.arguments@)
    }

    fn is_approved(&self, call: &ToolCallRequest) -> (r: bool) {
        BashAutoApprovalPolicy::is_approved(self, call)
    }
}

/// The auto-approval policies of a session: a call runs without asking when
/// some policy approves it.
pub struct AutoApprovalPolicies<P: AutoApprovalPolicy> {
    pub policies: Vec<P>,
}

/// Whether some policy of `policies` approves `call`.
pub open spec fn some_policy_approves<P: AutoApprovalPolicy>(policies: Seq<P>, call: ToolCallRequest) -> bool {
    exists|i: int| 0 <= i < policies.len() && (#[trigger] policies[i]).approves_call(call)
}

/// The ids of the calls of `calls` that no policy approves, in order.
pub open spec fn needing_consent<P: AutoApprovalPolicy>(policies: Seq<P>, calls: Seq<ToolCallRequest>) -> Seq<Seq<char>>
    decreases calls.len(),
{
    if calls.len() == 0 {
        seq![]
    } else {
        let rest = needing_consent(policies, calls.drop_last());
        if some_policy_approves(policies, calls.last()) {
            rest
        } else {
            rest.push(calls.last().id@)
        }
    }
}

impl<P: AutoApprovalPolicy> AutoApprovalPolicies<P> {
    pub fn new(policies: Vec<P>) -> (r: Self)
        ensures
            r.policies@ == policies@,
    {
        AutoApprovalPolicies { policies }
    }

    /// Whether some policy approves `call`.
    pub fn is_approved(&self, call: &ToolCallRequest) -> (r: bool)
        ensures
            r == some_policy_approves(self.policies@, *call),
    {
        let mut i: usize = 0;
        while i < self.policies.len()
            invariant
                i <= self.policies.len(),
                forall|j: int| 0 <= j < i ==> !(#[trigger] self.policies@[j]).approves_call(*call),
            decreases self.policies.len() - i,
        {
            if self.policies[i].is_approved(call) {
                return true;
            }
            i = i + 1;
        }
        false
    }

    /// Whether every call of `calls` is approved.
    pub fn will_approve_all(&self, calls: &Vec<ToolCallRequest>) -> (r: bool)
        ensures
            r == forall|i: int| 0 <= i < calls@.len() ==> some_policy_approves(self.policies@, #[trigger] calls@[i]),
    {
        let mut i: usize = 0;
        while i < calls.len()
            invariant
                i <= calls.len(),
                forall|j: int| 0 <= j < i ==> some_policy_approves(self.policies@, #[trigger] calls@[j]),
            decreases calls.len() - i,
        {
            if !self.is_approved(&calls[i]) {
                return false;
            }
            i = i + 1;
        }
        true
    }

    /// The ids of the calls that need the user's consent, in order.
    pub fn ids_needing_consent(&self, calls: &Vec<ToolCallRequest>) -> (r: Vec<String>)
        ensures
            r@.len() == needing_consent(self.policies@, calls@).len(),
            forall|i: int| 0 <= i < r@.len() ==> (#[trigger] r@[i])@ == needing_consent(self.policies@, calls@)[i],
    {
        let mut out: Vec<String> = Vec::new();
        let mut i: usize = 0;
        while i < calls.len()
            invariant
                i <= calls.len(),
                out@.len() == needing_consent(self.policies@, calls@.take(i as int)).len(),
                forall|j: int| 0 <= j < out@.len() ==> (#[trigger] out@[j])@ == needing_consent(
                    self.policies@,
                    calls@.take(i as int),
                )[j],
            decreases calls.len() - i,
        {
            assert(calls@.take(i + 1).drop_last() =~= calls@.take(i as int));
            if !self.is_approved(&calls[i]) {
                out.push(calls[i].id.clone());
            }
            i = i + 1;
        }
        assert(calls@.take(calls.len() as int) =~= calls@);
        out
    }
}

/// What the user decided for one tool call.
#[derive(Debug)]
pub struct UserDecision {
    pub approved: bool,
    pub message: Option<String>,
}

/// The user's decisions for the calls that need consent, some of them still
/// open.
#[derive(Debug)]
pub struct UserToolDecisions {
    entries: Vec<(String, Option<UserDecision>)>,
}

/// The user's decisions once every call has one.
#[derive(Debug)]
pub struct AllDecided {
    entries: Vec<(String, UserDecision)>,
}

/// Where recording a decision leaves the decisions.
pub enum DecisionProgress {
    Pending(UserToolDecisions),
    AllDecided(AllDecided),
}

/// The decisions, decided or not, that a progress holds.
pub open spec fn progress_entries(p: DecisionProgress) -> Seq<(Seq<char>, Option<(bool, Option<String>)>)> {
    match p {
        DecisionProgress::Pending(d) => d.entries_spec(),
        DecisionProgress::AllDecided(a) => a.entries_spec(),
    }
}

/// Whether entry `i` is the first undecided entry for `id`.
pub open spec fn first_open(es: Seq<(Seq<char>, Option<(bool, Option<String>)>)>, id: Seq<char>, i: int) -> bool {
    &&& es[i].0 == id
    &&& es[i].1 is None
    &&& forall|j: int| 0 <= j < i ==> !((#[trigger] es[j]).0 == id && es[j].1 is None)
}

impl UserToolDecisions {
    /// The ids with their decision, in the order they were asked for.
    pub closed spec fn entries_spec(&self) -> Seq<(Seq<char>, Option<(bool, Option<String>)>)> {
        self.entries@.map_values(|e: (String, Option<UserDecision>)| (e.0@, match e.1 {
            Some(d) => Some((d.approved, d.message)),
            None => None,
        }))
    }

    /// No call decided yet.
    pub fn new_undecided(ids: Vec<String>) -> (r: Self)
        ensures
            r.entries_spec().len() == ids@.len(),
            forall|i: int| 0 <= i < ids@.len() ==> (#[trigger] r.entries_spec()[i]) == (ids@[i]@, None::<(bool, Option<String>)>),
    {
        let mut entries: Vec<(String, Option<UserDecision>)> = Vec::new();
        let mut ids = ids;
        let ghost all = ids@;
        let total = ids.len();
        while ids.len() > 0
            invariant
                entries@.len() + ids@.len() == all.len(),
                all.len() == total,
                ids@ == all.subrange(entries@.len() as int, all.len() as int),
                forall|j: int| 0 <= j < entries@.len() ==> (#[trigger] entries@[j]).0@ == all[j]@ && entries@[j].1 is None,
            decreases ids.len(),
        {
            let id = ids.remove(0);
            assert(id == all[entries@.len() as int]);
            entries.push((id, None));
            assert(ids@ =~= all.subrange(entries@.len() as int, all.len() as int));
        }
        UserToolDecisions { entries }
    }

    /// Whether `id` is asked for and not decided yet.
    pub fn is_undecided(&self, id: &String) -> (r: bool)
        ensures
            r == exists|i: int| 0 <= i < self.entries_spec().len() && (#[trigger] self.entries_spec()[i]).0 == id@
                && self.entries_spec()[i].1 is None,
    {
        let mut i: usize = 0;
        while i < self.entries.len()
            invariant
                i <= self.entries.len(),
                forall|j: int| 0 <= j < i ==> !((#[trigger] self.entries_spec()[j]).0 == id@ && self.entries_spec()[j].1 is None),
            decreases self.entries.len() - i,
        {
            if self.entries[i].0 == *id {
                match &self.entries[i].1 {
                    None => {
                        assert(self.entries_spec()[i as int].0 == id@);
                        return true;
                    },
                    Some(_) => {},
                }
            }
            assert(self.entries_spec()[i as int].0 == self.entries@[i as int].0@);
            i = i + 1;
        }
        false
    }

    /// Records the user's decision for `id`; an id that is not asked for, or
    /// is decided already, changes nothing. Once every call is decided the
    /// decisions are complete.
    pub fn record_decision(self, id: String, approved: bool, message: Option<String>) -> (r: DecisionProgress)
        ensures
            progress_entries(r).len() == self.entries_spec().len(),
            forall|i: int| 0 <= i < self.entries_spec().len() ==> (#[trigger] progress_entries(r)[i]).0
                == self.entries_spec()[i].0,
            forall|i: int| 0 <= i < self.entries_spec().len() ==> (#[trigger] progress_entries(r)[i]).1
                == (if first_open(self.entries_spec(), id@, i) {
                    Some((approved, message))
                } else {
                    self.entries_spec()[i].1
                }),
            r is AllDecided <==> forall|i: int| 0 <= i < progress_entries(r).len() ==> (#[trigger] progress_entries(r)[i]).1 is Some,
    {
        let ghost before = self.entries_spec();
        let UserToolDecisions { entries } = self;
        let mut entries = entries;
        let ghost all = entries@;
        let total = entries.len();
        let mut out: Vec<(String, Option<UserDecision>)> = Vec::new();
        let mut found = false;
        let mut complete = true;
        while entries.len() > 0
            invariant
                out@.len() + entries@.len() == all.len(),
                all.len() == total,
                before.len() == all.len(),
                forall|i: int| 0 <= i < all.len() ==> (#[trigger] before[i]).0 == all[i].0@,
                forall|i: int| 0 <= i < all.len() ==> (#[trigger] before[i]).1 == match all[i].1 {
                    Some(d) => Some((d.approved, d.message)),
                    None => None,
                },
                entries@ == all.subrange(out@.len() as int, all.len() as int),
                found == exists|j: int| 0 <= j < out@.len() && (#[trigger] before[j]).0 == id@ && before[j].1 is None,
                complete == forall|j: int| 0 <= j < out@.len() ==> (#[trigger] out@[j]).1 is Some,
                forall|i: int| 0 <= i < out@.len() ==> (#[trigger] out@[i]).0 == all[i].0,
                forall|i: int| 0 <= i < out@.len() ==> match (#[trigger] out@[i]).1 {
                    Some(d) => Some((d.approved, d.message)),
                    None => None::<(bool, Option<String>)>,
                } == (if first_open(before, id@, i) {
                    Some((approved, message))
                } else {
                    before[i].1
                }),
            decreases entries.len(),
        {
            let ghost k = out@.len() as int;
            let ghost old_out = out@;
            let (eid, d) = entries.remove(0);
            assert(all[k] == (eid, d));
            assert(before[k].0 == eid@);
            assert(before[k].1 is None <==> d is None);
            let decided = match d {
                Some(x) => Some(x),
                None => {
                    if !found && eid == id {
                        let m = match &message {
                            Some(text) => Some(text.clone()),
                            None => None,
                        };
                        found = true;
                        Some(UserDecision { approved, message: m })
                    } else {
                        None
                    }
                },
            };
            if decided.is_none() {
                complete = false;
            }
            out.push((eid, decided));
            assert(out@ == old_out.push(out@[k]));
            assert(forall|j: int| 0 <= j < k ==> out@[j] == old_out[j]);
            assert(entries@ =~= all.subrange(out@.len() as int, all.len() as int));
        }
        if !complete {
            proof {
                let after = UserToolDecisions { entries: out }.entries_spec();
                assert forall|i: int| 0 <= i < before.len() implies (#[trigger] after[i]) == (out@[i].0@, match out@[i].1 {
                    Some(d) => Some((d.approved, d.message)),
                    None => None::<(bool, Option<String>)>,
                }) by {}
                let j = choose|j: int| 0 <= j < out@.len() && !((#[trigger] out@[j]).1 is Some);
                assert(after[j].1 is None);
            }
            return DecisionProgress::Pending(UserToolDecisions { entries: out });
        }
        let ghost full = out@;
        let mut done: Vec<(String, UserDecision)> = Vec::new();
        let mut out = out;
        while out.len() > 0
            invariant
                done@.len() + out@.len() == full.len(),
                full.len() == total,
                out@ == full.subrange(done@.len() as int, full.len() as int),
                forall|j: int| 0 <= j < full.len() ==> (#[trigger] full[j]).1 is Some,
                forall|j: int| 0 <= j < done@.len() ==> (#[trigger] done@[j]).0 == full[j].0
                    && Some(done@[j].1) == full[j].1,
            decreases out.len(),
        {
            let ghost k = done@.len() as int;
            let (eid, d) = out.remove(0);
            assert(full[k] == (eid, d));
            match d {
                Some(x) => done.push((eid, x)),
                None => {
                    assert(false);
                },
            }
            assert(out@ =~= full.subrange(done@.len() as int, full.len() as int));
        }
        let r = AllDecided { entries: done };
        proof {
            let after = r.entries_spec();
            assert forall|i: int| 0 <= i < before.len() implies (#[trigger] after[i]).0 == before[i].0 by {
                assert(done@[i].0 == full[i].0);
            }
            assert forall|i: int| 0 <= i < before.len() implies (#[trigger] after[i]).1 == (
                if first_open(before, id@, i) {
                    Some((approved, message))
                } else {
                    before[i].1
                }) by {
                assert(Some(done@[i].1) == full[i].1);
            }
        }
        DecisionProgress::AllDecided(r)
    }
}

impl AllDecided {
    /// The ids with their decision, in the order they were asked for.
    pub closed spec fn entries_spec(&self) -> Seq<(Seq<char>, Option<(bool, Option<String>)>)> {
        self.entries@.map_values(|e: (String, UserDecision)| (e.0@, Some((e.1.approved, e.1.message))))
    }
}

/// How the calls of a tool run were authorized.
pub enum ToolAuthorization {
    /// Every call was approved by a policy.
    AllAutoApproved,
    /// The user decided the calls that needed consent; the others were
    /// approved by a policy.
    PerTool(AllDecided),
}

/// The index of the first entry of `es` from `i` on with id `id`, or the
/// length of `es`.
pub open spec fn find_from(es: Seq<(Seq<char>, Option<(bool, Option<String>)>)>, id: Seq<char>, i: int) -> int
    decreases es.len() - i,
{
    if i < 0 || i >= es.len() {
        es.len() as int
    } else if es[i].0 == id {
        i
    } else {
        find_from(es, id, i + 1)
    }
}

/// `None` when the call `id` may run; otherwise the user's message, if they
/// gave one, for denying it.
pub open spec fn denial_spec(auth: ToolAuthorization, id: Seq<char>) -> Option<Option<String>> {
    match auth {
        ToolAuthorization::AllAutoApproved => None,
        ToolAuthorization::PerTool(all) => {
            let es = all.entries_spec();
            let k = find_from(es, id, 0);
            if k < es.len() {
                match es[k].1 {
                    Some((true, _)) => None,
                    Some((false, message)) => Some(message),
                    None => None,
                }
            } else {
                None
            }
        },
    }
}

impl ToolAuthorization {
    /// `None` when the call `id` may run; otherwise the user's message, if
    /// they gave one, for denying it. The first decision for `id` counts.
    pub fn denial_reason(&self, id: &String) -> (r: Option<Option<String>>)
        ensures
            r == denial_spec(*self, id@),
    {
        match self {
            ToolAuthorization::AllAutoApproved => None,
            ToolAuthorization::PerTool(all) => {
                let ghost es = all.entries_spec();
                let mut i: usize = 0;
                while i < all.entries.len()
                    invariant
                        i <= all.entries.len(),
                        es == all.entries_spec(),
                        *self == ToolAuthorization::PerTool(*all),
                        find_from(es, id@, 0) == find_from(es, id@, i as int),
                    decreases all.entries.len() - i,
                {
                    assert(es[i as int].0 == all.entries@[i as int].0@);
                    if all.entries[i].0 == *id {
                        let d = &all.entries[i].1;
                        assert(es[i as int].1 == Some((d.approved, d.message)));
                        assert(find_from(es, id@, i as int) == i as int);
                        if d.approved {
                            return None;
                        } else {
                            let m = match &d.message {
                                Some(text) => Some(text.clone()),
                                None => None,
                            };
                            return Some(m);
                        }
                    }
                    i = i + 1;
                }
                None
            },
        }
    }
}

/// The results of `calls` when their run was cut short: every call was
/// interrupted.
pub fn interrupted_results(calls: &Vec<ToolCallRequest>) -> (r: Vec<ToolCallResult>)
    ensures
        r@.len() == calls@.len(),
        forall|i: int| 0 <= i < r@.len() ==> (#[trigger] r@[i]).tool_call_id@ == calls@[i].id@
            && r@[i].outcome is Interrupted,
{
    let mut out: Vec<ToolCallResult> = Vec::new();
    let mut i: usize = 0;
    while i < calls.len()
        invariant
            i <= calls.len(),
            out@.len() == i,
            forall|j: int| 0 <= j < i ==> (#[trigger] out@[j]).tool_call_id@ == calls@[j].id@
                && out@[j].outcome is Interrupted,
        decreases calls.len() - i,
    {
        out.push(ToolCallResult {
            tool_call_id: ToolCallId::from_string(calls[i].id.clone()),
            outcome: crate::record::ToolOutcome::Interrupted,
        });
        i = i + 1;
    }
    out
}

/// What the session tells its host.
pub enum SessionEvent {
    /// These calls need the user's consent before they run.
    ToolConsentRequired { tool_calls: Vec<ToolCallRequest> },
    /// An event of the model's stream.
    StreamEvent(StreamEvent),
    /// The model's stream failed.
    StreamError { error: String },
    /// The model finished a turn.
    TurnComplete { usage: Option<TokenUsage>, stop_reason: Option<String> },
    /// A tool call finished.
    ToolCallResult(ToolCallResult),
    /// The stream was interrupted.
    Interrupted,
    /// The session has ended.
    Closed,
}

/// Why a snapshot could not be taken.
#[derive(Debug, Clone, Copy, PartialEq, Eq, Structural)]
pub enum SnapshotError {
    /// The session has ended.
    SessionClosed,
}

impl SnapshotError {
    /// The error in words.
    pub fn message(&self) -> (r: String)
        ensures
            r@ == "session is closed"@,
    {
        match self {
            SnapshotError::SessionClosed => "session is closed".to_owned(),
        }
    }
}

/// A command from the host.
pub enum SessionCommand {
    /// End the session.
    Stop,
    /// Reply with a copy of the record.
    Snapshot,
    /// A message from the user or the harness.
    SendMessage(Prompt),
    /// Interrupt the stream or the tool run under way.
    Interrupt,
    /// The user's decision for a tool call that needed consent.
    ToolDecision { id: String, approved: bool, message: Option<String> },
}

/// A message the session loop receives.
pub enum LoopMessage {
    Cmd(SessionCommand),
    /// A stream the host ran has ended.
    StreamResult(StreamResult),
    /// A tool run the host carried out has ended; `results` hold one result
    /// per call, interrupted ones included.
    ToolBatchExecutionResult { batch: ToolBatch<Resolving>, results: Vec<ToolCallResult> },
}

/// What the host has to do after a step.
pub enum Effect {
    /// Send this event to the session's observers.
    Emit(SessionEvent),
    /// Stream the model's response for this agent, and report the result.
    StartStream(TypedAgent<ReadyToStream>),
    /// Cancel the stream under way.
    CancelStream,
    /// Run these calls as authorized, and report their results with the batch.
    RunTools { batch: ToolBatch<Resolving>, calls: Vec<ToolCallRequest>, authorization: ToolAuthorization },
    /// Cancel the tool run under way.
    CancelTools,
    /// Reply to a snapshot request with a copy of the record.
    ReplySnapshot,
    /// Acknowledge a stop request; the loop ends.
    Stop,
}

/// Where the session stands.
#[allow(inconsistent_fields)]
pub enum HarnessState {
    WaitingForUserMessage { agent: TypedAgent<WaitingForUserMessage> },
    /// Some calls need the user's consent.
    NeedToolConsent { agent: TypedAgent<WaitingForToolResponses>, user_tool_decisions: UserToolDecisions },
    /// The host runs the calls.
    ToolCallsAreRunning { agent: TypedAgent<WaitingForToolResponses> },
    /// The tool run was asked to stop; its results are still to come.
    InterruptingToolExecution { agent: TypedAgent<WaitingForToolResponses> },
    /// The host streams the model's response; the agent is with the stream.
    Streaming,
    /// The stream was asked to stop; a message sent meanwhile waits here.
    InterruptingStream { pending_message: Option<Prompt> },
    StreamingInterrupted { agent: TypedAgent<LlmStreamingInterrupted> },
    StreamingFailed { agent: TypedAgent<LlmStreamingInterrupted> },
    /// The session has ended.
    Stopped,
}

/// The decisions asked for the calls `ids`.
pub open spec fn undecided(ids: Seq<Seq<char>>) -> Seq<(Seq<char>, Option<(bool, Option<String>)>)> {
    ids.map_values(|id: Seq<char>| (id, None::<(bool, Option<String>)>))
}

/// Whether a recorded session fits the state: while a stream runs the last
/// turn is an input, and while calls wait for consent it is the completed
/// response that requested them.
pub open spec fn record_fits(state: HarnessState, recs: Seq<TurnRecord>) -> bool {
    match state {
        HarnessState::Streaming | HarnessState::InterruptingStream { .. } => recs.len() > 0 && is_input(recs.last()),
        HarnessState::NeedToolConsent { .. } => recs.len() > 0 && is_completed(recs.last()),
        _ => true,
    }
}

/// The session loop's state, record and auto-approval policies.
pub struct Harness<P: AutoApprovalPolicy> {
    state: HarnessState,
    recorder: SessionRecorder,
    policies: AutoApprovalPolicies<P>,
}

/// Restoring never fails on a record that is empty or ends with the model's
/// turn, and a restored agent waiting for tools stands on a completed
/// response.
proof fn lemma_restorable(recs: Seq<TurnRecord>, turns: Seq<crate::agent::TurnView>, tail: crate::agent::Tail)
    requires
        recs.len() == 0 || !is_input(recs.last()),
        restores(turns, recs),
        tail_restores(tail, recs),
    ensures
        tail is Settled ==> settled(turns),
        tail is Settled && turns.len() > 0 ==> recs.len() > 0 && is_completed(recs.last()),
{
    if tail is Settled && recs.len() > 0 {
        assert(!is_incomplete(recs.last()));
        assert(settled_turns(recs) == settled_turns(recs.drop_last()).push(recs.last()));
        let k = turns.len() - 1;
        assert(turn_restores(turns[k], settled_turns(recs)[k]));
    }
}

impl<P: AutoApprovalPolicy> Harness<P> {
    #[verifier::type_invariant]
    spec fn fits(self) -> bool {
        record_fits(self.state, self.recorder.record.turns_spec())
    }

    pub closed spec fn state_spec(&self) -> HarnessState {
        self.state
    }

    pub closed spec fn recorder_spec(&self) -> SessionRecorder {
        self.recorder
    }

    pub closed spec fn policies_spec(&self) -> Seq<P> {
        self.policies.policies@
    }

    /// The state the session is in.
    pub fn state(&self) -> (r: &HarnessState)
        ensures
            *r == self.state_spec(),
    {
        &self.state
    }

    /// The session's record.
    pub fn recorder(&self) -> (r: &SessionRecorder)
        ensures
            *r == self.recorder_spec(),
    {
        &self.recorder
    }

    /// Starts a session on its record: the agent is restored from it, and
    /// calls the record left waiting are put to the user for consent.
    pub fn start(
        model: LlmModel,
        system_prompt: String,
        tools: Vec<ToolDefinition>,
        recorder: SessionRecorder,
        policies: AutoApprovalPolicies<P>,
    ) -> (r: (Harness<P>, Vec<Effect>))
        requires
            recorder.record.turns_spec().len() == 0 || !is_input(recorder.record.turns_spec().last()),
        ensures
            r.0.recorder_spec() == recorder,
            r.0.policies_spec() == policies.policies@,
            match r.0.state_spec() {
                HarnessState::WaitingForUserMessage { agent } => r.1@.len() == 0
                    && restores(agent.history(), recorder.record.turns_spec()),
                HarnessState::StreamingInterrupted { agent } => r.1@.len() == 0
                    && restores(agent.history(), recorder.record.turns_spec()),
                HarnessState::NeedToolConsent { agent, user_tool_decisions } => {
                    &&& restores(agent.history(), recorder.record.turns_spec())
                    &&& user_tool_decisions.entries_spec() == undecided(
                        pending_spec(agent.history()).map_values(|c: ToolCallRequest| c.id@),
                    )
                    &&& r.1@.len() == 1
                    &&& r.1@[0] matches Effect::Emit(SessionEvent::ToolConsentRequired { tool_calls })
                    &&& tool_calls@ == pending_spec(agent.history())
                },
                _ => false,
            },
    {
        let state = recorder.record.restore_state();
        proof {
            lemma_restorable(recorder.record.turns_spec(), turns_view(state.turns@), state.tail);
        }
        let restored = restore(model, system_prompt, tools, state);
        let mut effects: Vec<Effect> = Vec::new();
        let state = match restored {
            RestoredAgent::WaitingForUserMessage(agent) => HarnessState::WaitingForUserMessage { agent },
            RestoredAgent::Interrupted(agent) => HarnessState::StreamingInterrupted { agent },
            RestoredAgent::WaitingForToolResponses(agent) => {
                let tool_calls = agent.get_requested_tools();
                let mut ids: Vec<String> = Vec::new();
                let mut i: usize = 0;
                while i < tool_calls.len()
                    invariant
                        i <= tool_calls.len(),
                        ids@.len() == i,
                        forall|j: int| 0 <= j < i ==> (#[trigger] ids@[j])@ == tool_calls@[j].id@,
                    decreases tool_calls.len() - i,
                {
                    ids.push(tool_calls[i].id.clone());
                    i = i + 1;
                }
                let decisions = UserToolDecisions::new_undecided(ids);
                assert(decisions.entries_spec() =~= undecided(
                    pending_spec(agent.history()).map_values(|c: ToolCallRequest| c.id@),
                ));
                effects.push(Effect::Emit(SessionEvent::ToolConsentRequired { tool_calls }));
                HarnessState::NeedToolConsent { agent, user_tool_decisions: decisions }
            },
        };
        (Harness { state, recorder, policies }, effects)
    }
}

/// Whether `p` was recorded as input between `before` and `after`.
pub open spec fn prompt_recorded(before: Seq<TurnRecord>, after: Seq<TurnRecord>, p: Prompt) -> bool {
    exists|id: TurnId| #[trigger] input_added(before, after, prompt_input(p), id)
}

/// Whether `after` is `before` with each of `entries` recorded as input, in
/// order: `steps` are the records in between, `ids` the turns each went to.
pub open spec fn inputs_added_via(
    before: Seq<TurnRecord>,
    after: Seq<TurnRecord>,
    entries: Seq<RecordedInput>,
    steps: Seq<Seq<TurnRecord>>,
    ids: Seq<TurnId>,
) -> bool {
    &&& steps.len() == entries.len() + 1
    &&& ids.len() == entries.len()
    &&& steps[0] == before
    &&& steps.last() == after
    &&& forall|i: int| 0 <= i < entries.len() ==> #[trigger] input_added(steps[i], steps[i + 1], entries[i], ids[i])
}

/// Whether `after` is `before` with each of `entries` recorded as input, in
/// order.
pub open spec fn inputs_added(before: Seq<TurnRecord>, after: Seq<TurnRecord>, entries: Seq<RecordedInput>) -> bool {
    exists|steps: Seq<Seq<TurnRecord>>, ids: Seq<TurnId>| #[trigger] inputs_added_via(before, after, entries, steps, ids)
}

/// The decisions after `approved` (with `message`) is recorded for the first
/// undecided call `id`.
pub open spec fn decided(
    es: Seq<(Seq<char>, Option<(bool, Option<String>)>)>,
    id: Seq<char>,
    approved: bool,
    message: Option<String>,
) -> Seq<(Seq<char>, Option<(bool, Option<String>)>)> {
    Seq::new(es.len(), |i: int| (es[i].0, if first_open(es, id, i) { Some((approved, message)) } else { es[i].1 }))
}

/// Whether every call has a decision.
pub open spec fn all_decided(es: Seq<(Seq<char>, Option<(bool, Option<String>)>)>) -> bool {
    forall|i: int| 0 <= i < es.len() ==> (#[trigger] es[i]).1 is Some
}

/// Whether `batch` waits for the calls of `agent` still without a result,
/// and `calls` are its calls, in order.
pub open spec fn batch_for(agent: TypedAgent<WaitingForToolResponses>, batch: ToolBatch<Resolving>, calls: Seq<ToolCallRequest>) -> bool {
    &&& batch.wf()
    &&& batch.collected().len() == 0
    &&& forall|id: Seq<char>| #[trigger] has_key(batch.pending(), id) <==> exists|i: int|
        0 <= i < pending_spec(agent.history()).len() && pending_spec(agent.history())[i].id@ == id
}

/// The state is kept, nothing is recorded and nothing is to be done.
pub open spec fn unchanged<P: AutoApprovalPolicy>(old: Harness<P>, new: Harness<P>, effects: Seq<Effect>) -> bool {
    &&& new.state_spec() == old.state_spec()
    &&& new.recorder_spec() == old.recorder_spec()
    &&& effects.len() == 0
}

/// The one effect is to stream for an agent with conversation `history` and
/// the setup of `like`.
pub open spec fn streams<S: crate::agent::State>(effects: Seq<Effect>, history: Seq<TurnView>, like: TypedAgent<S>) -> bool {
    &&& effects.len() == 1
    &&& effects[0] matches Effect::StartStream(a)
    &&& a.history() == history
    &&& a.same_setup(&like)
}

/// What a command does.
pub open spec fn command_step<P: AutoApprovalPolicy>(old: Harness<P>, cmd: SessionCommand, new: Harness<P>, effects: Seq<Effect>) -> bool {
    let before = old.recorder_spec().record.turns_spec();
    let after = new.recorder_spec().record.turns_spec();
    let same_record = new.recorder_spec() == old.recorder_spec();
    match cmd {
        SessionCommand::Stop => new.state_spec() is Stopped && same_record && effects == seq![Effect::Stop],
        SessionCommand::Snapshot => new.state_spec() == old.state_spec() && same_record
            && effects == seq![Effect::ReplySnapshot],
        SessionCommand::SendMessage(p) => match old.state_spec() {
            HarnessState::WaitingForUserMessage { agent } => new.state_spec() is Streaming
                && streams(effects, push_input_spec(agent.history(), prompt_entry(p)), agent)
                && prompt_recorded(before, after, p),
            HarnessState::StreamingInterrupted { agent } => new.state_spec() is Streaming
                && streams(effects, sealed_history(agent.history(), agent.state_spec().partial, p), agent)
                && prompt_recorded(before, after, p),
            HarnessState::StreamingFailed { agent } => new.state_spec() is Streaming
                && streams(effects, sealed_history(agent.history(), agent.state_spec().partial, p), agent)
                && prompt_recorded(before, after, p),
            HarnessState::InterruptingStream { pending_message: None } => new.state_spec()
                == (HarnessState::InterruptingStream { pending_message: Some(p) }) && same_record && effects.len() == 0,
            _ => unchanged(old, new, effects),
        },
        SessionCommand::Interrupt => match old.state_spec() {
            HarnessState::Streaming => new.state_spec() == (HarnessState::InterruptingStream { pending_message: None })
                && same_record && effects == seq![Effect::CancelStream],
            HarnessState::ToolCallsAreRunning { agent } => new.state_spec()
                == (HarnessState::InterruptingToolExecution { agent }) && same_record && effects == seq![Effect::CancelTools],
            _ => unchanged(old, new, effects),
        },
        SessionCommand::ToolDecision { id, approved, message } => match old.state_spec() {
            HarnessState::NeedToolConsent { agent, user_tool_decisions } => {
                let es = user_tool_decisions.entries_spec();
                let open = exists|i: int| 0 <= i < es.len() && (#[trigger] es[i]).0 == id@ && es[i].1 is None;
                let now = decided(es, id@, approved, message);
                &&& open ==> event_recorded(
                    before,
                    after,
                    before.last().data.turn_id,
                    RecordableEvent::ToolAuthorization {
                        tool_call_id: ToolCallId(id),
                        decision: decision_of(approved),
                        source: AuthorizationSource::User,
                        reason: message,
                    },
                    None,
                )
                &&& !open ==> same_record
                &&& new.recorder_spec().record.data_spec() == old.recorder_spec().record.data_spec()
                &&& match new.state_spec() {
                    HarnessState::NeedToolConsent { agent: a, user_tool_decisions: d } => a == agent
                        && d.entries_spec() == now && !all_decided(now) && effects.len() == 0,
                    HarnessState::ToolCallsAreRunning { agent: a } => {
                        &&& a == agent
                        &&& all_decided(now)
                        &&& effects.len() == 1
                        &&& effects[0] matches Effect::RunTools { batch, calls, authorization }
                        &&& authorization matches ToolAuthorization::PerTool(all)
                        &&& all.entries_spec() == now
                        &&& batch_for(agent, batch, calls@)
                        &&& calls@.len() == batch.pending().len()
                        &&& forall|i: int| 0 <= i < calls@.len() ==> calls@[i] == #[trigger] batch.pending()[i].1
                    },
                    _ => false,
                }
            },
            _ => unchanged(old, new, effects),
        },
    }
}

impl<P: AutoApprovalPolicy> Harness<P> {
    /// Handles a command from the host.
    pub fn on_command(self, cmd: SessionCommand) -> (r: (Harness<P>, Vec<Effect>))
        ensures
            command_step(self, cmd, r.0, r.1@),
            r.0.policies_spec() == self.policies_spec(),
    {
        match cmd {
            SessionCommand::Stop => self.stop(),
            SessionCommand::Snapshot => self.snapshot(),
            SessionCommand::SendMessage(prompt) => self.send_message(prompt),
            SessionCommand::Interrupt => self.interrupt(),
            SessionCommand::ToolDecision { id, approved, message } => self.decide_tool(id, approved, message),
        }
    }

    fn stop(self) -> (r: (Harness<P>, Vec<Effect>))
        ensures
            command_step(self, SessionCommand::Stop, r.0, r.1@),
            r.0.policies_spec() == self.policies_spec(),
    {
        let Harness { state: _, recorder, policies } = self;
        let mut effects: Vec<Effect> = Vec::new();
        effects.push(Effect::Stop);
        assert(effects@ =~= seq![Effect::Stop]);
        (Harness { state: HarnessState::Stopped, recorder, policies }, effects)
    }

    fn snapshot(self) -> (r: (Harness<P>, Vec<Effect>))
        ensures
            command_step(self, SessionCommand::Snapshot, r.0, r.1@),
            r.0.policies_spec() == self.policies_spec(),
    {
        let mut effects: Vec<Effect> = Vec::new();
        effects.push(Effect::ReplySnapshot);
        assert(effects@ =~= seq![Effect::ReplySnapshot]);
        (self, effects)
    }

    fn send_message(self, prompt: Prompt) -> (r: (Harness<P>, Vec<Effect>))
        ensures
            command_step(self, SessionCommand::SendMessage(prompt), r.0, r.1@),
            r.0.policies_spec() == self.policies_spec(),
    {
        proof {
            use_type_invariant(&self);
        }
        let Harness { state, recorder, policies } = self;
        let mut recorder = recorder;
        let mut effects: Vec<Effect> = Vec::new();
        let new_agent = match state {
            HarnessState::WaitingForUserMessage { agent } => agent.add_message(prompt.clone()),
            HarnessState::StreamingInterrupted { agent } => agent.seal_and_continue(prompt.clone()),
            HarnessState::StreamingFailed { agent } => agent.seal_and_continue(prompt.clone()),
            HarnessState::InterruptingStream { pending_message: None } => {
                return (
                    Harness { state: HarnessState::InterruptingStream { pending_message: Some(prompt) }, recorder, policies },
                    effects,
                );
            },
            other => {
                return (Harness { state: other, recorder, policies }, effects);
            },
        };
        let ghost before = recorder.record.turns_spec();
        let ghost p = prompt;
        let id = recorder.record_prompt(prompt);
        assert(input_added(before, recorder.record.turns_spec(), prompt_input(p), id));
        effects.push(Effect::StartStream(new_agent));
        (Harness { state: HarnessState::Streaming, recorder, policies }, effects)
    }

    fn interrupt(self) -> (r: (Harness<P>, Vec<Effect>))
        ensures
            command_step(self, SessionCommand::Interrupt, r.0, r.1@),
            r.0.policies_spec() == self.policies_spec(),
    {
        proof {
            use_type_invariant(&self);
        }
        let Harness { state, recorder, policies } = self;
        let mut effects: Vec<Effect> = Vec::new();
        match state {
            HarnessState::Streaming => {
                effects.push(Effect::CancelStream);
                assert(effects@ =~= seq![Effect::CancelStream]);
                (Harness { state: HarnessState::InterruptingStream { pending_message: None }, recorder, policies }, effects)
            },
            HarnessState::ToolCallsAreRunning { agent } => {
                effects.push(Effect::CancelTools);
                assert(effects@ =~= seq![Effect::CancelTools]);
                (Harness { state: HarnessState::InterruptingToolExecution { agent }, recorder, policies }, effects)
            },
            other => (Harness { state: other, recorder, policies }, effects),
        }
    }

    fn decide_tool(self, id: String, approved: bool, message: Option<String>) -> (r: (Harness<P>, Vec<Effect>))
        ensures
            command_step(self, SessionCommand::ToolDecision { id, approved, message }, r.0, r.1@),
            r.0.policies_spec() == self.policies_spec(),
    {
        proof {
            use_type_invariant(&self);
        }
        let ghost old_self = self;
        let ghost gid = id;
        let ghost gmsg = message;
        let Harness { state, recorder, policies } = self;
        let mut recorder = recorder;
        let mut effects: Vec<Effect> = Vec::new();
        match state {
            HarnessState::NeedToolConsent { agent, user_tool_decisions } => {
                let ghost before = recorder.record.turns_spec();
                let ghost old_recorder = recorder;
                let ghost event = RecordableEvent::ToolAuthorization {
                    tool_call_id: ToolCallId(id),
                    decision: decision_of(approved),
                    source: AuthorizationSource::User,
                    reason: message,
                };
                let ghost mut outcome: Result<EventId, ()> = Err(());
                let open = user_tool_decisions.is_undecided(&id);
                if open {
                    let prev_turn_id = recorder.previous_turn_id().unwrap();
                    let reason = match &message {
                        Some(text) => Some(text.clone()),
                        None => None,
                    };
                    assert(last_turn_index(before, prev_turn_id) == before.len() - 1);
                    let recorded = recorder.record_tool_decision(
                        prev_turn_id,
                        ToolCallId(id.clone()),
                        approved,
                        AuthorizationSource::User,
                        reason,
                    );
                    proof {
                        outcome = recorded;
                    }
                }
                assert(open ==> event_added(before, recorder.record.turns_spec(), before.last().data.turn_id, event, None, outcome)
                    && outcome is Ok);

                assert(!open ==> recorder == old_recorder);
                let ghost es = user_tool_decisions.entries_spec();
                let progress = user_tool_decisions.record_decision(id, approved, message);
                assert(progress_entries(progress) =~= decided(es, id@, approved, message));
                match progress {
                    DecisionProgress::Pending(not_all_decided) => {
                        let h = Harness {
                            state: HarnessState::NeedToolConsent { agent, user_tool_decisions: not_all_decided },
                            recorder,
                            policies,
                        };
                        assert(h.recorder_spec().record.data_spec() == old_recorder.record.data_spec());
                        assert(!all_decided(decided(es, id@, approved, message)));

                        (h, effects)
                    },
                    DecisionProgress::AllDecided(complete) => {
                        let batch = agent.get_batch();
                        let calls = requested_calls(&batch);
                        effects.push(Effect::RunTools {
                            batch,
                            calls,
                            authorization: ToolAuthorization::PerTool(complete),
                        });
                        let h = Harness { state: HarnessState::ToolCallsAreRunning { agent }, recorder, policies };

                        (h, effects)
                    },
                }
            },
            other => (Harness { state: other, recorder, policies }, effects),
        }
    }
}

/// The calls a batch waits for, in order.
fn requested_calls(batch: &ToolBatch<Resolving>) -> (r: Vec<ToolCallRequest>)
    ensures
        r@.len() == batch.pending().len(),
        forall|i: int| 0 <= i < r@.len() ==> r@[i] == #[trigger] batch.pending()[i].1,
{
    let requested = batch.requested();
    let mut calls: Vec<ToolCallRequest> = Vec::new();
    let mut i: usize = 0;
    while i < requested.len()
        invariant
            i <= requested.len(),
            requested@.len() == batch.pending().len(),
            forall|j: int| 0 <= j < requested@.len() ==> *requested@[j] == #[trigger] batch.pending()[j].1,
            calls@.len() == i,
            forall|j: int| 0 <= j < i ==> calls@[j] == #[trigger] batch.pending()[j].1,
        decreases requested.len() - i,
    {
        calls.push(requested[i].clone());
        i = i + 1;
    }
    calls
}

/// The calls of `calls` that some policy approves, in order.
pub open spec fn approved_calls<P: AutoApprovalPolicy>(policies: Seq<P>, calls: Seq<ToolCallRequest>) -> Seq<ToolCallRequest>
    decreases calls.len(),
{
    if calls.len() == 0 {
        seq![]
    } else {
        let rest = approved_calls(policies, calls.drop_last());
        if some_policy_approves(policies, calls.last()) {
            rest.push(calls.last())
        } else {
            rest
        }
    }
}

/// The calls of `calls` whose id is among `ids`, in order.
pub open spec fn calls_with_ids(calls: Seq<ToolCallRequest>, ids: Seq<Seq<char>>) -> Seq<ToolCallRequest>
    decreases calls.len(),
{
    if calls.len() == 0 {
        seq![]
    } else {
        let rest = calls_with_ids(calls.drop_last(), ids);
        if ids.contains(calls.last().id@) {
            rest.push(calls.last())
        } else {
            rest
        }
    }
}

/// The event recording that a policy approved `call`.
pub open spec fn policy_approval(call: ToolCallRequest) -> RecordableEvent {
    RecordableEvent::ToolAuthorization {
        tool_call_id: ToolCallId(call.id),
        decision: ToolDecision::Approved,
        source: AuthorizationSource::Policy,
        reason: None,
    }
}

/// Whether `events` record, in order, that a policy approved each of `calls`.
pub open spec fn approvals_recorded(events: Seq<EventRecord>, calls: Seq<ToolCallRequest>) -> bool {
    &&& events.len() == calls.len()
    &&& forall|i: int| 0 <= i < events.len() ==> (#[trigger] events[i]).event == policy_approval(calls[i])
        && events[i].parent_id is None
}

/// Whether `after` is `before` with an assistant turn that answers the last
/// turn of `before`, with `outcome`'s kind of ending.
pub open spec fn assistant_recorded(before: Seq<TurnRecord>, after: Seq<TurnRecord>) -> bool {
    &&& before.len() > 0
    &&& after.len() == before.len() + 1
    &&& after.drop_last() == before
    &&& after.last().data.parent_id == Some(before.last().data.turn_id)
    &&& after.last().data.turn is Assistant
}

/// The blocks of a response, if there is one.
pub open spec fn opt_blocks(r: Option<AssistantResponse>) -> Option<Seq<Block>> {
    match r {
        Some(resp) => Some(resp.blocks@),
        None => None,
    }
}

/// What the end of a stream does.
pub open spec fn stream_step<P: AutoApprovalPolicy>(old: Harness<P>, res: StreamResult, new: Harness<P>, effects: Seq<Effect>) -> bool {
    let before = old.recorder_spec().record.turns_spec();
    let after = new.recorder_spec().record.turns_spec();
    let same_record = new.recorder_spec() == old.recorder_spec();
    let policies = old.policies_spec();
    match old.state_spec() {
        HarnessState::Streaming => match res {
            StreamResult::Failed { agent, error } => {
                &&& new.state_spec() == (HarnessState::StreamingFailed { agent })
                &&& effects.len() == 1
                &&& effects[0] matches Effect::Emit(SessionEvent::StreamError { error: text })
                &&& text@ == error.message@
                &&& assistant_recorded(before, after)
                &&& after.last().events@.len() == 0
                &&& after.last().data.turn matches RecordableTurn::Assistant {
                    outcome: AssistantTurnOutcome::Incomplete { partial_response, reason },
                }
                &&& opt_blocks(partial_response) == opt_blocks(agent.state_spec().partial)
                &&& reason == StopReason::Failed(error)
            },
            StreamResult::WaitingForUserMessage { agent, end } => {
                &&& new.state_spec() == (HarnessState::WaitingForUserMessage { agent })
                &&& effects == seq![Effect::Emit(SessionEvent::TurnComplete { usage: end.usage, stop_reason: end.stop_reason })]
                &&& assistant_recorded(before, after)
                &&& after.last().events@.len() == 0
                &&& after.last().data.turn matches RecordableTurn::Assistant {
                    outcome: AssistantTurnOutcome::Completed { response },
                }
                &&& agent.history().last() == TurnView::Output(response.blocks@)
            },
            StreamResult::WaitingForToolResponses { agent, end } => {
                let calls = pending_spec(agent.history());
                let all_ok = forall|i: int| 0 <= i < calls.len() ==> some_policy_approves(policies, #[trigger] calls[i]);
                let needing = needing_consent(policies, calls);
                &&& assistant_recorded(before, after)
                &&& after.last().data.turn matches RecordableTurn::Assistant {
                    outcome: AssistantTurnOutcome::Completed { response },
                }
                &&& crate::agent::last_output_spec(agent.history()) == Some(response.blocks@)
                &&& approvals_recorded(after.last().events@, approved_calls(policies, calls))
                &&& effects.len() == 2
                &&& effects[0] == Effect::Emit(SessionEvent::TurnComplete { usage: end.usage, stop_reason: end.stop_reason })
                &&& if all_ok {
                    &&& new.state_spec() == (HarnessState::ToolCallsAreRunning { agent })
                    &&& effects[1] matches Effect::RunTools { batch, calls: run, authorization }
                    &&& authorization is AllAutoApproved
                    &&& run@ == calls
                    &&& batch_for(agent, batch, run@)
                } else {
                    &&& new.state_spec() matches HarnessState::NeedToolConsent { agent: a, user_tool_decisions: d }
                    &&& a == agent
                    &&& d.entries_spec() == undecided(needing)
                    &&& effects[1] matches Effect::Emit(SessionEvent::ToolConsentRequired { tool_calls })
                    &&& tool_calls@ == calls_with_ids(calls, needing)
                }
            },
            StreamResult::Interrupted(_) => false,
        },
        HarnessState::InterruptingStream { pending_message } => match res {
            StreamResult::Interrupted(agent) => match pending_message {
                Some(p) => new.state_spec() is Streaming
                    && streams(effects, sealed_history(agent.history(), agent.state_spec().partial, p), agent)
                    && prompt_recorded(before, after, p),
                None => new.state_spec() == (HarnessState::StreamingInterrupted { agent }) && same_record
                    && effects == seq![Effect::Emit(SessionEvent::Interrupted)],
            },
            _ => false,
        },
        _ => unchanged(old, new, effects),
    }
}

/// Whether a stream result can be taken in `state`: a running stream does
/// not end interrupted unless asked to, and an interrupted one ends
/// interrupted; a response that called no tool follows a conversation.
pub open spec fn stream_result_fits(state: HarnessState, res: StreamResult) -> bool {
    match state {
        HarnessState::Streaming => match res {
            StreamResult::Interrupted(_) => false,
            StreamResult::WaitingForUserMessage { agent, .. } => agent.history().len() > 0,
            _ => true,
        },
        HarnessState::InterruptingStream { .. } => res is Interrupted,
        _ => true,
    }
}

impl<P: AutoApprovalPolicy> Harness<P> {
    /// Handles the end of a stream.
    pub fn on_stream_result(self, res: StreamResult) -> (r: (Harness<P>, Vec<Effect>))
        requires
            stream_result_fits(self.state_spec(), res),
        ensures
            stream_step(self, res, r.0, r.1@),
            r.0.policies_spec() == self.policies_spec(),
    {
        proof {
            use_type_invariant(&self);
        }
        let Harness { state, recorder, policies } = self;
        match state {
            HarnessState::Streaming => {
                let h = Harness { state: HarnessState::Streaming, recorder, policies };
                h.stream_finished(res)
            },
            HarnessState::InterruptingStream { pending_message } => {
                let mut recorder = recorder;
                let mut effects: Vec<Effect> = Vec::new();
                match res {
                    StreamResult::Interrupted(agent) => match pending_message {
                        Some(prompt) => {
                            let new_agent = agent.seal_and_continue(prompt.clone());
                            let ghost before = recorder.record.turns_spec();
                            let ghost p = prompt;
                            let id = recorder.record_prompt(prompt);
                            assert(input_added(before, recorder.record.turns_spec(), prompt_input(p), id));
                            effects.push(Effect::StartStream(new_agent));
                            (Harness { state: HarnessState::Streaming, recorder, policies }, effects)
                        },
                        None => {
                            effects.push(Effect::Emit(SessionEvent::Interrupted));
                            assert(effects@ =~= seq![Effect::Emit(SessionEvent::Interrupted)]);
                            (Harness { state: HarnessState::StreamingInterrupted { agent }, recorder, policies }, effects)
                        },
                    },
                    _ => {
                        proof {
                            assert(false);
                        }
                        (Harness { state: HarnessState::Stopped, recorder, policies }, effects)
                    },
                }
            },
            other => (Harness { state: other, recorder, policies }, Vec::new()),
        }
    }

    /// The stream under way has ended.
    fn stream_finished(self, res: StreamResult) -> (r: (Harness<P>, Vec<Effect>))
        requires
            self.state_spec() is Streaming,
            stream_result_fits(self.state_spec(), res),
        ensures
            stream_step(self, res, r.0, r.1@),
            r.0.policies_spec() == self.policies_spec(),
    {
        proof {
            use_type_invariant(&self);
        }
        let ghost old_self = self;
        let ghost gres = res;
        let Harness { state: _, recorder, policies } = self;
        let mut recorder = recorder;
        let mut effects: Vec<Effect> = Vec::new();
        let ghost before = recorder.record.turns_spec();
        match res {
            StreamResult::Failed { agent, error } => {
                let partial = match agent.state().partial() {
                    Some(p) => Some(p.clone()),
                    None => None,
                };
                let outcome = AssistantTurnOutcome::Incomplete { partial_response: partial, reason: StopReason::Failed(error.clone()) };
                let recorded = recorder.record_assistant(outcome);
                assert(recorded is Ok);
                effects.push(Effect::Emit(SessionEvent::StreamError { error: error.message.clone() }));
                let h = Harness { state: HarnessState::StreamingFailed { agent }, recorder, policies };
                assert(stream_step(old_self, gres, h, effects@));
                (h, effects)
            },
            StreamResult::WaitingForUserMessage { agent, end } => {
                let response = match agent.previous_message() {
                    Some(resp) => resp.clone(),
                    None => {
                        proof {
                            assert(false);
                        }
                        AssistantResponse { blocks: Vec::new() }
                    },
                };
                let recorded = recorder.record_assistant(AssistantTurnOutcome::Completed { response });
                assert(recorded is Ok);
                let StreamEnd { usage, stop_reason } = end;
                effects.push(Effect::Emit(SessionEvent::TurnComplete { usage, stop_reason }));
                assert(effects@ =~= seq![Effect::Emit(SessionEvent::TurnComplete { usage, stop_reason })]);
                let h = Harness { state: HarnessState::WaitingForUserMessage { agent }, recorder, policies };
                assert(stream_step(old_self, gres, h, effects@));
                (h, effects)
            },
            StreamResult::WaitingForToolResponses { agent, end } => {
                let response = agent.previous_message().clone();
                let recorded = recorder.record_assistant(AssistantTurnOutcome::Completed { response });
                let turn_id = recorded.unwrap();
                let StreamEnd { usage, stop_reason } = end;
                effects.push(Effect::Emit(SessionEvent::TurnComplete { usage, stop_reason }));
                let call_requests = agent.get_requested_tools();
                let all_ok = policies.will_approve_all(&call_requests);
                record_policy_approvals(&mut recorder, &policies, turn_id, &call_requests);
                if all_ok {
                    proof {
                        lemma_all_approved(policies.policies@, call_requests@);
                    }
                    let batch = agent.get_batch();
                    effects.push(Effect::RunTools {
                        batch,
                        calls: call_requests,
                        authorization: ToolAuthorization::AllAutoApproved,
                    });
                    let h = Harness { state: HarnessState::ToolCallsAreRunning { agent }, recorder, policies };
                    assert(stream_step(old_self, gres, h, effects@));
                    (h, effects)
                } else {
                    let unapproved = policies.ids_needing_consent(&call_requests);
                    let ghost needing = needing_consent(policies.policies@, call_requests@);
                    assert(unapproved@.map_values(|s: String| s@) =~= needing);
                    let tool_calls = filter_calls(agent.get_requested_tools(), &unapproved);
                    effects.push(Effect::Emit(SessionEvent::ToolConsentRequired { tool_calls }));
                    let decisions = UserToolDecisions::new_undecided(unapproved);
                    assert(decisions.entries_spec() =~= undecided(needing));
                    let h = Harness {
                        state: HarnessState::NeedToolConsent { agent, user_tool_decisions: decisions },
                        recorder,
                        policies,
                    };
                    assert(stream_step(old_self, gres, h, effects@));
                    (h, effects)
                }
            },
            StreamResult::Interrupted(_) => {
                proof {
                    assert(false);
                }
                (Harness { state: HarnessState::Stopped, recorder, policies }, effects)
            },
        }
    }
}

/// When every call is approved, the approved calls are all the calls.
proof fn lemma_all_approved<P: AutoApprovalPolicy>(policies: Seq<P>, calls: Seq<ToolCallRequest>)
    requires
        forall|i: int| 0 <= i < calls.len() ==> some_policy_approves(policies, #[trigger] calls[i]),
    ensures
        approved_calls(policies, calls) == calls,
    decreases calls.len(),
{
    if calls.len() > 0 {
        let rest = calls.drop_last();
        assert forall|i: int| 0 <= i < rest.len() implies some_policy_approves(policies, #[trigger] rest[i]) by {
            assert(rest[i] == calls[i]);
        }
        lemma_all_approved(policies, rest);
        assert(some_policy_approves(policies, calls[calls.len() - 1]));
        assert(rest.push(calls.last()) =~= calls);
    }
}

/// Records, against the response `turn_id` just recorded, that a policy
/// approved each call it approves.
fn record_policy_approvals<P: AutoApprovalPolicy>(
    recorder: &mut SessionRecorder,
    policies: &AutoApprovalPolicies<P>,
    turn_id: TurnId,
    calls: &Vec<ToolCallRequest>,
)
    requires
        old(recorder).record.turns_spec().len() > 0,
        old(recorder).record.turns_spec().last().data.turn_id == turn_id,
        is_completed(old(recorder).record.turns_spec().last()),
        old(recorder).record.turns_spec().last().events@.len() == 0,
    ensures
        final(recorder).record.data_spec() == old(recorder).record.data_spec(),
        final(recorder).record.turns_spec().len() == old(recorder).record.turns_spec().len(),
        final(recorder).record.turns_spec().drop_last() == old(recorder).record.turns_spec().drop_last(),
        final(recorder).record.turns_spec().last().data == old(recorder).record.turns_spec().last().data,
        approvals_recorded(final(recorder).record.turns_spec().last().events@, approved_calls(policies.policies@, calls@)),
{
    let ghost start = recorder.record.turns_spec();
    let ghost n = start.len();
    let mut i: usize = 0;
    while i < calls.len()
        invariant
            i <= calls.len(),
            recorder.record.data_spec() == old(recorder).record.data_spec(),
            start == old(recorder).record.turns_spec(),
            n == start.len(),
            n > 0,
            recorder.record.turns_spec().len() == n,
            recorder.record.turns_spec().drop_last() == start.drop_last(),
            recorder.record.turns_spec().last().data == start.last().data,
            start.last().data.turn_id == turn_id,
            is_completed(start.last()),
            approvals_recorded(recorder.record.turns_spec().last().events@, approved_calls(policies.policies@, calls@.take(i as int))),
        decreases calls.len() - i,
    {
        assert(calls@.take(i + 1).drop_last() =~= calls@.take(i as int));
        assert(calls@.take(i + 1).last() == calls@[i as int]);
        if policies.is_approved(&calls[i]) {
            let ghost before = recorder.record.turns_spec();
            assert(last_turn_index(before, turn_id) == n - 1);
            let recorded = recorder.record_tool_decision(
                turn_id,
                ToolCallId(calls[i].id.clone()),
                true,
                AuthorizationSource::Policy,
                None,
            );
            proof {
                let after = recorder.record.turns_spec();
                assert(after.drop_last() =~= before.drop_last()) by {
                    assert forall|k: int| 0 <= k < after.len() - 1 implies after[k] == before[k] by {}
                }
                let prev = approved_calls(policies.policies@, calls@.take(i as int));
                let now = approved_calls(policies.policies@, calls@.take(i + 1));
                assert(now == prev.push(calls@[i as int]));
                let evs = after.last().events@;
                assert forall|k: int| 0 <= k < evs.len() implies (#[trigger] evs[k]).event == policy_approval(now[k])
                    && evs[k].parent_id is None by {
                    if k < evs.len() - 1 {
                        assert(evs[k] == before.last().events@[k]);
                    }
                }
            }
        }
        i = i + 1;
    }
    assert(calls@.take(calls.len() as int) =~= calls@);
}

/// The calls of `calls` whose id is among `ids`, in order.
fn filter_calls(calls: Vec<ToolCallRequest>, ids: &Vec<String>) -> (r: Vec<ToolCallRequest>)
    ensures
        r@ == calls_with_ids(calls@, ids@.map_values(|s: String| s@)),
{
    let ghost idv = ids@.map_values(|s: String| s@);
    let mut out: Vec<ToolCallRequest> = Vec::new();
    let mut i: usize = 0;
    while i < calls.len()
        invariant
            i <= calls.len(),
            idv == ids@.map_values(|s: String| s@),
            out@ == calls_with_ids(calls@.take(i as int), idv),
        decreases calls.len() - i,
    {
        assert(calls@.take(i + 1).drop_last() =~= calls@.take(i as int));
        assert(calls@.take(i + 1).last() == calls@[i as int]);
        let mut found = false;
        let mut j: usize = 0;
        while j < ids.len()
            invariant
                j <= ids.len(),
                idv == ids@.map_values(|s: String| s@),
                i < calls.len(),
                found == exists|k: int| 0 <= k < j && idv[k] == calls@[i as int].id@,
            decreases ids.len() - j,
        {
            assert(idv[j as int] == ids@[j as int]@);
            if ids[j] == calls[i].id {
                found = true;
            }
            j = j + 1;
        }
        assert(found == idv.contains(calls@[i as int].id@));
        if found {
            out.push(calls[i].clone());
        }
        i = i + 1;
    }
    assert(calls@.take(calls.len() as int) =~= calls@);
    out
}

/// Whether `results` can resolve `batch`: one result for each call still
/// waiting, none for a call already answered, each call answered once.
pub open spec fn results_fit(batch: ToolBatch<Resolving>, results: Seq<ToolCallResult>) -> bool {
    &&& batch.wf()
    &&& results.len() > 0
    &&& results.len() == batch.pending().len()
    &&& forall|i: int| 0 <= i < results.len() ==> has_key(batch.pending(), (#[trigger] results[i]).tool_call_id@)
        && !has_key(batch.collected(), results[i].tool_call_id@)
    &&& forall|i: int, j: int| 0 <= i < j < results.len() ==> (#[trigger] results[i]).tool_call_id@
        != (#[trigger] results[j]).tool_call_id@
}

/// Whether `rs` are the results already in the batch, `collected`, followed
/// by `results` as the model gets them.
pub open spec fn answers_as(rs: Seq<ToolResult>, collected: Seq<(ToolCallId, ToolResult)>, results: Seq<ToolCallResult>) -> bool {
    &&& rs.len() == collected.len() + results.len()
    &&& forall|i: int| 0 <= i < collected.len() ==> rs[i] == (#[trigger] collected[i]).1
    &&& forall|i: int| 0 <= i < results.len() ==> rs[collected.len() + i].tool_call_id@ == (#[trigger] results[i]).tool_call_id@
        && rs[collected.len() + i].content@ == outcome_text(results[i].outcome)
}

/// The inputs that record `results`.
pub open spec fn recorded_results(results: Seq<ToolCallResult>) -> Seq<RecordedInput> {
    results.map_values(|r: ToolCallResult| RecordedInput::ToolResult(r))
}

/// What the end of a tool run does.
pub open spec fn tools_step<P: AutoApprovalPolicy>(
    old: Harness<P>,
    batch: ToolBatch<Resolving>,
    results: Seq<ToolCallResult>,
    new: Harness<P>,
    effects: Seq<Effect>,
) -> bool {
    let before = old.recorder_spec().record.turns_spec();
    let after = new.recorder_spec().record.turns_spec();
    let answered = |agent: TypedAgent<WaitingForToolResponses>| {
        &&& new.state_spec() is Streaming
        &&& inputs_added(before, after, recorded_results(results))
        &&& new.recorder_spec().record.data_spec() == old.recorder_spec().record.data_spec()
        &&& effects.len() == 1
        &&& effects[0] matches Effect::StartStream(a)
        &&& a.same_setup(&agent)
        &&& exists|rs: Seq<ToolResult>| answers_as(rs, batch.collected(), results)
            && a.history() == push_inputs_spec(agent.history(), #[trigger] result_entries(rs))
    };
    match old.state_spec() {
        HarnessState::ToolCallsAreRunning { agent } => answered(agent),
        HarnessState::InterruptingToolExecution { agent } => answered(agent),
        _ => unchanged(old, new, effects),
    }
}

proof fn lemma_key_survives_remove<T>(v: Seq<(ToolCallId, T)>, k: int, id: Seq<char>)
    requires
        0 <= k < v.len(),
        has_key(v, id),
        v[k].0@ != id,
    ensures
        has_key(v.remove(k), id),
{
    let i = choose|i: int| 0 <= i < v.len() && #[trigger] v[i].0@ == id;
    if i < k {
        assert(v.remove(k)[i] == v[i]);
    } else {
        assert(v.remove(k)[i - 1] == v[i]);
    }
}

proof fn lemma_key_absent_push<T>(v: Seq<(ToolCallId, T)>, e: (ToolCallId, T), id: Seq<char>)
    requires
        !has_key(v, id),
        e.0@ != id,
    ensures
        !has_key(v.push(e), id),
{
    if has_key(v.push(e), id) {
        let i = choose|i: int| 0 <= i < v.push(e).len() && #[trigger] v.push(e)[i].0@ == id;
        if i < v.len() {
            assert(v.push(e)[i] == v[i]);
        }
    }
}

/// Records each result and adds it to the batch, which they resolve.
fn resolve_results(batch: ToolBatch<Resolving>, results: Vec<ToolCallResult>, recorder: &mut SessionRecorder) -> (r: ToolBatch<Resolved>)
    requires
        results_fit(batch, results@),
    ensures
        final(recorder).record.data_spec() == old(recorder).record.data_spec(),
        inputs_added(old(recorder).record.turns_spec(), final(recorder).record.turns_spec(), recorded_results(results@)),
        answers_as(r.collected().map_values(|p: (ToolCallId, ToolResult)| p.1), batch.collected(), results@),
{
    let ghost all = results@;
    let ghost c0 = batch.collected();
    let ghost rec0 = recorder.record.turns_spec();
    let ghost recorded = recorded_results(all);
    let total = results.len();
    let mut batch = batch;
    let mut results = results;
    let mut k: usize = 0;
    let ghost mut steps: Seq<Seq<TurnRecord>> = seq![rec0];
    let ghost mut tids: Seq<TurnId> = seq![];
    while results.len() > 0
        invariant
            k + results@.len() == all.len(),
            all.len() == total,
            results@ == all.subrange(k as int, all.len() as int),
            recorded == recorded_results(all),
            batch.wf(),
            batch.pending().len() == all.len() - k,
            forall|j: int| k <= j < all.len() ==> has_key(batch.pending(), (#[trigger] all[j]).tool_call_id@)
                && !has_key(batch.collected(), all[j].tool_call_id@),
            forall|i: int, j: int| 0 <= i < j < all.len() ==> (#[trigger] all[i]).tool_call_id@
                != (#[trigger] all[j]).tool_call_id@,
            batch.collected().len() == c0.len() + k,
            forall|i: int| 0 <= i < c0.len() ==> batch.collected()[i] == #[trigger] c0[i],
            forall|i: int| 0 <= i < k ==> batch.collected()[c0.len() + i].1.tool_call_id@ == (#[trigger] all[i]).tool_call_id@
                && batch.collected()[c0.len() + i].1.content@ == outcome_text(all[i].outcome),
            recorder.record.data_spec() == old(recorder).record.data_spec(),
            rec0 == old(recorder).record.turns_spec(),
            steps.len() == k + 1,
            tids.len() == k,
            steps[0] == rec0,
            steps.last() == recorder.record.turns_spec(),
            forall|i: int| 0 <= i < k ==> #[trigger] input_added(steps[i], steps[i + 1], recorded[i], tids[i]),
        decreases results.len(),
    {
        let result = results.remove(0);
        assert(result == all[k as int]);
        let id = result.tool_call_id();
        let answer = result.to_tool_result();
        let ghost mid = recorder.record.turns_spec();
        let ghost entry = RecordedInput::ToolResult(result);
        let turn_id = recorder.record_tool_result(result);
        proof {
            assert(recorded[k as int] == entry);
            let old_steps = steps;
            steps = steps.push(recorder.record.turns_spec());
            tids = tids.push(turn_id);
            assert forall|i: int| 0 <= i < k + 1 implies #[trigger] input_added(steps[i], steps[i + 1], recorded[i], tids[i]) by {
                if i < k {
                    assert(steps[i] == old_steps[i] && steps[i + 1] == old_steps[i + 1]);
                }
            }
        }
        let ghost pending_before = batch.pending();
        let ghost collected_before = batch.collected();
        let added = batch.add_result(id, answer);
        proof {
            assert(has_key(pending_before, all[k as int].tool_call_id@));
            assert(added is Ok);
            let kk = choose|kk: int| 0 <= kk < pending_before.len() && pending_before[kk].0@ == id@
                && batch.pending() == pending_before.remove(kk);
            assert forall|j: int| k + 1 <= j < all.len() implies has_key(batch.pending(), (#[trigger] all[j]).tool_call_id@)
                && !has_key(batch.collected(), all[j].tool_call_id@) by {
                assert(all[j].tool_call_id@ != all[k as int].tool_call_id@);
                lemma_key_survives_remove(pending_before, kk, all[j].tool_call_id@);
                lemma_key_absent_push(collected_before, (id, answer), all[j].tool_call_id@);
            }
        }
        k = k + 1;
        assert(results@ =~= all.subrange(k as int, all.len() as int));
    }
    assert(inputs_added_via(rec0, recorder.record.turns_spec(), recorded, steps, tids));
    match batch.into_resolved() {
        Resolution::Complete(resolved) => resolved,
        Resolution::Pending(unresolved) => unresolved.interrupt_remaining(),
    }
}

/// After at least one input is recorded, the record ends with an input turn.
proof fn lemma_inputs_end_with_input(before: Seq<TurnRecord>, after: Seq<TurnRecord>, entries: Seq<RecordedInput>)
    requires
        inputs_added(before, after, entries),
        entries.len() > 0,
    ensures
        after.len() > 0,
        is_input(after.last()),
{
    let (steps, ids) = choose|steps: Seq<Seq<TurnRecord>>, ids: Seq<TurnId>| #[trigger] inputs_added_via(before, after, entries, steps, ids);
    let n = entries.len() - 1;
    assert(input_added(steps[n], steps[n + 1], entries[n], ids[n]));
}

/// Whether the harness can take `msg` in its state: a stream result must
/// fit the state (see [`stream_result_fits`]), and tool results must resolve
/// the batch they come with (see [`results_fit`]).
pub open spec fn accepts<P: AutoApprovalPolicy>(h: Harness<P>, msg: LoopMessage) -> bool {
    match msg {
        LoopMessage::Cmd(_) => true,
        LoopMessage::StreamResult(res) => stream_result_fits(h.state_spec(), res),
        LoopMessage::ToolBatchExecutionResult { batch, results } => match h.state_spec() {
            HarnessState::ToolCallsAreRunning { .. } => results_fit(batch, results@),
            HarnessState::InterruptingToolExecution { .. } => results_fit(batch, results@),
            _ => true,
        },
    }
}

/// What a step does.
pub open spec fn step_spec<P: AutoApprovalPolicy>(old: Harness<P>, msg: LoopMessage, new: Harness<P>, effects: Seq<Effect>) -> bool {
    &&& new.policies_spec() == old.policies_spec()
    &&& match msg {
        LoopMessage::Cmd(cmd) => command_step(old, cmd, new, effects),
        LoopMessage::StreamResult(res) => stream_step(old, res, new, effects),
        LoopMessage::ToolBatchExecutionResult { batch, results } => tools_step(old, batch, results@, new, effects),
    }
}

impl<P: AutoApprovalPolicy> Harness<P> {
    /// Handles the end of a tool run: the results are recorded, handed to
    /// the model in the batch's order, and the model streams again.
    pub fn on_tool_results(self, batch: ToolBatch<Resolving>, results: Vec<ToolCallResult>) -> (r: (Harness<P>, Vec<Effect>))
        requires
            accepts(self, LoopMessage::ToolBatchExecutionResult { batch, results }),
        ensures
            tools_step(self, batch, results@, r.0, r.1@),
            r.0.policies_spec() == self.policies_spec(),
    {
        proof {
            use_type_invariant(&self);
        }
        let ghost gbatch = batch;
        let ghost gresults = results@;
        let Harness { state, recorder, policies } = self;
        let mut recorder = recorder;
        let mut effects: Vec<Effect> = Vec::new();
        let agent = match state {
            HarnessState::ToolCallsAreRunning { agent } => agent,
            HarnessState::InterruptingToolExecution { agent } => agent,
            other => {
                return (Harness { state: other, recorder, policies }, effects);
            },
        };
        let resolved = resolve_results(batch, results, &mut recorder);
        let ghost rs = resolved.collected().map_values(|p: (ToolCallId, ToolResult)| p.1);
        let new_agent = agent.add_all_tool_responses(resolved);
        proof {
            lemma_inputs_end_with_input(
                self.recorder_spec().record.turns_spec(),
                recorder.record.turns_spec(),
                recorded_results(gresults),
            );
            assert(answers_as(rs, gbatch.collected(), gresults)
                && new_agent.history() == push_inputs_spec(agent.history(), result_entries(rs)));
        }
        effects.push(Effect::StartStream(new_agent));
        (Harness { state: HarnessState::Streaming, recorder, policies }, effects)
    }

    /// Takes the next message of the session loop: returns the next state
    /// and what the host has to do.
    pub fn step(self, msg: LoopMessage) -> (r: (Harness<P>, Vec<Effect>))
        requires
            accepts(self, msg),
        ensures
            step_spec(self, msg, r.0, r.1@),
    {
        match msg {
            LoopMessage::Cmd(cmd) => self.on_command(cmd),
            LoopMessage::StreamResult(res) => self.on_stream_result(res),
            LoopMessage::ToolBatchExecutionResult { batch, results } => self.on_tool_results(batch, results),
        }
    }
}

impl<P: AutoApprovalPolicy> Harness<P> {
    /// Whether `step` takes `msg` in the current state (see `accepts`): a
    /// stream result must fit the stream under way, and tool results must
    /// answer exactly the calls still waiting.
    pub fn accepts_message(&self, msg: &LoopMessage) -> (r: bool)
        ensures
            r == accepts(*self, *msg),
    {
        match msg {
            LoopMessage::Cmd(_) => true,
            LoopMessage::StreamResult(res) => match &self.state {
                HarnessState::Streaming => match res {
                    StreamResult::Interrupted(_) => false,
                    StreamResult::WaitingForUserMessage { agent, .. } => agent.turns().len() > 0,
                    _ => true,
                },
                HarnessState::InterruptingStream { .. } => match res {
                    StreamResult::Interrupted(_) => true,
                    _ => false,
                },
                _ => true,
            },
            LoopMessage::ToolBatchExecutionResult { batch, results } => match &self.state {
                HarnessState::ToolCallsAreRunning { .. } | HarnessState::InterruptingToolExecution { .. } => {
                    let mut ids: Vec<ToolCallId> = Vec::new();
                    let mut i: usize = 0;
                    while i < results.len()
                        invariant
                            i <= results.len(),
                            ids@.len() == i,
                            forall|j: int| 0 <= j < i ==> (#[trigger] ids@[j])@ == results@[j].tool_call_id@,
                        decreases results.len() - i,
                    {
                        ids.push(results[i].tool_call_id.clone());
                        i = i + 1;
                    }
                    let ok = batch.answered_exactly_by(&ids);
                    assert(ok == results_fit(*batch, results@)) by {
                        if ok {
                            assert forall|i: int| 0 <= i < results@.len() implies has_key(batch.pending(), (#[trigger] results@[i]).tool_call_id@)
                                && !has_key(batch.collected(), results@[i].tool_call_id@) by {
                                assert(has_key(batch.pending(), ids@[i]@));
                            }
                            assert forall|i: int, j: int| 0 <= i < j < results@.len() implies (#[trigger] results@[i]).tool_call_id@
                                != (#[trigger] results@[j]).tool_call_id@ by {
                                assert(ids@[i]@ != ids@[j]@);
                            }
                        } else if results_fit(*batch, results@) {
                            assert forall|i: int| 0 <= i < ids@.len() implies has_key(batch.pending(), (#[trigger] ids@[i])@) && !has_key(
                                batch.collected(),
                                ids@[i]@,
                            ) by {
                                assert(has_key(batch.pending(), results@[i].tool_call_id@));
                            }
                            assert forall|i: int, j: int| 0 <= i < j < ids@.len() implies (#[trigger] ids@[i])@ != (#[trigger] ids@[j])@ by {
                                assert(results@[i].tool_call_id@ != results@[j].tool_call_id@);
                            }
                            assert(answers_exactly(*batch, ids@));
                        }
                    }
                    ok
                },
                _ => true,
            },
        }
    }
}

} // verus!
