//! The terminal client's events: what the server streams, and the events the
//! chat view takes.

use vstd::prelude::*;
use crate::text::{append_str, opt_view};

verus! {

/// A session as the server lists it.
#[derive(Debug)]
pub struct SessionInfo {
    /// The session's uuid, as an integer.
    pub session_id: u128,
    pub model: String,
    pub context_window: u64,
    pub write_token: String,
    pub read_token: String,
}

impl Clone for SessionInfo {
    fn clone(&self) -> (r: Self)
        ensures
            r == *self,
    {
        SessionInfo {
            session_id: self.session_id,
            model: self.model.clone(),
            context_window: self.context_window,
            write_token: self.write_token.clone(),
            read_token: self.read_token.clone(),
        }
    }
}

/// How a tool call was let run, as the chat shows it.
#[derive(Debug, Clone, Copy, PartialEq, Eq, Structural)]
pub enum ToolDecision {
    Approved,
    Denied,
    Auto,
}

/// One entry of the chat transcript.
#[derive(Debug)]
pub enum ChatItem {
    User { text: String },
    Assistant { text: String },
    Reasoning { text: String, collapsed: bool },
    Tool {
        id: String,
        name: String,
        args: String,
        result: Option<String>,
        decision: Option<ToolDecision>,
        /// Whether the full diff or file content is shown.
        expanded: bool,
    },
    Error { text: String },
}

/// Whether the client waits for the server.
#[derive(Debug, Clone, Copy, PartialEq, Eq, Structural)]
pub enum Status {
    Connecting,
    Idle,
    Running,
}

/// An event of the chat view, as the server's stream yields it.
#[derive(Debug)]
pub enum SseEvent {
    Content { text: String },
    Reasoning { text: String },
    /// A partial tool call: `arguments` is a fragment to append.
    ToolCallDelta { id: String, name: String, arguments: String },
    /// The whole tool call, whose arguments supersede the fragments.
    ToolCallComplete { id: String, name: String, arguments: String },
    ToolResult {
        id: String,
        content: String,
        /// The call was refused or denied.
        denied: bool,
    },
    Metrics { prompt_tokens: Option<u64>, completion_tokens: Option<u64>, total_tokens: Option<u64> },
    TurnComplete,
    Interrupted,
    StreamClosed,
    StreamError { message: String },
}

/// Token counts the server reports.
#[derive(Debug)]
pub struct RawUsage {
    pub prompt_tokens: Option<u64>,
    pub completion_tokens: Option<u64>,
    pub total_tokens: Option<u64>,
}

/// A tool call inside a consent request.
#[derive(Debug)]
pub struct RawToolCallRequest {
    pub id: String,
    pub name: String,
    pub arguments: String,
}

/// Data a tool produced.
#[derive(Debug)]
pub enum RawToolData {
    Text { text: String },
}

/// How a tool call ended, as the server reports it.
#[derive(Debug)]
pub enum RawToolOutcome {
    Success { content: Vec<RawToolData> },
    Error { error: Vec<RawToolData> },
    Denied { reason: Option<String> },
    Interrupted,
}

/// The result of a tool call, as the server reports it.
#[derive(Debug)]
pub struct RawToolCallResult {
    pub outcome: RawToolOutcome,
}

/// An event as the server sends it.
#[derive(Debug)]
pub enum RawSessionEvent {
    TextDelta { text: String },
    ReasoningDelta { text: String },
    ToolCall { id: String, name: String, arguments: String },
    ToolCallComplete { id: String, name: String, arguments: String },
    Done { usage: Option<RawUsage>, stop_reason: Option<String> },
    ToolConsentRequired { tool_calls: Vec<RawToolCallRequest> },
    ToolCallResult { id: String, result: RawToolCallResult },
    Interrupted,
    StreamError { error: String },
    Closed,
}

/// The texts of `data`, concatenated.
pub open spec fn concat_texts(data: Seq<RawToolData>) -> Seq<char>
    decreases data.len(),
{
    if data.len() == 0 {
        seq![]
    } else {
        concat_texts(data.drop_last()) + match data.last() {
            RawToolData::Text { text } => text@,
        }
    }
}

/// The text the chat shows under a tool call for its outcome.
pub open spec fn outcome_text_spec(outcome: RawToolOutcome) -> Seq<char> {
    match outcome {
        RawToolOutcome::Success { content } => concat_texts(content@),
        RawToolOutcome::Error { error } => concat_texts(error@),
        RawToolOutcome::Denied { reason } => match reason {
            Some(r) => r@,
            None => "Tool call was denied."@,
        },
        RawToolOutcome::Interrupted => "Tool call was interrupted."@,
    }
}

fn concat(data: Vec<RawToolData>) -> (r: String)
    ensures
        r@ == concat_texts(data@),
{
    let mut out = String::new();
    let mut i: usize = 0;
    while i < data.len()
        invariant
            i <= data.len(),
            out@ == concat_texts(data@.take(i as int)),
        decreases data.len() - i,
    {
        assert(data@.take(i + 1).drop_last() =~= data@.take(i as int));
        match &data[i] {
            RawToolData::Text { text } => append_str(&mut out, text.as_str()),
        }
        i = i + 1;
    }
    assert(data@.take(data.len() as int) =~= data@);
    out
}

impl RawToolOutcome {
    /// The text the chat shows under the tool call.
    pub fn into_text(self) -> (r: String)
        ensures
            r@ == outcome_text_spec(self),
    {
        match self {
            RawToolOutcome::Success { content } => concat(content),
            RawToolOutcome::Error { error } => concat(error),
            RawToolOutcome::Denied { reason } => match reason {
                Some(r) => r,
                None => "Tool call was denied.".to_owned(),
            },
            RawToolOutcome::Interrupted => "Tool call was interrupted.".to_owned(),
        }
    }
}

/// The chat events a server event becomes.
pub open spec fn transformed(ev: RawSessionEvent, out: Seq<SseEvent>) -> bool {
    match ev {
        RawSessionEvent::TextDelta { text } => out == seq![SseEvent::Content { text }],
        RawSessionEvent::ReasoningDelta { text } => out == seq![SseEvent::Reasoning { text }],
        RawSessionEvent::ToolCall { id, name, arguments } => out == seq![SseEvent::ToolCallDelta { id, name, arguments }],
        RawSessionEvent::ToolCallComplete { id, name, arguments } => out
            == seq![SseEvent::ToolCallComplete { id, name, arguments }],
        RawSessionEvent::Done { usage, .. } => match usage {
            Some(u) => out == seq![
                SseEvent::Metrics {
                    prompt_tokens: u.prompt_tokens,
                    completion_tokens: u.completion_tokens,
                    total_tokens: u.total_tokens,
                },
                SseEvent::TurnComplete,
            ],
            None => out == seq![SseEvent::TurnComplete],
        },
        RawSessionEvent::ToolConsentRequired { tool_calls } => {
            &&& out.len() == tool_calls@.len()
            &&& forall|i: int| 0 <= i < out.len() ==> (#[trigger] out[i]) == (SseEvent::ToolCallComplete {
                id: tool_calls@[i].id,
                name: tool_calls@[i].name,
                arguments: tool_calls@[i].arguments,
            })
        },
        RawSessionEvent::ToolCallResult { id, result } => {
            &&& out.len() == 1
            &&& out[0] matches SseEvent::ToolResult { id: rid, content, denied }
            &&& rid == id
            &&& content@ == outcome_text_spec(result.outcome)
            &&& denied == (result.outcome is Denied)
        },
        RawSessionEvent::Interrupted => out == seq![SseEvent::Interrupted],
        RawSessionEvent::StreamError { error } => out == seq![SseEvent::StreamError { message: error }],
        RawSessionEvent::Closed => out == seq![SseEvent::StreamClosed],
    }
}

/// Turns a server event into the chat events it stands for: a finished turn
/// reports its token counts first when it has them, and a consent request
/// lists each call it asks about as a whole call.
pub fn transform_raw_event(ev: RawSessionEvent) -> (r: Vec<SseEvent>)
    ensures
        transformed(ev, r@),
{
    let mut out: Vec<SseEvent> = Vec::new();
    match ev {
        RawSessionEvent::TextDelta { text } => out.push(SseEvent::Content { text }),
        RawSessionEvent::ReasoningDelta { text } => out.push(SseEvent::Reasoning { text }),
        RawSessionEvent::ToolCall { id, name, arguments } => out.push(SseEvent::ToolCallDelta { id, name, arguments }),
        RawSessionEvent::ToolCallComplete { id, name, arguments } => {
            out.push(SseEvent::ToolCallComplete { id, name, arguments })
        },
        RawSessionEvent::Done { usage, stop_reason: _ } => {
            match usage {
                Some(u) => out.push(SseEvent::Metrics {
                    prompt_tokens: u.prompt_tokens,
                    completion_tokens: u.completion_tokens,
                    total_tokens: u.total_tokens,
                }),
                None => {},
            }
            out.push(SseEvent::TurnComplete);
        },
        RawSessionEvent::ToolConsentRequired { tool_calls } => {
            let mut calls = tool_calls;
            let ghost all = calls@;
            let total = calls.len();
            while calls.len() > 0
                invariant
                    out@.len() + calls@.len() == all.len(),
                    all.len() == total,
                    calls@ == all.subrange(out@.len() as int, all.len() as int),
                    forall|i: int| 0 <= i < out@.len() ==> (#[trigger] out@[i]) == (SseEvent::ToolCallComplete {
                        id: all[i].id,
                        name: all[i].name,
                        arguments: all[i].arguments,
                    }),
                decreases calls.len(),
            {
                let tc = calls.remove(0);
                assert(tc == all[out@.len() as int]);
                out.push(SseEvent::ToolCallComplete { id: tc.id, name: tc.name, arguments: tc.arguments });
                assert(calls@ =~= all.subrange(out@.len() as int, all.len() as int));
            }
        },
        RawSessionEvent::ToolCallResult { id, result } => {
            let denied = match &result.outcome {
                RawToolOutcome::Denied { .. } => true,
                _ => false,
            };
            out.push(SseEvent::ToolResult { id, content: result.outcome.into_text(), denied });
        },
        RawSessionEvent::Interrupted => out.push(SseEvent::Interrupted),
        RawSessionEvent::StreamError { error } => out.push(SseEvent::StreamError { message: error }),
        RawSessionEvent::Closed => out.push(SseEvent::StreamClosed),
    }
    proof {
        assert(transformed(ev, out@)) by {
            match ev {
                RawSessionEvent::TextDelta { text } => assert(out@ =~= seq![SseEvent::Content { text }]),
                RawSessionEvent::ReasoningDelta { text } => assert(out@ =~= seq![SseEvent::Reasoning { text }]),
                RawSessionEvent::ToolCall { id, name, arguments } => assert(out@ =~= seq![
                    SseEvent::ToolCallDelta { id, name, arguments },
                ]),
                RawSessionEvent::ToolCallComplete { id, name, arguments } => assert(out@ =~= seq![
                    SseEvent::ToolCallComplete { id, name, arguments },
                ]),
                RawSessionEvent::Done { usage, .. } => match usage {
                    Some(u) => assert(out@ =~= seq![
                        SseEvent::Metrics {
                            prompt_tokens: u.prompt_tokens,
                            completion_tokens: u.completion_tokens,
                            total_tokens: u.total_tokens,
                        },
                        SseEvent::TurnComplete,
                    ]),
                    None => assert(out@ =~= seq![SseEvent::TurnComplete]),
                },
                RawSessionEvent::Interrupted => assert(out@ =~= seq![SseEvent::Interrupted]),
                RawSessionEvent::StreamError { error } => assert(out@ =~= seq![SseEvent::StreamError { message: error }]),
                RawSessionEvent::Closed => assert(out@ =~= seq![SseEvent::StreamClosed]),
                _ => {},
            }
        }
    }
    out
}

} // verus!
