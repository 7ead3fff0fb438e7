use auger::agent::{Agent, AgentStatus, Prompt, StreamEnd, StreamOutcome, StreamResult, TypedAgent, WaitingForUserMessage};
use auger::dummy::{DummyProvider, DummyResponse, LlmRequest};
use auger::json::parse_json;
use auger::provider::{
    AssistantResponse, Block, BlockKind, CompletedLlmResponse, LlmError, LlmErrorKind, LlmModel, Message, StreamEvent,
    ToolCallRequest, ToolDefinition, ToolResult, UserPrompt,
};
use auger::tool_batch::{Resolution, ToolCallId};

fn model() -> LlmModel {
    LlmModel { provider: "dummy".into(), name: "dummy".into() }
}

fn tools() -> Vec<ToolDefinition> {
    vec![ToolDefinition {
        name: "read_file".into(),
        description: Some("Read a file from the workspace.".into()),
        parameters: parse_json(r#"{"type":"object","properties":{"path":{"type":"string"}},"required":["path"]}"#).unwrap(),
    }]
}

fn text_response(text: &str) -> CompletedLlmResponse {
    CompletedLlmResponse {
        response: AssistantResponse { blocks: vec![Block::Text(text.into())] },
        usage: None,
        stop_reason: Some("stop".into()),
    }
}

fn end() -> StreamEnd {
    StreamEnd { usage: None, stop_reason: None }
}

fn request(messages: Vec<Message>) -> LlmRequest {
    LlmRequest { messages, tools: tools() }
}

#[test]
fn completes_one_tool_call_iteration() {
    let call = ToolCallRequest { id: "call-1".into(), name: "read_file".into(), arguments: r#"{"path":"README.md"}"#.into() };
    let mut provider = DummyProvider::new(vec![
        CompletedLlmResponse {
            response: AssistantResponse { blocks: vec![Block::ToolCall(call)] },
            usage: None,
            stop_reason: Some("tool_calls".into()),
        },
        text_response("The file has been read."),
    ]);
    let agent = TypedAgent::<WaitingForUserMessage>::new(model(), "system".into(), tools())
        .add_message(Prompt::User(UserPrompt::new("Read README.md.".into())));
    let first = provider.complete(request(agent.request_messages())).unwrap();
    let agent = match agent.finish_stream(StreamOutcome::Completed { response: first.response, end: end() }) {
        StreamResult::WaitingForToolResponses { agent, .. } => agent,
        _ => panic!("expected tool calls"),
    };
    assert_eq!(agent.tool_names_requested(), ["read_file"]);
    let mut batch = agent.get_batch();
    batch
        .add_result(
            ToolCallId::from_string("call-1".into()),
            ToolResult { tool_call_id: "call-1".into(), content: "README contents".into() },
        )
        .expect("tool call ID should be valid");
    let batch = match batch.into_resolved() {
        Resolution::Complete(batch) => batch,
        Resolution::Pending(_) => panic!("expected the single-call batch to be complete"),
    };
    let agent = agent.add_all_tool_responses(batch);
    let messages = agent.request_messages();
    assert!(matches!(
        messages.as_slice(),
        [Message::System(_), Message::User { .. }, Message::Assistant { .. }, Message::User { tool_call_results, .. }]
            if tool_call_results.len() == 1 && tool_call_results[0].content == "README contents"
    ));
    let second = provider.complete(request(messages)).unwrap();
    let result = agent.finish_stream(StreamOutcome::Completed { response: second.response, end: end() });
    assert!(matches!(result, StreamResult::WaitingForUserMessage { .. }));
    assert_eq!(provider.requests().len(), 2);
    assert_eq!(provider.requests()[0].tools.len(), 1);
    assert_eq!(provider.requests()[1].tools.len(), 1);
}

#[test]
fn retries_failed_stream_without_partial_response() {
    let mut provider = DummyProvider::new_responses(vec![
        DummyResponse::Stream(vec![
            Ok(StreamEvent::BlockStart { index: 0, kind: BlockKind::Text }),
            Ok(StreamEvent::BlockDelta { index: 0, delta: "partial".into() }),
            Err(LlmError { kind: LlmErrorKind::Fatal, message: "stream failed".into(), status: None, request_id: None }),
        ]),
        DummyResponse::Response(text_response("retried")),
    ]);
    let agent = TypedAgent::<WaitingForUserMessage>::new(model(), "system".into(), Vec::new())
        .add_message(Prompt::User(UserPrompt::new("first".into())));
    let (events, result) = provider.stream(LlmRequest { messages: agent.request_messages(), tools: Vec::new() });
    assert_eq!(events.len(), 2);
    let error = result.unwrap_err();
    let agent = match agent.finish_stream(StreamOutcome::Failed { partial: None, error }) {
        StreamResult::Failed { agent, error } => {
            assert_eq!(error.message, "stream failed");
            agent.retry()
        },
        _ => panic!("expected stream failure"),
    };
    let messages = agent.request_messages();
    assert!(matches!(messages.as_slice(), [Message::System(_), Message::User { .. }]));
    let (_, result) = provider.stream(LlmRequest { messages, tools: Vec::new() });
    let response = text_response("retried");
    let result = agent.finish_stream(StreamOutcome::Completed { response: response.response, end: result.unwrap() });
    assert!(matches!(result, StreamResult::WaitingForUserMessage { .. }));
}

#[test]
fn continues_after_interruption_with_partial_response() {
    let agent = TypedAgent::<WaitingForUserMessage>::new(model(), "system".into(), Vec::new())
        .add_message(Prompt::User(UserPrompt::new("first".into())));
    let partial = AssistantResponse { blocks: vec![Block::Text("partial".into())] };
    let agent = match agent.finish_stream(StreamOutcome::Interrupted { partial: Some(partial) }) {
        StreamResult::Interrupted(agent) => agent,
        _ => panic!("expected stream interruption"),
    };
    let agent = agent.seal_and_continue(Prompt::User(UserPrompt::new("continue".into())));
    let messages = agent.request_messages();
    assert!(matches!(
        messages.as_slice(),
        [Message::System(_), Message::User { .. }, Message::Assistant { response }, Message::User { .. }]
            if matches!(response.blocks.as_slice(), [Block::Text(t)] if t == "partial")
    ));
}

#[test]
fn the_facade_refuses_transitions_from_the_wrong_state() {
    let agent = Agent::new(model(), "system".into(), Vec::new());
    assert!(matches!(agent.status(), AgentStatus::WaitingForUserMessage));
    let agent = Agent::new(model(), "system".into(), Vec::new());
    let refused = agent.retry_after_failure().err().expect("a fresh agent has not failed");
    assert!(matches!(refused.actual(), AgentStatus::WaitingForUserMessage));
}

#[test]
fn dummy_provider_replays_responses_as_streams() {
    let call = ToolCallRequest { id: "c".into(), name: "t".into(), arguments: "{}".into() };
    let mut provider = DummyProvider::new(vec![CompletedLlmResponse {
        response: AssistantResponse {
            blocks: vec![Block::Text("hi".into()), Block::Reasoning { text: String::new() }, Block::ToolCall(call)],
        },
        usage: None,
        stop_reason: Some("stop".into()),
    }]);
    let (events, result) = provider.stream(LlmRequest { messages: Vec::new(), tools: Vec::new() });
    assert_eq!(events.len(), 5);
    assert!(matches!(&events[1], StreamEvent::BlockDelta { delta, .. } if delta == "hi"));
    assert!(matches!(&events[4], StreamEvent::BlockEnd { index: 0 }));
    assert_eq!(result.unwrap().stop_reason.as_deref(), Some("stop"));
    let (events, result) = provider.stream(LlmRequest { messages: Vec::new(), tools: Vec::new() });
    assert!(events.is_empty());
    assert_eq!(result.unwrap_err().message, "dummy provider has no queued response");
    assert_eq!(provider.requests().len(), 2);
}

#[test]
fn dummy_provider_refuses_streams_for_whole_responses() {
    let mut provider = DummyProvider::new_responses(vec![DummyResponse::PendingStream(Vec::new())]);
    let err = provider.complete(LlmRequest { messages: Vec::new(), tools: Vec::new() }).unwrap_err();
    assert_eq!(err.message, "dummy provider queued a stream response for complete");
}
