use auger::agent::{Prompt, StreamEnd, StreamOutcome, StreamResult};
use auger::harness::{
    AutoApprovalPolicies, Effect, Harness, HarnessState, LoopMessage, SessionCommand, SessionEvent, ToolAuthorization,
};
use auger::provider::{AssistantResponse, Block, LlmModel, ToolCallRequest, UserPrompt};
use auger::record::{
    AssistantTurnOutcome, ModelInfo, RecordableTurn, RecordedInput, SessionId, SessionRecord, SessionRecorder,
    ToolCallResult, ToolData, ToolOutcome,
};
use auger::shell_policy::BashAutoApprovalPolicy;
use auger::tool_batch::ToolCallId;

fn model() -> LlmModel {
    LlmModel { provider: "dummy".into(), name: "dummy".into() }
}

fn fresh(policies: Vec<BashAutoApprovalPolicy>) -> Harness<BashAutoApprovalPolicy> {
    let record = SessionRecord::new(SessionId(7), "/work".into(), ModelInfo::new("dummy".into(), "dummy".into()));
    let (harness, effects) = Harness::start(
        model(),
        "system".into(),
        Vec::new(),
        SessionRecorder::new(record),
        AutoApprovalPolicies::new(policies),
    );
    assert!(effects.is_empty());
    assert!(matches!(harness.state(), HarnessState::WaitingForUserMessage { .. }));
    harness
}

fn send(harness: Harness<BashAutoApprovalPolicy>, text: &str) -> (Harness<BashAutoApprovalPolicy>, Vec<Effect>) {
    harness.step(LoopMessage::Cmd(SessionCommand::SendMessage(Prompt::User(UserPrompt::new(text.into())))))
}

fn streamed_agent(effects: Vec<Effect>) -> auger::agent::TypedAgent<auger::agent::ReadyToStream> {
    assert_eq!(effects.len(), 1);
    match effects.into_iter().next().unwrap() {
        Effect::StartStream(agent) => agent,
        _ => panic!("expected a stream to start"),
    }
}

fn end() -> StreamEnd {
    StreamEnd { usage: None, stop_reason: Some("end_turn".into()) }
}

fn shell_call(id: &str, command: &str) -> ToolCallRequest {
    ToolCallRequest { id: id.into(), name: "shell".into(), arguments: format!("{{\"command\":\"{}\"}}", command) }
}

#[test]
fn a_message_is_recorded_and_streamed() {
    let harness = fresh(Vec::new());
    let (harness, effects) = send(harness, "hello");
    assert!(matches!(harness.state(), HarnessState::Streaming));
    let agent = streamed_agent(effects);
    assert_eq!(agent.request_messages().len(), 2);
    let turns = harness.recorder().record().turns();
    assert_eq!(turns.len(), 1);
    assert!(matches!(&turns[0].data.turn, RecordableTurn::Input { entries }
        if matches!(entries.as_slice(), [RecordedInput::User(p)] if p.message == "hello")));
}

#[test]
fn a_completed_text_turn_waits_for_the_user() {
    let (harness, effects) = send(fresh(Vec::new()), "hello");
    let agent = streamed_agent(effects);
    let response = AssistantResponse { blocks: vec![Block::Text("hi there".into())] };
    let result = agent.finish_stream(StreamOutcome::Completed { response, end: end() });
    let (harness, effects) = harness.step(LoopMessage::StreamResult(result));
    assert!(matches!(harness.state(), HarnessState::WaitingForUserMessage { .. }));
    assert!(effects.iter().any(|e| matches!(e, Effect::Emit(SessionEvent::TurnComplete { stop_reason: Some(s), .. }) if s == "end_turn")));
    let turns = harness.recorder().record().turns();
    assert_eq!(turns.len(), 2);
    assert!(matches!(&turns[1].data.turn, RecordableTurn::Assistant { outcome: AssistantTurnOutcome::Completed { .. } }));
    assert_eq!(turns[1].data.parent_id, Some(turns[0].data.turn_id));
}

#[test]
fn unapproved_calls_ask_for_consent_then_run() {
    let (harness, effects) = send(fresh(Vec::new()), "remove it");
    let agent = streamed_agent(effects);
    let response = AssistantResponse { blocks: vec![Block::ToolCall(shell_call("c1", "rm -rf x"))] };
    let result = agent.finish_stream(StreamOutcome::Completed { response, end: end() });
    assert!(matches!(result, StreamResult::WaitingForToolResponses { .. }));
    let (harness, effects) = harness.step(LoopMessage::StreamResult(result));
    assert!(matches!(harness.state(), HarnessState::NeedToolConsent { .. }));
    assert!(effects.iter().any(|e| matches!(e, Effect::Emit(SessionEvent::ToolConsentRequired { tool_calls })
        if tool_calls.len() == 1 && tool_calls[0].id == "c1")));
    let (harness, effects) = harness.step(LoopMessage::Cmd(SessionCommand::ToolDecision {
        id: "c1".into(),
        approved: false,
        message: Some("not that".into()),
    }));
    assert!(matches!(harness.state(), HarnessState::ToolCallsAreRunning { .. }));
    assert_eq!(effects.len(), 1);
    let (batch, calls, authorization) = match effects.into_iter().next().unwrap() {
        Effect::RunTools { batch, calls, authorization } => (batch, calls, authorization),
        _ => panic!("expected the calls to run"),
    };
    assert_eq!(calls.len(), 1);
    assert_eq!(authorization.denial_reason(&"c1".to_string()), Some(Some("not that".to_string())));
    let results = vec![ToolCallResult {
        tool_call_id: ToolCallId::from_string("c1".into()),
        outcome: ToolOutcome::Denied { reason: Some("not that".into()) },
    }];
    let (harness, effects) = harness.step(LoopMessage::ToolBatchExecutionResult { batch, results });
    assert!(matches!(harness.state(), HarnessState::Streaming));
    let agent = streamed_agent(effects);
    assert_eq!(agent.request_messages().len(), 4);
    let record = harness.recorder().record();
    assert_eq!(record.turns().len(), 3);
    assert_eq!(record.turns()[1].events.len(), 1);
}

#[test]
fn approved_calls_run_without_asking() {
    let harness = fresh(vec![BashAutoApprovalPolicy::new("/work")]);
    let (harness, effects) = send(harness, "list");
    let agent = streamed_agent(effects);
    let response = AssistantResponse { blocks: vec![Block::ToolCall(shell_call("c1", "ls"))] };
    let result = agent.finish_stream(StreamOutcome::Completed { response, end: end() });
    let (harness, effects) = harness.step(LoopMessage::StreamResult(result));
    assert!(matches!(harness.state(), HarnessState::ToolCallsAreRunning { .. }));
    let run = effects.into_iter().find(|e| matches!(e, Effect::RunTools { .. })).expect("the calls should run");
    match run {
        Effect::RunTools { calls, authorization, .. } => {
            assert_eq!(calls.len(), 1);
            assert!(matches!(authorization, ToolAuthorization::AllAutoApproved));
        },
        _ => unreachable!(),
    }
}

#[test]
fn interrupting_a_stream_cancels_it() {
    let (harness, _) = send(fresh(Vec::new()), "hello");
    let (harness, effects) = harness.step(LoopMessage::Cmd(SessionCommand::Interrupt));
    assert!(matches!(harness.state(), HarnessState::InterruptingStream { pending_message: None }));
    assert!(matches!(effects.as_slice(), [Effect::CancelStream]));
    let (harness, effects) = send(harness, "meanwhile");
    assert!(effects.is_empty());
    assert!(matches!(harness.state(), HarnessState::InterruptingStream { pending_message: Some(_) }));
}

#[test]
fn stop_and_snapshot_are_acknowledged() {
    let harness = fresh(Vec::new());
    let (harness, effects) = harness.step(LoopMessage::Cmd(SessionCommand::Snapshot));
    assert!(matches!(effects.as_slice(), [Effect::ReplySnapshot]));
    assert!(matches!(harness.state(), HarnessState::WaitingForUserMessage { .. }));
    let (harness, effects) = harness.step(LoopMessage::Cmd(SessionCommand::Stop));
    assert!(matches!(effects.as_slice(), [Effect::Stop]));
    assert!(matches!(harness.state(), HarnessState::Stopped));
}

#[test]
fn a_tool_result_is_recorded_with_its_text() {
    let result = ToolCallResult {
        tool_call_id: ToolCallId::from_string("c9".into()),
        outcome: ToolOutcome::Success { content: vec![ToolData::Text { text: "a".into() }, ToolData::Text { text: "b".into() }] },
    };
    let tr = result.to_tool_result();
    assert_eq!(tr.tool_call_id, "c9");
    assert_eq!(tr.content, "a b");
    let denied = ToolCallResult { tool_call_id: ToolCallId::from_string("c9".into()), outcome: ToolOutcome::Denied { reason: None } };
    assert_eq!(denied.to_tool_result().content, "Tool call was denied. Do not attempt to make the same tool call.");
}

#[test]
fn only_fitting_results_are_accepted() {
    let (harness, effects) = send(fresh(Vec::new()), "hello");
    let agent = streamed_agent(effects);
    let interrupted = agent.finish_stream(StreamOutcome::Interrupted { partial: None });
    let msg = LoopMessage::StreamResult(interrupted);
    assert!(!harness.accepts_message(&msg));
    assert!(harness.accepts_message(&LoopMessage::Cmd(SessionCommand::Snapshot)));
}
