use auger::anthropic::{Decoded, StreamDecoder};
use auger::dummy::{DummyProvider, LlmRequest};
use auger::provider::{
    fold_events, AssistantResponse, Block, BlockKind, CompletedLlmResponse, StreamEvent, ToolCallRequest,
};
use auger::record::{ToolCallResult, ToolData, ToolOutcome};
use auger::tool_batch::{ToolBatch, ToolCallId};
use auger::tool_defs::{builtin_definitions, WebFetchText};
use auger::tools::{Grep, ToolError};

#[test]
fn folding_a_replay_gives_the_blocks_back() {
    let call = ToolCallRequest { id: "c".into(), name: "t".into(), arguments: "{\"a\":1}".into() };
    let blocks = vec![Block::Text("hello".into()), Block::Reasoning { text: "why".into() }, Block::ToolCall(call)];
    let mut provider = DummyProvider::new(vec![CompletedLlmResponse {
        response: AssistantResponse { blocks: blocks.clone() },
        usage: None,
        stop_reason: None,
    }]);
    let (events, _) = provider.stream(LlmRequest { messages: Vec::new(), tools: Vec::new() });
    let folded = fold_events(&events);
    assert_eq!(folded.len(), 3);
    assert!(matches!(&folded[0], Block::Text(t) if t == "hello"));
    assert!(matches!(&folded[1], Block::Reasoning { text } if text == "why"));
    assert!(matches!(&folded[2], Block::ToolCall(c) if c.id == "c" && c.name == "t" && c.arguments == "{\"a\":1}"));
}

#[test]
fn deltas_extend_the_block_opened_last() {
    let events = vec![
        StreamEvent::BlockDelta { index: 0, delta: "lost".into() },
        StreamEvent::BlockStart { index: 0, kind: BlockKind::Text },
        StreamEvent::BlockDelta { index: 0, delta: "a".into() },
        StreamEvent::BlockDelta { index: 0, delta: "b".into() },
        StreamEvent::BlockEnd { index: 0 },
        StreamEvent::BlockStart { index: 1, kind: BlockKind::ToolCall { id: "x".into(), name: "y".into() } },
        StreamEvent::BlockDelta { index: 1, delta: "{}".into() },
    ];
    let folded = fold_events(&events);
    assert_eq!(folded.len(), 2);
    assert!(matches!(&folded[0], Block::Text(t) if t == "ab"));
    assert!(matches!(&folded[1], Block::ToolCall(c) if c.arguments == "{}"));
}

#[test]
fn a_decoder_reports_the_bytes_it_holds() {
    let mut decoder = StreamDecoder::new();
    assert_eq!(decoder.pending_len(), 0);
    assert!(matches!(decoder.feed(b"data: {\"type\":\"ping\"}\nda"), Decoded::Continue(es) if es.is_empty()));
    assert_eq!(decoder.pending_len(), 2);
}

#[test]
fn a_batch_checks_the_ids_that_answer_it() {
    let calls = vec![
        ToolCallRequest { id: "a".into(), name: "t".into(), arguments: "{}".into() },
        ToolCallRequest { id: "b".into(), name: "t".into(), arguments: "{}".into() },
    ];
    let batch = ToolBatch::new(calls);
    let id = |s: &str| ToolCallId::from_string(s.into());
    assert!(batch.answered_exactly_by(&vec![id("b"), id("a")]));
    assert!(!batch.answered_exactly_by(&vec![id("a")]));
    assert!(!batch.answered_exactly_by(&vec![id("a"), id("a")]));
    assert!(!batch.answered_exactly_by(&vec![id("a"), id("c")]));
    assert!(!batch.answered_exactly_by(&Vec::new()));
}

#[test]
fn a_run_becomes_a_result() {
    let ok = ToolCallResult::of_run(ToolCallId::from_string("a".into()), Ok("out".into()));
    assert!(matches!(&ok.outcome, ToolOutcome::Success { content } if matches!(content.as_slice(), [ToolData::Text { text }] if text == "out")));
    let err = ToolCallResult::of_run(ToolCallId::from_string("a".into()), Err("bad".into()));
    assert!(matches!(&err.outcome, ToolOutcome::Error { error } if matches!(error.as_slice(), [ToolData::Text { text }] if text == "bad")));
    assert_eq!(ToolError::InvalidArgs("missing".into()).message(), "missing");
    assert_eq!(ToolError::Execution("boom".into()).message(), "boom");
}

#[test]
fn the_builtin_tools_describe_themselves() {
    let defs = builtin_definitions();
    let names: Vec<&str> = defs.iter().map(|d| d.name.as_str()).collect();
    assert_eq!(names, ["grep", "list_files", "shell", "todo_list", "dummy", "web_fetch", "web_fetch_text"]);
    assert!(defs.iter().all(|d| d.parameters.is_object()));
    assert_eq!(Grep::details().name, "grep");
    let schema = Grep::parameters().expect("the schema is JSON");
    assert_eq!(schema.get("required").and_then(|r| r.as_array()).map(|r| r.len()), Some(2));
    assert!(WebFetchText::details().description.starts_with("Fetch a URL and return only the visible text"));
}

#[test]
fn snapshot_errors_read_as_text() {
    assert_eq!(auger::harness::SnapshotError::SessionClosed.message(), "session is closed");
}
