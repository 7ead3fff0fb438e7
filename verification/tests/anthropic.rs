use auger::anthropic::{
    body_type, build_body, classify_body_type, classify_status, convert_messages, endpoints, format_user_agent,
    from_response, from_transport, parse_response, parse_u64, parse_usage, retry_after, with_retry_after, Decoded,
    StreamDecoder,
};
use auger::json::{compact_text, parse_json};
use auger::provider::{
    AssistantResponse, Block, BlockKind, LlmErrorKind, Message, StreamEvent, ToolCallRequest, ToolDefinition,
    ToolResult, UserPrompt,
};

#[test]
fn classifies_status_and_body() {
    assert!(matches!(classify_status(Some(429), classify_body_type("rate_limit_exceeded")), LlmErrorKind::Transient { .. }));
    assert!(matches!(classify_status(Some(429), classify_body_type("insufficient_quota")), LlmErrorKind::Fatal));
    assert!(matches!(classify_status(Some(429), classify_body_type("exceeded_current_quota_error")), LlmErrorKind::Fatal));
    assert!(matches!(classify_status(Some(429), classify_body_type("billing_error")), LlmErrorKind::Fatal));
    assert!(matches!(classify_status(Some(401), None), LlmErrorKind::Fatal));
    assert!(matches!(classify_status(Some(503), None), LlmErrorKind::Transient { .. }));
    assert!(matches!(from_transport(None, "builder error".into()).kind, LlmErrorKind::Transient { .. }));
}

#[test]
fn parses_retry_after_with_limit() {
    assert_eq!(retry_after(Some("30")), Some(30));
    assert_eq!(retry_after(Some("99999")), None);
    assert_eq!(retry_after(None), None);
    assert_eq!(retry_after(Some("soon")), None);
}

#[test]
fn numbers_parse_as_str_parse_does() {
    assert_eq!(parse_u64("+7"), Some(7));
    assert_eq!(parse_u64("18446744073709551615"), Some(u64::MAX));
    assert_eq!(parse_u64("18446744073709551616"), None);
    assert_eq!(parse_u64("+"), None);
    assert_eq!(parse_u64(""), None);
    assert_eq!(parse_u64("-1"), None);
}

#[test]
fn failures_take_the_wait_only_when_transient() {
    let kind = with_retry_after(LlmErrorKind::Transient { retry_after: None }, Some("12"));
    assert_eq!(kind, LlmErrorKind::Transient { retry_after: Some(12) });
    assert_eq!(with_retry_after(LlmErrorKind::Fatal, Some("12")), LlmErrorKind::Fatal);
    let err = from_response(529, "529 <unknown status code>", Some("req_1".into()), Some("3"), r#"{"error":{"type":"overloaded_error"}}"#.into());
    assert_eq!(err.kind, LlmErrorKind::Transient { retry_after: Some(3) });
    assert_eq!(err.message, r#"HTTP 529 <unknown status code>: {"error":{"type":"overloaded_error"}}"#);
    assert_eq!(err.status, Some(529));
    assert_eq!(err.request_id.as_deref(), Some("req_1"));
    let err = from_response(400, "400 Bad Request", None, None, r#"{"type":"billing_error"}"#.into());
    assert_eq!(err.kind, LlmErrorKind::Fatal);
    assert_eq!(body_type(r#"{"error":{"type":"x"},"type":"y"}"#).as_deref(), Some("x"));
    assert_eq!(body_type("not json"), None);
}

#[test]
fn user_agent_and_endpoints_have_defaults() {
    assert_eq!(format_user_agent(""), "auger-code/0.1.0");
    assert_eq!(format_user_agent("me/1"), "me/1");
    let (messages, models) = endpoints("");
    assert_eq!(messages, "https://api.anthropic.com/v1/messages");
    assert_eq!(models, "https://api.anthropic.com/v1/models");
    let (messages, _) = endpoints("http://localhost:8080//");
    assert_eq!(messages, "http://localhost:8080/v1/messages");
}

#[test]
fn messages_convert_to_request_json() {
    let messages = vec![
        Message::System("be brief".into()),
        Message::User { message: UserPrompt { message: "hi".into() }, tool_call_results: vec![] },
        Message::Assistant {
            response: AssistantResponse {
                blocks: vec![
                    Block::Text(String::new()),
                    Block::ToolCall(ToolCallRequest { id: "c1".into(), name: "ls".into(), arguments: r#"{"a":1}"#.into() }),
                ],
            },
        },
        Message::User {
            message: UserPrompt { message: String::new() },
            tool_call_results: vec![ToolResult { tool_call_id: "c1".into(), content: "ok".into() }],
        },
        Message::User { message: UserPrompt { message: String::new() }, tool_call_results: vec![] },
    ];
    let (system, out) = convert_messages(&messages);
    assert_eq!(system.as_deref(), Some("be brief"));
    let texts: Vec<String> = out.iter().map(compact_text).collect();
    assert_eq!(texts[0], r#"{"content":[{"text":"hi","type":"text"}],"role":"user"}"#);
    assert_eq!(texts[1], r#"{"content":[{"id":"c1","input":{"a":1},"name":"ls","type":"tool_use"}],"role":"assistant"}"#);
    assert_eq!(texts[2], r#"{"content":[{"content":"ok","tool_use_id":"c1","type":"tool_result"}],"role":"user"}"#);
    assert_eq!(texts[3], r#"{"content":[{"text":"","type":"text"}],"role":"user"}"#);
}

#[test]
fn request_body_carries_model_budget_and_tools() {
    let messages = vec![Message::User { message: UserPrompt { message: "hi".into() }, tool_call_results: vec![] }];
    let tools = vec![ToolDefinition { name: "ls".into(), description: Some("list".into()), parameters: parse_json("{}").unwrap() }];
    let body = compact_text(&build_body("model-x", &messages, tools, true));
    assert_eq!(
        body,
        r#"{"max_tokens":8096,"messages":[{"content":[{"text":"hi","type":"text"}],"role":"user"}],"model":"model-x","stream":true,"tools":[{"description":"list","input_schema":{},"name":"ls"}]}"#
    );
    let body = compact_text(&build_body("m", &vec![Message::System("s".into())], vec![], false));
    assert_eq!(body, r#"{"max_tokens":8096,"messages":[],"model":"m","system":"s"}"#);
}

#[test]
fn whole_responses_are_read() {
    let data = parse_json(
        r#"{"content":[{"type":"text","text":"Hello"},{"type":"thinking","thinking":"hm"},{"type":"text","text":" there"},{"type":"tool_use","id":"t1","name":"ls","input":{"p":"."}}],"usage":{"input_tokens":3,"output_tokens":4},"stop_reason":"tool_use"}"#,
    )
    .unwrap();
    let r = parse_response(&data);
    assert_eq!(r.response.blocks.len(), 3);
    assert!(matches!(&r.response.blocks[0], Block::Text(t) if t == "Hello there"));
    assert!(matches!(&r.response.blocks[1], Block::Reasoning { text } if text == "hm"));
    assert!(matches!(&r.response.blocks[2], Block::ToolCall(c) if c.id == "t1" && c.arguments == r#"{"p":"."}"#));
    let usage = r.usage.unwrap();
    assert_eq!((usage.prompt_tokens, usage.completion_tokens, usage.total_tokens), (Some(3), Some(4), Some(7)));
    assert_eq!(r.stop_reason.as_deref(), Some("tool_use"));
    assert!(parse_usage(None).is_none());
}

fn events_of(d: Decoded) -> Vec<StreamEvent> {
    match d {
        Decoded::Continue(es) => es,
        Decoded::Done(_) => panic!("stream ended early"),
    }
}

#[test]
fn streams_decode_across_chunk_boundaries() {
    let mut dec = StreamDecoder::new();
    let part1 = b"event: message_start\ndata: {\"type\":\"message_start\",\"message\":{\"usage\":{\"input_tokens\":5}}}\n\ndata: {\"type\":\"content_block_start\",\"index\":0,\"content_block\":{\"type\":\"text\"}}\r\ndata: {\"type\":\"content_block_delta\",\"delta\":{\"text\":\"Hel";
    let events = events_of(dec.feed(part1));
    assert_eq!(events.len(), 1);
    assert!(matches!(&events[0], StreamEvent::BlockStart { index: 0, kind: BlockKind::Text }));
    let part2 = b"lo\"}}\ndata: {\"type\":\"content_block_stop\"}\ndata: {\"type\":\"message_delta\",\"delta\":{\"stop_reason\":\"end_turn\"},\"usage\":{\"output_tokens\":2}}\n";
    let events = events_of(dec.feed(part2));
    assert_eq!(events.len(), 2);
    assert!(matches!(&events[0], StreamEvent::BlockDelta { index: 0, delta } if delta == "Hello"));
    assert!(matches!(&events[1], StreamEvent::BlockEnd { index: 0 }));
    match dec.feed(b"data: {\"type\":\"message_stop\"}\n") {
        Decoded::Done(Ok(end)) => {
            let usage = end.usage.unwrap();
            assert_eq!((usage.prompt_tokens, usage.completion_tokens, usage.total_tokens), (Some(5), Some(2), Some(7)));
            assert_eq!(end.stop_reason.as_deref(), Some("end_turn"));
        },
        _ => panic!("expected the end of the stream"),
    }
}

#[test]
fn stream_errors_and_done_markers_end_the_stream() {
    let mut dec = StreamDecoder::new();
    match dec.feed(b"data: {\"type\":\"error\",\"error\":{\"type\":\"overloaded_error\",\"message\":\"busy\"}}\n") {
        Decoded::Done(Err(e)) => {
            assert_eq!(e.message, "busy");
            assert!(matches!(e.kind, LlmErrorKind::Transient { .. }));
        },
        _ => panic!("expected a failure"),
    }
    let mut dec = StreamDecoder::new();
    assert!(matches!(dec.feed(b"data: [DONE]\n"), Decoded::Done(Ok(e)) if e.usage.is_none()));
    let mut dec = StreamDecoder::new();
    let events = events_of(dec.feed(b"data: {\"type\":\"content_block_start\",\"content_block\":{\"type\":\"tool_use\",\"id\":\"t\",\"name\":\"ls\"}}\ndata: {\"type\":\"content_block_start\",\"content_block\":{\"type\":\"text\"}}\n"));
    assert_eq!(events.len(), 3);
    assert!(matches!(&events[0], StreamEvent::BlockStart { index: 0, kind: BlockKind::ToolCall { id, name } } if id == "t" && name == "ls"));
    assert!(matches!(&events[1], StreamEvent::BlockEnd { index: 0 }));
    assert!(matches!(&events[2], StreamEvent::BlockStart { index: 1, kind: BlockKind::Text }));
    let end = dec.finish();
    assert!(end.usage.unwrap().total_tokens.is_none());
}
