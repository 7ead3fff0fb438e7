use auger::json::parse_json;
use auger::server::{created_session, sessions_of};
use auger::chat::{App, AppEvent, Screen};
use auger::tui::{
    transform_raw_event, ChatItem, RawSessionEvent, RawToolCallRequest, RawToolCallResult, RawToolData, RawToolOutcome,
    RawUsage, SessionInfo, SseEvent, Status, ToolDecision,
};

fn info(id: u128) -> SessionInfo {
    SessionInfo {
        session_id: id,
        model: "model".into(),
        context_window: 1000,
        write_token: format!("w{}", id),
        read_token: format!("r{}", id),
    }
}

fn open_app() -> App {
    let mut app = App::new();
    app.open_session(&info(5));
    app.status = Status::Idle;
    app
}

#[test]
fn text_deltas_join_into_one_assistant_entry() {
    let mut app = open_app();
    app.handle_sse(SseEvent::Content { text: "Hel".into() });
    app.handle_sse(SseEvent::Content { text: "lo".into() });
    assert_eq!(app.items.len(), 1);
    assert!(matches!(&app.items[0], ChatItem::Assistant { text } if text == "Hello"));
    app.handle_sse(SseEvent::Reasoning { text: "hmm".into() });
    app.handle_sse(SseEvent::Content { text: "again".into() });
    assert_eq!(app.items.len(), 3);
    assert!(matches!(&app.items[1], ChatItem::Reasoning { text, collapsed: true } if text == "hmm"));
    assert!(matches!(&app.items[2], ChatItem::Assistant { text } if text == "again"));
}

#[test]
fn a_tool_call_waits_for_its_result() {
    let mut app = open_app();
    app.handle_sse(SseEvent::ToolCallComplete { id: "c1".into(), name: "bash".into(), arguments: "{}".into() });
    assert_eq!(app.pending_tool_id.as_deref(), Some("c1"));
    assert_eq!(app.status, Status::Running);
    app.handle_sse(SseEvent::ToolResult { id: "c1".into(), content: "done".into(), denied: false });
    assert_eq!(app.pending_tool_id, None);
    assert!(matches!(&app.items[0], ChatItem::Tool { id, result: Some(r), decision: Some(ToolDecision::Approved), .. }
        if id == "c1" && r == "done"));
}

#[test]
fn metrics_set_the_context_used() {
    let mut app = open_app();
    app.handle_sse(SseEvent::Metrics { prompt_tokens: Some(10), completion_tokens: Some(5), total_tokens: None });
    assert_eq!(app.ctx_used, 15);
    app.handle_sse(SseEvent::Metrics { prompt_tokens: Some(10), completion_tokens: Some(5), total_tokens: Some(40) });
    assert_eq!(app.ctx_used, 40);
}

#[test]
fn sending_trims_and_records_the_message() {
    let mut app = open_app();
    app.input = "  hi there \n".into();
    let sent = app.send_message().expect("an idle open session sends");
    assert_eq!(sent, (5, "w5".to_string(), "hi there".to_string()));
    assert!(app.input.is_empty());
    assert_eq!(app.status, Status::Running);
    assert!(matches!(&app.items[0], ChatItem::User { text } if text == "hi there"));
    app.input = "more".into();
    assert_eq!(app.send_message(), None);
    let mut blank = open_app();
    blank.input = "   ".into();
    assert_eq!(blank.send_message(), None);
}

#[test]
fn approving_marks_the_pending_call() {
    let mut app = open_app();
    app.handle_sse(SseEvent::ToolCallComplete { id: "c1".into(), name: "bash".into(), arguments: "{}".into() });
    let posted = app.approve_tool(false).expect("a call is pending");
    assert_eq!(posted, (5, "w5".to_string(), "c1".to_string()));
    assert_eq!(app.pending_tool_id, None);
    assert!(matches!(&app.items[0], ChatItem::Tool { decision: Some(ToolDecision::Denied), .. }));
    assert_eq!(app.approve_tool(true), None);
}

#[test]
fn the_session_list_wraps_around() {
    let mut app = App::new();
    app.handle_app_event(AppEvent::SessionsLoaded(vec![info(1), info(2), info(3)]));
    assert_eq!(app.selected, Some(0));
    app.session_list_prev();
    assert_eq!(app.selected, Some(2));
    app.session_list_next();
    assert_eq!(app.selected, Some(0));
    app.session_list_next();
    assert_eq!(app.selected_session().map(|s| s.session_id), Some(2));
    let mut empty = App::new();
    let before = empty.selected;
    empty.session_list_next();
    assert_eq!(empty.selected, before);
    empty.session_list_prev();
    assert_eq!(empty.selected, before);
}

#[test]
fn opening_a_session_starts_a_fresh_chat() {
    let mut app = open_app();
    app.handle_sse(SseEvent::Content { text: "old".into() });
    app.open_session(&info(9));
    assert!(app.items.is_empty());
    assert_eq!(app.session_id, Some(9));
    assert_eq!(app.ctx_window, 1000);
    assert!(matches!(app.view, Screen::Chat));
    assert_eq!(app.status, Status::Connecting);
}

#[test]
fn a_snapshot_rebuilds_the_transcript() {
    let mut app = open_app();
    app.handle_sse(SseEvent::Content { text: "stale".into() });
    let lines = vec![
        r#"{"kind":"session","session_id":"x"}"#.to_string(),
        r#"{"kind":"turn","turn":{"input_message":{"content":[{"type":"text","text":"list files"}]}}}"#.to_string(),
        "not json".to_string(),
        r#"{"kind":"turn","turn":{"assistant_message":{"outcome":{"completed":{"response":{"reasoning":"think","content":"ok","tool_calls":[{"id":"c1","name":"bash","arguments":{"command":"ls"}},{"id":"c2","name":"bash","arguments":"pwd"}]}}}}}}"#.to_string(),
        r#"{"kind":"event","event":{"tool_authorization":{"tool_call_id":"c1","decision":"approved"}}}"#.to_string(),
    ];
    app.apply_snapshot_lines(&lines);
    assert_eq!(app.items.len(), 5);
    assert!(matches!(&app.items[0], ChatItem::User { text } if text == "list files"));
    assert!(matches!(&app.items[1], ChatItem::Reasoning { text, .. } if text == "think"));
    assert!(matches!(&app.items[2], ChatItem::Assistant { text } if text == "ok"));
    assert!(matches!(&app.items[3], ChatItem::Tool { id, args, decision: Some(ToolDecision::Approved), .. }
        if id == "c1" && args == r#"{"command":"ls"}"#));
    assert!(matches!(&app.items[4], ChatItem::Tool { id, args, decision: None, .. } if id == "c2" && args == "pwd"));
    assert!(app.pending_tool_id.is_some());
}

#[test]
fn raw_events_become_chat_events() {
    let out = transform_raw_event(RawSessionEvent::Done {
        usage: Some(RawUsage { prompt_tokens: Some(1), completion_tokens: Some(2), total_tokens: Some(3) }),
        stop_reason: None,
    });
    assert!(matches!(out.as_slice(), [SseEvent::Metrics { total_tokens: Some(3), .. }, SseEvent::TurnComplete]));
    let out = transform_raw_event(RawSessionEvent::ToolConsentRequired {
        tool_calls: vec![
            RawToolCallRequest { id: "a".into(), name: "n".into(), arguments: "{}".into() },
            RawToolCallRequest { id: "b".into(), name: "n".into(), arguments: "{}".into() },
        ],
    });
    assert_eq!(out.len(), 2);
    assert!(matches!(&out[1], SseEvent::ToolCallComplete { id, .. } if id == "b"));
    let out = transform_raw_event(RawSessionEvent::ToolCallResult {
        id: "a".into(),
        result: RawToolCallResult {
            outcome: RawToolOutcome::Success {
                content: vec![RawToolData::Text { text: "x".into() }, RawToolData::Text { text: "y".into() }],
            },
        },
    });
    assert!(matches!(out.as_slice(), [SseEvent::ToolResult { content, denied: false, .. }] if content == "xy"));
    let out = transform_raw_event(RawSessionEvent::ToolCallResult {
        id: "a".into(),
        result: RawToolCallResult { outcome: RawToolOutcome::Denied { reason: None } },
    });
    assert!(matches!(out.as_slice(), [SseEvent::ToolResult { content, denied: true, .. }] if content == "Tool call was denied."));
    assert!(matches!(transform_raw_event(RawSessionEvent::Closed).as_slice(), [SseEvent::StreamClosed]));
}

#[test]
fn moving_down_then_up_returns_to_the_same_session() {
    let mut app = App::new();
    app.handle_app_event(AppEvent::SessionsLoaded(vec![info(1), info(2), info(3)]));
    for start in 0..3usize {
        app.selected = Some(start);
        app.session_list_next();
        app.session_list_prev();
        assert_eq!(app.selected, Some(start));
        app.session_list_prev();
        app.session_list_next();
        assert_eq!(app.selected, Some(start));
    }
}

#[test]
fn server_replies_become_sessions() {
    let reply = parse_json(
        r#"{"sessions":[{"session_id":"00000000-0000-0000-0000-00000000002a","tokens":{"write":"w","read":"r"}},{"session_id":"nope"},{"session_id":"00000000-0000-0000-0000-000000000001","model":"m","context_window":100}]}"#,
    )
    .unwrap();
    let sessions = sessions_of(&reply);
    assert_eq!(sessions.len(), 2);
    assert_eq!(sessions[0].session_id, 42);
    assert_eq!(sessions[0].model, "unknown");
    assert_eq!(sessions[0].context_window, 8192);
    assert_eq!(sessions[0].write_token, "w");
    assert_eq!(sessions[1].model, "m");
    assert_eq!(sessions[1].read_token, "");
    let created = created_session(&parse_json(r#"{"session_id":"00000000-0000-0000-0000-000000000007"}"#).unwrap());
    assert!(matches!(created, Some(AppEvent::SessionCreated { session_id: 7, context_window: 8192, .. })));
    assert!(created_session(&parse_json("{}").unwrap()).is_none());
}

#[test]
fn passed_over_lines_change_nothing_of_a_snapshot() {
    let core = vec![
        r#"{"kind":"turn","turn":{"input_message":{"content":[{"type":"text","text":"hi"}]}}}"#.to_string(),
        r#"{"kind":"turn","turn":{"assistant_message":{"outcome":{"completed":{"response":{"reasoning":"r","content":"ok","tool_calls":[{"id":"c1","name":"bash","arguments":"ls"}]}}}}}}"#.to_string(),
    ];
    let mut padded = core.clone();
    padded.insert(0, r#"{"kind":"session","session_id":"x"}"#.to_string());
    padded.insert(2, "not json".to_string());
    padded.push(r#"{"kind":"other","event":{}}"#.to_string());
    let mut a = open_app();
    let mut b = open_app();
    a.apply_snapshot_lines(&core);
    b.apply_snapshot_lines(&padded);
    assert_eq!(format!("{:?}", a.items), format!("{:?}", b.items));
    assert_eq!(a.pending_tool_id, b.pending_tool_id);
    assert_eq!(a.items.len(), 4);
}
