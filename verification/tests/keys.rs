use auger::chat::{App, AppEvent, Screen};
use auger::command::Command;
use auger::completion::Completion;
use auger::keys::{handle_chat_key, handle_session_list_key, run_command, Key, KeyAction};
use auger::tui::{ChatItem, SessionInfo, SseEvent, Status, ToolDecision};

fn info(id: u128, model: &str) -> SessionInfo {
    SessionInfo {
        session_id: id,
        model: model.into(),
        context_window: 100,
        write_token: format!("w{}", id),
        read_token: format!("r{}", id),
    }
}

fn chat() -> (App, Completion) {
    let mut app = App::new();
    app.handle_app_event(AppEvent::SessionsLoaded(vec![info(1, "m1"), info(2, "m2")]));
    app.open_session(&info(2, "m2"));
    app.status = Status::Idle;
    (app, Completion::default())
}

fn ch(c: char) -> Key {
    Key::Char { c, ctrl: false }
}

#[test]
fn typing_then_enter_sends_the_message() {
    let (mut app, mut comp) = chat();
    for c in "hi".chars() {
        assert!(matches!(handle_chat_key(&mut app, &mut comp, ch(c)), KeyAction::Nothing));
    }
    assert_eq!(app.input, "hi");
    handle_chat_key(&mut app, &mut comp, Key::Backspace);
    assert_eq!(app.input, "h");
    let action = handle_chat_key(&mut app, &mut comp, Key::Enter);
    assert!(matches!(action, KeyAction::SendInput { session_id: 2, ref token, ref text } if token == "w2" && text == "h"));
    assert!(app.input.is_empty());
}

#[test]
fn slash_commands_run_locally() {
    let (mut app, mut comp) = chat();
    app.input = "/model".into();
    let action = handle_chat_key(&mut app, &mut comp, Key::Enter);
    assert!(matches!(action, KeyAction::Nothing));
    assert!(app.input.is_empty());
    assert!(matches!(app.items.last(), Some(ChatItem::Assistant { text }) if text.starts_with("Model: m2\n\n")));
    app.input = "/quit".into();
    handle_chat_key(&mut app, &mut comp, Key::Enter);
    assert!(app.should_quit);
}

#[test]
fn unknown_commands_are_reported() {
    let (mut app, _) = chat();
    let action = run_command(&mut app, Command::Unknown { name: "frob".into() });
    assert!(matches!(action, KeyAction::Nothing));
    assert!(matches!(app.items.last(), Some(ChatItem::Error { text }) if text == "Unknown command: /frob \u{2014} try /help"));
    let action = run_command(&mut app, Command::New { model: Some("big".into()) });
    assert!(matches!(action, KeyAction::CreateSession { model: Some(ref m) } if m == "big"));
    assert!(matches!(app.items.last(), Some(ChatItem::Assistant { text }) if text == "Starting a new session on big\u{2026}"));
}

#[test]
fn y_approves_the_pending_call() {
    let (mut app, mut comp) = chat();
    app.handle_sse(SseEvent::ToolCallComplete { id: "c1".into(), name: "shell".into(), arguments: "{}".into() });
    let action = handle_chat_key(&mut app, &mut comp, ch('x'));
    assert!(matches!(action, KeyAction::Nothing));
    assert!(app.input.is_empty());
    let action = handle_chat_key(&mut app, &mut comp, ch('y'));
    assert!(matches!(action, KeyAction::RespondTool { session_id: 2, ref tool_call_id, approved: true, .. } if tool_call_id == "c1"));
    assert!(matches!(&app.items[0], ChatItem::Tool { decision: Some(ToolDecision::Approved), .. }));
}

#[test]
fn escape_returns_to_the_session_list() {
    let (mut app, mut comp) = chat();
    let action = handle_chat_key(&mut app, &mut comp, Key::Esc);
    assert!(matches!(action, KeyAction::RefreshSessions));
    assert_eq!(app.view, Screen::SessionList);
}

#[test]
fn the_popup_completes_commands() {
    let (mut app, mut comp) = chat();
    handle_chat_key(&mut app, &mut comp, ch('/'));
    handle_chat_key(&mut app, &mut comp, ch('h'));
    assert!(comp.is_open(&app.input));
    handle_chat_key(&mut app, &mut comp, Key::Tab);
    assert_eq!(app.input, "/help");
    let before = app.scroll_from_bottom;
    handle_chat_key(&mut app, &mut comp, Key::PageUp);
    assert_eq!(app.scroll_from_bottom, before + 20);
}

#[test]
fn the_session_list_keys() {
    let mut app = App::new();
    app.handle_app_event(AppEvent::SessionsLoaded(vec![info(1, "m1"), info(2, "m2")]));
    handle_session_list_key(&mut app, ch('j'));
    assert_eq!(app.selected, Some(1));
    let action = handle_session_list_key(&mut app, Key::Enter);
    assert!(matches!(action, KeyAction::OpenStream { session_id: 2, ref token } if token == "r2"));
    assert_eq!(app.view, Screen::Chat);
    let action = handle_session_list_key(&mut app, ch('n'));
    assert!(matches!(action, KeyAction::CreateSession { model: None }));
    handle_session_list_key(&mut app, ch('q'));
    assert!(app.should_quit);
}

#[test]
fn typing_then_erasing_restores_the_input() {
    let (mut app, mut comp) = chat();
    app.input = "ab".into();
    handle_chat_key(&mut app, &mut comp, ch('z'));
    assert_eq!(app.input, "abz");
    handle_chat_key(&mut app, &mut comp, Key::Backspace);
    assert_eq!(app.input, "ab");
}
