use auger::chat::{App, AppEvent};
use auger::completion::Completion;
use auger::markdown::{Color, Line};
use auger::screen::{header_line, input_line, popup_rows, popup_width, session_rows, short_id};
use auger::tui::{SessionInfo, SseEvent, Status};

fn texts(line: &Line) -> Vec<&str> {
    line.spans.iter().map(|s| s.content.as_str()).collect()
}

#[test]
fn short_ids_are_the_uuid_prefix() {
    assert_eq!(short_id(0x1234_5678_9abc_def0_0000_0000_0000_0000), "12345678");
    assert_eq!(short_id(0), "00000000");
}

#[test]
fn the_session_list_shows_ids_and_models() {
    let mut app = App::new();
    app.handle_app_event(AppEvent::SessionsLoaded(vec![SessionInfo {
        session_id: 0xabcdef01 << 96,
        model: "m".into(),
        context_window: 1,
        write_token: String::new(),
        read_token: String::new(),
    }]));
    let rows = session_rows(&app);
    assert_eq!(rows.len(), 1);
    assert_eq!(texts(&rows[0]), ["abcdef01", "  ", "m"]);
    assert_eq!(rows[0].spans[0].style.fg, Some(Color::Cyan));
}

#[test]
fn the_header_shows_the_status() {
    let mut app = App::new();
    let line = header_line(&app, "ctx 12");
    assert_eq!(texts(&line)[2], "--------");
    assert_eq!(texts(&line)[4], "connecting");
    app.status = Status::Idle;
    let line = header_line(&app, "ctx 12");
    assert_eq!(texts(&line)[4], "idle");
    assert_eq!(texts(&line)[6], "ctx 12");
}

#[test]
fn the_input_box_hints_what_to_do() {
    let mut app = App::new();
    app.status = Status::Idle;
    let (line, style) = input_line(&app);
    assert_eq!(texts(&line), ["Message... (Enter to send, /help for commands)"]);
    assert_eq!(style.fg, None);
    app.handle_sse(SseEvent::ToolCallComplete { id: "c".into(), name: "n".into(), arguments: "{}".into() });
    let (line, style) = input_line(&app);
    assert_eq!(texts(&line), ["press [y] approve / [n] deny"]);
    assert_eq!(style.fg, Some(Color::Yellow));
    app.input = "typed".into();
    let (line, _) = input_line(&app);
    assert_eq!(texts(&line), ["typed"]);
}

#[test]
fn the_popup_fits_its_widest_row() {
    let comp = Completion::default();
    let matches = comp.matches("/");
    assert!(!matches.is_empty());
    let widest = matches.iter().map(|m| m.name.len() + m.description.len() + 5).max().unwrap();
    assert_eq!(popup_width(&matches, 1000), widest);
    assert_eq!(popup_width(&matches, 10), 10);
    assert_eq!(popup_width(&Vec::new(), 1000), 20);
    let rows = popup_rows(&matches, 1);
    assert!(rows[1].spans[0].style.bold);
    assert!(!rows[0].spans[0].style.bold);
}
