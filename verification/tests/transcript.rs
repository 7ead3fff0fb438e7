use auger::chat::App;
use auger::markdown::{Color, Line};
use auger::transcript::{item_lines, transcript_lines};
use auger::tui::{ChatItem, ToolDecision};

fn texts(line: &Line) -> Vec<&str> {
    line.spans.iter().map(|s| s.content.as_str()).collect()
}

#[test]
fn user_messages_wrap_behind_a_marker() {
    let lines = item_lines(&ChatItem::User { text: "abcdef".into() }, &None, 3, 10);
    assert_eq!(lines.len(), 2);
    assert_eq!(texts(&lines[0]), ["  > abc"]);
    assert_eq!(texts(&lines[1]), ["  > def"]);
    assert!(lines[0].spans[0].style.bold);
    assert_eq!(lines[0].spans[0].style.fg, Some(Color::White));
}

#[test]
fn collapsed_reasoning_counts_bytes() {
    let lines = item_lines(&ChatItem::Reasoning { text: "h\u{e9}".into(), collapsed: true }, &None, 40, 10);
    assert_eq!(lines.len(), 1);
    assert_eq!(texts(&lines[0]), ["  \u{25b8} thinking (3 chars \u{2014} click to expand)"]);
    assert!(lines[0].spans[0].style.italic);
}

#[test]
fn a_pending_call_shows_the_prompt() {
    let item = ChatItem::Tool {
        id: "c1".into(),
        name: "shell".into(),
        args: r#"{"command":"ls"}"#.into(),
        result: None,
        decision: None,
        expanded: false,
    };
    let lines = item_lines(&item, &Some("c1".into()), 40, 10);
    assert_eq!(texts(&lines[0]), ["  tool ", "shell", ""]);
    assert_eq!(texts(lines.last().unwrap()), ["  ", "[y] approve", "  ", "[n] deny"]);
    let decided = ChatItem::Tool {
        id: "c1".into(),
        name: "shell".into(),
        args: r#"{"command":"ls"}"#.into(),
        result: Some("a\nb".into()),
        decision: Some(ToolDecision::Denied),
        expanded: false,
    };
    let lines = item_lines(&decided, &None, 40, 10);
    assert_eq!(texts(&lines[0]), ["  tool ", "shell", " [denied]"]);
    assert!(lines[1..].iter().all(|l| l.spans[0].content == "    "));
}

#[test]
fn a_file_call_shows_its_summary() {
    let item = ChatItem::Tool {
        id: "c2".into(),
        name: "write_file".into(),
        args: r#"{"path":"a.txt","content":"x\ny\n"}"#.into(),
        result: None,
        decision: Some(ToolDecision::Approved),
        expanded: false,
    };
    let lines = item_lines(&item, &None, 40, 10);
    assert_eq!(lines.len(), 2);
    assert_eq!(texts(&lines[1]), ["    \u{25b8} a.txt (2 lines) \u{2014} click to expand"]);
}

#[test]
fn entries_are_spaced_apart() {
    let mut app = App::new();
    app.items.push(ChatItem::Error { text: "boom".into() });
    app.items.push(ChatItem::Assistant { text: "**hi**".into() });
    let lines = transcript_lines(&app, 40, 10);
    assert!(lines[0].spans.is_empty());
    assert_eq!(texts(&lines[1]), ["  \u{26a0} boom"]);
    assert_eq!(lines[1].spans[0].style.fg, Some(Color::Red));
    assert!(lines[2].spans.is_empty());
    assert!(lines[3..].iter().all(|l| l.spans[0].content == "  "));
}
