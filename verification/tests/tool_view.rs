use auger::tool_view::{arg_view, summary, tool_view, ToolView};

fn command_args(command: &str) -> String {
    let mut map = serde_json::Map::new();
    map.insert("command".to_string(), serde_json::Value::String(command.to_string()));
    serde_json::Value::Object(map).to_string()
}

#[test]
fn edit_file_is_classified_as_a_diff() {
    let args = r#"{"path":"/a/b.rs","old_string":"let x = 1;","new_string":"let x = 2;"}"#;
    let view = tool_view("edit_file", args).expect("should classify");
    assert!(matches!(view, ToolView::Diff { path, .. } if path == "/a/b.rs"));
}

#[test]
fn incomplete_streaming_arguments_are_not_classified() {
    assert!(tool_view("edit_file", r#"{"path":"/a/b.rs","old_st"#).is_none());
    assert!(tool_view("edit_file", "").is_none());
}

#[test]
fn tools_without_a_file_view_are_skipped() {
    assert!(tool_view("shell", r#"{"command":"ls"}"#).is_none());
    assert!(tool_view("grep", r#"{"pattern":"x","path":"/a"}"#).is_none());
}

#[test]
fn edit_missing_a_field_is_not_classified() {
    assert!(tool_view("edit_file", r#"{"path":"/a/b.rs"}"#).is_none());
}

#[test]
fn summary_counts_added_and_removed_lines() {
    let view = ToolView::Diff { path: "x.rs".into(), old: "a\nb\nc\n".into(), new: "a\nB\nc\nd\n".into() };
    assert_eq!(summary(&view, None), "x.rs (+2 −1)");
}

#[test]
fn write_and_read_summaries_count_lines() {
    let write = ToolView::Write { path: "x.rs".into(), content: "one\ntwo\n".into() };
    assert_eq!(summary(&write, None), "x.rs (2 lines)");
    let read = ToolView::Read { path: "x.rs".into() };
    assert_eq!(summary(&read, Some("a\nb\nc")), "x.rs (3 lines)");
    assert_eq!(summary(&read, None), "x.rs");
}

#[test]
fn write_and_read_are_classified() {
    assert!(matches!(tool_view("write_file", r#"{"path":"p","content":"c"}"#), Some(ToolView::Write { .. })));
    assert!(matches!(tool_view("read_file", r#"{"path":"p"}"#), Some(ToolView::Read { .. })));
}

#[test]
fn shell_commands_show_verbatim_without_json_noise() {
    let view = arg_view("shell", r#"{"command":"cd /tmp && git status"}"#);
    assert_eq!(view.marker, "$");
    assert_eq!(view.lines, ["cd /tmp && git status"]);
}

#[test]
fn long_commands_are_not_truncated() {
    let command = format!("git commit -m '{}'", "x".repeat(300));
    let args = command_args(&command);
    let view = arg_view("shell", &args);
    assert_eq!(view.lines[0], command);
}

#[test]
fn multiline_commands_keep_their_lines() {
    let args = command_args("set -e\nmake build\nmake test");
    let view = arg_view("shell", &args);
    assert_eq!(view.lines, ["set -e", "make build", "make test"]);
}

#[test]
fn other_tools_get_pretty_printed_json() {
    let view = arg_view("grep", r#"{"pattern":"fn main","path":"src"}"#);
    assert!(view.lines.len() > 1, "pretty JSON spans lines");
    assert!(view.lines.iter().any(|l| l.contains("\"pattern\"")));
}

#[test]
fn partial_arguments_are_shown_as_typed() {
    let view = arg_view("shell", "{\"command\":\"cd /tm");
    assert_eq!(view.lines, ["{\"command\":\"cd /tm"]);
}

#[test]
fn empty_arguments_still_have_a_summary_line() {
    assert_eq!(arg_view("shell", "").lines, [""]);
}
