use auger::json::{parse_json, JsonValue};
use auger::tools::{
    clip_output, escape_regex, grep_output, parse_simple_command, sort_strings, trim_line_end, CollectSink, Dummy, Grep,
    ListFiles, Shell, TodoList, ToolError,
};

fn args(text: &str) -> JsonValue {
    parse_json(text).expect("test arguments are JSON")
}

fn words(ws: &[&str]) -> Vec<Vec<char>> {
    ws.iter().map(|w| w.chars().collect()).collect()
}

#[test]
fn todo_list_adds_updates_removes_and_lists() {
    let mut todo = TodoList::new();
    let out = todo.call(&args(r#"{"action":"add","title":"write tests"}"#)).unwrap();
    assert_eq!(out, r#"{"items":[{"id":1,"status":"pending","title":"write tests"}]}"#);
    let out = todo.call(&args(r#"{"action":"add","title":"ship","status":"in_progress"}"#)).unwrap();
    assert!(out.contains(r#"{"id":2,"status":"in_progress","title":"ship"}"#));
    let out = todo.call(&args(r#"{"action":"update","id":1,"status":"done"}"#)).unwrap();
    assert!(out.contains(r#"{"id":1,"status":"done","title":"write tests"}"#));
    let out = todo.call(&args(r#"{"action":"remove","id":1}"#)).unwrap();
    assert_eq!(out, r#"{"items":[{"id":2,"status":"in_progress","title":"ship"}]}"#);
    let out = todo.call(&args(r#"{"action":"list"}"#)).unwrap();
    assert_eq!(out, r#"{"items":[{"id":2,"status":"in_progress","title":"ship"}]}"#);
}

#[test]
fn todo_list_reports_each_error() {
    let mut todo = TodoList::new();
    assert!(matches!(todo.call(&args("{}")), Err(ToolError::InvalidArgs(m)) if m == "missing required field: action"));
    assert!(matches!(todo.call(&args(r#"{"action":"add"}"#)), Err(ToolError::InvalidArgs(m)) if m == "add requires 'title'"));
    assert!(
        matches!(todo.call(&args(r#"{"action":"add","title":"x","status":"later"}"#)), Err(ToolError::InvalidArgs(m)) if m == "unknown status: later")
    );
    assert!(matches!(todo.call(&args(r#"{"action":"update"}"#)), Err(ToolError::InvalidArgs(m)) if m == "update requires 'id'"));
    assert!(matches!(todo.call(&args(r#"{"action":"update","id":7}"#)), Err(ToolError::Execution(m)) if m == "no item with id 7"));
    assert!(matches!(todo.call(&args(r#"{"action":"remove"}"#)), Err(ToolError::InvalidArgs(m)) if m == "remove requires 'id'"));
    assert!(matches!(todo.call(&args(r#"{"action":"remove","id":3}"#)), Err(ToolError::Execution(m)) if m == "no item with id 3"));
    assert!(matches!(todo.call(&args(r#"{"action":"fly"}"#)), Err(ToolError::InvalidArgs(m)) if m == "unknown action: fly"));
}

#[test]
fn a_failed_status_update_keeps_the_new_title() {
    let mut todo = TodoList::new();
    todo.call(&args(r#"{"action":"add","title":"a"}"#)).unwrap();
    assert!(todo.call(&args(r#"{"action":"update","id":1,"title":"b","status":"bad"}"#)).is_err());
    let out = todo.call(&args(r#"{"action":"list"}"#)).unwrap();
    assert!(out.contains(r#""title":"b""#));
}

#[test]
fn dummy_echoes_its_message() {
    assert_eq!(Dummy.call(&args(r#"{"message":"hi"}"#)).unwrap(), r#"{"echo":"hi"}"#);
    assert!(matches!(Dummy.call(&args("{}")), Err(ToolError::InvalidArgs(m)) if m == "missing required field: message"));
}

#[test]
fn escape_regex_escapes_special_characters() {
    assert_eq!(escape_regex("a.b*c"), "a\\.b\\*c");
    assert_eq!(escape_regex("(x)|[y]"), "\\(x\\)\\|\\[y\\]");
    assert_eq!(escape_regex("plain"), "plain");
}

#[test]
fn grep_command_lines_become_searches() {
    let q = Grep::shell_request(&words(&["grep", "-rni", "needle", "src"])).unwrap();
    assert_eq!(q.pattern, "needle");
    assert_eq!(q.path, "src");
    assert!(q.recursive && q.case_insensitive);
    assert_eq!((q.context_lines, q.max_matches), (0, 500));

    let q = Grep::shell_request(&words(&["rg", "x"])).unwrap();
    assert!(q.recursive);
    assert_eq!(q.path, ".");

    let q = Grep::shell_request(&words(&["grep", "-F", "a.b"])).unwrap();
    assert_eq!(q.pattern, "a\\.b");
    assert!(!q.recursive);

    let q = Grep::shell_request(&words(&["grep", "--", "-x", "f"])).unwrap();
    assert_eq!(q.pattern, "-x");
}

#[test]
fn grep_command_lines_the_tool_cannot_answer_are_refused() {
    assert!(Grep::shell_request(&words(&["ls", "x"])).is_none());
    assert!(Grep::shell_request(&words(&["grep", "-v", "x"])).is_none());
    assert!(Grep::shell_request(&words(&["grep"])).is_none());
    assert!(Grep::shell_request(&words(&["grep", "x", "a", "b"])).is_none());
    assert!(Grep::shell_request(&words(&[])).is_none());
}

#[test]
fn grep_arguments_have_defaults() {
    let q = Grep::parse_args(&args(r#"{"pattern":"p","path":"/a"}"#)).unwrap();
    assert!(q.recursive && !q.case_insensitive);
    assert_eq!((q.context_lines, q.max_matches), (0, 500));
    let q = Grep::parse_args(&args(r#"{"pattern":"p","path":"/a","recursive":false,"context_lines":2,"max_matches":7}"#))
        .unwrap();
    assert!(!q.recursive);
    assert_eq!((q.context_lines, q.max_matches), (2, 7));
    assert!(matches!(Grep::parse_args(&args(r#"{"path":"/a"}"#)), Err(ToolError::InvalidArgs(m)) if m == "missing required field: pattern"));
    assert!(matches!(Grep::parse_args(&args(r#"{"pattern":"p"}"#)), Err(ToolError::InvalidArgs(m)) if m == "missing required field: path"));
}

#[test]
fn grep_output_joins_lines_and_reports_truncation() {
    assert_eq!(grep_output(&vec![], false, 500), "No matches found.");
    let lines = vec!["a:1:x".to_string(), "a:2:y".to_string()];
    assert_eq!(grep_output(&lines, false, 500), "a:1:x\na:2:y");
    assert_eq!(grep_output(&lines, true, 2), "a:1:x\na:2:y\n[Truncated at 2 matches]");
}

#[test]
fn sink_lines_have_the_grep_format() {
    let mut sink = CollectSink::new("src/a.rs".to_string(), 3);
    assert!(sink.has_room(2));
    assert!(!sink.has_room(3));
    sink.matched(Some(12), "let x = 1;\r\n");
    sink.context(Some(13), "}\n");
    sink.matched(None, "y");
    assert_eq!(sink.lines, ["src/a.rs:12:let x = 1;", "src/a.rs-13-}", "src/a.rs:0:y"]);
    assert_eq!(trim_line_end("abc\n\r\n"), "abc");
}

#[test]
fn list_entries_are_sorted_into_json() {
    let sorted = sort_strings(vec!["b".into(), "a/".into(), "ab".into(), "a".into()]);
    assert_eq!(sorted, ["a", "a/", "ab", "b"]);
    let text = ListFiles::entries_text(vec!["z".into(), "m/".into()]);
    assert_eq!(text, r#"{"entries":["m/","z"]}"#);
    assert_eq!(ListFiles::entry_label("src", true), "src/");
    assert_eq!(ListFiles::entry_label("a.rs", false), "a.rs");
    let (path, recursive) = ListFiles::parse_args(&args(r#"{"path":"/p"}"#)).unwrap();
    assert_eq!((path.as_str(), recursive), ("/p", false));
    assert!(matches!(ListFiles::parse_args(&args("{}")), Err(ToolError::InvalidArgs(m)) if m == "missing required field: path"));
}

#[test]
fn shell_runs_plain_grep_itself() {
    let q = Shell::grep_plan("grep -i needle src").unwrap();
    assert_eq!(q.pattern, "needle");
    assert!(q.case_insensitive);
    assert!(Shell::grep_plan("grep needle src | wc -l").is_none());
    assert!(Shell::grep_plan("ls src").is_none());
    assert_eq!(parse_simple_command("echo 'a b'").unwrap(), words(&["echo", "a b"]));
    assert!(parse_simple_command("A=1 pwd").is_none());
}

#[test]
fn shell_output_is_clipped_and_reported_as_json() {
    assert_eq!(clip_output("short"), "short");
    let long = "x".repeat(20_005);
    let clipped = clip_output(&long);
    assert_eq!(clipped, format!("{}\n[truncated]", "x".repeat(20_000)));
    assert_eq!(Shell::output_text("out", "err", -1), r#"{"exit_code":-1,"stderr":"err","stdout":"out"}"#);
    assert_eq!(Shell::command_of(&args(r#"{"command":"ls"}"#)).unwrap(), "ls");
    assert!(matches!(Shell::command_of(&args("{}")), Err(ToolError::InvalidArgs(m)) if m == "missing required field: command"));
}
