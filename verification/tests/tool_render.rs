use auger::markdown::Line;
use auger::tool_render::render;

fn command_args(command: &str) -> String {
    let mut map = serde_json::Map::new();
    map.insert("command".to_string(), serde_json::Value::String(command.to_string()));
    serde_json::Value::Object(map).to_string()
}

fn text(lines: &[Line]) -> String {
    lines.iter().map(|l| l.spans.iter().map(|s| s.content.as_str()).collect::<String>()).collect::<Vec<_>>().join("\n")
}

#[test]
fn a_wide_command_wraps_instead_of_being_cut_off() {
    let command = format!("git log {}", "-q".repeat(60));
    let args = command_args(&command);
    let rendered = text(&render("shell", &args, None, false, 40, 10));
    assert!(rendered.lines().count() > 1, "long command must wrap");
    assert_eq!(rendered.chars().filter(|c| *c == 'q').count(), 60, "no characters dropped");
}

#[test]
fn a_collapsed_call_folds_a_long_command_but_says_so() {
    let command = (0..10).map(|i| format!("step{i}")).collect::<Vec<_>>().join("\n");
    let args = command_args(&command);
    let rendered = text(&render("shell", &args, None, false, 60, 10));
    assert!(rendered.contains("step0"));
    assert!(!rendered.contains("step9"));
    assert!(rendered.contains("+7 more lines"), "got:\n{rendered}");
}

#[test]
fn an_expanded_call_shows_the_whole_command() {
    let command = (0..10).map(|i| format!("step{i}")).collect::<Vec<_>>().join("\n");
    let args = command_args(&command);
    let rendered = text(&render("shell", &args, None, true, 60, 10));
    assert!(rendered.contains("step9"));
    assert!(!rendered.contains("more lines"));
}

#[test]
fn results_are_previewed_collapsed_and_capped_expanded() {
    let result = (0..30).map(|i| format!("out{i}")).collect::<Vec<_>>().join("\n");
    let args = command_args("ls");
    let collapsed = text(&render("shell", &args, Some(&result), false, 60, 10));
    assert!(collapsed.contains("out0"));
    assert!(!collapsed.contains("out5"));
    let expanded = text(&render("shell", &args, Some(&result), true, 60, 10));
    assert!(expanded.contains("out9"));
    assert!(expanded.contains("20 more lines"), "cap is reported");
}

#[test]
fn the_first_row_carries_the_marker() {
    let rendered = text(&render("shell", &command_args("ls"), None, false, 60, 10));
    assert_eq!(rendered, "$ ls\nclick to expand");
}
