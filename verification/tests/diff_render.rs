use auger::diff_render::{body, extension_of};
use auger::markdown::Line;
use auger::tool_view::ToolView;

fn plain(lines: &[Line]) -> Vec<String> {
    lines.iter().map(|l| l.spans.iter().map(|s| s.content.as_str()).collect()).collect()
}

#[test]
fn diff_marks_changed_lines() {
    let view = ToolView::Diff { path: "x.rs".into(), old: "keep\nold\n".into(), new: "keep\nnew\n".into() };
    let rendered = plain(&body(&view, None, 100));
    assert_eq!(rendered, vec!["  keep", "- old", "+ new"]);
}

#[test]
fn write_shows_every_line_as_added() {
    let view = ToolView::Write { path: "x.rs".into(), content: "one\ntwo\n".into() };
    assert_eq!(plain(&body(&view, None, 100)), vec!["+ one", "+ two"]);
}

#[test]
fn read_uses_the_tool_result_for_content() {
    let view = ToolView::Read { path: "x.rs".into() };
    assert_eq!(plain(&body(&view, Some("a\nb\n"), 100)), vec!["  a", "  b"]);
    assert!(body(&view, None, 100).is_empty());
}

#[test]
fn long_output_is_truncated_with_a_count() {
    let content = (0..50).map(|i| format!("line {i}")).collect::<Vec<_>>();
    let view = ToolView::Write { path: "x.rs".into(), content: content.join("\n") };
    let rendered = plain(&body(&view, None, 10));
    assert_eq!(rendered.len(), 11, "10 lines plus the count");
    assert_eq!(rendered[10], "  … 40 more lines");
}

#[test]
fn syntax_highlighting_colors_rust_keywords() {
    let view = ToolView::Write { path: "x.rs".into(), content: "fn main() {}".into() };
    let lines = body(&view, None, 10);
    let keyword = lines[0].spans.iter().find(|s| s.content.trim() == "fn").expect("`fn` should be its own span");
    assert!(keyword.style.fg.is_some(), "keyword should be coloured");
}

#[test]
fn unknown_extensions_still_render() {
    let view = ToolView::Write { path: "notes.zzz".into(), content: "hello".into() };
    assert_eq!(plain(&body(&view, None, 10)), vec!["+ hello"]);
}

#[test]
fn added_and_removed_rows_carry_backgrounds() {
    let view = ToolView::Diff { path: "x.rs".into(), old: "old\n".into(), new: "new\n".into() };
    let lines = body(&view, None, 100);
    for line in &lines {
        for span in &line.spans {
            assert!(span.style.bg.is_some(), "diff rows should be tinted");
        }
    }
}

#[test]
fn extensions_follow_the_last_dot() {
    assert_eq!(extension_of("a/b.tar.gz"), "gz");
    assert_eq!(extension_of("Makefile"), "Makefile");
    assert_eq!(extension_of("x."), "");
}
