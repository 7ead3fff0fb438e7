use auger::markdown::{is_blank_line, render_markdown, shrink_to_fit, Color, Line};
use unicode_width::UnicodeWidthStr;

fn plain(lines: &[Line]) -> Vec<String> {
    lines.iter().map(|l| l.spans.iter().map(|s| s.content.as_str()).collect()).collect()
}

#[test]
fn empty_input_renders_nothing() {
    assert!(render_markdown("", 40).is_empty());
    assert!(render_markdown("   \n  ", 40).is_empty());
    assert!(render_markdown("hello", 0).is_empty());
}

#[test]
fn paragraph_wraps_at_width() {
    let lines = render_markdown("aaa bbb ccc ddd eee", 11);
    assert_eq!(plain(&lines), vec!["aaa bbb ccc", "ddd eee"]);
}

#[test]
fn every_line_fits_the_width() {
    let text = "Some **bold** text with `code` and a very long word \
                supercalifragilisticexpialidocious plus more words here.";
    for width in [8usize, 20, 40] {
        for line in render_markdown(text, width) {
            let rendered: String = line.spans.iter().map(|s| s.content.as_str()).collect();
            assert!(rendered.width() <= width, "width {width}: {rendered:?} is {} cols", rendered.width());
        }
    }
}

#[test]
fn inline_styles_apply_to_the_right_spans() {
    let lines = render_markdown("plain **bold** `code`", 40);
    let spans = &lines[0].spans;
    let bold = spans.iter().find(|s| s.content == "bold").unwrap();
    assert!(bold.style.bold);
    let code = spans.iter().find(|s| s.content == "code").unwrap();
    assert_eq!(code.style.fg, Some(Color::Cyan));
    let plain = spans.iter().find(|s| s.content == "plain").unwrap();
    assert!(!plain.style.bold);
}

#[test]
fn no_ansi_escapes_leak_into_output() {
    let text = "# Head\n\n*em* **strong** `c`\n\n> quote\n\n- a\n\n```rs\nfn x() {}\n```";
    for line in render_markdown(text, 40) {
        for span in &line.spans {
            assert!(!span.content.contains('\x1b'), "escape in {span:?}");
        }
    }
}

#[test]
fn ordered_lists_keep_their_numbering() {
    let lines = render_markdown("1. one\n2. two\n3. three", 40);
    assert_eq!(plain(&lines), vec!["1. one", "2. two", "3. three"]);
}

#[test]
fn ordered_lists_honour_start_value() {
    let lines = render_markdown("5. five\n6. six", 40);
    assert_eq!(plain(&lines), vec!["5. five", "6. six"]);
}

#[test]
fn bullet_list_wraps_aligned_under_the_text() {
    let lines = render_markdown("- alpha beta gamma delta", 12);
    assert_eq!(plain(&lines), vec!["• alpha beta", "  gamma", "  delta"]);
}

#[test]
fn nested_lists_indent() {
    let lines = render_markdown("- outer\n  - inner", 40);
    assert_eq!(plain(&lines), vec!["• outer", "  • inner"]);
}

#[test]
fn block_quote_prefixes_each_line() {
    let lines = render_markdown("> quoted text here", 10);
    for line in &plain(&lines) {
        assert!(line.starts_with("│ "), "{line:?}");
    }
}

#[test]
fn code_block_preserves_content_verbatim() {
    let lines = render_markdown("```rust\nlet x = 1;\n```", 40);
    let rendered = plain(&lines);
    assert_eq!(rendered[0], "┌─ rust");
    assert_eq!(rendered[1], "│ let x = 1;");
    assert_eq!(rendered[2], "└─");
}

#[test]
fn code_block_indentation_survives() {
    let lines = render_markdown("```\nfn a() {\n    b();\n}\n```", 40);
    assert_eq!(plain(&lines)[2], "│     b();");
}

#[test]
fn heading_is_styled_and_prefixed() {
    let lines = render_markdown("## Title", 40);
    assert_eq!(plain(&lines), vec!["## Title"]);
    let title = lines[0].spans.iter().find(|s| s.content == "Title").unwrap();
    assert!(title.style.bold);
}

#[test]
fn nodes_render_once_not_twice() {
    let lines = render_markdown("**bold**", 40);
    assert_eq!(plain(&lines), vec!["bold"]);
}

#[test]
fn soft_breaks_join_into_one_paragraph() {
    let lines = render_markdown("one\ntwo", 40);
    assert_eq!(plain(&lines), vec!["one two"]);
}

#[test]
fn hard_break_splits_the_line() {
    let lines = render_markdown("one  \ntwo", 40);
    assert_eq!(plain(&lines), vec!["one", "two"]);
}

#[test]
fn blocks_are_separated_by_one_blank_line() {
    let lines = render_markdown("para one\n\npara two", 40);
    assert_eq!(plain(&lines), vec!["para one", "", "para two"]);
}

#[test]
fn repeated_words_wrap_correctly() {
    let lines = render_markdown("ab ab ab ab", 5);
    assert_eq!(plain(&lines), vec!["ab ab", "ab ab"]);
}

#[test]
fn wide_characters_count_as_two_columns() {
    let lines = render_markdown("日本語テスト", 6);
    for line in plain(&lines) {
        assert!(line.width() <= 6, "{line:?}");
    }
    assert_eq!(plain(&lines), vec!["日本語", "テスト"]);
}

#[test]
fn task_items_show_checkboxes() {
    let lines = render_markdown("- [x] done\n- [ ] todo", 40);
    assert_eq!(plain(&lines), vec!["• [x] done", "• [ ] todo"]);
}

#[test]
fn tables_align_into_columns() {
    let lines = render_markdown("| a | b |\n|---|---|\n| 1 | 2 |", 40);
    assert_eq!(plain(&lines), vec!["a │ b", "──┼──", "1 │ 2"]);
}

#[test]
fn link_shows_text_and_url() {
    let lines = render_markdown("[text](http://example.com)", 60);
    assert_eq!(plain(&lines), vec!["text (http://example.com)"]);
}

#[test]
fn autolink_does_not_duplicate_the_url() {
    let lines = render_markdown("<http://example.com>", 60);
    assert_eq!(plain(&lines), vec!["http://example.com"]);
}

#[test]
fn thematic_break_spans_the_width() {
    let lines = render_markdown("a\n\n---\n\nb", 10);
    assert_eq!(plain(&lines)[2], "─".repeat(10));
}

#[test]
fn strikethrough_is_marked() {
    let lines = render_markdown("~~gone~~", 40);
    let span = lines[0].spans.iter().find(|s| s.content == "gone").unwrap();
    assert!(span.style.crossed_out);
}

#[test]
fn html_blocks_are_dropped() {
    let lines = render_markdown("<div>x</div>\n\ntext", 40);
    assert_eq!(plain(&lines), vec!["text"]);
}

#[test]
fn no_leading_or_trailing_blank_lines() {
    let lines = render_markdown("\n\n# H\n\ntext\n\n\n", 40);
    assert!(!is_blank_line(lines.first().unwrap()));
    assert!(!is_blank_line(lines.last().unwrap()));
}

#[test]
fn wide_tables_shrink_their_widest_column() {
    let lines = render_markdown("| name | description |\n|---|---|\n| a | a very long description |", 20);
    for line in plain(&lines) {
        assert!(line.width() <= 20, "{line:?}");
    }
    assert!(plain(&lines)[2].ends_with('…'));
}

#[test]
fn the_last_of_the_widest_columns_narrows_first() {
    let mut widths = vec![3usize, 3];
    shrink_to_fit(&mut widths, 0, 5);
    assert_eq!(widths, vec![3, 2]);
    let mut widths = vec![4usize, 2, 4];
    shrink_to_fit(&mut widths, 6, 12);
    assert_eq!(widths, vec![2, 2, 2]);
    let mut widths = vec![1usize, 1];
    shrink_to_fit(&mut widths, 3, 2);
    assert_eq!(widths, vec![1, 1]);
}

#[test]
fn a_paragraph_wraps_greedily() {
    assert_eq!(plain(&render_markdown("aaa bbb ccc ddd eee", 11)), vec!["aaa bbb ccc", "ddd eee"]);
    assert_eq!(plain(&render_markdown("ab ab ab ab", 5)), vec!["ab ab", "ab ab"]);
    assert_eq!(plain(&render_markdown("abcdefgh", 3)), vec!["abc", "def", "gh"]);
}

#[test]
fn a_code_block_expands_tabs_and_splits_long_lines() {
    let lines = plain(&render_markdown("```py\n\tx\nabcdefghij\n```", 10));
    assert_eq!(lines, vec!["┌─ py", "│     x", "│ abcdefgh", "│ ij", "└─"]);
}
