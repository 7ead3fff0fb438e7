use auger::layout::{group_by_space, pad_to, parse_sse_data, split_to_width, str_width, text_lines, wrap_text};

#[test]
fn sse_frames_join_their_data_lines() {
    assert_eq!(parse_sse_data("event: x\ndata: {\"a\":1}\n").as_deref(), Some("{\"a\":1}"));
    assert_eq!(parse_sse_data("data: one\ndata:two  \n").as_deref(), Some("one\ntwo"));
    assert_eq!(parse_sse_data("event: ping\n"), None);
}

#[test]
fn text_groups_alternate_words_and_spaces() {
    let groups = group_by_space("ab  c d");
    let expected: Vec<(bool, String)> =
        vec![(false, "ab".into()), (true, "  ".into()), (false, "c".into()), (true, " ".into()), (false, "d".into())];
    assert_eq!(groups, expected);
    assert!(group_by_space("").is_empty());
}

#[test]
fn splitting_keeps_every_character_and_respects_width() {
    assert_eq!(split_to_width("abcdefg", 3), ["abc", "def", "g"]);
    assert_eq!(split_to_width("日本語", 4), ["日本", "語"]);
    assert_eq!(split_to_width("abc", 0), ["a", "b", "c"]);
    assert!(split_to_width("", 5).is_empty());
}

#[test]
fn padding_reaches_the_target_width() {
    assert_eq!(pad_to("ab", 5), "ab   ");
    assert_eq!(pad_to("abcdef", 3), "ab…");
    assert_eq!(str_width("日本"), 4);
}

#[test]
fn text_lines_always_have_one_line() {
    assert_eq!(text_lines(""), [""]);
    assert_eq!(text_lines("a\nb\r\n"), ["a", "b"]);
}

#[test]
fn wrapping_splits_long_lines_by_bytes() {
    assert_eq!(wrap_text("abcdef\nxy", 4), ["abcd", "ef", "xy"]);
    assert_eq!(wrap_text("short", 0), ["short"]);
    assert_eq!(wrap_text("ééé", 4), ["éé", "é"]);
}

#[test]
fn pad_to_gives_exactly_the_target_width() {
    assert_eq!(pad_to("日本", 2), "… ");
    assert_eq!(pad_to("a", 0), "");
    assert_eq!(pad_to("a", 3), "a  ");
    assert_eq!(pad_to("abcdef", 4), "abc…");
    assert_eq!(pad_to("日本語", 4), "日… ");
    for (s, w) in [("日本", 2usize), ("abcdef", 3), ("x", 1), ("日本語", 5)] {
        assert_eq!(str_width(&pad_to(s, w)), w);
    }
}
