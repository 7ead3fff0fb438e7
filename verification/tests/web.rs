use auger::web::{html_text, html_to_text, inline_answer, is_block, is_html, is_noise, saved_answer, walk, HtmlEvent};

fn open(tag: &str) -> HtmlEvent {
    HtmlEvent::Open(tag.into())
}

fn text(t: &str) -> HtmlEvent {
    HtmlEvent::Text(t.into())
}

#[test]
fn tags_are_classified() {
    assert!(is_noise("script") && is_noise("svg"));
    assert!(!is_noise("p"));
    assert!(is_block("p") && is_block("h3") && is_block("table"));
    assert!(!is_block("span"));
}

#[test]
fn visible_text_skips_noise_and_breaks_blocks() {
    let events = vec![
        open("body"),
        open("h1"),
        text("  Title "),
        HtmlEvent::Close,
        open("script"),
        text("var x = 1;"),
        open("b"),
        text("hidden"),
        HtmlEvent::Close,
        HtmlEvent::Close,
        open("p"),
        text("First"),
        open("span"),
        text(" part"),
        HtmlEvent::Close,
        HtmlEvent::Close,
        open("p"),
        text("   "),
        HtmlEvent::Close,
        open("div"),
        text("Last"),
        HtmlEvent::Close,
        HtmlEvent::Close,
    ];
    assert_eq!(walk(&events), "\nTitle \nFirst part \nLast ");
    assert_eq!(html_text(&events), "Title\nFirst part\nLast");
}

#[test]
fn blank_lines_collapse_to_one() {
    let events = vec![text("a"), open("p"), open("br"), open("br"), text("b")];
    assert_eq!(html_text(&events), "a\nb");
    let events = vec![text("x\n\n\n y")];
    assert_eq!(html_text(&events), "x\n\ny");
}

#[test]
fn html_content_types_are_recognised() {
    assert!(is_html("text/html; charset=utf-8"));
    assert!(!is_html("application/json"));
    assert!(!is_html("text/htm"));
}

#[test]
fn bodies_are_answered_inline_or_saved() {
    assert_eq!(inline_answer("body", "hi", "text/plain", 200).unwrap(), r#"{"body":"hi","content_type":"text/plain","status":200}"#);
    assert!(inline_answer("text", &"x".repeat(8001), "text/plain", 200).is_none());
    assert_eq!(
        saved_answer(false, 9000, "text/plain", "/tmp/f.txt", 200),
        r#"{"body_size_bytes":9000,"content_type":"text/plain","full_response_path":"/tmp/f.txt","note":"Response body (9000 bytes) exceeds inline limit (8000 bytes). Full content saved to: /tmp/f.txt","status":200}"#
    );
    assert_eq!(
        saved_answer(true, 9000, "t", "/p", 404),
        r#"{"content_type":"t","full_response_path":"/p","note":"Extracted text (9000 bytes) exceeds inline limit (8000 bytes). Full content saved to: /p","status":404,"text_size_bytes":9000}"#
    );
}

#[test]
fn a_page_is_read_from_its_body() {
    let html = "<html><head><title>T</title><style>p{}</style></head>\
                <body><h1>Hi</h1><p>one <b>two</b></p><script>x()</script><p>three</p></body></html>";
    assert_eq!(html_to_text(html), "Hi\none two\nthree");
}

#[test]
fn a_fragment_gets_a_body_from_the_parser() {
    assert_eq!(html_to_text("plain <i>words</i>"), "plain words");
    assert_eq!(html_to_text(""), "");
}

#[test]
fn only_the_first_body_is_read() {
    let events = vec![
        open("html"),
        text("outside"),
        open("body"),
        text("inside"),
        HtmlEvent::Close,
        text("after"),
        HtmlEvent::Close,
    ];
    assert_eq!(html_text(&events), "inside");
    assert_eq!(walk(&events), "outside inside after ");
}

#[test]
fn other_nodes_are_passed_over() {
    let events = vec![open("p"), HtmlEvent::Other, text("a"), HtmlEvent::Other, HtmlEvent::Close];
    assert_eq!(html_text(&events), "a");
}
