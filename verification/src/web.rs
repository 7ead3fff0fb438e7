//! The web fetch tools' own logic: the text of an HTML page, and the
//! answers for a fetched body. Fetching, parsing the HTML and writing
//! temporary files is the host's part.

use vstd::prelude::*;
use crate::anthropic::{at, keys_are, str_json};
use crate::json::{JsonValue, compact_text, json_compact};
use crate::layout::{char_utf8_len, lines_of, lines_spec, utf8_bytes};
use crate::text::{append_str, chars_of, eq_str, push_char, string_of, trim, trim_bounds};
use crate::tool_view::{decimal, decimal_spec};

verus! {

/// The elements whose content is never text a reader sees.
pub open spec fn noise_tag(tag: Seq<char>) -> bool {
    tag == "script"@ || tag == "style"@ || tag == "noscript"@ || tag == "head"@ || tag == "meta"@ || tag == "link"@
        || tag == "svg"@ || tag == "canvas"@
}

/// The elements that start on a line of their own.
pub open spec fn block_tag(tag: Seq<char>) -> bool {
    tag == "p"@ || tag == "div"@ || tag == "h1"@ || tag == "h2"@ || tag == "h3"@ || tag == "h4"@ || tag == "h5"@
        || tag == "h6"@ || tag == "li"@ || tag == "br"@ || tag == "tr"@ || tag == "blockquote"@ || tag == "pre"@
        || tag == "section"@ || tag == "article"@ || tag == "header"@ || tag == "footer"@ || tag == "main"@
        || tag == "nav"@ || tag == "ul"@ || tag == "ol"@ || tag == "table"@
}

/// Whether the element `tag` holds no visible text.
pub fn is_noise(tag: &str) -> (r: bool)
    ensures
        r == noise_tag(tag@),
{
    let t = chars_of(tag);
    eq_str(&t, "script") || eq_str(&t, "style") || eq_str(&t, "noscript") || eq_str(&t, "head") || eq_str(&t, "meta")
        || eq_str(&t, "link") || eq_str(&t, "svg") || eq_str(&t, "canvas")
}

/// Whether the element `tag` starts on a line of its own.
pub fn is_block(tag: &str) -> (r: bool)
    ensures
        r == block_tag(tag@),
{
    let t = chars_of(tag);
    eq_str(&t, "p") || eq_str(&t, "div") || eq_str(&t, "h1") || eq_str(&t, "h2") || eq_str(&t, "h3") || eq_str(&t, "h4")
        || eq_str(&t, "h5") || eq_str(&t, "h6") || eq_str(&t, "li") || eq_str(&t, "br") || eq_str(&t, "tr") || eq_str(
        &t,
        "blockquote",
    ) || eq_str(&t, "pre") || eq_str(&t, "section") || eq_str(&t, "article") || eq_str(&t, "header") || eq_str(
        &t,
        "footer",
    ) || eq_str(&t, "main") || eq_str(&t, "nav") || eq_str(&t, "ul") || eq_str(&t, "ol") || eq_str(&t, "table")
}

/// A step of a walk through an HTML tree, in document order: an element
/// opens or closes, a text node is met, or some other node (a comment, a
/// doctype) opens or closes.
#[derive(Debug)]
pub enum HtmlEvent {
    Open(String),
    Close,
    Text(String),
    Other,
}

/// A step of a walk, as a value.
pub enum HtmlEventView {
    Open(Seq<char>),
    Close,
    Text(Seq<char>),
    Other,
}

impl View for HtmlEvent {
    type V = HtmlEventView;

    open spec fn view(&self) -> HtmlEventView {
        match self {
            HtmlEvent::Open(tag) => HtmlEventView::Open(tag@),
            HtmlEvent::Close => HtmlEventView::Close,
            HtmlEvent::Text(t) => HtmlEventView::Text(t@),
            HtmlEvent::Other => HtmlEventView::Other,
        }
    }
}

/// Steps, as values.
pub open spec fn events_view(es: Seq<HtmlEvent>) -> Seq<HtmlEventView> {
    es.map_values(|e: HtmlEvent| e@)
}

/// The walk that `scraper` makes through the document parsed from `html`,
/// from its root element.
pub uninterp spec fn html_walk(html: Seq<char>) -> Seq<HtmlEventView>;

/// Parses `html` as a document (`scraper::Html::parse_document`) and walks
/// its root element (`ego_tree`'s `traverse`): each open and close edge of
/// an element, each text node as it opens, and any other edge as `Other`,
/// one step per edge and in order.
#[verifier::external_body]
fn html_events(html: &str) -> (r: Vec<HtmlEvent>)
    ensures
        events_view(r@) == html_walk(html@),
{
    let doc = scraper::Html::parse_document(html);
    let mut out = Vec::new();
    for edge in doc.root_element().traverse() {
        out.push(match edge {
            ego_tree::iter::Edge::Open(n) => match n.value() {
                scraper::Node::Element(e) => HtmlEvent::Open(e.name().to_string()),
                scraper::Node::Text(t) => HtmlEvent::Text(t.to_string()),
                _ => HtmlEvent::Other,
            },
            ego_tree::iter::Edge::Close(n) if n.value().is_element() => HtmlEvent::Close,
            ego_tree::iter::Edge::Close(_) => HtmlEvent::Other,
        });
    }
    out
}

/// A walk's state: the text so far and how deep inside a noise element the
/// walk is (0 when outside any).
pub type WalkState = (Seq<char>, nat);

/// What one step does to the walk: inside a noise element only the depth
/// is tracked; a block element starts a new line unless the text already
/// ends one; a text node adds its trimmed text and a space, when there is
/// any; other nodes change nothing.
pub open spec fn walk_step(st: WalkState, e: HtmlEventView) -> WalkState {
    let (out, skip) = st;
    match e {
        HtmlEventView::Open(tag) => if skip > 0 {
            (out, skip + 1)
        } else if noise_tag(tag) {
            (out, 1)
        } else if block_tag(tag) && !(out.len() > 0 && out.last() == '\n') {
            (out.push('\n'), 0)
        } else {
            (out, 0)
        },
        HtmlEventView::Close => if skip > 0 { (out, (skip - 1) as nat) } else { (out, 0) },
        HtmlEventView::Text(t) => if skip > 0 || trim(t).len() == 0 {
            st
        } else {
            (out + trim(t).push(' '), 0)
        },
        HtmlEventView::Other => st,
    }
}

/// The walk over the steps `events`.
pub open spec fn walk_spec(events: Seq<HtmlEventView>) -> WalkState
    decreases events.len(),
{
    if events.len() == 0 {
        (seq![], 0)
    } else {
        walk_step(walk_spec(events.drop_last()), events.last())
    }
}

/// The raw text of the walk over `events[lo..hi]` (see `walk_step`).
fn walk_range(events: &Vec<HtmlEvent>, lo: usize, hi: usize) -> (r: String)
    requires
        lo <= hi <= events.len(),
    ensures
        r@ == walk_spec(events_view(events@).subrange(lo as int, hi as int)).0,
{
    let ghost v = events_view(events@);
    let mut out = String::new();
    let mut last_newline = false;
    let mut skip: usize = 0;
    let mut i: usize = lo;
    assert(v.subrange(lo as int, lo as int) =~= Seq::<HtmlEventView>::empty());
    while i < hi
        invariant
            lo <= i <= hi <= events.len(),
            v == events_view(events@),
            skip <= i,
            (out@, skip as nat) == walk_spec(v.subrange(lo as int, i as int)),
            last_newline == (out@.len() > 0 && out@.last() == '\n'),
        decreases hi - i,
    {
        assert(v.subrange(lo as int, i + 1).drop_last() =~= v.subrange(lo as int, i as int));
        assert(v.subrange(lo as int, i + 1).last() == events@[i as int]@);
        match &events[i] {
            HtmlEvent::Open(tag) => {
                if skip > 0 {
                    skip = skip + 1;
                } else if is_noise(tag.as_str()) {
                    skip = 1;
                } else if is_block(tag.as_str()) && !last_newline {
                    push_char(&mut out, '\n');
                    last_newline = true;
                }
            },
            HtmlEvent::Close => {
                if skip > 0 {
                    skip = skip - 1;
                }
            },
            HtmlEvent::Text(t) => {
                if skip == 0 {
                    let cs = chars_of(t.as_str());
                    let (lo2, hi2) = trim_bounds(&cs, 0, cs.len());
                    assert(cs@.subrange(0, cs@.len() as int) =~= t@);
                    if lo2 < hi2 {
                        append_str(&mut out, string_of(&cs, lo2, hi2).as_str());
                        push_char(&mut out, ' ');
                        last_newline = false;
                    }
                }
            },
            HtmlEvent::Other => {},
        }
        i = i + 1;
    }
    out
}

/// The raw text of a walk through an HTML tree (see `walk_step`).
pub fn walk(events: &Vec<HtmlEvent>) -> (r: String)
    ensures
        r@ == walk_spec(events_view(events@)).0,
{
    let r = walk_range(events, 0, events.len());
    assert(events_view(events@).subrange(0, events@.len() as int) =~= events_view(events@));
    r
}

/// The index of the first step that opens a `body` element at or after
/// `k`, or the number of steps when there is none.
pub open spec fn find_body(v: Seq<HtmlEventView>, k: int) -> int
    decreases v.len() - k,
{
    if k < 0 || k >= v.len() {
        v.len() as int
    } else if v[k] == HtmlEventView::Open("body"@) {
        k
    } else {
        find_body(v, k + 1)
    }
}

/// The index just past the step that closes the element open at depth `d`
/// when the walk reaches `k`, or the number of steps when none does.
pub open spec fn close_from(v: Seq<HtmlEventView>, k: int, d: nat) -> int
    decreases v.len() - k,
{
    if k < 0 || k >= v.len() {
        v.len() as int
    } else {
        match v[k] {
            HtmlEventView::Open(_) => close_from(v, k + 1, d + 1),
            HtmlEventView::Close => if d <= 1 { k + 1 } else { close_from(v, k + 1, (d - 1) as nat) },
            _ => close_from(v, k + 1, d),
        }
    }
}

/// The steps of the part of a page that is read: the first `body`
/// element, or the whole walk when there is none.
pub open spec fn page_events(v: Seq<HtmlEventView>) -> Seq<HtmlEventView> {
    let b = find_body(v, 0);
    if b < v.len() {
        v.subrange(b, close_from(v, b, 0))
    } else {
        v
    }
}

proof fn lemma_find_body_bounds(v: Seq<HtmlEventView>, k: int)
    requires
        0 <= k <= v.len(),
    ensures
        k <= find_body(v, k) <= v.len(),
    decreases v.len() - k,
{
    if k < v.len() && v[k] != HtmlEventView::Open("body"@) {
        lemma_find_body_bounds(v, k + 1);
    }
}

proof fn lemma_close_from_bounds(v: Seq<HtmlEventView>, k: int, d: nat)
    requires
        0 <= k <= v.len(),
    ensures
        k <= close_from(v, k, d) <= v.len(),
    decreases v.len() - k,
{
    if k < v.len() {
        match v[k] {
            HtmlEventView::Open(_) => lemma_close_from_bounds(v, k + 1, d + 1),
            HtmlEventView::Close => if d > 1 {
                lemma_close_from_bounds(v, k + 1, (d - 1) as nat)
            },
            _ => lemma_close_from_bounds(v, k + 1, d),
        }
    }
}

/// Whether `e` opens a `body` element.
fn opens_body(e: &HtmlEvent) -> (r: bool)
    ensures
        r == (e@ == HtmlEventView::Open("body"@)),
{
    match e {
        HtmlEvent::Open(tag) => eq_str(&chars_of(tag.as_str()), "body"),
        _ => false,
    }
}

/// Where the part of a page that is read lies among `events` (see
/// `page_events`).
fn page_bounds(events: &Vec<HtmlEvent>) -> (r: (usize, usize))
    ensures
        r.0 <= r.1 <= events.len(),
        events_view(events@).subrange(r.0 as int, r.1 as int) == page_events(events_view(events@)),
{
    let ghost v = events_view(events@);
    let mut b: usize = 0;
    while b < events.len() && !opens_body(&events[b])
        invariant
            b <= events.len(),
            v == events_view(events@),
            find_body(v, 0) == find_body(v, b as int),
        decreases events.len() - b,
    {
        assert(v[b as int] == events@[b as int]@);
        b = b + 1;
    }
    assert(v.len() == events.len());
    if b == events.len() {
        assert(v.subrange(0, v.len() as int) =~= v);
        return (0, events.len());
    }
    assert(v[b as int] == events@[b as int]@);
    assert(find_body(v, b as int) == b);
    let mut e: usize = b;
    let mut d: usize = 0;
    while e < events.len()
        invariant
            b <= e <= events.len(),
            b < events.len(),
            find_body(v, 0) == b as int,
            d <= e - b,
            v == events_view(events@),
            close_from(v, b as int, 0) == close_from(v, e as int, d as nat),
        decreases events.len() - e,
    {
        assert(v[e as int] == events@[e as int]@);
        match &events[e] {
            HtmlEvent::Open(_) => {
                d = d + 1;
            },
            HtmlEvent::Close => {
                if d <= 1 {
                    e = e + 1;
                    return (b, e);
                }
                d = d - 1;
            },
            _ => {},
        }
        e = e + 1;
    }
    (b, e)
}

/// The text of `raw` with each line trimmed and each run of blank lines
/// cut to one, before the final trim.
pub open spec fn collapse(lines: Seq<Seq<char>>) -> (Seq<char>, bool)
    decreases lines.len(),
{
    if lines.len() == 0 {
        (seq![], false)
    } else {
        let (out, prev_blank) = collapse(lines.drop_last());
        let t = trim(lines.last());
        if t.len() == 0 {
            (if prev_blank { out } else { out.push('\n') }, true)
        } else {
            (out + t.push('\n'), false)
        }
    }
}

/// The visible text of an HTML page from the raw text of its walk: each
/// line trimmed, runs of blank lines cut to one, the whole trimmed.
pub open spec fn page_text(raw: Seq<char>) -> Seq<char> {
    trim(collapse(lines_spec(raw)).0)
}

/// The visible text of a page from the steps of a walk through it: of its
/// first `body` element, or of the whole walk when there is none.
pub fn html_text(events: &Vec<HtmlEvent>) -> (r: String)
    ensures
        r@ == page_text(walk_spec(page_events(events_view(events@))).0),
{
    let (lo, hi) = page_bounds(events);
    let raw = walk_range(events, lo, hi);
    let lines = lines_of(raw.as_str());
    let ghost lv = lines_spec(raw@);
    let mut out = String::new();
    let mut prev_blank = false;
    let mut i: usize = 0;
    while i < lines.len()
        invariant
            i <= lines.len(),
            lines@.len() == lv.len(),
            forall|k: int| 0 <= k < lines@.len() ==> (#[trigger] lines@[k])@ == lv[k],
            (out@, prev_blank) == collapse(lv.take(i as int)),
        decreases lines.len() - i,
    {
        assert(lv.take(i + 1).drop_last() =~= lv.take(i as int));
        assert(lv.take(i + 1).last() == lines@[i as int]@);
        let cs = chars_of(lines[i].as_str());
        let (lo, hi) = trim_bounds(&cs, 0, cs.len());
        assert(cs@.subrange(0, cs@.len() as int) =~= cs@);
        if lo == hi {
            if !prev_blank {
                push_char(&mut out, '\n');
            }
            prev_blank = true;
        } else {
            append_str(&mut out, string_of(&cs, lo, hi).as_str());
            push_char(&mut out, '\n');
            prev_blank = false;
        }
        i = i + 1;
    }
    assert(lv.take(lines.len() as int) =~= lv);
    let cs = chars_of(out.as_str());
    let (lo, hi) = trim_bounds(&cs, 0, cs.len());
    assert(cs@.subrange(0, cs@.len() as int) =~= cs@);
    string_of(&cs, lo, hi)
}

/// The visible text of the HTML page `html`: it is parsed, and the text
/// of its first `body` element (or of the whole document) is kept, each
/// line trimmed and runs of blank lines cut to one.
pub fn html_to_text(html: &str) -> (r: String)
    ensures
        r@ == page_text(walk_spec(page_events(html_walk(html@))).0),
{
    let events = html_events(html);
    html_text(&events)
}

/// Whether `s` holds `pattern` somewhere.
pub open spec fn contains_seq(s: Seq<char>, pattern: Seq<char>) -> bool {
    exists|i: int| 0 <= i <= s.len() - pattern.len() && #[trigger] s.subrange(i, i + pattern.len()) == pattern
}

/// Whether a content type is HTML: it mentions `text/html`.
pub fn is_html(content_type: &str) -> (r: bool)
    ensures
        r == contains_seq(content_type@, "text/html"@),
{
    let cs = chars_of(content_type);
    let pat = chars_of("text/html");
    proof {
        reveal_strlit("text/html");
        assert(pat@.len() == 9);
    }
    if cs.len() < pat.len() {
        assert(!contains_seq(content_type@, "text/html"@));
        return false;
    }
    let mut i: usize = 0;
    while i <= cs.len() - pat.len()
        invariant
            cs@ == content_type@,
            pat@ == "text/html"@,
            pat.len() <= cs.len(),
            i <= cs.len() - pat.len() + 1,
            forall|j: int| 0 <= j < i ==> #[trigger] cs@.subrange(j, j + pat@.len()) != pat@,
        decreases cs.len() - i,
    {
        let mut k: usize = 0;
        while k < pat.len() && cs[i + k] == pat[k]
            invariant
                k <= pat.len(),
                i + pat.len() <= cs.len(),
                forall|q: int| 0 <= q < k ==> cs@[i + q] == pat@[q],
            decreases pat.len() - k,
        {
            k = k + 1;
        }
        if k == pat.len() {
            assert(cs@.subrange(i as int, i + pat@.len()) =~= pat@);
            return true;
        }
        assert(cs@.subrange(i as int, i + pat@.len())[k as int] != pat@[k as int]);
        i = i + 1;
    }
    false
}

/// The most bytes of a body a fetch answers with inline.
pub const MAX_INLINE: usize = 8000;

/// The UTF-8 length of `s`, in bytes.
pub fn byte_len(s: &str) -> (r: usize)
    requires
        utf8_bytes(s@) <= usize::MAX,
    ensures
        r == utf8_bytes(s@),
{
    let cs = chars_of(s);
    let mut n: usize = 0;
    let mut i: usize = 0;
    while i < cs.len()
        invariant
            i <= cs.len(),
            cs@ == s@,
            utf8_bytes(s@) <= usize::MAX,
            n == utf8_bytes(cs@.take(i as int)),
        decreases cs.len() - i,
    {
        assert(cs@.take(i + 1).drop_last() =~= cs@.take(i as int));
        proof {
            crate::layout::lemma_bytes_grow(cs@, i + 1);
        }
        n = n + char_utf8_len(cs[i]);
        i = i + 1;
    }
    assert(cs@.take(cs.len() as int) =~= cs@);
    n
}

/// Whether `v` is a JSON number with the decimal text of `n`.
pub open spec fn number_json(v: JsonValue, n: nat) -> bool {
    match v {
        JsonValue::Number(t) => t@ == decimal_spec(n),
        _ => false,
    }
}

/// Whether `v` is the inline answer for a fetched body: the body under
/// `key`, its content type and the HTTP status.
pub open spec fn inline_json(v: JsonValue, key: Seq<char>, body: Seq<char>, content_type: Seq<char>, status: u16) -> bool {
    &&& keys_are(v, seq![key, "content_type"@, "status"@])
    &&& str_json(at(v, 0), body)
    &&& str_json(at(v, 1), content_type)
    &&& number_json(at(v, 2), status as nat)
}

/// The answer for a fetched body that fits inline: `None` when it is more
/// than `MAX_INLINE` bytes and must be saved to a file instead. The web
/// fetch tool names the body `body`, the text fetch tool `text`.
pub fn inline_answer(key: &str, body: &str, content_type: &str, status: u16) -> (r: Option<String>)
    requires
        utf8_bytes(body@) <= usize::MAX,
        key@ == "body"@ || key@ == "text"@,
    ensures
        utf8_bytes(body@) > MAX_INLINE ==> r is None,
        utf8_bytes(body@) <= MAX_INLINE ==> (r matches Some(text) && exists|v: JsonValue| inline_json(v, key@, body@, content_type@, status)
            && text@ == #[trigger] json_compact(v)),
{
    if byte_len(body) > MAX_INLINE {
        return None;
    }
    let mut ms: Vec<(String, JsonValue)> = Vec::new();
    ms.push((key.to_owned(), JsonValue::Str(body.to_owned())));
    ms.push(("content_type".to_owned(), JsonValue::Str(content_type.to_owned())));
    ms.push(("status".to_owned(), JsonValue::Number(decimal(status as usize))));
    let v = JsonValue::Object(ms);
    assert(inline_json(v, key@, body@, content_type@, status));
    Some(compact_text(&v))
}

/// Whether `v` is the answer for a body saved to the file `path`: its
/// size, its content type, the path, a note, and the HTTP status.
pub open spec fn saved_json(v: JsonValue, size_key: Seq<char>, what: Seq<char>, size: nat, content_type: Seq<char>, path: Seq<char>, status: u16) -> bool {
    &&& keys_are(v, seq![size_key, "content_type"@, "full_response_path"@, "note"@, "status"@])
    &&& number_json(at(v, 0), size)
    &&& str_json(at(v, 1), content_type)
    &&& str_json(at(v, 2), path)
    &&& str_json(
        at(v, 3),
        what + " ("@ + decimal_spec(size) + " bytes) exceeds inline limit ("@ + decimal_spec(MAX_INLINE as nat)
            + " bytes). Full content saved to: "@ + path,
    )
    &&& number_json(at(v, 4), status as nat)
}

/// The answer for a body of `size` bytes saved to the file `path`. The web
/// fetch tool speaks of a `Response body` and its `body_size_bytes`, the
/// text fetch tool of `Extracted text` and its `text_size_bytes`.
pub fn saved_answer(text_tool: bool, size: usize, content_type: &str, path: &str, status: u16) -> (r: String)
    ensures
        exists|v: JsonValue| saved_json(
            v,
            if text_tool { "text_size_bytes"@ } else { "body_size_bytes"@ },
            if text_tool { "Extracted text"@ } else { "Response body"@ },
            size as nat,
            content_type@,
            path@,
            status,
        ) && r@ == #[trigger] json_compact(v),
{
    let size_key = if text_tool { "text_size_bytes" } else { "body_size_bytes" };
    let what = if text_tool { "Extracted text" } else { "Response body" };
    let mut note = String::new();
    append_str(&mut note, what);
    append_str(&mut note, " (");
    append_str(&mut note, decimal(size).as_str());
    append_str(&mut note, " bytes) exceeds inline limit (");
    append_str(&mut note, decimal(MAX_INLINE).as_str());
    append_str(&mut note, " bytes). Full content saved to: ");
    append_str(&mut note, path);
    let mut ms: Vec<(String, JsonValue)> = Vec::new();
    ms.push((size_key.to_owned(), JsonValue::Number(decimal(size))));
    ms.push(("content_type".to_owned(), JsonValue::Str(content_type.to_owned())));
    ms.push(("full_response_path".to_owned(), JsonValue::Str(path.to_owned())));
    ms.push(("note".to_owned(), JsonValue::Str(note)));
    ms.push(("status".to_owned(), JsonValue::Number(decimal(status as usize))));
    let v = JsonValue::Object(ms);
    assert(saved_json(
        v,
        if text_tool { "text_size_bytes"@ } else { "body_size_bytes"@ },
        if text_tool { "Extracted text"@ } else { "Response body"@ },
        size as nat,
        content_type@,
        path@,
        status,
    ));
    compact_text(&v)
}

} // verus!
