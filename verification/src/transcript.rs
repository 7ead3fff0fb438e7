//! The chat transcript as rows of styled text, pre-wrapped so that each row
//! is one row on screen.

use vstd::prelude::*;
use vstd::utf8::encode_utf8;
use crate::chat::{App, ItemView, items_view};
use crate::diff_render::{body, body_rows, truncate_spec};
use crate::layout::{wrap_spec, wrap_text};
use crate::markdown::{Color, Line, Span, Style, lines_view, markdown_walk, md_rendered, render_markdown, span_view};
use crate::text::{append_str, opt_view, trim};
use crate::tool_render::{fg_spec, render, render_spec};
use crate::tool_view::{ToolView, decimal, decimal_spec, summary, summary_spec, tool_view, tool_view_spec};
use crate::tui::{ChatItem, ToolDecision};

verus! {

/// A row, as values.
pub type Row = Seq<(Seq<char>, Style)>;

/// `a - b`, or zero when that is negative.
pub open spec fn sat_sub(a: int, b: int) -> int {
    if a > b { a - b } else { 0 }
}

/// One row per line, each one span: `lead` and the line, in `style`.
pub open spec fn text_rows(lines: Seq<Seq<char>>, lead: Seq<char>, style: Style) -> Seq<Row> {
    lines.map_values(|l: Seq<char>| seq![(lead + l, style)])
}

/// `rows`, each behind a plain span `lead`.
pub open spec fn indented(rows: Seq<Row>, lead: Seq<char>) -> Seq<Row> {
    rows.map_values(|r: Row| seq![(lead, Style::plain_spec())] + r)
}

/// The user's messages: white and bold.
pub open spec fn user_style() -> Style {
    Style { bold: true, ..fg_spec(Color::White) }
}

/// Collapsed reasoning: dark grey and italic.
pub open spec fn folded_style() -> Style {
    Style { italic: true, ..fg_spec(Color::DarkGray) }
}

/// The label after a tool's name for the decision made on it.
pub open spec fn decision_label(d: Option<ToolDecision>) -> (Seq<char>, Style) {
    match d {
        Some(ToolDecision::Approved) => (" [approved]"@, fg_spec(Color::Green)),
        Some(ToolDecision::Denied) => (" [denied]"@, fg_spec(Color::Red)),
        Some(ToolDecision::Auto) => (" [auto]"@, fg_spec(Color::DarkGray)),
        None => (Seq::empty(), Style::plain_spec()),
    }
}

/// The first row of a tool call: its name and the decision made on it.
pub open spec fn tool_header(name: Seq<char>, d: Option<ToolDecision>) -> Row {
    seq![("  tool "@, fg_spec(Color::Magenta)), (name, Style { bold: true, ..fg_spec(Color::Cyan) }), decision_label(d)]
}

/// A file call: a one-line summary, then, when expanded, its body capped at
/// `cap` rows.
pub open spec fn file_rows(view: ToolView, result: Option<Seq<char>>, expanded: bool, cap: int) -> Seq<Row> {
    let marker = if expanded { "\u{25be}"@ } else { "\u{25b8}"@ };
    let hint = if expanded { " \u{2014} click to collapse"@ } else { " \u{2014} click to expand"@ };
    seq![seq![("    "@ + marker + " "@ + summary_spec(view, result) + hint, fg_spec(Color::DarkGray))]]
        + if expanded { indented(truncate_spec(body_rows(view, result), cap as nat), "    "@) } else { seq![] }
}

/// The approval prompt under the call that waits for a decision.
pub open spec fn prompt_rows(id: Seq<char>, d: Option<ToolDecision>, pending: Option<Seq<char>>) -> Seq<Row> {
    if d is None && pending == Some(id) {
        seq![
            seq![
                ("  "@, Style::plain_spec()),
                ("[y] approve"@, fg_spec(Color::Green)),
                ("  "@, Style::plain_spec()),
                ("[n] deny"@, fg_spec(Color::Red)),
            ],
        ]
    } else {
        seq![]
    }
}

/// The rows of a tool call whose file view is `view`.
pub open spec fn tool_rows(
    id: Seq<char>,
    name: Seq<char>,
    args: Seq<char>,
    result: Option<Seq<char>>,
    d: Option<ToolDecision>,
    expanded: bool,
    view: Option<ToolView>,
    pending: Option<Seq<char>>,
    width: int,
    cap: int,
) -> Seq<Row> {
    let awaiting = d is None && pending == Some(id);
    seq![tool_header(name, d)] + match view {
        Some(v) => file_rows(v, result, expanded, cap),
        None => indented(render_spec(name, args, result, expanded || awaiting, sat_sub(width, 4), cap), "    "@),
    } + prompt_rows(id, d, pending)
}

/// The rows of a transcript entry: an assistant entry's are the rows `md`
/// of its markdown, two spaces in, and a tool call's depend on its file
/// view (see `item_rows_ok`).
pub open spec fn item_rows(item: ItemView, view: Option<ToolView>, pending: Option<Seq<char>>, width: int, cap: int, md: Seq<Row>) -> Seq<Row> {
    match item {
        ItemView::User(t) => text_rows(wrap_spec(t, width), "  > "@, user_style()),
        ItemView::Assistant(_) => indented(md, "  "@),
        ItemView::Reasoning(t, collapsed) => if collapsed {
            seq![
                seq![
                    ("  \u{25b8} thinking ("@ + decimal_spec((encode_utf8(t).len() as usize) as nat) + " chars \u{2014} click to expand)"@, folded_style()),
                ],
            ]
        } else {
            seq![seq![("  \u{25be} thinking (click to collapse)"@, fg_spec(Color::DarkGray))]]
                + text_rows(wrap_spec(t, sat_sub(width, 4)), "    "@, fg_spec(Color::DarkGray))
        },
        ItemView::Tool { id, name, args, result, decision, expanded } => tool_rows(
            id,
            name,
            args,
            result,
            decision,
            expanded,
            view,
            pending,
            width,
            cap,
        ),
        ItemView::Error(t) => seq![seq![("  \u{26a0} "@ + t, fg_spec(Color::Red))]],
    }
}

/// Whether `md` are the rows of the markdown `t` rendered two columns
/// narrower than `width` (see `render_markdown`): none when that leaves no
/// column or `t` is only whitespace.
pub open spec fn assistant_md(t: Seq<char>, width: int, md: Seq<Row>) -> bool {
    let w = sat_sub(width, 2);
    if w == 0 || trim(t).len() == 0 {
        md.len() == 0
    } else {
        w <= usize::MAX && md_rendered(markdown_walk(t), w as usize, md)
    }
}

/// Whether `rows` are `item_rows` of the assistant entry `item`, whose
/// text is `t`, with its rendered markdown.
pub open spec fn assistant_rows_ok(item: ItemView, t: Seq<char>, rows: Seq<Row>, pending: Option<Seq<char>>, width: int, cap: int) -> bool {
    exists|md: Seq<Row>| #[trigger] assistant_md(t, width, md) && rows == item_rows(item, None, pending, width, cap, md)
}

/// Whether `rows` are what the entry `item` shows: `item_rows` with the
/// rendered markdown of an assistant entry, with the file view of a tool
/// call.
pub open spec fn item_rows_ok(item: ItemView, rows: Seq<Row>, pending: Option<Seq<char>>, width: int, cap: int) -> bool {
    match item {
        ItemView::Assistant(t) => assistant_rows_ok(item, t, rows, pending, width, cap),
        ItemView::Tool { name, args, .. } => exists|v: Option<ToolView>| #[trigger]
            tool_view_spec(name, args, v) && rows == item_rows(item, v, pending, width, cap, seq![]),
        _ => rows == item_rows(item, None, pending, width, cap, seq![]),
    }
}

/// The entries' rows, each chunk after an empty spacer row.
pub open spec fn spaced(chunks: Seq<Seq<Row>>) -> Seq<Row>
    decreases chunks.len(),
{
    if chunks.len() == 0 {
        seq![]
    } else {
        spaced(chunks.drop_last()) + seq![Seq::<(Seq<char>, Style)>::empty()] + chunks.last()
    }
}

fn plain() -> (r: Style)
    ensures
        r == Style::plain_spec(),
{
    Style::plain()
}

fn fg(c: Color) -> (r: Style)
    ensures
        r == fg_spec(c),
{
    Style::plain().fg(c)
}

/// A row of one span.
fn one(content: String, style: Style) -> (r: Line)
    ensures
        lines_view(seq![r])[0] == seq![(content@, style)],
{
    let mut spans: Vec<Span> = Vec::new();
    spans.push(Span { content, style });
    let r = Line { spans };
    assert(lines_view(seq![r])[0] =~= seq![(spans@[0].content@, style)]);
    r
}

/// `lead` followed by `text`.
fn concat(lead: &str, text: &str) -> (r: String)
    ensures
        r@ == lead@ + text@,
{
    let mut s = String::new();
    append_str(&mut s, lead);
    append_str(&mut s, text);
    s
}

/// One single-span row per line of `lines`, each behind `lead`.
fn text_lines(lines: Vec<String>, lead: &str, style: Style) -> (r: Vec<Line>)
    ensures
        lines_view(r@) == text_rows(lines@.map_values(|l: String| l@), lead@, style),
{
    let mut out: Vec<Line> = Vec::new();
    let mut i: usize = 0;
    while i < lines.len()
        invariant
            i <= lines.len(),
            lines_view(out@) == text_rows(lines@.map_values(|l: String| l@).take(i as int), lead@, style),
        decreases lines.len() - i,
    {
        let line = one(concat(lead, lines[i].as_str()), style);
        let ghost before = out@;
        out.push(line);
        assert(out@ =~= before.push(line));
        assert(lines_view(out@) =~= lines_view(before).push(lines_view(seq![line])[0]));
        assert(lines@.map_values(|l: String| l@).take(i + 1) =~= lines@.map_values(|l: String| l@).take(
            i as int,
        ).push(lines@[i as int]@));
        i = i + 1;
    }
    assert(lines@.map_values(|l: String| l@).take(lines.len() as int) =~= lines@.map_values(|l: String| l@));
    out
}

/// `lines`, each behind a plain span `lead`, appended to `out`.
fn push_indented(out: &mut Vec<Line>, lines: Vec<Line>, lead: &str)
    ensures
        lines_view(final(out)@) == lines_view(old(out)@) + indented(lines_view(lines@), lead@),
{
    let ghost start = lines_view(out@);
    let ghost all = lines_view(lines@);
    let mut i: usize = 0;
    let mut lines = lines;
    while i < lines.len()
        invariant
            i <= lines.len(),
            all == lines_view(lines@),
            lines_view(out@) == start + indented(all.take(i as int), lead@),
        decreases lines.len() - i,
    {
        let mut spans: Vec<Span> = Vec::new();
        spans.push(Span { content: lead.to_owned(), style: plain() });
        let mut k: usize = 0;
        while k < lines[i].spans.len()
            invariant
                i < lines.len(),
                k <= lines[i as int].spans.len(),
                spans_view_of(spans@) == seq![(lead@, Style::plain_spec())] + spans_view_of(lines@[i as int].spans@.take(k as int)),
            decreases lines[i as int].spans.len() - k,
        {
            let sp = lines[i].spans[k].clone();
            let ghost s0 = spans@;
            spans.push(sp);
            assert(spans@ =~= s0.push(sp));
            assert(lines@[i as int].spans@.take(k + 1) =~= lines@[i as int].spans@.take(k as int).push(lines@[i as int].spans@[k as int]));
            assert(spans_view_of(spans@) =~= spans_view_of(s0).push(span_view(sp)));
            assert(spans_view_of(lines@[i as int].spans@.take(k + 1)) =~= spans_view_of(lines@[i as int].spans@.take(k as int)).push(span_view(sp)));
            k = k + 1;
        }
        assert(lines@[i as int].spans@.take(lines@[i as int].spans@.len() as int) =~= lines@[i as int].spans@);
        let new_line = Line { spans };
        let ghost before = out@;
        out.push(new_line);
        assert(out@ =~= before.push(new_line));
        assert(lines_view(out@) =~= lines_view(before).push(lines_view(seq![new_line])[0]));
        assert(lines_view(seq![new_line])[0] =~= spans_view_of(new_line.spans@));
        assert(all[i as int] =~= spans_view_of(lines@[i as int].spans@));
        assert(all.take(i + 1) =~= all.take(i as int).push(all[i as int]));
        assert(indented(all.take(i + 1), lead@) =~= indented(all.take(i as int), lead@).push(
            seq![(lead@, Style::plain_spec())] + all[i as int],
        ));
        i = i + 1;
    }
    assert(all.take(lines.len() as int) =~= all);
}

/// Spans, as values.
spec fn spans_view_of(spans: Seq<Span>) -> Row {
    spans.map_values(|s: Span| span_view(s))
}

/// The rows of the approval prompt.
fn push_prompt(out: &mut Vec<Line>)
    ensures
        lines_view(final(out)@) == lines_view(old(out)@) + prompt_rows(seq![], None, Some(seq![])),
{
    let mut spans: Vec<Span> = Vec::new();
    spans.push(Span { content: "  ".to_owned(), style: plain() });
    spans.push(Span { content: "[y] approve".to_owned(), style: fg(Color::Green) });
    spans.push(Span { content: "  ".to_owned(), style: plain() });
    spans.push(Span { content: "[n] deny".to_owned(), style: fg(Color::Red) });
    let line = Line { spans };
    let ghost before = out@;
    out.push(line);
    assert(out@ =~= before.push(line));
    assert(lines_view(seq![line])[0] =~= prompt_rows(seq![], None, Some(seq![]))[0]);
    assert(lines_view(out@) =~= lines_view(before) + prompt_rows(seq![], None, Some(seq![])));
}

fn decision_span(d: Option<ToolDecision>) -> (r: Span)
    ensures
        span_view(r) == decision_label(d),
{
    match d {
        Some(ToolDecision::Approved) => Span { content: " [approved]".to_owned(), style: fg(Color::Green) },
        Some(ToolDecision::Denied) => Span { content: " [denied]".to_owned(), style: fg(Color::Red) },
        Some(ToolDecision::Auto) => Span { content: " [auto]".to_owned(), style: fg(Color::DarkGray) },
        None => Span { content: String::new(), style: plain() },
    }
}

/// The rows of a tool call.
#[verifier::rlimit(30)]
fn tool_lines(
    id: &String,
    name: &String,
    args: &String,
    result: &Option<String>,
    decision: Option<ToolDecision>,
    expanded: bool,
    pending: &Option<String>,
    width: usize,
    cap: usize,
) -> (r: Vec<Line>)
    ensures
        exists|v: Option<ToolView>| #[trigger]
            tool_view_spec(name@, args@, v) && lines_view(r@) == tool_rows(
                id@,
                name@,
                args@,
                opt_view(*result),
                decision,
                expanded,
                v,
                opt_view(*pending),
                width as int,
                cap as int,
            ),
{
    let mut out: Vec<Line> = Vec::new();
    let s0 = Span { content: "  tool ".to_owned(), style: fg(Color::Magenta) };
    let s1 = Span { content: name.clone(), style: fg(Color::Cyan).bold() };
    let s2 = decision_span(decision);
    let mut spans: Vec<Span> = Vec::new();
    spans.push(s0);
    spans.push(s1);
    spans.push(s2);
    assert(spans@ =~= seq![s0, s1, s2]);
    let header = Line { spans };
    assert(lines_view(seq![header])[0] =~= tool_header(name@, decision));
    out.push(header);
    assert(out@ =~= seq![header]);
    assert(lines_view(out@) =~= seq![tool_header(name@, decision)]);
    let res: Option<&str> = match result {
        Some(s) => Some(s.as_str()),
        None => None,
    };
    assert(opt_view(*result) == match res { Some(c) => Some(c@), None => None::<Seq<char>> });
    let awaiting = decision.is_none() && match pending {
        Some(p) => *p == *id,
        None => false,
    };
    assert(awaiting == (decision is None && opt_view(*pending) == Some(id@)));
    let view = tool_view(name.as_str(), args.as_str());
    let ghost mid = lines_view(out@);
    match &view {
        Some(v) => {
            let mut text = String::new();
            append_str(&mut text, "    ");
            append_str(&mut text, if expanded { "\u{25be}" } else { "\u{25b8}" });
            append_str(&mut text, " ");
            append_str(&mut text, summary(v, res).as_str());
            append_str(&mut text, if expanded { " \u{2014} click to collapse" } else { " \u{2014} click to expand" });
            let line = one(text, fg(Color::DarkGray));
            let ghost before = out@;
            out.push(line);
            assert(out@ =~= before.push(line));
            assert(lines_view(out@) =~= lines_view(before).push(lines_view(seq![line])[0]));
            if expanded {
                push_indented(&mut out, body(v, res, cap), "    ");
            }
            assert(lines_view(out@) =~= mid + file_rows(*v, opt_view(*result), expanded, cap as int));
        },
        None => {
            let w = if width > 4 { width - 4 } else { 0 };
            push_indented(&mut out, render(name.as_str(), args.as_str(), res, expanded || awaiting, w, cap), "    ");
        },
    }
    let ghost before_prompt = lines_view(out@);
    if awaiting {
        push_prompt(&mut out);
        assert(prompt_rows(seq![], None, Some(seq![])) =~= prompt_rows(id@, decision, opt_view(*pending)));
    } else {
        assert(prompt_rows(id@, decision, opt_view(*pending)) =~= Seq::<Row>::empty());
        assert(lines_view(out@) =~= before_prompt + prompt_rows(id@, decision, opt_view(*pending)));
    }
    assert(lines_view(out@) =~= tool_rows(
        id@,
        name@,
        args@,
        opt_view(*result),
        decision,
        expanded,
        view,
        opt_view(*pending),
        width as int,
        cap as int,
    ));
    out
}

/// The rows of one transcript entry (see `item_rows_ok`); `pending` is the
/// call waiting for a decision and `cap` bounds expanded bodies and results.
pub fn item_lines(item: &ChatItem, pending: &Option<String>, width: usize, cap: usize) -> (r: Vec<Line>)
    ensures
        item_rows_ok(item@, lines_view(r@), opt_view(*pending), width as int, cap as int),
{
    match item {
        ChatItem::User { text } => {
            let parts = wrap_text(text.as_str(), width);
            assert(parts@.map_values(|l: String| l@) =~= wrap_spec(text@, width as int));
            let r = text_lines(parts, "  > ", plain().fg(Color::White).bold());
            assert(lines_view(r@) == item_rows(item@, None, opt_view(*pending), width as int, cap as int, seq![]));
            r
        },
        ChatItem::Assistant { text } => {
            let w = if width > 2 { width - 2 } else { 0 };
            let md = render_markdown(text.as_str(), w);
            let ghost mv = lines_view(md@);
            let mut out: Vec<Line> = Vec::new();
            push_indented(&mut out, md, "  ");
            assert(lines_view(out@) =~= indented(mv, "  "@));
            assert(assistant_md(text@, width as int, mv));
            assert(lines_view(out@) == item_rows(item@, None, opt_view(*pending), width as int, cap as int, mv));
            assert(item@ == ItemView::Assistant(text@));
            assert(assistant_rows_ok(item@, text@, lines_view(out@), opt_view(*pending), width as int, cap as int));
            assert(item_rows_ok(item@, lines_view(out@), opt_view(*pending), width as int, cap as int));
            out
        },
        ChatItem::Reasoning { text, collapsed } => {
            if *collapsed {
                let mut s = String::new();
                append_str(&mut s, "  \u{25b8} thinking (");
                append_str(&mut s, decimal(text.as_str().len()).as_str());
                append_str(&mut s, " chars \u{2014} click to expand)");
                let mut style = fg(Color::DarkGray);
                style.italic = true;
                let line = one(s, style);
                let mut out: Vec<Line> = Vec::new();
                out.push(line);
                assert(lines_view(out@) =~= item_rows(item@, None, opt_view(*pending), width as int, cap as int, seq![]));
                out
            } else {
                let mut out: Vec<Line> = Vec::new();
                out.push(one("  \u{25be} thinking (click to collapse)".to_owned(), fg(Color::DarkGray)));
                let w = if width > 4 { width - 4 } else { 0 };
                let parts = wrap_text(text.as_str(), w);
                assert(parts@.map_values(|l: String| l@) =~= wrap_spec(text@, sat_sub(width as int, 4)));
                let rest = text_lines(parts, "    ", fg(Color::DarkGray));
                let ghost head = lines_view(out@);
                let ghost tail = lines_view(rest@);
                let mut rest = rest;
                out.append(&mut rest);
                assert(lines_view(out@) =~= head + tail);
                assert(lines_view(out@) =~= item_rows(item@, None, opt_view(*pending), width as int, cap as int, seq![]));
                out
            }
        },
        ChatItem::Tool { id, name, args, result, decision, expanded } => {
            let r = tool_lines(id, name, args, result, *decision, *expanded, pending, width, cap);
            let ghost v = choose|v: Option<ToolView>| #[trigger]
                tool_view_spec(name@, args@, v) && lines_view(r@) == tool_rows(
                    id@,
                    name@,
                    args@,
                    opt_view(*result),
                    *decision,
                    *expanded,
                    v,
                    opt_view(*pending),
                    width as int,
                    cap as int,
                );
            assert(tool_view_spec(name@, args@, v) && lines_view(r@) == item_rows(item@, v, opt_view(*pending), width as int, cap as int, seq![]));
            r
        },
        ChatItem::Error { text } => {
            let mut out: Vec<Line> = Vec::new();
            out.push(one(concat("  \u{26a0} ", text.as_str()), fg(Color::Red)));
            assert(lines_view(out@) =~= item_rows(item@, None, opt_view(*pending), width as int, cap as int, seq![]));
            out
        },
    }
}

/// The transcript of `app`: for each entry an empty spacer row, then the
/// entry's rows (see `item_rows_ok`), with the call waiting for a decision
/// showing its prompt.
pub fn transcript_lines(app: &App, width: usize, cap: usize) -> (r: Vec<Line>)
    ensures
        exists|chunks: Seq<Seq<Row>>| {
            &&& chunks.len() == app.items@.len()
            &&& lines_view(r@) == spaced(chunks)
            &&& forall|i: int| 0 <= i < chunks.len() ==> item_rows_ok(
                #[trigger] items_view(app.items@)[i],
                chunks[i],
                opt_view(app.pending_tool_id),
                width as int,
                cap as int,
            )
        },
{
    let mut out: Vec<Line> = Vec::new();
    let ghost mut chunks: Seq<Seq<Row>> = seq![];
    let mut i: usize = 0;
    while i < app.items.len()
        invariant
            i <= app.items.len(),
            chunks.len() == i,
            lines_view(out@) == spaced(chunks),
            forall|k: int| 0 <= k < i ==> item_rows_ok(
                #[trigger] items_view(app.items@)[k],
                chunks[k],
                opt_view(app.pending_tool_id),
                width as int,
                cap as int,
            ),
        decreases app.items.len() - i,
    {
        let ghost before = lines_view(out@);
        out.push(Line { spans: Vec::new() });
        let rows = item_lines(&app.items[i], &app.pending_tool_id, width, cap);
        let ghost chunk = lines_view(rows@);
        let mut rows = rows;
        let ghost o1 = out@;
        out.append(&mut rows);
        proof {
            assert(lines_view(o1) =~= before + seq![Seq::<(Seq<char>, Style)>::empty()]) by {
                assert(lines_view(o1).last() =~= Seq::<(Seq<char>, Style)>::empty());
                assert(lines_view(o1).drop_last() =~= before);
            }
            assert(lines_view(out@) =~= lines_view(o1) + chunk);
            let old_chunks = chunks;
            chunks = chunks.push(chunk);
            assert(chunks.drop_last() =~= old_chunks);
            assert(items_view(app.items@)[i as int] == app.items@[i as int]@);
        }
        i = i + 1;
    }
    out
}

} // verus!
