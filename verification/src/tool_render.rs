//! How the chat shows a tool call that has no file view: its arguments,
//! folded when collapsed, then its result, capped.

use vstd::prelude::*;
use crate::layout::{lines_of, lines_spec, wrap_spec, wrap_text};
use crate::markdown::{Color, Line, Span, Style, lines_view};
use crate::text::{append_str, push_char};
use crate::tool_view::{arg_view, arg_view_spec, decimal, decimal_spec};
use crate::layout::text_lines_spec;

verus! {

/// Argument lines a collapsed call shows.
pub const COLLAPSED_ARG_LINES: usize = 3;

/// Result lines a collapsed call shows.
pub const COLLAPSED_RESULT_LINES: usize = 2;

/// A style with only a foreground colour.
pub open spec fn fg_spec(c: Color) -> Style {
    Style { fg: Some(c), ..Style::plain_spec() }
}

/// A row of the arguments: the marker column, then the text.
pub open spec fn arg_row(marker: Seq<char>, text: Seq<char>) -> Seq<(Seq<char>, Style)> {
    seq![(marker.push(' '), fg_spec(Color::Magenta)), (text, fg_spec(Color::White))]
}

/// The rows of one argument line wrapped to `width`: the first after
/// `marker`, the others after a blank.
pub open spec fn line_rows(line: Seq<char>, marker: Seq<char>, width: int) -> Seq<Seq<(Seq<char>, Style)>> {
    wrap_spec(line, width).map(|j: int, part: Seq<char>| arg_row(if j == 0 { marker } else { " "@ }, part))
}

/// The rows of the argument lines `lines`: only the very first row shows
/// `marker`.
pub open spec fn arg_rows(lines: Seq<Seq<char>>, marker: Seq<char>, width: int) -> Seq<Seq<(Seq<char>, Style)>>
    decreases lines.len(),
{
    if lines.len() == 0 {
        seq![]
    } else {
        arg_rows(lines.drop_last(), marker, width) + line_rows(
            lines.last(),
            if lines.len() == 1 { marker } else { " "@ },
            width,
        )
    }
}

/// A dimmed hint row.
pub open spec fn hint_row(text: Seq<char>) -> Seq<(Seq<char>, Style)> {
    seq![(text, fg_spec(Color::DarkGray))]
}

/// The rows of a result: its lines wrapped to `width`, one after another.
pub open spec fn result_texts(lines: Seq<Seq<char>>, width: int) -> Seq<Seq<char>>
    decreases lines.len(),
{
    if lines.len() == 0 { seq![] } else { result_texts(lines.drop_last(), width) + wrap_spec(lines.last(), width) }
}

/// The rows shown of a result: at most `budget` wrapped lines after a bar,
/// then how many were left out.
pub open spec fn result_rows(result: Seq<char>, expanded: bool, width: int, max_lines: int) -> Seq<Seq<(Seq<char>, Style)>> {
    let all = result_texts(lines_spec(result), if width >= 2 { width - 2 } else { 0 });
    let budget = if expanded { max_lines } else { COLLAPSED_RESULT_LINES as int };
    let shown = all.take(if all.len() < budget { all.len() as int } else { budget });
    shown.map(|i: int, t: Seq<char>| seq![("| "@, fg_spec(Color::DarkGray)), (t, fg_spec(Color::Gray))]) + if all.len()
        > budget {
        let hidden = decimal_spec((all.len() - budget) as nat);
        seq![hint_row(if expanded { "... "@ + hidden + " more lines"@ } else { "+"@ + hidden + " more lines - click to expand"@ })]
    } else {
        seq![]
    }
}

/// Everything a non-file tool call shows: its argument lines (all of them
/// when expanded, else the first few and how many more there are), then
/// its result, or a hint when it is collapsed and has none yet.
pub open spec fn render_spec(name: Seq<char>, args: Seq<char>, result: Option<Seq<char>>, expanded: bool, width: int, max_result_lines: int) -> Seq<Seq<(Seq<char>, Style)>> {
    let (marker, text) = arg_view_spec(name, args);
    let lines = text_lines_spec(text);
    let shown: int = if expanded || lines.len() <= COLLAPSED_ARG_LINES { lines.len() as int } else { COLLAPSED_ARG_LINES as int };
    let w = if width >= 2 { width - 2 } else { 0 };
    arg_rows(lines.take(shown), marker, w) + (if shown < lines.len() {
        seq![hint_row("+"@ + decimal_spec((lines.len() - shown) as nat) + " more lines - click to expand"@)]
    } else {
        seq![]
    }) + match result {
        Some(r) => result_rows(r, expanded, width, max_result_lines),
        None => if expanded { seq![] } else { seq![hint_row("click to expand"@)] },
    }
}

fn fg(c: Color) -> (r: Style)
    ensures
        r == fg_spec(c),
{
    Style::plain().fg(c)
}

fn hint(text: String) -> (r: Line)
    ensures
        lines_view(seq![r])[0] == hint_row(text@),
{
    let mut spans: Vec<Span> = Vec::new();
    spans.push(Span { content: text, style: fg(Color::DarkGray) });
    let r = Line { spans };
    assert(lines_view(seq![r])[0] =~= hint_row(spans@[0].content@));
    r
}

/// The rows shown of a tool result (see `result_rows`).
pub fn result_lines(result: &str, expanded: bool, width: usize, max_lines: usize) -> (r: Vec<Line>)
    ensures
        lines_view(r@) == result_rows(result@, expanded, width as int, max_lines as int),
{
    let lines = lines_of(result);
    let ghost lv = lines_spec(result@);
    let width: usize = if width >= 2 { width - 2 } else { 0 };
    let mut all: Vec<String> = Vec::new();
    let mut i: usize = 0;
    while i < lines.len()
        invariant
            i <= lines.len(),
            lines@.len() == lv.len(),
            forall|k: int| 0 <= k < lines@.len() ==> (#[trigger] lines@[k])@ == lv[k],
            all@.map_values(|s: String| s@) == result_texts(lv.take(i as int), width as int),
        decreases lines.len() - i,
    {
        assert(lv.take(i + 1).drop_last() =~= lv.take(i as int));
        let parts = wrap_text(lines[i].as_str(), width);
        let ghost before = all@.map_values(|s: String| s@);
        let mut j: usize = 0;
        while j < parts.len()
            invariant
                j <= parts.len(),
                all@.map_values(|s: String| s@) == before + wrap_spec(lv[i as int], width as int).take(j as int),
                parts@.len() == wrap_spec(lines@[i as int]@, width as int).len(),
                forall|k: int| 0 <= k < parts@.len() ==> (#[trigger] parts@[k])@ == wrap_spec(lines@[i as int]@, width as int)[k],
                lines@[i as int]@ == lv[i as int],
            decreases parts.len() - j,
        {
            let ghost prev = all@.map_values(|s: String| s@);
            all.push(parts[j].clone());
            assert(all@.map_values(|s: String| s@) =~= prev.push(parts@[j as int]@));
            assert(wrap_spec(lv[i as int], width as int).take(j + 1) =~= wrap_spec(lv[i as int], width as int).take(j as int).push(parts@[j as int]@));
            j = j + 1;
        }
        assert(wrap_spec(lv[i as int], width as int).take(parts.len() as int) =~= wrap_spec(lv[i as int], width as int));
        i = i + 1;
    }
    assert(lv.take(lines.len() as int) =~= lv);
    let ghost av = all@.map_values(|s: String| s@);
    let budget: usize = if expanded { max_lines } else { COLLAPSED_RESULT_LINES };
    let shown: usize = if all.len() < budget { all.len() } else { budget };
    let mut out: Vec<Line> = Vec::new();
    let mut k: usize = 0;
    while k < shown
        invariant
            k <= shown <= all@.len(),
            av == all@.map_values(|s: String| s@),
            lines_view(out@) == av.take(k as int).map(|q: int, t: Seq<char>| seq![("| "@, fg_spec(Color::DarkGray)), (t, fg_spec(Color::Gray))]),
        decreases shown - k,
    {
        let mut spans: Vec<Span> = Vec::new();
        spans.push(Span { content: "| ".to_owned(), style: fg(Color::DarkGray) });
        spans.push(Span { content: all[k].clone(), style: fg(Color::Gray) });
        let ghost prev = lines_view(out@);
        let line = Line { spans };
        out.push(line);
        assert(lines_view(out@) =~= prev.push(lines_view(seq![line])[0]));
        assert(lines_view(seq![line])[0] =~= seq![("| "@, fg_spec(Color::DarkGray)), (av[k as int], fg_spec(Color::Gray))]);
        assert(av.take(k + 1).map(|q: int, t: Seq<char>| seq![("| "@, fg_spec(Color::DarkGray)), (t, fg_spec(Color::Gray))]) =~= av.take(k as int).map(|q: int, t: Seq<char>| seq![("| "@, fg_spec(Color::DarkGray)), (t, fg_spec(Color::Gray))]).push(seq![("| "@, fg_spec(Color::DarkGray)), (av[k as int], fg_spec(Color::Gray))]));
        k = k + 1;
    }
    if all.len() > budget {
        let hidden = all.len() - budget;
        let mut text = String::new();
        if expanded {
            append_str(&mut text, "... ");
            append_str(&mut text, decimal(hidden).as_str());
            append_str(&mut text, " more lines");
        } else {
            push_char(&mut text, '+');
            append_str(&mut text, decimal(hidden).as_str());
            append_str(&mut text, " more lines - click to expand");
        }
        let ghost prev = lines_view(out@);
        let h = hint(text);
        out.push(h);
        assert(lines_view(out@) =~= prev.push(lines_view(seq![h])[0]));
        proof {
            reveal_strlit("+");
            assert(seq!['+'] =~= "+"@);
        }
    } else {
        assert(lines_view(out@) =~= lines_view(out@) + Seq::<Seq<(Seq<char>, Style)>>::empty());
    }
    out
}

/// Everything a non-file tool call shows (see `render_spec`), with text
/// wrapped to `width` columns less the marker column, and an expanded
/// result capped at `max_result_lines` lines.
pub fn render(name: &str, args: &str, result: Option<&str>, expanded: bool, width: usize, max_result_lines: usize) -> (r: Vec<Line>)
    ensures
        lines_view(r@) == render_spec(
            name@,
            args@,
            match result { Some(x) => Some(x@), None => None },
            expanded,
            width as int,
            max_result_lines as int,
        ),
{
    let view = arg_view(name, args);
    let ghost lines = text_lines_spec(arg_view_spec(name@, args@).1);
    let ghost marker = arg_view_spec(name@, args@).0;
    let n = view.lines.len();
    let shown: usize = if expanded || n <= COLLAPSED_ARG_LINES { n } else { COLLAPSED_ARG_LINES };
    let w: usize = if width >= 2 { width - 2 } else { 0 };
    let mut out: Vec<Line> = Vec::new();
    let mut i: usize = 0;
    while i < shown
        invariant
            i <= shown <= n,
            n == view.lines@.len(),
            n == lines.len(),
            view.marker@ == marker,
            forall|k: int| 0 <= k < n ==> (#[trigger] view.lines@[k])@ == lines[k],
            lines_view(out@) == arg_rows(lines.take(i as int), marker, w as int),
        decreases shown - i,
    {
        assert(lines.take(i + 1).drop_last() =~= lines.take(i as int));
        let parts = wrap_text(view.lines[i].as_str(), w);
        let ghost before = lines_view(out@);
        let ghost line_marker = if i == 0 { marker } else { " "@ };
        let mut j: usize = 0;
        while j < parts.len()
            invariant
                j <= parts.len(),
                parts@.len() == wrap_spec(lines[i as int], w as int).len(),
                forall|k: int| 0 <= k < parts@.len() ==> (#[trigger] parts@[k])@ == wrap_spec(lines[i as int], w as int)[k],
                view.marker@ == marker,
                line_marker == if i == 0 { marker } else { " "@ },
                lines_view(out@) == before + line_rows(lines[i as int], line_marker, w as int).take(j as int),
            decreases parts.len() - j,
        {
            let mut prefix = if j == 0 && i == 0 { view.marker.clone() } else { " ".to_owned() };
            proof {
                reveal_strlit(" ");
            }
            let ghost pv = prefix@;
            push_char(&mut prefix, ' ');
            let mut spans: Vec<Span> = Vec::new();
            spans.push(Span { content: prefix, style: fg(Color::Magenta) });
            spans.push(Span { content: parts[j].clone(), style: fg(Color::White) });
            let line = Line { spans };
            let ghost prev = lines_view(out@);
            out.push(line);
            assert(lines_view(out@) =~= prev.push(lines_view(seq![line])[0]));
            assert(lines_view(seq![line])[0] =~= arg_row(if j == 0 { line_marker } else { " "@ }, parts@[j as int]@));
            assert(line_rows(lines[i as int], line_marker, w as int).take(j + 1) =~= line_rows(lines[i as int], line_marker, w as int).take(j as int).push(arg_row(if j == 0 { line_marker } else { " "@ }, parts@[j as int]@)));
            j = j + 1;
        }
        assert(line_rows(lines[i as int], line_marker, w as int).take(parts.len() as int) =~= line_rows(lines[i as int], line_marker, w as int));
        assert(lines.take(i + 1).len() == i + 1);
        i = i + 1;
    }
    if shown < n {
        let mut text = String::new();
        push_char(&mut text, '+');
        append_str(&mut text, decimal(n - shown).as_str());
        append_str(&mut text, " more lines - click to expand");
        let ghost prev = lines_view(out@);
        let h = hint(text);
        out.push(h);
        assert(lines_view(out@) =~= prev.push(lines_view(seq![h])[0]));
        proof {
            reveal_strlit("+");
            assert(seq!['+'] =~= "+"@);
        }
    }
    let ghost head = lines_view(out@);
    match result {
        Some(res) => {
            let rest = result_lines(res, expanded, width, max_result_lines);
            let mut rest = rest;
            let ghost rv = lines_view(rest@);
            let mut rev: Vec<Line> = Vec::new();
            while rest.len() > 0
                invariant
                    rev@.len() + rest@.len() == rv.len(),
                    lines_view(rest@) == rv.take(rest@.len() as int),
                    forall|k: int| 0 <= k < rev@.len() ==> lines_view(rev@)[k] == rv[rv.len() - 1 - k],
                decreases rest.len(),
            {
                let ghost before = rest@;
                let l = rest.pop().unwrap();
                let ghost prevrev = rev@;
                rev.push(l);
                assert(lines_view(rest@) =~= rv.take(rest@.len() as int)) by {
                    assert(before =~= rest@.push(l));
                }
                assert(lines_view(rev@) =~= lines_view(prevrev).push(lines_view(seq![l])[0]));
                assert(lines_view(before)[rest@.len() as int] == lines_view(seq![l])[0]);
                assert(rv[rest@.len() as int] == lines_view(before)[rest@.len() as int]);
                assert forall|k: int| 0 <= k < rev@.len() implies lines_view(rev@)[k] == rv[rv.len() - 1 - k] by {
                    if k < prevrev.len() {
                        assert(lines_view(rev@)[k] == lines_view(prevrev)[k]);
                    }
                }
            }
            while rev.len() > 0
                invariant
                    forall|k: int| 0 <= k < rev@.len() ==> lines_view(rev@)[k] == rv[rv.len() - 1 - k],
                    rev@.len() + (out@.len() - head.len()) == rv.len(),
                    out@.len() >= head.len(),
                    lines_view(out@) == head + rv.take(out@.len() - head.len()),
                decreases rev.len(),
            {
                let ghost prevrev = rev@;
                let l = rev.pop().unwrap();
                assert(lines_view(seq![l])[0] == lines_view(prevrev)[prevrev.len() - 1]);
                assert forall|k: int| 0 <= k < rev@.len() implies lines_view(rev@)[k] == rv[rv.len() - 1 - k] by {
                    assert(lines_view(rev@)[k] == lines_view(prevrev)[k]);
                }
                let ghost prev = lines_view(out@);
                out.push(l);
                assert(lines_view(out@) =~= prev.push(lines_view(seq![l])[0]));
                assert(rv.take(out@.len() - head.len()) =~= rv.take(out@.len() - 1 - head.len()).push(rv[out@.len() - 1 - head.len()]));
            }
            assert(rv.take(rv.len() as int) =~= rv);
        },
        None => {
            if !expanded {
                let ghost prev = lines_view(out@);
                let h = hint("click to expand".to_owned());
                out.push(h);
                assert(lines_view(out@) =~= prev.push(lines_view(seq![h])[0]));
            } else {
                assert(head + Seq::<Seq<(Seq<char>, Style)>>::empty() =~= head);
            }
        },
    }
    assert(lines.take(shown as int) =~= lines.take(shown as int));
    out
}

} // verus!
