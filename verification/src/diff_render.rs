//! The expanded view of a file-touching tool call: a diff or a file
//! preview, highlighted by the file's extension, capped in length.

use vstd::prelude::*;
use crate::markdown::{Color, Line, Span, Style, lines_view, spans_view};
use crate::text::{append_str, chars_of, push_char, string_of};
use crate::tool_view::{ChangeKind, DiffOp, ToolView, decimal, decimal_spec, diff_ops, line_diff};

verus! {

/// A highlighted run: its text, its colour's red, green and blue, and
/// `syntect`'s font style bits (1 bold, 2 underline, 4 italic).
pub type Run = (String, u8, u8, u8, u8);

/// Highlighted runs, as values.
pub open spec fn runs_view(lines: Seq<Option<Vec<Run>>>) -> Seq<Option<Seq<(Seq<char>, u8, u8, u8, u8)>>> {
    lines.map_values(
        |l: Option<Vec<Run>>| match l {
            Some(runs) => Some(runs@.map_values(|r: Run| (r.0@, r.1, r.2, r.3, r.4))),
            None => None,
        },
    )
}

/// What `syntect` makes of `text`, line by line (each with its ending),
/// for the syntax of the file extension `extension`: the highlighted runs,
/// or nothing where the grammar failed.
pub uninterp spec fn highlighted(text: Seq<char>, extension: Seq<char>) -> Seq<Option<Seq<(Seq<char>, u8, u8, u8, u8)>>>;

/// Highlights `text` with `syntect`: the default syntaxes (for newline
/// terminated lines), the `base16-eighties.dark` theme (or the first
/// theme there is), the syntax of `extension` (plain text when there is
/// none), one `highlight_line` per line of `LinesWithEndings`. The
/// contract names the result.
#[verifier::external_body]
fn highlight_runs(text: &str, extension: &str) -> (r: Vec<Option<Vec<Run>>>)
    ensures
        runs_view(r@) == highlighted(text@, extension@),
{
    let syntaxes = syntect::parsing::SyntaxSet::load_defaults_newlines();
    let themes = syntect::highlighting::ThemeSet::load_defaults();
    let theme = themes.themes.get("base16-eighties.dark").or_else(|| themes.themes.values().next()).cloned().unwrap_or_default();
    let syntax = syntaxes.find_syntax_by_extension(extension).unwrap_or_else(|| syntaxes.find_syntax_plain_text());
    let mut state = syntect::easy::HighlightLines::new(syntax, &theme);
    syntect::util::LinesWithEndings::from(text)
        .map(|line| state.highlight_line(line, &syntaxes).ok().map(|ranges| {
            ranges.into_iter().map(|(s, piece)| (piece.to_string(), s.foreground.r, s.foreground.g, s.foreground.b, s.font_style.bits())).collect()
        }))
        .collect()
}

/// The extension of `path`: what follows its last dot, or all of it when
/// it has none.
pub open spec fn extension_spec(path: Seq<char>) -> Seq<char>
    decreases path.len(),
{
    if path.len() == 0 {
        seq![]
    } else if path.last() == '.' {
        seq![]
    } else {
        extension_spec(path.drop_last()).push(path.last())
    }
}

/// The extension of `path` (see `extension_spec`).
pub fn extension_of(path: &str) -> (r: String)
    ensures
        r@ == extension_spec(path@),
{
    let cs = chars_of(path);
    let mut start = cs.len();
    assert(cs@.take(cs.len() as int) =~= cs@);
    assert(cs@.subrange(cs.len() as int, cs.len() as int) =~= Seq::<char>::empty());
    while start > 0 && cs[start - 1] != '.'
        invariant
            start <= cs.len(),
            extension_spec(cs@) == extension_spec(cs@.take(start as int)) + cs@.subrange(start as int, cs@.len() as int),
        decreases start,
    {
        assert(cs@.take(start as int).drop_last() =~= cs@.take(start - 1));
        assert(cs@.subrange(start - 1, cs@.len() as int) =~= seq![cs@[start - 1]] + cs@.subrange(start as int, cs@.len() as int));
        start = start - 1;
    }
    proof {
        if start == 0 {
            assert(cs@.take(0) =~= Seq::<char>::empty());
        }
    }
    assert(cs@.take(cs.len() as int) =~= cs@);
    assert(extension_spec(cs@.take(start as int)) =~= Seq::<char>::empty());
    string_of(&cs, start, cs.len())
}

/// `s` without the line feeds and carriage returns at its end.
pub open spec fn strip_ending(s: Seq<char>) -> Seq<char>
    decreases s.len(),
{
    if s.len() > 0 && (s.last() == '\n' || s.last() == '\r') { strip_ending(s.drop_last()) } else { s }
}

fn strip(s: &str) -> (r: String)
    ensures
        r@ == strip_ending(s@),
{
    let cs = chars_of(s);
    let mut n = cs.len();
    assert(cs@.take(cs.len() as int) =~= cs@);
    while n > 0 && (cs[n - 1] == '\n' || cs[n - 1] == '\r')
        invariant
            n <= cs.len(),
            strip_ending(cs@) == strip_ending(cs@.take(n as int)),
        decreases n,
    {
        assert(cs@.take(n as int).drop_last() =~= cs@.take(n - 1));
        n = n - 1;
    }
    assert(cs@.subrange(0, n as int) =~= cs@.take(n as int));
    string_of(&cs, 0, n)
}

/// The lines of `text`, each with its line feed: every line feed ends one,
/// and what follows the last one is a line when it is not empty.
pub open spec fn lines_with_endings(text: Seq<char>) -> Seq<Seq<char>>
    decreases text.len(),
{
    if text.len() == 0 {
        seq![]
    } else {
        let before = lines_with_endings(text.drop_last());
        if before.len() > 0 && before.last().last() != '\n' {
            before.update(before.len() - 1, before.last().push(text.last()))
        } else {
            before.push(seq![text.last()])
        }
    }
}

fn split_with_endings(text: &str) -> (r: Vec<String>)
    ensures
        r@.map_values(|s: String| s@) == lines_with_endings(text@),
{
    let cs = chars_of(text);
    let mut out: Vec<String> = Vec::new();
    let mut current = String::new();
    let mut i: usize = 0;
    while i < cs.len()
        invariant
            i <= cs.len(),
            cs@ == text@,
            ({
                let l = lines_with_endings(cs@.take(i as int));
                if current@.len() > 0 {
                    l.len() > 0 && l.last() == current@ && l.last().last() != '\n' && out@.map_values(|s: String| s@) == l.drop_last()
                } else {
                    out@.map_values(|s: String| s@) == l && (l.len() > 0 ==> l.last().last() == '\n')
                }
            }),
        decreases cs.len() - i,
    {
        assert(cs@.take(i + 1).drop_last() =~= cs@.take(i as int));
        let c = cs[i];
        let ghost l = lines_with_endings(cs@.take(i as int));
        let ghost before = out@.map_values(|s: String| s@);
        let ghost cur_before = current@;
        push_char(&mut current, c);
        if c == '\n' {
            let line = current;
            current = String::new();
            out.push(line);
            proof {
                let l2 = lines_with_endings(cs@.take(i + 1));
                assert(cs@.take(i + 1).last() == c);
                assert(out@.map_values(|s: String| s@) =~= before.push(line@));
                if cur_before.len() > 0 {
                    assert(l2 == l.update(l.len() - 1, l.last().push(c)));
                    assert(l =~= before.push(cur_before));
                    assert(l2 =~= before.push(cur_before.push(c)));
                } else {
                    assert(l2 == l.push(seq![c]));
                    assert(line@ =~= seq![c]);
                }
                assert(l2 =~= out@.map_values(|s: String| s@));
            }
        } else {
            proof {
                let l2 = lines_with_endings(cs@.take(i + 1));
                assert(l2.drop_last() =~= before);
            }
        }
        i = i + 1;
    }
    assert(cs@.take(cs.len() as int) =~= cs@);
    if chars_of(current.as_str()).len() > 0 {
        let ghost before = out@.map_values(|s: String| s@);
        let ghost l = lines_with_endings(text@);
        assert(l =~= l.drop_last().push(l.last()));
        out.push(current);
        assert(out@.map_values(|s: String| s@) =~= lines_with_endings(text@));
    }
    out
}


/// The style of a highlighted run: its colour, bold and italic as its
/// font bits say.
pub open spec fn run_style(r: u8, g: u8, b: u8, bits: u8) -> Style {
    Style { fg: Some(Color::Rgb(r, g, b)), bold: bits & 1u8 != 0, italic: bits & 4u8 != 0, ..Style::plain_spec() }
}

/// The spans of highlighted runs: each run without its line ending, the
/// empty ones left out.
pub open spec fn runs_spans(runs: Seq<(Seq<char>, u8, u8, u8, u8)>) -> Seq<(Seq<char>, Style)>
    decreases runs.len(),
{
    if runs.len() == 0 {
        seq![]
    } else {
        let r = runs.last();
        let t = strip_ending(r.0);
        runs_spans(runs.drop_last()) + if t.len() > 0 { seq![(t, run_style(r.1, r.2, r.3, r.4))] } else { seq![] }
    }
}

/// The highlighted lines of `text` for the file `path`: the spans of each
/// line, or the line as plain text where highlighting failed.
pub open spec fn highlight_spec(text: Seq<char>, path: Seq<char>) -> Seq<Seq<(Seq<char>, Style)>> {
    let hl = highlighted(text, extension_spec(path));
    let lines = lines_with_endings(text);
    Seq::new(
        hl.len(),
        |i: int| match hl[i] {
            Some(runs) => runs_spans(runs),
            None => seq![(strip_ending(if i < lines.len() { lines[i] } else { seq![] }), Style::plain_spec())],
        },
    )
}

/// The highlighted lines of `text` for the file `path` (see
/// `highlight_spec`).
pub fn highlight(text: &str, path: &str) -> (r: Vec<Vec<Span>>)
    ensures
        r@.len() == highlight_spec(text@, path@).len(),
        forall|i: int| 0 <= i < r@.len() ==> spans_view((#[trigger] r@[i])@) == highlight_spec(text@, path@)[i],
{
    let extension = extension_of(path);
    let runs = highlight_runs(text, extension.as_str());
    let lines = split_with_endings(text);
    let ghost spec = highlight_spec(text@, path@);
    let ghost rv = runs_view(runs@);
    let mut out: Vec<Vec<Span>> = Vec::new();
    let mut i: usize = 0;
    while i < runs.len()
        invariant
            i <= runs.len(),
            rv == runs_view(runs@),
            rv == highlighted(text@, extension_spec(path@)),
            lines@.map_values(|s: String| s@) == lines_with_endings(text@),
            spec == highlight_spec(text@, path@),
            out@.len() == i,
            forall|k: int| 0 <= k < i ==> spans_view((#[trigger] out@[k])@) == spec[k],
        decreases runs.len() - i,
    {
        let mut spans: Vec<Span> = Vec::new();
        match &runs[i] {
            Some(line_runs) => {
                let ghost lr = line_runs@.map_values(|r: Run| (r.0@, r.1, r.2, r.3, r.4));
                let mut j: usize = 0;
                while j < line_runs.len()
                    invariant
                        j <= line_runs.len(),
                        lr == line_runs@.map_values(|r: Run| (r.0@, r.1, r.2, r.3, r.4)),
                        spans_view(spans@) == runs_spans(lr.take(j as int)),
                    decreases line_runs.len() - j,
                {
                    assert(lr.take(j + 1).drop_last() =~= lr.take(j as int));
                    let (ref t, r, g, b, bits) = line_runs[j];
                    let piece = strip(t.as_str());
                    if chars_of(piece.as_str()).len() > 0 {
                        let style = Style {
                            fg: Some(Color::Rgb(r, g, b)),
                            bg: None,
                            bold: bits & 1u8 != 0,
                            dim: false,
                            italic: bits & 4u8 != 0,
                            underlined: false,
                            crossed_out: false,
                        };
                        let ghost prev = spans@;
                        let span = Span { content: piece, style };
                        spans.push(span);
                        assert(spans_view(spans@) =~= spans_view(prev).push((span.content@, span.style)));
                    } else {
                        assert(spans_view(spans@) =~= spans_view(spans@) + Seq::<(Seq<char>, Style)>::empty());
                    }
                    j = j + 1;
                }
                assert(lr.take(line_runs.len() as int) =~= lr);
            },
            None => {
                let line: &str = if i < lines.len() { lines[i].as_str() } else { "" };
                proof {
                    if i < lines@.len() {
                        assert(lines@.map_values(|s: String| s@)[i as int] == lines@[i as int]@);
                    } else {
                        reveal_strlit("");
                        assert(""@ =~= Seq::<char>::empty());
                    }
                }
                let span = Span { content: strip(line), style: Style::plain() };
                spans.push(span);
                assert(spans_view(spans@) =~= seq![(span.content@, span.style)]);
            },
        }
        out.push(spans);
        i = i + 1;
    }
    out
}

/// A row of a diff or preview: the marker column, then the content with
/// the row's background under it, the content keeping its colours.
pub open spec fn gutter_spec(marker: Seq<char>, background: Option<Color>, content: Seq<(Seq<char>, Style)>) -> Seq<(Seq<char>, Style)> {
    seq![(marker.push(' '), Style { fg: Some(Color::DarkGray), bg: background, ..Style::plain_spec() })] + content.map_values(
        |s: (Seq<char>, Style)| (s.0, match background {
            Some(bg) => Style { bg: Some(bg), ..s.1 },
            None => s.1,
        }),
    )
}

/// A row of a diff or preview (see `gutter_spec`).
pub fn gutter_line(marker: &str, background: Option<Color>, content: &Vec<Span>) -> (r: Line)
    ensures
        spans_view(r.spans@) == gutter_spec(marker@, background, spans_view(content@)),
{
    let mut head = marker.to_owned();
    push_char(&mut head, ' ');
    let mut spans: Vec<Span> = Vec::new();
    spans.push(Span { content: head, style: Style { fg: Some(Color::DarkGray), bg: background, ..Style::plain() } });
    let ghost cv = spans_view(content@);
    let mut i: usize = 0;
    while i < content.len()
        invariant
            i <= content.len(),
            cv == spans_view(content@),
            spans_view(spans@) == gutter_spec(marker@, background, cv.take(i as int)),
        decreases content.len() - i,
    {
        let span = &content[i];
        let style = match background {
            Some(bg) => Style { bg: Some(bg), ..span.style },
            None => span.style,
        };
        let ghost prev = spans@;
        let s = Span { content: span.content.clone(), style };
        spans.push(s);
        assert(spans_view(spans@) =~= spans_view(prev).push((s.content@, s.style)));
        assert(cv.take(i + 1) =~= cv.take(i as int).push(cv[i as int]));
        assert(gutter_spec(marker@, background, cv.take(i + 1)) =~= gutter_spec(marker@, background, cv.take(i as int)).push((s.content@, s.style)));
        i = i + 1;
    }
    assert(cv.take(content.len() as int) =~= cv);
    Line { spans }
}

/// The background of added rows.
pub open spec fn added_bg() -> Color {
    Color::Rgb(20, 48, 28)
}

/// The background of removed rows.
pub open spec fn removed_bg() -> Color {
    Color::Rgb(58, 24, 26)
}

/// The highlighted content of line `index` of `source`, or nothing.
pub open spec fn source_line(source: Seq<Seq<(Seq<char>, Style)>>, index: Option<usize>) -> Seq<(Seq<char>, Style)> {
    match index {
        Some(i) => if i < source.len() { source[i as int] } else { seq![] },
        None => seq![],
    }
}

/// The rows of a diff: one per change, `-` on the removed background for a
/// deleted line and `+` on the added background for an inserted one, a
/// blank marker for a kept one; the content highlighted with the whole of
/// its side, deleted and kept lines from the old side.
pub open spec fn diff_rows(path: Seq<char>, old: Seq<char>, new: Seq<char>) -> Seq<Seq<(Seq<char>, Style)>> {
    let ops = diff_ops(old, new);
    let old_lines = highlight_spec(old, path);
    let new_lines = highlight_spec(new, path);
    ops.map(
        |i: int, op: DiffOp| match op.0 {
            ChangeKind::Delete => gutter_spec("-"@, Some(removed_bg()), source_line(old_lines, op.1)),
            ChangeKind::Insert => gutter_spec("+"@, Some(added_bg()), source_line(new_lines, op.2)),
            ChangeKind::Equal => gutter_spec(" "@, None, source_line(old_lines, op.1)),
        },
    )
}

fn copy_spans(source: &Vec<Vec<Span>>, index: Option<usize>) -> (r: Vec<Span>)
    ensures
        spans_view(r@) == source_line(source@.map_values(|l: Vec<Span>| spans_view(l@)), index),
{
    let mut out: Vec<Span> = Vec::new();
    match index {
        Some(i) => if i < source.len() {
            let line = &source[i];
            let mut j: usize = 0;
            while j < line.len()
                invariant
                    j <= line.len(),
                    spans_view(out@) == spans_view(line@.take(j as int)),
                decreases line.len() - j,
            {
                let ghost prev = out@;
                let x = line[j].clone();
                out.push(x);
                assert(line@.take(j + 1) =~= line@.take(j as int).push(line@[j as int]));
                assert(spans_view(out@) =~= spans_view(prev).push((x.content@, x.style)));
                j = j + 1;
            }
            assert(line@.take(line.len() as int) =~= line@);
        } else {
            assert(spans_view(out@) =~= Seq::<(Seq<char>, Style)>::empty());
        },
        None => {
            assert(spans_view(out@) =~= Seq::<(Seq<char>, Style)>::empty());
        },
    }
    out
}

/// The rows of the diff of `old` and `new` for the file `path` (see
/// `diff_rows`).
pub fn diff_lines(path: &str, old: &str, new: &str) -> (r: Vec<Line>)
    ensures
        lines_view(r@) == diff_rows(path@, old@, new@),
{
    let ops = line_diff(old, new);
    let old_lines = highlight(old, path);
    let new_lines = highlight(new, path);
    let ghost ov = old_lines@.map_values(|l: Vec<Span>| spans_view(l@));
    let ghost nv = new_lines@.map_values(|l: Vec<Span>| spans_view(l@));
    assert(ov =~= highlight_spec(old@, path@));
    assert(nv =~= highlight_spec(new@, path@));
    let mut out: Vec<Line> = Vec::new();
    let mut i: usize = 0;
    while i < ops.len()
        invariant
            i <= ops.len(),
            ops@ == diff_ops(old@, new@),
            ov == old_lines@.map_values(|l: Vec<Span>| spans_view(l@)),
            nv == new_lines@.map_values(|l: Vec<Span>| spans_view(l@)),
            ov == highlight_spec(old@, path@),
            nv == highlight_spec(new@, path@),
            lines_view(out@) == diff_rows(path@, old@, new@).take(i as int),
        decreases ops.len() - i,
    {
        let (kind, old_index, new_index) = ops[i];
        let line = match kind {
            ChangeKind::Delete => gutter_line("-", Some(Color::Rgb(58, 24, 26)), &copy_spans(&old_lines, old_index)),
            ChangeKind::Insert => gutter_line("+", Some(Color::Rgb(20, 48, 28)), &copy_spans(&new_lines, new_index)),
            ChangeKind::Equal => gutter_line(" ", None, &copy_spans(&old_lines, old_index)),
        };
        let ghost prev = lines_view(out@);
        out.push(line);
        assert(lines_view(out@) =~= prev.push(spans_view(line.spans@)));
        assert(diff_rows(path@, old@, new@).take(i + 1) =~= diff_rows(path@, old@, new@).take(i as int).push(
            diff_rows(path@, old@, new@)[i as int],
        ));
        i = i + 1;
    }
    assert(diff_rows(path@, old@, new@).take(ops.len() as int) =~= diff_rows(path@, old@, new@));
    out
}

/// At most `max_lines` rows of `rows` and how many more there are; all of
/// them when `max_lines` is 0.
pub open spec fn truncate_spec(rows: Seq<Seq<(Seq<char>, Style)>>, max_lines: nat) -> Seq<Seq<(Seq<char>, Style)>> {
    if max_lines == 0 || rows.len() <= max_lines {
        rows
    } else {
        rows.take(max_lines as int).push(
            seq![(
                "  … "@ + decimal_spec((rows.len() - max_lines) as nat) + " more lines"@,
                Style { fg: Some(Color::DarkGray), ..Style::plain_spec() },
            )],
        )
    }
}

/// Caps `lines` (see `truncate_spec`).
pub fn truncate(lines: Vec<Line>, max_lines: usize) -> (r: Vec<Line>)
    ensures
        lines_view(r@) == truncate_spec(lines_view(lines@), max_lines as nat),
{
    if max_lines == 0 || lines.len() <= max_lines {
        return lines;
    }
    let hidden = lines.len() - max_lines;
    let mut lines = lines;
    let ghost before = lines_view(lines@);
    lines.truncate(max_lines);
    assert(lines_view(lines@) =~= before.take(max_lines as int));
    let mut text = "  … ".to_owned();
    append_str(&mut text, decimal(hidden).as_str());
    append_str(&mut text, " more lines");
    let mut spans: Vec<Span> = Vec::new();
    let s = Span { content: text, style: Style::plain().fg(Color::DarkGray) };
    spans.push(s);
    let line = Line { spans };
    assert(spans_view(line.spans@) =~= seq![(s.content@, s.style)]);
    let ghost prev = lines_view(lines@);
    lines.push(line);
    assert(lines_view(lines@) =~= prev.push(spans_view(line.spans@)));
    assert(s.content@ =~= "  … "@ + decimal_spec(hidden as nat) + " more lines"@);
    lines
}

/// The rows of an expanded file call: the diff of an edit, a written file
/// as added rows, a read file as plain rows once its result is there.
pub open spec fn body_rows(view: ToolView, result: Option<Seq<char>>) -> Seq<Seq<(Seq<char>, Style)>> {
    match view {
        ToolView::Diff { path, old, new } => diff_rows(path@, old@, new@),
        ToolView::Write { path, content } => highlight_spec(content@, path@).map_values(
            |l: Seq<(Seq<char>, Style)>| gutter_spec("+"@, Some(added_bg()), l),
        ),
        ToolView::Read { path } => match result {
            Some(c) => highlight_spec(c, path@).map_values(|l: Seq<(Seq<char>, Style)>| gutter_spec(" "@, None, l)),
            None => seq![],
        },
    }
}

fn gutter_all(lines: &Vec<Vec<Span>>, marker: &str, background: Option<Color>) -> (r: Vec<Line>)
    ensures
        lines_view(r@) == lines@.map_values(|l: Vec<Span>| spans_view(l@)).map_values(
            |l: Seq<(Seq<char>, Style)>| gutter_spec(marker@, background, l),
        ),
{
    let ghost lv = lines@.map_values(|l: Vec<Span>| spans_view(l@));
    let mut out: Vec<Line> = Vec::new();
    let mut i: usize = 0;
    while i < lines.len()
        invariant
            i <= lines.len(),
            lv == lines@.map_values(|l: Vec<Span>| spans_view(l@)),
            lines_view(out@) == lv.take(i as int).map_values(|l: Seq<(Seq<char>, Style)>| gutter_spec(marker@, background, l)),
        decreases lines.len() - i,
    {
        let line = gutter_line(marker, background, &lines[i]);
        let ghost prev = lines_view(out@);
        out.push(line);
        assert(lines_view(out@) =~= prev.push(spans_view(line.spans@)));
        assert(lv.take(i + 1) =~= lv.take(i as int).push(lv[i as int]));
        assert(lv.take(i + 1).map_values(|l: Seq<(Seq<char>, Style)>| gutter_spec(marker@, background, l)) =~= lv.take(i as int).map_values(
            |l: Seq<(Seq<char>, Style)>| gutter_spec(marker@, background, l),
        ).push(gutter_spec(marker@, background, lv[i as int])));
        i = i + 1;
    }
    assert(lv.take(lines.len() as int) =~= lv);
    out
}

/// The expanded rows of a file call (see `body_rows`), capped at
/// `max_lines` rows (see `truncate_spec`).
pub fn body(view: &ToolView, result: Option<&str>, max_lines: usize) -> (r: Vec<Line>)
    ensures
        lines_view(r@) == truncate_spec(body_rows(*view, match result { Some(c) => Some(c@), None => None }), max_lines as nat),
{
    let lines = match view {
        ToolView::Diff { path, old, new } => diff_lines(path.as_str(), old.as_str(), new.as_str()),
        ToolView::Write { path, content } => {
            let hl = highlight(content.as_str(), path.as_str());
            assert(hl@.map_values(|l: Vec<Span>| spans_view(l@)) =~= highlight_spec(content@, path@));
            gutter_all(&hl, "+", Some(Color::Rgb(20, 48, 28)))
        },
        ToolView::Read { path } => match result {
            Some(content) => {
                let hl = highlight(content, path.as_str());
                assert(hl@.map_values(|l: Vec<Span>| spans_view(l@)) =~= highlight_spec(content@, path@));
                gutter_all(&hl, " ", None)
            },
            None => {
                let none: Vec<Line> = Vec::new();
                assert(lines_view(none@) =~= Seq::<Seq<(Seq<char>, Style)>>::empty());
                none
            },
        },
    };
    truncate(lines, max_lines)
}

} // verus!
