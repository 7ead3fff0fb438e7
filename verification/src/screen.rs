//! The rows of the client's screens other than the transcript: the session
//! list, the chat header, the input line and the command popup.

use vstd::prelude::*;
use crate::chat::App;
use crate::completion::{Match, MatchView, matches_view};
use crate::layout::{str_columns, str_width};
use crate::markdown::{Color, Line, Span, Style, lines_view};
use crate::text::{chars_of, string_of};
use crate::tool_render::fg_spec;
use crate::traces::{uuid_string, uuid_text};
use crate::transcript::Row;
use crate::tui::Status;

verus! {

/// The first eight characters of a session id as a uuid.
pub open spec fn short_id_spec(id: u128) -> Seq<char> {
    uuid_text(id).take(8)
}

/// The session's id as its uuid's first eight characters.
pub fn short_id(id: u128) -> (r: String)
    ensures
        r@ == short_id_spec(id),
{
    let cs = chars_of(uuid_string(id).as_str());
    string_of(&cs, 0, 8)
}

/// A session's row in the list: its short id in cyan, then its model.
pub open spec fn session_row(id: u128, model: Seq<char>) -> Row {
    seq![(short_id_spec(id), fg_spec(Color::Cyan)), ("  "@, Style::plain_spec()), (model, fg_spec(Color::White))]
}

/// The rows of the session list, one per session, in order.
pub fn session_rows(app: &App) -> (r: Vec<Line>)
    ensures
        lines_view(r@).len() == app.sessions@.len(),
        forall|i: int| 0 <= i < app.sessions@.len() ==> #[trigger] lines_view(r@)[i] == session_row(
            app.sessions@[i].session_id,
            app.sessions@[i].model@,
        ),
{
    let mut out: Vec<Line> = Vec::new();
    let mut i: usize = 0;
    while i < app.sessions.len()
        invariant
            i <= app.sessions.len(),
            lines_view(out@).len() == i,
            forall|k: int| 0 <= k < i ==> #[trigger] lines_view(out@)[k] == session_row(
                app.sessions@[k].session_id,
                app.sessions@[k].model@,
            ),
        decreases app.sessions.len() - i,
    {
        let s = &app.sessions[i];
        let mut spans: Vec<Span> = Vec::new();
        spans.push(Span { content: short_id(s.session_id), style: Style::plain().fg(Color::Cyan) });
        spans.push(Span { content: "  ".to_owned(), style: Style::plain() });
        spans.push(Span { content: s.model.clone(), style: Style::plain().fg(Color::White) });
        let line = Line { spans };
        assert(lines_view(seq![line])[0] =~= session_row(s.session_id, s.model@));
        let ghost before = out@;
        out.push(line);
        assert(out@ =~= before.push(line));
        assert(lines_view(out@) =~= lines_view(before).push(lines_view(seq![line])[0]));
        i = i + 1;
    }
    out
}

/// The status word and its colour.
pub open spec fn status_label(s: Status) -> (Seq<char>, Style) {
    match s {
        Status::Idle => ("idle"@, fg_spec(Color::Green)),
        Status::Running => ("running"@, fg_spec(Color::Yellow)),
        Status::Connecting => ("connecting"@, fg_spec(Color::Blue)),
    }
}

/// The chat header: the name, the session's short id (dashes when none is
/// open), the status, the token count and the key hints.
pub open spec fn header_row(session_id: Option<u128>, status: Status, tokens: Seq<char>) -> Row {
    let plain = Style::plain_spec();
    seq![
        ("auger"@, Style { bold: true, ..plain }),
        ("  "@, plain),
        (match session_id { Some(id) => short_id_spec(id), None => "--------"@ }, fg_spec(Color::DarkGray)),
        ("  "@, plain),
        status_label(status),
        ("  "@, plain),
        (tokens, fg_spec(Color::Magenta)),
        ("  "@, plain),
        ("[Esc] sessions  [Ctrl+C] quit"@, fg_spec(Color::DarkGray)),
    ]
}

fn span(text: &str, style: Style) -> (r: Span)
    ensures
        r.content@ == text@,
        r.style == style,
{
    Span { content: text.to_owned(), style }
}

/// The chat header (see `header_row`); `tokens` is the token count as shown.
pub fn header_line(app: &App, tokens: &str) -> (r: Line)
    ensures
        lines_view(seq![r])[0] == header_row(app.session_id, app.status, tokens@),
{
    let plain = Style::plain();
    let id = match app.session_id {
        Some(id) => short_id(id),
        None => "--------".to_owned(),
    };
    let (word, word_style) = match app.status {
        Status::Idle => ("idle", Style::plain().fg(Color::Green)),
        Status::Running => ("running", Style::plain().fg(Color::Yellow)),
        Status::Connecting => ("connecting", Style::plain().fg(Color::Blue)),
    };
    let mut spans: Vec<Span> = Vec::new();
    spans.push(span("auger", plain.bold()));
    spans.push(span("  ", plain));
    spans.push(Span { content: id, style: Style::plain().fg(Color::DarkGray) });
    spans.push(span("  ", plain));
    spans.push(span(word, word_style));
    spans.push(span("  ", plain));
    spans.push(span(tokens, Style::plain().fg(Color::Magenta)));
    spans.push(span("  ", plain));
    spans.push(span("[Esc] sessions  [Ctrl+C] quit", Style::plain().fg(Color::DarkGray)));
    let r = Line { spans };
    assert(lines_view(seq![r])[0] =~= header_row(app.session_id, app.status, tokens@));
    r
}

/// What the input box shows and its style: the typed text, or a hint of
/// what to do (approve a call, wait, or type) when nothing is typed; the
/// box is yellow while a call waits and grey while the agent works.
pub open spec fn input_view(pending: bool, status: Status, input: Seq<char>) -> (Row, Style) {
    let hint = if pending {
        "press [y] approve / [n] deny"@
    } else if status != Status::Idle {
        "agent is busy..."@
    } else {
        "Message... (Enter to send, /help for commands)"@
    };
    let style = if pending {
        fg_spec(Color::Yellow)
    } else if status != Status::Idle {
        fg_spec(Color::DarkGray)
    } else {
        Style::plain_spec()
    };
    (if input.len() == 0 { seq![(hint, fg_spec(Color::DarkGray))] } else { seq![(input, Style::plain_spec())] }, style)
}

/// The input box's line and style (see `input_view`).
pub fn input_line(app: &App) -> (r: (Line, Style))
    ensures
        (lines_view(seq![r.0])[0], r.1) == input_view(app.pending_tool_id is Some, app.status, app.input@),
{
    let pending = app.pending_tool_id.is_some();
    let idle = app.status == Status::Idle;
    let style = if pending {
        Style::plain().fg(Color::Yellow)
    } else if !idle {
        Style::plain().fg(Color::DarkGray)
    } else {
        Style::plain()
    };
    let typed = chars_of(app.input.as_str());
    let shown = if typed.len() == 0 {
        let hint = if pending {
            "press [y] approve / [n] deny"
        } else if !idle {
            "agent is busy..."
        } else {
            "Message... (Enter to send, /help for commands)"
        };
        span(hint, Style::plain().fg(Color::DarkGray))
    } else {
        Span { content: app.input.clone(), style: Style::plain() }
    };
    let mut spans: Vec<Span> = Vec::new();
    spans.push(shown);
    let line = Line { spans };
    assert(lines_view(seq![line])[0] =~= input_view(pending, app.status, app.input@).0);
    (line, style)
}

/// A row of the command popup: the name in cyan, bold when highlighted,
/// then the description.
pub open spec fn popup_row(m: MatchView, highlighted: bool) -> Row {
    seq![
        (m.0, Style { bold: highlighted, ..fg_spec(Color::Cyan) }),
        ("  "@, Style::plain_spec()),
        (m.1, fg_spec(Color::DarkGray)),
    ]
}

/// The rows of the command popup; `selected` is the highlighted row.
pub fn popup_rows(matches: &Vec<Match>, selected: usize) -> (r: Vec<Line>)
    ensures
        lines_view(r@).len() == matches@.len(),
        forall|i: int| 0 <= i < matches@.len() ==> #[trigger] lines_view(r@)[i] == popup_row(
            matches_view(matches@)[i],
            i == selected,
        ),
{
    let mut out: Vec<Line> = Vec::new();
    let mut i: usize = 0;
    while i < matches.len()
        invariant
            i <= matches.len(),
            lines_view(out@).len() == i,
            forall|k: int| 0 <= k < i ==> #[trigger] lines_view(out@)[k] == popup_row(
                matches_view(matches@)[k],
                k == selected,
            ),
        decreases matches.len() - i,
    {
        let m = &matches[i];
        let mut name_style = Style::plain().fg(Color::Cyan);
        name_style.bold = i == selected;
        let mut spans: Vec<Span> = Vec::new();
        spans.push(span(m.name, name_style));
        spans.push(span("  ", Style::plain()));
        spans.push(span(m.description, Style::plain().fg(Color::DarkGray)));
        let line = Line { spans };
        assert(lines_view(seq![line])[0] =~= popup_row(matches_view(matches@)[i as int], i == selected));
        let ghost before = out@;
        out.push(line);
        assert(out@ =~= before.push(line));
        assert(lines_view(out@) =~= lines_view(before).push(lines_view(seq![line])[0]));
        i = i + 1;
    }
    out
}

/// The columns the popup needs for `m`: name, description and five more.
pub open spec fn popup_cols(m: MatchView) -> int {
    str_columns(m.0) + str_columns(m.1) + 5
}

/// The most columns any row of the popup needs.
pub open spec fn max_cols(ms: Seq<MatchView>) -> int
    decreases ms.len(),
{
    if ms.len() == 0 {
        0
    } else {
        let rest = max_cols(ms.drop_last());
        let last = popup_cols(ms.last());
        if last > rest { last } else { rest }
    }
}

/// `a`, at most `b`.
pub open spec fn at_most(a: int, b: int) -> int {
    if a < b { a } else { b }
}

/// The popup's width: the widest row's columns, or 20 without rows, at
/// most `avail`.
pub fn popup_width(matches: &Vec<Match>, avail: usize) -> (r: usize)
    ensures
        r == if matches@.len() == 0 {
            at_most(20, avail as int)
        } else {
            at_most(max_cols(matches_view(matches@)), avail as int)
        },
{
    if matches.len() == 0 {
        return if avail < 20 { avail } else { 20 };
    }
    let ghost mv = matches_view(matches@);
    let mut best: usize = 0;
    let mut i: usize = 0;
    while i < matches.len()
        invariant
            i <= matches.len(),
            mv == matches_view(matches@),
            best == at_most(max_cols(mv.take(i as int)), avail as int),
        decreases matches.len() - i,
    {
        assert(mv.take(i + 1).drop_last() =~= mv.take(i as int));
        assert(mv.take(i + 1).last() == mv[i as int]);
        let a = str_width(matches[i].name);
        let b = str_width(matches[i].description);
        assert(popup_cols(mv[i as int]) == a + b + 5);
        let cols: usize = if a >= avail || b >= avail - a || 5 >= avail - a - b {
            avail
        } else {
            a + b + 5
        };
        if cols > best {
            best = cols;
        }
        i = i + 1;
    }
    assert(mv.take(matches.len() as int) =~= mv);
    best
}

} // verus!
