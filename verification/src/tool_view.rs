//! How the chat shows a tool call: file-touching calls as diffs or file
//! previews, other calls by their arguments.

use vstd::prelude::*;
use crate::json::{JsonValue, get_spec, json_parse, json_pretty, parse_json, pretty_text};
use crate::layout::{lines_of, lines_spec, text_lines, text_lines_spec};
use crate::text::{append_str, chars_of, eq_str, push_char};

verus! {

/// What a file-touching tool call shows.
#[derive(Debug)]
pub enum ToolView {
    /// `edit_file`: a before and after diff.
    Diff { path: String, old: String, new: String },
    /// `write_file`: the whole file, as additions.
    Write { path: String, content: String },
    /// `read_file`: the file as the tool read it.
    Read { path: String },
}

/// The string under `key` of the JSON value `v`.
pub open spec fn field_spec(v: JsonValue, key: Seq<char>) -> Option<Seq<char>> {
    match get_spec(v, key) {
        Some(JsonValue::Str(s)) => Some(s@),
        _ => None,
    }
}

/// What a tool call shows, by its name and arguments: nothing for tools
/// without a file, for arguments that are not (yet) JSON, or that lack a
/// string field the tool needs.
pub open spec fn tool_view_spec(name: Seq<char>, args: Seq<char>, r: Option<ToolView>) -> bool {
    match json_parse(args) {
        None => r is None,
        Some(v) => match field_spec(v, "path"@) {
            None => r is None,
            Some(path) => if name == "edit_file"@ {
                match (field_spec(v, "old_string"@), field_spec(v, "new_string"@)) {
                    (Some(o), Some(n)) => r matches Some(ToolView::Diff { path: p, old, new })
                        && p@ == path && old@ == o && new@ == n,
                    _ => r is None,
                }
            } else if name == "write_file"@ {
                match field_spec(v, "content"@) {
                    Some(c) => r matches Some(ToolView::Write { path: p, content }) && p@ == path && content@ == c,
                    None => r is None,
                }
            } else if name == "read_file"@ {
                r matches Some(ToolView::Read { path: p }) && p@ == path
            } else {
                r is None
            },
        },
    }
}

fn field(v: &JsonValue, key: &str) -> (r: Option<String>)
    ensures
        match r {
            Some(s) => field_spec(*v, key@) == Some(s@),
            None => field_spec(*v, key@) is None,
        },
{
    match v.get(key) {
        Some(x) => match x.as_str() {
            Some(s) => Some(s.to_owned()),
            None => None,
        },
        None => None,
    }
}

/// Classifies a tool call by what it shows.
pub fn tool_view(name: &str, args: &str) -> (r: Option<ToolView>)
    ensures
        tool_view_spec(name@, args@, r),
{
    let parsed = match parse_json(args) {
        Some(v) => v,
        None => {
            return None;
        },
    };
    let path = match field(&parsed, "path") {
        Some(p) => p,
        None => {
            return None;
        },
    };
    let n = chars_of(name);
    if eq_str(&n, "edit_file") {
        let old = match field(&parsed, "old_string") {
            Some(o) => o,
            None => {
                return None;
            },
        };
        let new = match field(&parsed, "new_string") {
            Some(x) => x,
            None => {
                return None;
            },
        };
        Some(ToolView::Diff { path, old, new })
    } else if eq_str(&n, "write_file") {
        match field(&parsed, "content") {
            Some(content) => Some(ToolView::Write { path, content }),
            None => None,
        }
    } else if eq_str(&n, "read_file") {
        Some(ToolView::Read { path })
    } else {
        None
    }
}

/// The kind of a change in a line diff.
#[derive(Debug, Clone, Copy, PartialEq, Eq, Structural)]
pub enum ChangeKind {
    Equal,
    Delete,
    Insert,
}

/// A change of a line diff: its kind, and the index of its line in the old
/// and in the new text, where it has one.
pub type DiffOp = (ChangeKind, Option<usize>, Option<usize>);

/// The changes, in order, of the line diff `similar` makes of `old` and
/// `new`.
pub uninterp spec fn diff_ops(old: Seq<char>, new: Seq<char>) -> Seq<DiffOp>;

/// The changes of the line diff of `old` and `new`, by
/// `similar::TextDiff::from_lines` and `iter_all_changes`: each change's
/// tag and its old and new line indices. The contract names the result.
#[verifier::external_body]
pub fn line_diff(old: &str, new: &str) -> (r: Vec<DiffOp>)
    ensures
        r@ == diff_ops(old@, new@),
{
    similar::TextDiff::from_lines(old, new).iter_all_changes().map(|change| {
        let kind = match change.tag() {
            similar::ChangeTag::Equal => ChangeKind::Equal,
            similar::ChangeTag::Delete => ChangeKind::Delete,
            similar::ChangeTag::Insert => ChangeKind::Insert,
        };
        (kind, change.old_index(), change.new_index())
    }).collect()
}

/// How many of `ops` are insertions and how many deletions.
pub open spec fn change_counts(ops: Seq<DiffOp>) -> (int, int)
    decreases ops.len(),
{
    if ops.len() == 0 {
        (0, 0)
    } else {
        let (a, d) = change_counts(ops.drop_last());
        match ops.last().0 {
            ChangeKind::Insert => (a + 1, d),
            ChangeKind::Delete => (a, d + 1),
            ChangeKind::Equal => (a, d),
        }
    }
}

proof fn lemma_counts_bounded(ops: Seq<DiffOp>)
    ensures
        0 <= change_counts(ops).0 <= ops.len(),
        0 <= change_counts(ops).1 <= ops.len(),
    decreases ops.len(),
{
    if ops.len() > 0 {
        lemma_counts_bounded(ops.drop_last());
    }
}

/// The lines a line diff of `old` and `new` inserts and deletes.
pub open spec fn line_changes(old: Seq<char>, new: Seq<char>) -> (int, int) {
    change_counts(diff_ops(old, new))
}

/// Counts the lines the line diff of `old` and `new` inserts and deletes.
fn counts(old: &str, new: &str) -> (r: (usize, usize))
    ensures
        r.0 == line_changes(old@, new@).0,
        r.1 == line_changes(old@, new@).1,
{
    let ops = line_diff(old, new);
    let mut added: usize = 0;
    let mut removed: usize = 0;
    let mut i: usize = 0;
    while i < ops.len()
        invariant
            i <= ops.len(),
            added == change_counts(ops@.take(i as int)).0,
            removed == change_counts(ops@.take(i as int)).1,
        decreases ops.len() - i,
    {
        assert(ops@.take(i + 1).drop_last() =~= ops@.take(i as int));
        proof {
            lemma_counts_bounded(ops@.take(i as int));
        }
        match ops[i].0 {
            ChangeKind::Insert => {
                added = added + 1;
            },
            ChangeKind::Delete => {
                removed = removed + 1;
            },
            ChangeKind::Equal => {},
        }
        i = i + 1;
    }
    assert(ops@.take(ops.len() as int) =~= ops@);
    (added, removed)
}

/// The decimal digits of `n`.
pub open spec fn decimal_spec(n: nat) -> Seq<char>
    decreases n,
{
    if n < 10 {
        seq![digit_char(n)]
    } else {
        decimal_spec(n / 10).push(digit_char(n % 10))
    }
}

/// The digit for `d`.
pub open spec fn digit_char(d: nat) -> char {
    if d == 0 { '0' } else if d == 1 { '1' } else if d == 2 { '2' } else if d == 3 { '3' } else if d == 4 {
        '4'
    } else if d == 5 { '5' } else if d == 6 { '6' } else if d == 7 { '7' } else if d == 8 { '8' } else { '9' }
}

fn digit(d: usize) -> (r: char)
    requires
        d < 10,
    ensures
        r == digit_char(d as nat),
{
    if d == 0 { '0' } else if d == 1 { '1' } else if d == 2 { '2' } else if d == 3 { '3' } else if d == 4 {
        '4'
    } else if d == 5 { '5' } else if d == 6 { '6' } else if d == 7 { '7' } else if d == 8 { '8' } else { '9' }
}

/// `n` in decimal.
pub fn decimal(n: usize) -> (r: String)
    ensures
        r@ == decimal_spec(n as nat),
    decreases n,
{
    if n < 10 {
        let mut s = String::new();
        push_char(&mut s, digit(n));
        assert(s@ =~= seq![digit_char(n as nat)]);
        s
    } else {
        let mut s = decimal(n / 10);
        push_char(&mut s, digit(n % 10));
        s
    }
}

/// `n` in decimal.
pub fn decimal_u64(n: u64) -> (r: String)
    ensures
        r@ == decimal_spec(n as nat),
    decreases n,
{
    if n < 10 {
        let mut s = String::new();
        push_char(&mut s, digit(n as usize));
        assert(s@ =~= seq![digit_char(n as nat)]);
        s
    } else {
        let mut s = decimal_u64(n / 10);
        push_char(&mut s, digit((n % 10) as usize));
        s
    }
}

/// `n` in decimal, with a minus sign when it is negative.
pub open spec fn signed_decimal(n: int) -> Seq<char> {
    if n < 0 { seq!['-'] + decimal_spec((-n) as nat) } else { decimal_spec(n as nat) }
}

/// `n` in decimal, with a minus sign when it is negative.
pub fn decimal_i64(n: i64) -> (r: String)
    ensures
        r@ == signed_decimal(n as int),
{
    if n < 0 {
        let magnitude: u64 = if n == i64::MIN { 9223372036854775808u64 } else { (-n) as u64 };
        let digits = decimal_u64(magnitude);
        let mut s = String::new();
        push_char(&mut s, '-');
        append_str(&mut s, digits.as_str());
        assert(s@ =~= seq!['-'] + decimal_spec((-n) as nat));
        s
    } else {
        decimal_u64(n as u64)
    }
}

/// The one-line summary of a collapsed file call: the path, with the
/// lines added and removed of a diff, or the lines of the file.
pub open spec fn summary_spec(view: ToolView, result: Option<Seq<char>>) -> Seq<char> {
    match view {
        ToolView::Diff { path, old, new } => {
            let (added, removed) = line_changes(old@, new@);
            path@ + " (+"@ + decimal_spec(added as nat) + " \u{2212}"@ + decimal_spec(removed as nat) + ")"@
        },
        ToolView::Write { path, content } => path@ + " ("@ + decimal_spec(lines_spec(content@).len()) + " lines)"@,
        ToolView::Read { path } => match result {
            Some(content) => path@ + " ("@ + decimal_spec(lines_spec(content).len()) + " lines)"@,
            None => path@,
        },
    }
}

/// The one-line summary of a collapsed file call.
pub fn summary(view: &ToolView, result: Option<&str>) -> (r: String)
    ensures
        r@ == summary_spec(*view, match result {
            Some(c) => Some(c@),
            None => None,
        }),
{
    match view {
        ToolView::Diff { path, old, new } => {
            let (added, removed) = counts(old.as_str(), new.as_str());
            let mut s = path.clone();
            append_str(&mut s, " (+");
            append_str(&mut s, decimal(added).as_str());
            append_str(&mut s, " \u{2212}");
            append_str(&mut s, decimal(removed).as_str());
            append_str(&mut s, ")");
            s
        },
        ToolView::Write { path, content } => {
            let n = lines_of(content.as_str()).len();
            let mut s = path.clone();
            append_str(&mut s, " (");
            append_str(&mut s, decimal(n).as_str());
            append_str(&mut s, " lines)");
            s
        },
        ToolView::Read { path } => match result {
            Some(content) => {
                let n = lines_of(content).len();
                let mut s = path.clone();
                append_str(&mut s, " (");
                append_str(&mut s, decimal(n).as_str());
                append_str(&mut s, " lines)");
                s
            },
            None => path.clone(),
        },
    }
}

/// How the arguments of a call without a file view read.
#[derive(Debug)]
pub struct ArgView {
    /// The prefix of the first line, such as `$` for a shell command.
    pub marker: String,
    /// The argument text, one entry per line, never cut.
    pub lines: Vec<String>,
}

/// The text and marker of a call's arguments: a shell command as it is,
/// other JSON pretty-printed, and arguments that are not JSON (yet) as they
/// came.
pub open spec fn arg_view_spec(name: Seq<char>, args: Seq<char>) -> (Seq<char>, Seq<char>) {
    match json_parse(args) {
        Some(v) => if name == "shell"@ && field_spec(v, "command"@) is Some {
            ("$"@, field_spec(v, "command"@)->0)
        } else {
            (" "@, json_pretty(v))
        },
        None => (" "@, args),
    }
}

/// Turns a call's raw arguments into lines to show.
pub fn arg_view(name: &str, args: &str) -> (r: ArgView)
    ensures
        r.marker@ == arg_view_spec(name@, args@).0,
        r.lines@.len() == text_lines_spec(arg_view_spec(name@, args@).1).len(),
        forall|i: int| 0 <= i < r.lines@.len() ==> (#[trigger] r.lines@[i])@ == text_lines_spec(
            arg_view_spec(name@, args@).1,
        )[i],
{
    let parsed = parse_json(args);
    let n = chars_of(name);
    match &parsed {
        Some(v) => {
            if eq_str(&n, "shell") {
                match field(v, "command") {
                    Some(command) => {
                        return ArgView { marker: "$".to_owned(), lines: text_lines(command.as_str()) };
                    },
                    None => {},
                }
            }
            let text = pretty_text(v);
            ArgView { marker: " ".to_owned(), lines: text_lines(text.as_str()) }
        },
        None => ArgView { marker: " ".to_owned(), lines: text_lines(args) },
    }
}

} // verus!
