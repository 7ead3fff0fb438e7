//! Text layout for the terminal: lines, display columns, wrapping, padding,
//! and the data lines of server-sent events.

use vstd::prelude::*;
use crate::text::{is_ws, is_whitespace, push_char, chars_of, string_of, trim, trim_bounds, has_prefix};

verus! {

/// The lines of `s` as `str::lines` yields them: split after each `\n`,
/// which is dropped with a `\r` right before it; no line after a final
/// `\n`.
pub open spec fn lines_spec(s: Seq<char>) -> Seq<Seq<char>>
    decreases s.len(),
{
    if s.len() == 0 {
        seq![]
    } else {
        let i = first_newline(s, 0);
        proof {
            lemma_first_newline(s, 0);
        }
        if i < s.len() {
            let line = s.take(i);
            let line = if line.len() > 0 && line.last() == '\r' { line.drop_last() } else { line };
            seq![line] + lines_spec(s.skip(i + 1))
        } else {
            seq![s]
        }
    }
}

/// The index of the first `\n` of `s` at or after `i`, or the length.
pub open spec fn first_newline(s: Seq<char>, i: int) -> int
    decreases s.len() - i,
{
    if i < 0 || i >= s.len() {
        s.len() as int
    } else if s[i] == '\n' {
        i
    } else {
        first_newline(s, i + 1)
    }
}

pub proof fn lemma_first_newline(s: Seq<char>, i: int)
    requires
        0 <= i <= s.len(),
    ensures
        i <= first_newline(s, i) <= s.len(),
        first_newline(s, i) < s.len() ==> s[first_newline(s, i)] == '\n',
    decreases s.len() - i,
{
    if i < s.len() && s[i] != '\n' {
        lemma_first_newline(s, i + 1);
    }
}

/// The lines of `text`, as `str::lines` yields them.
pub fn lines_of(text: &str) -> (r: Vec<String>)
    ensures
        r@.len() == lines_spec(text@).len(),
        forall|i: int| 0 <= i < r@.len() ==> (#[trigger] r@[i])@ == lines_spec(text@)[i],
{
    let cs = chars_of(text);
    let mut out: Vec<String> = Vec::new();
    let mut start: usize = 0;
    let n = cs.len();
    proof {
        assert(cs@.skip(0) =~= cs@);
        assert(out@.map_values(|l: String| l@) + lines_spec(cs@.skip(0)) =~= lines_spec(cs@.skip(0)));
    }
    while start < n
        invariant
            start <= n,
            n == cs@.len(),
            cs@ == text@,
            lines_spec(text@) == {
                let done = out@.map_values(|l: String| l@);
                done + lines_spec(cs@.skip(start as int))
            },
        decreases n - start,
    {
        let ghost rest = cs@.skip(start as int);
        let mut j: usize = start;
        while j < n && cs[j] != '\n'
            invariant
                start <= j <= n,
                n == cs@.len(),
                rest == cs@.skip(start as int),
                first_newline(rest, 0) == first_newline(rest, j - start),
            decreases n - j,
        {
            j = j + 1;
        }
        proof {
            lemma_first_newline(rest, (j - start) as int);
        }
        let ghost before = out@.map_values(|l: String| l@);
        if j < n {
            let mut end = j;
            if end > start && cs[end - 1] == '\r' {
                end = end - 1;
            }
            out.push(string_of(&cs, start, end));
            proof {
                let line = rest.take(j - start);
                assert(first_newline(rest, (j - start) as int) == (j - start) as int);
                assert(line =~= cs@.subrange(start as int, j as int));
                let kept = if line.len() > 0 && line.last() == '\r' { line.drop_last() } else { line };
                assert(kept =~= cs@.subrange(start as int, end as int));
                assert(lines_spec(rest) == seq![kept] + lines_spec(rest.skip(j - start + 1)));
                assert(rest.skip(j - start + 1) =~= cs@.skip(j + 1));
                assert(out@.map_values(|l: String| l@) =~= before.push(cs@.subrange(start as int, end as int)));
                assert(seq![cs@.subrange(start as int, end as int)] + lines_spec(cs@.skip(j + 1)) =~= lines_spec(rest));
                assert(before + lines_spec(rest) =~= out@.map_values(|l: String| l@) + lines_spec(cs@.skip(j + 1)));
            }
            start = j + 1;
        } else {
            out.push(string_of(&cs, start, n));
            proof {
                assert(rest =~= cs@.subrange(start as int, n as int));
                assert(cs@.skip(n as int) =~= Seq::<char>::empty());
                assert(out@.map_values(|l: String| l@) =~= before.push(rest));
                assert(before + lines_spec(rest) =~= out@.map_values(|l: String| l@) + lines_spec(cs@.skip(n as int)));
            }
            start = n;
        }
    }
    proof {
        assert(cs@.skip(n as int) =~= Seq::<char>::empty());
        assert(out@.map_values(|l: String| l@) + Seq::<Seq<char>>::empty() =~= out@.map_values(|l: String| l@));
    }
    out
}

/// The `data:` payloads of the lines of a frame, trimmed.
pub open spec fn data_lines(lines: Seq<Seq<char>>) -> Seq<Seq<char>>
    decreases lines.len(),
{
    if lines.len() == 0 {
        seq![]
    } else {
        let rest = data_lines(lines.drop_last());
        if has_prefix(lines.last(), "data:"@) {
            rest.push(trim(lines.last().skip(5)))
        } else {
            rest
        }
    }
}

/// `parts` joined with `\n`.
pub open spec fn join_lines(parts: Seq<Seq<char>>) -> Seq<char>
    decreases parts.len(),
{
    if parts.len() == 0 {
        seq![]
    } else if parts.len() == 1 {
        parts[0]
    } else {
        join_lines(parts.drop_last()) + seq!['\n'] + parts.last()
    }
}

/// The data of a server-sent event frame: the `data:` lines' payloads,
/// trimmed and joined with newlines; `None` when there is no data line.
pub fn parse_sse_data(frame: &str) -> (r: Option<String>)
    ensures
        match r {
            Some(d) => data_lines(lines_spec(frame@)).len() > 0 && d@ == join_lines(data_lines(lines_spec(frame@))),
            None => data_lines(lines_spec(frame@)).len() == 0,
        },
{
    let lines = lines_of(frame);
    let ghost lv = lines_spec(frame@);
    let mut out = String::new();
    let mut count: usize = 0;
    let mut i: usize = 0;
    while i < lines.len()
        invariant
            i <= lines.len(),
            lines@.len() == lv.len(),
            forall|k: int| 0 <= k < lines@.len() ==> (#[trigger] lines@[k])@ == lv[k],
            count == data_lines(lv.take(i as int)).len(),
            count <= i,
            out@ == join_lines(data_lines(lv.take(i as int))),
        decreases lines.len() - i,
    {
        assert(lv.take(i + 1).drop_last() =~= lv.take(i as int));
        assert(lv.take(i + 1).last() == lines@[i as int]@);
        let ghost d = data_lines(lv.take(i as int));
        let cs = chars_of(lines[i].as_str());
        if crate::text::has_prefix_str(&cs, "data:") {
            proof {
                reveal_strlit("data:");
            }
            let (lo, hi) = trim_bounds(&cs, 5, cs.len());
            if count > 0 {
                push_char(&mut out, '\n');
            }
            let piece = string_of(&cs, lo, hi);
            crate::text::append_str(&mut out, piece.as_str());
            proof {
                assert(cs@.subrange(5, cs@.len() as int) =~= cs@.skip(5));
                let d2 = data_lines(lv.take(i + 1));
                assert(d2 == d.push(trim(cs@.skip(5))));
                assert(d2.drop_last() =~= d);
                if d.len() > 0 {
                    assert(join_lines(d2) == join_lines(d) + seq!['\n'] + trim(cs@.skip(5)));
                } else {
                    assert(join_lines(d2) == d2[0]);
                }
            }
            count = count + 1;
        }
        i = i + 1;
    }
    assert(lv.take(lines.len() as int) =~= lv);
    if count == 0 {
        None
    } else {
        Some(out)
    }
}

/// The columns `unicode-width` gives a character; `None` for a control
/// character.
pub uninterp spec fn char_columns(c: char) -> Option<usize>;

/// The columns `unicode-width` gives a string.
pub uninterp spec fn str_columns(s: Seq<char>) -> usize;

/// The width of `c` in columns, by `UnicodeWidthChar::width`. The crate
/// looks the width up as a byte, so it is at most 255.
#[verifier::external_body]
pub fn char_width(c: char) -> (r: Option<usize>)
    ensures
        r == char_columns(c),
        r matches Some(w) ==> w <= 255,
{
    unicode_width::UnicodeWidthChar::width(c)
}

/// The width of `s` in columns, by `UnicodeWidthStr::width`. The contract
/// names the result and says nothing more of it.
#[verifier::external_body]
pub fn str_width(s: &str) -> (r: usize)
    ensures
        r == str_columns(s@),
{
    unicode_width::UnicodeWidthStr::width(s)
}

/// The columns a character takes where a control character takes none.
pub open spec fn cols(c: char) -> int {
    match char_columns(c) {
        Some(w) => w as int,
        None => 0,
    }
}

/// `s` in runs of whitespace and of other characters, each marked with
/// whether it is whitespace.
pub open spec fn groups(s: Seq<char>) -> Seq<(bool, Seq<char>)>
    decreases s.len(),
{
    if s.len() == 0 {
        seq![]
    } else {
        let before = groups(s.drop_last());
        let c = s.last();
        if before.len() > 0 && before.last().0 == is_ws(c) {
            before.update(before.len() - 1, (is_ws(c), before.last().1.push(c)))
        } else {
            before.push((is_ws(c), seq![c]))
        }
    }
}

/// Splits `text` into runs of whitespace and of other characters.
pub fn group_by_space(text: &str) -> (r: Vec<(bool, String)>)
    ensures
        r@.len() == groups(text@).len(),
        forall|i: int| 0 <= i < r@.len() ==> (#[trigger] r@[i]).0 == groups(text@)[i].0 && r@[i].1@ == groups(text@)[i].1,
{
    let cs = chars_of(text);
    let mut out: Vec<(bool, String)> = Vec::new();
    let mut i: usize = 0;
    while i < cs.len()
        invariant
            i <= cs.len(),
            cs@ == text@,
            out@.len() == groups(cs@.take(i as int)).len(),
            forall|k: int| 0 <= k < out@.len() ==> (#[trigger] out@[k]).0 == groups(cs@.take(i as int))[k].0
                && out@[k].1@ == groups(cs@.take(i as int))[k].1,
        decreases cs.len() - i,
    {
        assert(cs@.take(i + 1).drop_last() =~= cs@.take(i as int));
        let ch = cs[i];
        let space = is_whitespace(ch);
        let n = out.len();
        let ghost g = groups(cs@.take(i as int));
        if n > 0 && out[n - 1].0 == space {
            let (flag, mut buf) = out.pop().unwrap();
            push_char(&mut buf, ch);
            out.push((flag, buf));
        } else {
            let mut buf = String::new();
            push_char(&mut buf, ch);
            out.push((space, buf));
        }
        proof {
            let g2 = groups(cs@.take(i + 1));
            assert forall|k: int| 0 <= k < out@.len() implies (#[trigger] out@[k]).0 == g2[k].0 && out@[k].1@ == g2[k].1 by {
                if k < n && !(n > 0 && g.last().0 == is_ws(ch) && k == n - 1) {
                    assert(g2[k] == g[k]);
                }
            }
        }
        i = i + 1;
    }
    assert(cs@.take(cs.len() as int) =~= cs@);
    out
}

/// Chunks of `s` of at most `width` columns, as `split_to_width` builds
/// them: `done` holds the full chunks, `current` the one being filled and
/// `used` its columns.
pub open spec fn split_fold(s: Seq<char>, width: int) -> (Seq<Seq<char>>, Seq<char>, int)
    decreases s.len(),
{
    if s.len() == 0 {
        (seq![], seq![], 0)
    } else {
        let (done, current, used) = split_fold(s.drop_last(), width);
        let c = s.last();
        if used + cols(c) > width && current.len() > 0 {
            (done.push(current), seq![c], cols(c))
        } else {
            (done, current.push(c), used + cols(c))
        }
    }
}

/// The chunks `split_to_width` makes of `s`.
pub open spec fn split_spec(s: Seq<char>, width: int) -> Seq<Seq<char>> {
    let w = if width < 1 { 1 } else { width };
    let (done, current, _) = split_fold(s, w);
    if current.len() > 0 { done.push(current) } else { done }
}

/// The columns of `c` where a control character takes none.
fn columns_of(c: char) -> (r: usize)
    ensures
        r == cols(c),
        r <= 255,
{
    match char_width(c) {
        Some(w) => w,
        None => 0,
    }
}

/// Splits `text` into chunks of at most `width` columns (at least one),
/// never inside a character; a character wider than that gets a chunk of
/// its own.
pub fn split_to_width(text: &str, width: usize) -> (r: Vec<String>)
    ensures
        r@.len() == split_spec(text@, width as int).len(),
        forall|i: int| 0 <= i < r@.len() ==> (#[trigger] r@[i])@ == split_spec(text@, width as int)[i],
{
    let width = if width < 1 {
        1
    } else {
        width
    };
    let cs = chars_of(text);
    let mut out: Vec<String> = Vec::new();
    let mut current = String::new();
    let mut cur_len: usize = 0;
    let mut used: usize = 0;
    let mut i: usize = 0;
    while i < cs.len()
        invariant
            i <= cs.len(),
            cs@ == text@,
            width >= 1,
            cur_len == current@.len(),
            cur_len <= i,
            ({
                let (done, cur, u) = split_fold(cs@.take(i as int), width as int);
                &&& out@.len() == done.len()
                &&& forall|k: int| 0 <= k < out@.len() ==> (#[trigger] out@[k])@ == done[k]
                &&& current@ == cur
                &&& used == u
            }),
            used <= width || used <= 255,
        decreases cs.len() - i,
    {
        assert(cs@.take(i + 1).drop_last() =~= cs@.take(i as int));
        let ch = cs[i];
        let ch_w = columns_of(ch);
        let ghost before_out = out@;
        let over = used > width || ch_w > width - used;
        if over && cur_len > 0 {
            out.push(current);
            current = String::new();
            cur_len = 0;
            used = 0;
        }
        push_char(&mut current, ch);
        cur_len = cur_len + 1;
        used = used + ch_w;
        proof {
            let (done, cur, u) = split_fold(cs@.take(i + 1), width as int);
            assert forall|k: int| 0 <= k < out@.len() implies (#[trigger] out@[k])@ == done[k] by {
                if k < before_out.len() {
                    assert(out@[k] == before_out[k]);
                }
            }
        }
        i = i + 1;
    }
    assert(cs@.take(cs.len() as int) =~= cs@);
    if cur_len > 0 {
        out.push(current);
    }
    out
}

/// The longest start of `s` that fits in `budget` columns.
pub open spec fn fit_prefix(s: Seq<char>, budget: int) -> Seq<char>
    decreases s.len(),
{
    if s.len() == 0 || cols(s[0]) > budget {
        seq![]
    } else {
        seq![s[0]] + fit_prefix(s.drop_first(), budget - cols(s[0]))
    }
}

/// The columns of `budget` that `fit_prefix(s, budget)` leaves unused.
pub open spec fn fit_left(s: Seq<char>, budget: int) -> int
    decreases s.len(),
{
    if s.len() == 0 || cols(s[0]) > budget {
        budget
    } else {
        fit_left(s.drop_first(), budget - cols(s[0]))
    }
}

/// The columns of the characters of `s`, added up.
pub open spec fn chars_cols(s: Seq<char>) -> int
    decreases s.len(),
{
    if s.len() == 0 { 0 } else { cols(s[0]) + chars_cols(s.drop_first()) }
}

/// The prefix that fits and the columns it leaves make up the budget.
pub proof fn lemma_fit_cols(s: Seq<char>, budget: int)
    ensures
        chars_cols(fit_prefix(s, budget)) + fit_left(s, budget) == budget,
        budget >= 0 ==> fit_left(s, budget) >= 0,
    decreases s.len(),
{
    if s.len() > 0 && cols(s[0]) <= budget {
        lemma_fit_cols(s.drop_first(), budget - cols(s[0]));
        let p = seq![s[0]] + fit_prefix(s.drop_first(), budget - cols(s[0]));
        assert(p.drop_first() =~= fit_prefix(s.drop_first(), budget - cols(s[0])));
        assert(p[0] == s[0]);
    } else {
        assert(fit_prefix(s, budget) =~= Seq::<char>::empty());
    }
}

/// `n` spaces.
pub open spec fn spaces(n: int) -> Seq<char> {
    Seq::new(n as nat, |_i: int| ' ')
}

/// `s` at `target` columns: padded with spaces when it is narrower; when
/// it is wider, its longest start that fits `target - 1` columns, an
/// ellipsis, and spaces for the columns the cut leaves, so that the start
/// and the spaces take `target - 1` columns (see `lemma_fit_cols`) and the
/// one-column ellipsis the last; nothing at all for a target of 0.
pub open spec fn pad_spec(s: Seq<char>, target: int) -> Seq<char> {
    let current = str_columns(s) as int;
    if current == target {
        s
    } else if current < target {
        s + spaces(target - current)
    } else if target == 0 {
        seq![]
    } else {
        fit_prefix(s, target - 1).push('…') + spaces(fit_left(s, target - 1))
    }
}

/// Pads `text` with spaces, or cuts it and ends it with an ellipsis, to
/// exactly `target` display columns (see `pad_spec`).
pub fn pad_to(text: &str, target: usize) -> (r: String)
    ensures
        r@ == pad_spec(text@, target as int),
{
    let current = str_width(text);
    if current == target {
        return text.to_owned();
    }
    if current < target {
        let mut out = text.to_owned();
        let n = target - current;
        let mut k: usize = 0;
        while k < n
            invariant
                k <= n,
                out@ == text@ + spaces(k as int),
            decreases n - k,
        {
            push_char(&mut out, ' ');
            assert(text@ + spaces(k + 1) =~= (text@ + spaces(k as int)).push(' '));
            k = k + 1;
        }
        return out;
    }
    if target == 0 {
        return String::new();
    }
    let cs = chars_of(text);
    let budget = target - 1;
    let mut out = String::new();
    let mut left = budget;
    let mut i: usize = 0;
    let mut stopped = false;
    proof {
        assert(cs@.skip(0) =~= cs@);
        assert(cs@.take(0) + fit_prefix(cs@, budget as int) =~= fit_prefix(cs@, budget as int));
    }
    while i < cs.len() && !stopped
        invariant
            i <= cs.len(),
            cs@ == text@,
            left <= budget,
            !stopped ==> fit_prefix(cs@, budget as int) == cs@.take(i as int) + fit_prefix(cs@.skip(i as int), left as int),
            !stopped ==> fit_left(cs@, budget as int) == fit_left(cs@.skip(i as int), left as int),
            stopped ==> fit_prefix(cs@, budget as int) == cs@.take(i as int),
            stopped ==> fit_left(cs@, budget as int) == left,
            out@ == cs@.take(i as int),
        decreases cs.len() - i, if stopped { 0int } else { 1int },
    {
        let w = columns_of(cs[i]);
        let ghost rest = cs@.skip(i as int);
        assert(rest[0] == cs@[i as int]);
        if w > left {
            stopped = true;
            assert(fit_prefix(rest, left as int) =~= Seq::<char>::empty());
            assert(cs@.take(i as int) + Seq::<char>::empty() =~= cs@.take(i as int));
        } else {
            push_char(&mut out, cs[i]);
            assert(rest.drop_first() =~= cs@.skip(i + 1));
            assert(cs@.take(i + 1) =~= cs@.take(i as int).push(cs@[i as int]));
            assert(cs@.take(i as int) + fit_prefix(rest, left as int) =~= cs@.take(i + 1) + fit_prefix(
                cs@.skip(i + 1),
                left - w,
            ));
            left = left - w;
            i = i + 1;
        }
    }
    proof {
        if !stopped {
            assert(cs@.skip(i as int) =~= Seq::<char>::empty());
            assert(cs@.take(i as int) + Seq::<char>::empty() =~= cs@.take(i as int));
        }
    }
    proof {
        if !stopped {
            assert(fit_left(cs@.skip(i as int), left as int) == left);
        }
    }
    push_char(&mut out, '…');
    let ghost head = out@;
    let mut k: usize = 0;
    while k < left
        invariant
            k <= left,
            out@ == head + spaces(k as int),
        decreases left - k,
    {
        push_char(&mut out, ' ');
        assert(head + spaces(k + 1) =~= (head + spaces(k as int)).push(' '));
        k = k + 1;
    }
    out
}

/// The lines of `text`, and one empty line when it has none.
pub open spec fn text_lines_spec(text: Seq<char>) -> Seq<Seq<char>> {
    let lines = lines_spec(text);
    if lines.len() == 0 { seq![seq![]] } else { lines }
}

/// Splits `text` into lines, keeping at least one so that there is always a
/// summary line to show.
pub fn text_lines(text: &str) -> (r: Vec<String>)
    ensures
        r@.len() == text_lines_spec(text@).len(),
        forall|i: int| 0 <= i < r@.len() ==> (#[trigger] r@[i])@ == text_lines_spec(text@)[i],
{
    let lines = lines_of(text);
    if lines.len() == 0 {
        let mut one: Vec<String> = Vec::new();
        one.push(String::new());
        one
    } else {
        lines
    }
}

/// The bytes UTF-8 takes for `c`.
pub open spec fn utf8_len(c: char) -> int {
    let u = c as u32;
    if u < 0x80 {
        1
    } else if u < 0x800 {
        2
    } else if u < 0x10000 {
        3
    } else {
        4
    }
}

/// The bytes UTF-8 takes for `s`.
pub open spec fn utf8_bytes(s: Seq<char>) -> int
    decreases s.len(),
{
    if s.len() == 0 {
        0
    } else {
        utf8_bytes(s.drop_last()) + utf8_len(s.last())
    }
}

/// How many characters of `s` start before byte `width`.
pub open spec fn chunk_count(s: Seq<char>, width: int) -> int
    decreases s.len(),
{
    if s.len() == 0 || width <= 0 {
        0
    } else {
        1 + chunk_count(s.drop_first(), width - utf8_len(s[0]))
    }
}

/// A line longer than `width` bytes, cut into pieces: each piece takes the
/// characters that start before byte `width` of what is left.
pub open spec fn wrap_line(s: Seq<char>, width: int) -> Seq<Seq<char>>
    decreases s.len(),
{
    if s.len() == 0 || width <= 0 {
        seq![]
    } else {
        let k = chunk_count(s, width);
        proof {
            lemma_chunk_count(s, width);
        }
        seq![s.take(k)] + wrap_line(s.skip(k), width)
    }
}

pub proof fn lemma_chunk_count(s: Seq<char>, width: int)
    ensures
        0 <= chunk_count(s, width) <= s.len(),
        s.len() > 0 && width > 0 ==> chunk_count(s, width) >= 1,
    decreases s.len(),
{
    if s.len() > 0 && width > 0 {
        lemma_chunk_count(s.drop_first(), width - utf8_len(s[0]));
    }
}

/// The wrapped lines of `lines`.
pub open spec fn wrap_lines(lines: Seq<Seq<char>>, width: int) -> Seq<Seq<char>>
    decreases lines.len(),
{
    if lines.len() == 0 {
        seq![]
    } else {
        let l = lines.last();
        wrap_lines(lines.drop_last(), width) + if utf8_bytes(l) <= width { seq![l] } else { wrap_line(l, width) }
    }
}

/// The lines of `text` wrapped at `width` bytes; with no width, the text as
/// it is.
pub open spec fn wrap_spec(text: Seq<char>, width: int) -> Seq<Seq<char>> {
    if width == 0 {
        seq![text]
    } else {
        wrap_lines(lines_spec(text), width)
    }
}

/// The UTF-8 length of `c`.
pub(crate) fn char_utf8_len(c: char) -> (r: usize)
    ensures
        r == utf8_len(c),
{
    let u = c as u32;
    if u < 0x80 {
        1
    } else if u < 0x800 {
        2
    } else if u < 0x10000 {
        3
    } else {
        4
    }
}

/// Whether `s` takes at most `width` bytes in UTF-8.
fn fits_bytes(s: &Vec<char>, width: usize) -> (r: bool)
    ensures
        r == (utf8_bytes(s@) <= width),
{
    let mut left: usize = width;
    let mut i: usize = 0;
    while i < s.len()
        invariant
            i <= s.len(),
            left <= width,
            utf8_bytes(s@.take(i as int)) + left == width,
        decreases s.len() - i,
    {
        assert(s@.take(i + 1).drop_last() =~= s@.take(i as int));
        let n = char_utf8_len(s[i]);
        if n > left {
            proof {
                lemma_bytes_grow(s@, (i + 1) as int);
            }
            return false;
        }
        left = left - n;
        i = i + 1;
    }
    assert(s@.take(s.len() as int) =~= s@);
    true
}

/// A longer prefix takes more bytes.
pub(crate) proof fn lemma_bytes_strict(s: Seq<char>, i: int, j: int)
    requires
        0 <= i <= j <= s.len(),
    ensures
        utf8_bytes(s.take(i)) <= utf8_bytes(s.take(j)),
        i < j ==> utf8_bytes(s.take(i)) < utf8_bytes(s.take(j)),
    decreases j - i,
{
    if i < j {
        lemma_bytes_strict(s, i, j - 1);
        assert(s.take(j).drop_last() =~= s.take(j - 1));
    }
}

/// The bytes of a prefix are at most those of the whole.
pub(crate) proof fn lemma_bytes_grow(s: Seq<char>, k: int)
    requires
        0 <= k <= s.len(),
    ensures
        utf8_bytes(s.take(k)) <= utf8_bytes(s),
    decreases s.len() - k,
{
    if k < s.len() {
        lemma_bytes_grow(s, k + 1);
        assert(s.take(k + 1).drop_last() =~= s.take(k));
    } else {
        assert(s.take(k) =~= s);
    }
}

/// Wraps each line of `text` that is longer than `width` bytes into pieces
/// that start before byte `width`; a width of zero leaves the text whole.
pub fn wrap_text(text: &str, width: usize) -> (r: Vec<String>)
    ensures
        r@.len() == wrap_spec(text@, width as int).len(),
        forall|i: int| 0 <= i < r@.len() ==> (#[trigger] r@[i])@ == wrap_spec(text@, width as int)[i],
{
    if width == 0 {
        let mut one: Vec<String> = Vec::new();
        one.push(text.to_owned());
        return one;
    }
    let lines = lines_of(text);
    let ghost lv = lines_spec(text@);
    let mut out: Vec<String> = Vec::new();
    let mut i: usize = 0;
    while i < lines.len()
        invariant
            i <= lines.len(),
            width > 0,
            lines@.len() == lv.len(),
            forall|k: int| 0 <= k < lines@.len() ==> (#[trigger] lines@[k])@ == lv[k],
            out@.map_values(|l: String| l@) == wrap_lines(lv.take(i as int), width as int),
        decreases lines.len() - i,
    {
        assert(lv.take(i + 1).drop_last() =~= lv.take(i as int));
        assert(lv.take(i + 1).last() == lines@[i as int]@);
        let ghost before = out@.map_values(|l: String| l@);
        let cs = chars_of(lines[i].as_str());
        if fits_bytes(&cs, width) {
            out.push(lines[i].clone());
            assert(out@.map_values(|l: String| l@) =~= before + seq![cs@]);
        } else {
            let mut start: usize = 0;
            proof {
                assert(cs@.skip(0) =~= cs@);
            }
            while start < cs.len()
                invariant
                    start <= cs.len(),
                    width > 0,
                    out@.map_values(|l: String| l@) + wrap_line(cs@.skip(start as int), width as int) == before + wrap_line(
                        cs@,
                        width as int,
                    ),
                decreases cs.len() - start,
            {
                let ghost rest = cs@.skip(start as int);
                let mut left: usize = width;
                let mut end: usize = start;
                while end < cs.len() && left > 0
                    invariant
                        start <= end <= cs.len(),
                        rest == cs@.skip(start as int),
                        chunk_count(rest, width as int) == (end - start) + chunk_count(cs@.skip(end as int), left as int),
                    decreases cs.len() - end,
                {
                    let n = char_utf8_len(cs[end]);
                    assert(cs@.skip(end as int).drop_first() =~= cs@.skip(end + 1));
                    assert(cs@.skip(end as int)[0] == cs@[end as int]);
                    assert(chunk_count(cs@.skip(end as int), left as int) == 1 + chunk_count(cs@.skip(end + 1), left - n));
                    assert(chunk_count(cs@.skip(end + 1), left - n) == chunk_count(cs@.skip(end + 1), if n > left { 0 } else { left - n }));
                    left = if n > left {
                        0
                    } else {
                        left - n
                    };
                    end = end + 1;
                }
                proof {
                    lemma_chunk_count(rest, width as int);
                    assert(chunk_count(cs@.skip(end as int), left as int) == 0);
                    assert(rest.take(end - start) =~= cs@.subrange(start as int, end as int));
                    assert(rest.skip(end - start) =~= cs@.skip(end as int));
                }
                let piece = string_of(&cs, start, end);
                let ghost mid = out@.map_values(|l: String| l@);
                out.push(piece);
                proof {
                    assert(out@.map_values(|l: String| l@) =~= mid.push(cs@.subrange(start as int, end as int)));
                    assert(wrap_line(rest, width as int) == seq![cs@.subrange(start as int, end as int)] + wrap_line(
                        cs@.skip(end as int),
                        width as int,
                    ));
                    assert(mid + wrap_line(rest, width as int) =~= out@.map_values(|l: String| l@) + wrap_line(
                        cs@.skip(end as int),
                        width as int,
                    ));
                }
                start = end;
            }
            proof {
                assert(cs@.skip(cs.len() as int) =~= Seq::<char>::empty());
                assert(out@.map_values(|l: String| l@) + Seq::<Seq<char>>::empty() =~= out@.map_values(|l: String| l@));
            }
        }
        i = i + 1;
    }
    assert(lv.take(lines.len() as int) =~= lv);
    proof {
        assert(out@.map_values(|l: String| l@).len() == out@.len());
    }
    out
}

} // verus!
