//! Markdown for a terminal: a document becomes styled lines already
//! wrapped to a width, so that the number of lines is the number of rows.
//!
//! Text is carried in styled spans; the host turns them into its terminal
//! library's types.

use vstd::prelude::*;
use crate::tool_view::decimal_spec;
use crate::layout::{lines_spec, pad_spec, cols, group_by_space, groups, lines_of, pad_to, split_fold, split_spec, split_to_width, str_columns, str_width};
use crate::text::{append_str, chars_of, eq_str, find_ws_from, is_whitespace, is_ws, push_char, string_of, trim, trim_bounds};
use comrak::nodes::{ListDelimType, ListType, NodeValue};

verus! {

/// A terminal colour.
#[derive(Debug, Clone, Copy, PartialEq, Eq, Structural)]
pub enum Color {
    Red,
    Green,
    Yellow,
    Blue,
    Magenta,
    Cyan,
    White,
    Gray,
    DarkGray,
    Rgb(u8, u8, u8),
}

/// How text is drawn: colours and modifiers.
#[derive(Debug, Clone, Copy, PartialEq, Eq, Structural)]
pub struct Style {
    pub fg: Option<Color>,
    pub bg: Option<Color>,
    pub bold: bool,
    pub dim: bool,
    pub italic: bool,
    pub underlined: bool,
    pub crossed_out: bool,
}

impl Style {
    /// No colour and no modifier.
    pub open spec fn plain_spec() -> Style {
        Style { fg: None, bg: None, bold: false, dim: false, italic: false, underlined: false, crossed_out: false }
    }

    /// No colour and no modifier.
    pub fn plain() -> (r: Style)
        ensures
            r == Style::plain_spec(),
    {
        Style { fg: None, bg: None, bold: false, dim: false, italic: false, underlined: false, crossed_out: false }
    }

    /// This style drawn in `color`.
    pub fn fg(self, color: Color) -> (r: Style)
        ensures
            r == (Style { fg: Some(color), ..self }),
    {
        Style { fg: Some(color), ..self }
    }

    /// This style on the background `color`.
    pub fn bg(self, color: Color) -> (r: Style)
        ensures
            r == (Style { bg: Some(color), ..self }),
    {
        Style { bg: Some(color), ..self }
    }

    /// This style in bold.
    pub fn bold(self) -> (r: Style)
        ensures
            r == (Style { bold: true, ..self }),
    {
        Style { bold: true, ..self }
    }
}

/// A run of text in one style.
#[derive(Debug)]
pub struct Span {
    pub content: String,
    pub style: Style,
}

/// One row of text.
#[derive(Debug)]
pub struct Line {
    pub spans: Vec<Span>,
}

impl Clone for Span {
    fn clone(&self) -> (r: Self)
        ensures
            r == *self,
    {
        Span { content: self.content.clone(), style: self.style }
    }
}

/// A span in `style`.
pub fn styled(text: &str, style: Style) -> (r: Span)
    ensures
        r.content@ == text@,
        r.style == style,
{
    Span { content: text.to_owned(), style }
}

/// A span, as values.
pub open spec fn span_view(s: Span) -> (Seq<char>, Style) {
    (s.content@, s.style)
}

/// Spans, as values.
pub open spec fn spans_view(spans: Seq<Span>) -> Seq<(Seq<char>, Style)> {
    spans.map_values(|s: Span| span_view(s))
}

/// The columns of some spans, each measured whole.
pub open spec fn spans_cols(spans: Seq<Span>) -> int
    decreases spans.len(),
{
    if spans.len() == 0 { 0 } else { spans_cols(spans.drop_last()) + str_columns(spans.last().content@) as int }
}

/// A span as a value: its text and its style.
pub type SpanV = (Seq<char>, Style);

/// The columns of spans, as values, each measured whole.
pub open spec fn vcols(pv: Seq<SpanV>) -> int
    decreases pv.len(),
{
    if pv.len() == 0 { 0 } else { vcols(pv.drop_last()) + str_columns(pv.last().0) as int }
}

/// The columns of spans are those of their values.
pub proof fn lemma_vcols(p: Seq<Span>)
    ensures
        spans_cols(p) == vcols(spans_view(p)),
    decreases p.len(),
{
    if p.len() > 0 {
        lemma_vcols(p.drop_last());
        assert(spans_view(p).drop_last() =~= spans_view(p.drop_last()));
    }
}

/// The columns of `pv`, cut to what a `usize` holds.
pub open spec fn cut_cols(pv: Seq<SpanV>) -> int {
    if vcols(pv) <= usize::MAX { vcols(pv) } else { usize::MAX as int }
}

/// The columns of some spans, each measured whole, cut to what a `usize`
/// holds.
pub fn spans_width(spans: &Vec<Span>) -> (r: usize)
    ensures
        r == if spans_cols(spans@) <= usize::MAX { spans_cols(spans@) } else { usize::MAX as int },
{
    let mut total: usize = 0;
    let mut i: usize = 0;
    while i < spans.len()
        invariant
            i <= spans.len(),
            total == if spans_cols(spans@.take(i as int)) <= usize::MAX {
                spans_cols(spans@.take(i as int))
            } else {
                usize::MAX as int
            },
        decreases spans.len() - i,
    {
        assert(spans@.take(i + 1).drop_last() =~= spans@.take(i as int));
        proof {
            lemma_spans_cols_nonneg(spans@.take(i as int));
        }
        let w = str_width(spans[i].content.as_str());
        total = total.saturating_add(w);
        i = i + 1;
    }
    assert(spans@.take(spans.len() as int) =~= spans@);
    total
}

proof fn lemma_spans_cols_nonneg(spans: Seq<Span>)
    ensures
        spans_cols(spans) >= 0,
    decreases spans.len(),
{
    if spans.len() > 0 {
        lemma_spans_cols_nonneg(spans.drop_last());
    }
}

/// A styled run small enough to be a unit of wrapping. Runs of whitespace
/// are marked, so that they can be dropped where a line breaks.
#[derive(Debug)]
pub struct Seg {
    pub text: String,
    pub style: Style,
    pub is_space: bool,
}

impl Clone for Seg {
    fn clone(&self) -> (r: Self)
        ensures
            r == *self,
    {
        Seg { text: self.text.clone(), style: self.style, is_space: self.is_space }
    }
}

/// The text of the segments that are not whitespace, in order.
pub open spec fn seg_words(segs: Seq<Seg>) -> Seq<char>
    decreases segs.len(),
{
    if segs.len() == 0 {
        seq![]
    } else {
        seg_words(segs.drop_last()) + if segs.last().is_space { seq![] } else { segs.last().text@ }
    }
}

/// The columns of some segments, each measured whole.
pub open spec fn seg_cols(segs: Seq<Seg>) -> int
    decreases segs.len(),
{
    if segs.len() == 0 { 0 } else { seg_cols(segs.drop_last()) + str_columns(segs.last().text@) as int }
}

/// The non-whitespace text of lines of segments, in order.
pub open spec fn lines_words(lines: Seq<Vec<Seg>>) -> Seq<char>
    decreases lines.len(),
{
    if lines.len() == 0 { seq![] } else { lines_words(lines.drop_last()) + seg_words(lines.last()@) }
}

/// The pieces `parts` one after another.
pub open spec fn concat_all(parts: Seq<Seq<char>>) -> Seq<char>
    decreases parts.len(),
{
    if parts.len() == 0 { seq![] } else { concat_all(parts.drop_last()) + parts.last() }
}

proof fn lemma_split_fold_concat(s: Seq<char>, width: int)
    ensures
        concat_all(split_fold(s, width).0) + split_fold(s, width).1 == s,
    decreases s.len(),
{
    if s.len() > 0 {
        lemma_split_fold_concat(s.drop_last(), width);
        let (done, current, used) = split_fold(s.drop_last(), width);
        let c = s.last();
        if used + cols(c) > width && current.len() > 0 {
            assert(done.push(current).drop_last() =~= done);
            assert(concat_all(done.push(current)) + seq![c] =~= s);
        } else {
            assert(s =~= s.drop_last().push(c));
            assert(concat_all(done) + current.push(c) =~= (concat_all(done) + current).push(c));
        }
    }
}

/// Splitting a word to a width keeps all of it, in order.
pub proof fn lemma_split_keeps_text(s: Seq<char>, width: int)
    ensures
        concat_all(split_spec(s, width)) == s,
{
    let w = if width < 1 { 1 } else { width };
    lemma_split_fold_concat(s, w);
    let (done, current, _) = split_fold(s, w);
    if current.len() > 0 {
        assert(done.push(current).drop_last() =~= done);
    } else {
        assert(concat_all(done) + current =~= concat_all(done));
    }
}

proof fn lemma_seg_words_push(segs: Seq<Seg>, s: Seg)
    ensures
        seg_words(segs.push(s)) == seg_words(segs) + if s.is_space { seq![] } else { s.text@ },
        seg_cols(segs.push(s)) == seg_cols(segs) + str_columns(s.text@) as int,
{
    assert(segs.push(s).drop_last() =~= segs);
}

proof fn lemma_seg_cols_nonneg(segs: Seq<Seg>)
    ensures
        seg_cols(segs) >= 0,
    decreases segs.len(),
{
    if segs.len() > 0 {
        lemma_seg_cols_nonneg(segs.drop_last());
    }
}

/// Whether a line of segments fits `avail` columns, or is a single segment
/// too wide for any line.
pub open spec fn fits(line: Seq<Seg>, avail: int) -> bool {
    seg_cols(line) <= avail || line.len() <= 1
}

/// The state of greedy wrapping, as values: the full lines, the line being
/// filled, the columns it uses and the columns it has.
pub struct WrapState {
    pub lines: Seq<Seq<SegV>>,
    pub current: Seq<SegV>,
    pub used: int,
    pub avail: int,
}

/// `c` without the whitespace segments at its end.
pub open spec fn drop_trailing_space(c: Seq<SegV>) -> Seq<SegV>
    decreases c.len(),
{
    if c.len() > 0 && c.last().2 { drop_trailing_space(c.drop_last()) } else { c }
}

/// The line being filled ends, without its trailing whitespace; the next
/// has `cont` columns.
pub open spec fn w_flush(st: WrapState, cont: int) -> WrapState {
    WrapState { lines: st.lines.push(drop_trailing_space(st.current)), current: seq![], used: 0, avail: cont }
}

/// `seg` goes on the line being filled.
pub open spec fn w_push(st: WrapState, seg: SegV) -> WrapState {
    let w = str_columns(seg.0) as int;
    WrapState { used: if st.current.len() == 0 { w } else { st.used + w }, current: st.current.push(seg), ..st }
}

/// A piece of a word too wide for a line goes on the line being filled, or
/// on the next when it does not fit.
pub open spec fn w_piece(st: WrapState, piece: Seq<char>, style: Style, cont: int) -> WrapState {
    let pw = str_columns(piece) as int;
    let st1 = if st.current.len() > 0 && !(pw <= st.avail && st.used <= st.avail - pw) { w_flush(st, cont) } else { st };
    w_push(st1, (piece, style, false))
}

/// The pieces of a word, one after another.
pub open spec fn w_pieces(st: WrapState, pieces: Seq<Seq<char>>, style: Style, cont: int) -> WrapState
    decreases pieces.len(),
{
    if pieces.len() == 0 {
        st
    } else {
        w_piece(w_pieces(st, pieces.drop_last(), style, cont), pieces.last(), style, cont)
    }
}

/// One segment of greedy wrapping: whitespace that starts a line is
/// dropped; what fits goes on the line; whitespace that does not fit ends
/// the line; a word that does not fit goes on the next line, split into
/// pieces of that line's width when it is wider than that.
pub open spec fn w_step(st: WrapState, seg: SegV, cont: int) -> WrapState {
    let w = str_columns(seg.0) as int;
    if seg.2 && st.current.len() == 0 {
        st
    } else if w <= st.avail && st.used <= st.avail - w {
        w_push(st, seg)
    } else if seg.2 {
        w_flush(st, cont)
    } else {
        let st1 = if w <= st.avail || st.current.len() > 0 { w_flush(st, cont) } else { st };
        if w <= st1.avail {
            w_push(st1, seg)
        } else {
            w_pieces(st1, split_spec(seg.0, st1.avail), seg.1, cont)
        }
    }
}

/// Greedy wrapping over `segs`, a first line of `first` columns and then
/// lines of `cont` columns.
pub open spec fn w_fold(segs: Seq<SegV>, first: int, cont: int) -> WrapState
    decreases segs.len(),
{
    if segs.len() == 0 {
        WrapState { lines: seq![], current: seq![], used: 0, avail: first }
    } else {
        w_step(w_fold(segs.drop_last(), first, cont), segs.last(), cont)
    }
}

/// The lines that greedy wrapping makes of `segs`: at least one.
pub open spec fn wrap_spec(segs: Seq<SegV>, first: int, cont: int) -> Seq<Seq<SegV>> {
    let st = w_fold(segs, first, cont);
    if st.current.len() > 0 || st.lines.len() == 0 { w_flush(st, cont).lines } else { st.lines }
}

/// Greedy wrapping state: full lines, the line being filled, its columns.
struct Wrapper {
    lines: Vec<Vec<Seg>>,
    current: Vec<Seg>,
    used: usize,
    avail: usize,
    cont_avail: usize,
}

impl Wrapper {
    spec fn state(&self) -> WrapState {
        WrapState { lines: inline_segs(self.lines@), current: segs_v(self.current@), used: self.used as int, avail: self.avail as int }
    }

    spec fn words(&self) -> Seq<char> {
        lines_words(self.lines@) + seg_words(self.current@)
    }

    spec fn ok(&self, first_avail: usize) -> bool {
        &&& self.avail >= 1
        &&& self.cont_avail >= 1
        &&& self.used == seg_cols(self.current@)
        &&& fits(self.current@, self.avail as int)
        &&& self.avail == if self.lines@.len() == 0 { first_avail } else { self.cont_avail }
        &&& forall|k: int| 0 <= k < self.lines@.len() ==> fits(
            #[trigger] self.lines@[k]@,
            if k == 0 { first_avail as int } else { self.cont_avail as int },
        )
    }

    /// Ends the line being filled, without its trailing whitespace.
    fn flush(&mut self, Ghost(first_avail): Ghost<usize>)
        requires
            old(self).ok(first_avail),
        ensures
            final(self).ok(first_avail),
            final(self).words() == old(self).words(),
            final(self).lines@.len() == old(self).lines@.len() + 1,
            final(self).current@.len() == 0,
            final(self).cont_avail == old(self).cont_avail,
            final(self).state() == w_flush(old(self).state(), old(self).cont_avail as int),
    {
        let ghost st0 = self.state();
        let mut current: Vec<Seg> = Vec::new();
        std::mem::swap(&mut current, &mut self.current);
        let ghost before = current@;
        while current.len() > 0 && current[current.len() - 1].is_space
            invariant
                drop_trailing_space(segs_v(current@)) == drop_trailing_space(segs_v(before)),
                seg_words(current@) == seg_words(before),
                seg_cols(current@) <= seg_cols(before) || current@.len() <= 1,
                current@.len() <= before.len(),
            decreases current.len(),
        {
            let ghost c = current@;
            let last = current.pop().unwrap();
            proof {
                assert(c == current@.push(last));
                assert(segs_v(c).drop_last() =~= segs_v(current@));
                lemma_seg_words_push(current@, last);
                lemma_seg_cols_nonneg(current@);
            }
        }
        let ghost k = self.lines@.len();
        let ghost prev_lines = self.lines@;
        self.lines.push(current);
        proof {
            assert(self.lines@.drop_last() =~= prev_lines);
            assert forall|j: int| 0 <= j < self.lines@.len() implies fits(
                #[trigger] self.lines@[j]@,
                if j == 0 { first_avail as int } else { self.cont_avail as int },
            ) by {
                if j < k {
                    assert(self.lines@[j] == prev_lines[j]);
                }
            }
        }
        self.used = 0;
        self.avail = self.cont_avail;
        assert(seg_words(self.current@) =~= Seq::<char>::empty());
        assert(segs_v(self.current@) =~= Seq::<SegV>::empty());
        assert(inline_segs(self.lines@) =~= st0.lines.push(segs_v(current@)));
    }

    /// Adds `seg` to the line being filled, which it fits, or which is empty.
    fn push(&mut self, seg: Seg, width: usize, Ghost(first_avail): Ghost<usize>)
        requires
            old(self).ok(first_avail),
            width == str_columns(seg.text@),
            old(self).current@.len() == 0 || old(self).used + width <= old(self).avail,
        ensures
            final(self).ok(first_avail),
            final(self).words() == old(self).words() + if seg.is_space { seq![] } else { seg.text@ },
            final(self).lines@.len() == old(self).lines@.len(),
            final(self).cont_avail == old(self).cont_avail,
            final(self).state() == w_push(old(self).state(), (seg.text@, seg.style, seg.is_space)),
    {
        let ghost before = self.current@;
        proof {
            lemma_seg_words_push(before, seg);
        }
        self.used = if self.current.len() == 0 { width } else { self.used + width };
        self.current.push(seg);
        proof {
            if before.len() == 0 {
                assert(seg_cols(before) == 0);
            }
            assert(segs_v(self.current@) =~= segs_v(before).push((seg.text@, seg.style, seg.is_space)));
        }
    }
}

/// Wraps `segs` greedily: a line of `first_avail` columns, then lines of
/// `cont_avail` columns. Whitespace that starts a line or does not fit is
/// dropped, and so is whitespace ending a line; a word too long for a line
/// of its own is split across lines. At least one line comes out, every
/// line fits its width unless it holds a single piece too wide for any
/// line, and the text of the words comes out whole and in order.
pub fn wrap_lines(segs: &Vec<Seg>, first_avail: usize, cont_avail: usize) -> (r: Vec<Vec<Seg>>)
    requires
        first_avail >= 1,
        cont_avail >= 1,
    ensures
        r@.len() >= 1,
        lines_words(r@) == seg_words(segs@),
        forall|k: int| 0 <= k < r@.len() ==> fits(#[trigger] r@[k]@, if k == 0 { first_avail as int } else { cont_avail as int }),
        inline_segs(r@) == wrap_spec(segs_v(segs@), first_avail as int, cont_avail as int),
{
    let ghost sv = segs_v(segs@);
    let mut w = Wrapper { lines: Vec::new(), current: Vec::new(), used: 0, avail: first_avail, cont_avail };
    assert(w.words() =~= Seq::<char>::empty());
    assert(inline_segs(w.lines@) =~= Seq::<Seq<SegV>>::empty());
    assert(segs_v(w.current@) =~= Seq::<SegV>::empty());
    assert(sv.take(0) =~= Seq::<SegV>::empty());
    assert(w.state() == w_fold(sv.take(0), first_avail as int, cont_avail as int));
    let mut i: usize = 0;
    while i < segs.len()
        invariant
            i <= segs.len(),
            first_avail >= 1,
            w.ok(first_avail),
            w.cont_avail == cont_avail,
            w.words() == seg_words(segs@.take(i as int)),
            sv == segs_v(segs@),
            w.state() == w_fold(sv.take(i as int), first_avail as int, cont_avail as int),
        decreases segs.len() - i,
    {
        assert(segs@.take(i + 1).drop_last() =~= segs@.take(i as int));
        assert(sv.take(i + 1).drop_last() =~= sv.take(i as int));
        let ghost st = w.state();
        let seg = &segs[i];
        assert(sv.take(i + 1).last() == (seg.text@, seg.style, seg.is_space));
        let seg_w = str_width(seg.text.as_str());
        if seg.is_space && w.current.len() == 0 {
            // whitespace starting a line is dropped
        } else if seg_w <= w.avail && w.used <= w.avail - seg_w {
            w.push(seg.clone(), seg_w, Ghost(first_avail));
        } else if seg.is_space {
            w.flush(Ghost(first_avail));
        } else {
            if seg_w <= w.avail || w.current.len() > 0 {
                w.flush(Ghost(first_avail));
            }
            if seg_w <= w.avail {
                w.push(seg.clone(), seg_w, Ghost(first_avail));
            } else {
                let avail = w.avail;
                let ghost st1 = w.state();
                let pieces = split_to_width(seg.text.as_str(), avail);
                let ghost parts = split_spec(seg.text@, avail as int);
                proof {
                    lemma_split_keeps_text(seg.text@, avail as int);
                }
                let ghost start = w.words();
                let mut j: usize = 0;
                while j < pieces.len()
                    invariant
                        j <= pieces.len(),
                        pieces@.len() == parts.len(),
                        forall|q: int| 0 <= q < pieces@.len() ==> (#[trigger] pieces@[q])@ == parts[q],
                        w.ok(first_avail),
                        w.cont_avail == cont_avail,
                        w.words() == start + concat_all(parts.take(j as int)),
                        w.state() == w_pieces(st1, parts.take(j as int), seg.style, cont_avail as int),
                    decreases pieces.len() - j,
                {
                    assert(parts.take(j + 1).drop_last() =~= parts.take(j as int));
                    let piece = &pieces[j];
                    let piece_w = str_width(piece.as_str());
                    if w.current.len() > 0 && !(piece_w <= w.avail && w.used <= w.avail - piece_w) {
                        w.flush(Ghost(first_avail));
                    }
                    w.push(Seg { text: piece.clone(), style: seg.style, is_space: false }, piece_w, Ghost(first_avail));
                    j = j + 1;
                }
                assert(parts.take(pieces.len() as int) =~= parts);
                assert(w.state() == w_step(st, (seg.text@, seg.style, seg.is_space), cont_avail as int));
            }
        }
        i = i + 1;
    }
    assert(segs@.take(segs.len() as int) =~= segs@);
    assert(sv.take(segs.len() as int) =~= sv);
    if w.current.len() > 0 || w.lines.len() == 0 {
        w.flush(Ghost(first_avail));
    }
    assert(lines_words(w.lines@) + seg_words(w.current@) =~= lines_words(w.lines@));
    w.lines
}


/// The columns left for text after a prefix of `prefix_cols` columns: at
/// least one.
pub open spec fn avail_after(width: usize, prefix_cols: int) -> int {
    if width - prefix_cols >= 1 { width - prefix_cols } else { 1 }
}

/// Segments as spans, as values.
pub open spec fn seg_spans(segs: Seq<Seg>) -> Seq<(Seq<char>, Style)> {
    segs.map_values(|s: Seg| (s.text@, s.style))
}

/// Whether the lines `r` are the segments `segs` wrapped (see
/// `wrap_lines`) into the lines of segments `c`, the first line after
/// `first` and the others after `cont`.
pub open spec fn wrapped(r: Seq<Line>, c: Seq<Vec<Seg>>, segs: Seq<Seg>, width: usize, first: Seq<Span>, cont: Seq<Span>) -> bool {
    &&& r.len() >= 1
    &&& c.len() == r.len()
    &&& lines_words(c) == seg_words(segs)
    &&& forall|k: int| 0 <= k < c.len() ==> fits(
        #[trigger] c[k]@,
        if k == 0 { avail_after(width, spans_cols(first)) } else { avail_after(width, spans_cols(cont)) },
    )
    &&& forall|k: int| 0 <= k < r.len() ==> spans_view((#[trigger] r[k]).spans@) == spans_view(if k == 0 { first } else { cont })
        + seg_spans(c[k]@)
}

/// Segments as spans, as values.
pub open spec fn segv_spans(l: Seq<SegV>) -> Seq<(Seq<char>, Style)> {
    l.map_values(|g: SegV| (g.0, g.1))
}

/// Lines of segments, the first after `fv` and the others after `cv`.
pub open spec fn prefixed_lines(c: Seq<Seq<SegV>>, fv: Seq<(Seq<char>, Style)>, cv: Seq<(Seq<char>, Style)>) -> Seq<Seq<(Seq<char>, Style)>> {
    Seq::new(c.len(), |k: int| (if k == 0 { fv } else { cv }) + segv_spans(c[k]))
}

/// The lines that `segs` wrap into within `width` columns, the first after
/// `first` and the others after `cont`.
pub open spec fn wrapped_lines(segs: Seq<SegV>, width: usize, first: Seq<SpanV>, cont: Seq<SpanV>) -> Seq<Seq<SpanV>> {
    prefixed_lines(wrap_spec(segs, avail_after(width, vcols(first)), avail_after(width, vcols(cont))), first, cont)
}

fn prefixed(prefix: &Vec<Span>, segs: Vec<Seg>) -> (r: Line)
    ensures
        spans_view(r.spans@) == spans_view(prefix@) + seg_spans(segs@),
{
    let mut spans: Vec<Span> = Vec::new();
    let mut i: usize = 0;
    while i < prefix.len()
        invariant
            i <= prefix.len(),
            spans_view(spans@) == spans_view(prefix@.take(i as int)),
        decreases prefix.len() - i,
    {
        let ghost before = spans@;
        let x = prefix[i].clone();
        spans.push(x);
        assert(prefix@.take(i + 1) =~= prefix@.take(i as int).push(prefix@[i as int]));
        assert(spans_view(spans@) =~= spans_view(before).push(span_view(x)));
        assert(spans_view(spans@) =~= spans_view(prefix@.take(i + 1)));
        i = i + 1;
    }
    assert(prefix@.take(prefix.len() as int) =~= prefix@);
    let ghost head = spans_view(spans@);
    let mut j: usize = 0;
    while j < segs.len()
        invariant
            j <= segs.len(),
            spans_view(spans@) == head + seg_spans(segs@.take(j as int)),
        decreases segs.len() - j,
    {
        let seg = &segs[j];
        let ghost before = spans@;
        spans.push(Span { content: seg.text.clone(), style: seg.style });
        assert(segs@.take(j + 1) =~= segs@.take(j as int).push(segs@[j as int]));
        assert(spans_view(spans@) =~= spans_view(before).push((seg.text@, seg.style)));
        assert(seg_spans(segs@.take(j + 1)) =~= seg_spans(segs@.take(j as int)).push((seg.text@, seg.style)));
        assert(spans_view(spans@) =~= head + seg_spans(segs@.take(j + 1)));
        j = j + 1;
    }
    assert(segs@.take(segs.len() as int) =~= segs@);
    Line { spans }
}

/// The lines `segs` wrap into within `width` columns, the first after
/// `first_prefix` and the others after `cont_prefix` (see `wrapped`).
pub fn wrap_segs(segs: &Vec<Seg>, width: usize, first_prefix: &Vec<Span>, cont_prefix: &Vec<Span>) -> (r: Vec<Line>)
    ensures
        exists|c: Seq<Vec<Seg>>| #[trigger] wrapped(r@, c, segs@, width, first_prefix@, cont_prefix@),
        lines_view(r@) == wrapped_lines(segs_v(segs@), width, spans_view(first_prefix@), spans_view(cont_prefix@)),
{
    let first_w = spans_width(first_prefix);
    let cont_w = spans_width(cont_prefix);
    let first_avail: usize = if width > first_w && width - first_w >= 1 { width - first_w } else { 1 };
    let cont_avail: usize = if width > cont_w && width - cont_w >= 1 { width - cont_w } else { 1 };
    assert(first_avail == avail_after(width, spans_cols(first_prefix@)));
    assert(cont_avail == avail_after(width, spans_cols(cont_prefix@)));
    let wrapped_rows = wrap_lines(segs, first_avail, cont_avail);
    let ghost c = wrapped_rows@;
    let mut out: Vec<Line> = Vec::new();
    let mut rest = wrapped_rows;
    let mut rev: Vec<Vec<Seg>> = Vec::new();
    while rest.len() > 0
        invariant
            rev@.len() + rest@.len() == c.len(),
            rest@ == c.take(rest@.len() as int),
            forall|k: int| 0 <= k < rev@.len() ==> #[trigger] rev@[k] == c[c.len() - 1 - k],
        decreases rest.len(),
    {
        let line = rest.pop().unwrap();
        rev.push(line);
        assert(rest@ =~= c.take(rest@.len() as int));
    }
    while rev.len() > 0
        invariant
            rev@.len() + out@.len() == c.len(),
            forall|k: int| 0 <= k < rev@.len() ==> #[trigger] rev@[k] == c[c.len() - 1 - k],
            forall|k: int| 0 <= k < out@.len() ==> spans_view((#[trigger] out@[k]).spans@) == spans_view(
                if k == 0 { first_prefix@ } else { cont_prefix@ },
            ) + seg_spans(c[k]@),
        decreases rev.len(),
    {
        let line = rev.pop().unwrap();
        let prefix = if out.len() == 0 { first_prefix } else { cont_prefix };
        out.push(prefixed(prefix, line));
    }
    assert(wrapped(out@, c, segs@, width, first_prefix@, cont_prefix@));
    proof {
        lemma_vcols(first_prefix@);
        lemma_vcols(cont_prefix@);
        let want = wrapped_lines(segs_v(segs@), width, spans_view(first_prefix@), spans_view(cont_prefix@));
        assert(want =~= prefixed_lines(inline_segs(c), spans_view(first_prefix@), spans_view(cont_prefix@)));
        assert forall|k: int| 0 <= k < out@.len() implies #[trigger] lines_view(out@)[k] == want[k] by {
            assert(seg_spans(c[k]@) =~= segv_spans(inline_segs(c)[k]));
        }
        assert(lines_view(out@) =~= want);
    }
    out
}

/// Whether a line shows nothing: all its spans are whitespace.
pub open spec fn blank_line(line: Line) -> bool {
    forall|i: int| 0 <= i < line.spans@.len() ==> trim((#[trigger] line.spans@[i]).content@).len() == 0
}

/// Whether `line` shows nothing.
pub fn is_blank_line(line: &Line) -> (r: bool)
    ensures
        r == blank_line(*line),
{
    let mut i: usize = 0;
    while i < line.spans.len()
        invariant
            i <= line.spans.len(),
            forall|k: int| 0 <= k < i ==> trim((#[trigger] line.spans@[k]).content@).len() == 0,
        decreases line.spans.len() - i,
    {
        let cs = chars_of(line.spans[i].content.as_str());
        let (lo, hi) = trim_bounds(&cs, 0, cs.len());
        assert(cs@.subrange(0, cs@.len() as int) =~= cs@);
        if lo < hi {
            return false;
        }
        i = i + 1;
    }
    true
}

/// Lines, as values.
pub open spec fn lines_view(lines: Seq<Line>) -> Seq<Seq<(Seq<char>, Style)>> {
    lines.map_values(|l: Line| spans_view(l.spans@))
}

/// The index of the first line of `ls` at or after `i` that is not
/// blank, or `ls.len()` when there is none.
pub open spec fn first_shown(ls: Seq<Seq<SpanV>>, i: int) -> int
    decreases ls.len() - i,
{
    if i < 0 || i >= ls.len() {
        ls.len() as int
    } else if blank_v(ls[i]) {
        first_shown(ls, i + 1)
    } else {
        i
    }
}

/// The index just past the last line of `ls` before `j` that is not
/// blank, or 0 when there is none.
pub open spec fn end_shown(ls: Seq<Seq<SpanV>>, j: int) -> int
    decreases j,
{
    if j <= 0 || j > ls.len() {
        0
    } else if blank_v(ls[j - 1]) {
        end_shown(ls, j - 1)
    } else {
        j
    }
}

proof fn lemma_end_shown_le(ls: Seq<Seq<SpanV>>, j: int)
    requires
        0 <= j <= ls.len(),
    ensures
        0 <= end_shown(ls, j) <= j,
    decreases j,
{
    if j > 0 && blank_v(ls[j - 1]) {
        lemma_end_shown_le(ls, j - 1);
    }
}

/// `ls` without its blank lines at the start and at the end.
pub open spec fn trim_edges_v(ls: Seq<Seq<SpanV>>) -> Seq<Seq<SpanV>> {
    let a = first_shown(ls, 0);
    let b = end_shown(ls, ls.len() as int);
    if a < b { ls.subrange(a, b) } else { seq![] }
}

/// Drops the blank lines at the start and at the end of `lines`.
pub fn trim_blank_edges(lines: &mut Vec<Line>)
    ensures
        exists|a: int, b: int| #![trigger old(lines)@.subrange(a, b)]
            0 <= a <= b <= old(lines)@.len() && final(lines)@ == old(lines)@.subrange(a, b)
            && (forall|i: int| 0 <= i < a ==> blank_line(#[trigger] old(lines)@[i]))
            && (forall|i: int| b <= i < old(lines)@.len() ==> blank_line(#[trigger] old(lines)@[i])),
        final(lines)@.len() > 0 ==> !blank_line(final(lines)@[0]) && !blank_line(final(lines)@.last()),
        lines_view(final(lines)@) == trim_edges_v(lines_view(old(lines)@)),
{
    let ghost orig = lines@;
    let ghost lv = lines_view(orig);
    let ghost mut a: int = 0;
    while lines.len() > 0 && is_blank_line(&lines[0])
        invariant
            0 <= a <= orig.len(),
            lv == lines_view(orig),
            lines@ == orig.subrange(a, orig.len() as int),
            forall|i: int| 0 <= i < a ==> blank_line(#[trigger] orig[i]),
            first_shown(lv, 0) == first_shown(lv, a),
        decreases lines.len(),
    {
        proof {
            lemma_blank_v(orig[a]);
            assert(lv[a] == spans_view(orig[a].spans@));
        }
        lines.remove(0);
        proof {
            a = a + 1;
        }
        assert(lines@ =~= orig.subrange(a, orig.len() as int));
    }
    proof {
        if a < orig.len() {
            lemma_blank_v(orig[a]);
            assert(lines@[0] == orig[a]);
            assert(lv[a] == spans_view(orig[a].spans@));
        }
        assert(first_shown(lv, a) == a);
    }
    let ghost mut b: int = orig.len() as int;
    while lines.len() > 0 && is_blank_line(&lines[lines.len() - 1])
        invariant
            0 <= a <= b <= orig.len(),
            lv == lines_view(orig),
            lines@ == orig.subrange(a, b),
            forall|i: int| 0 <= i < a ==> blank_line(#[trigger] orig[i]),
            forall|i: int| b <= i < orig.len() ==> blank_line(#[trigger] orig[i]),
            lines@.len() > 0 && a < orig.len() ==> !blank_line(orig[a]),
            first_shown(lv, 0) == a,
            end_shown(lv, orig.len() as int) == end_shown(lv, b),
        decreases lines.len(),
    {
        proof {
            lemma_blank_v(orig[b - 1]);
            assert(lines@[lines@.len() - 1] == orig[b - 1]);
            assert(lv[b - 1] == spans_view(orig[b - 1].spans@));
        }
        lines.pop();
        proof {
            b = b - 1;
        }
        assert(lines@ =~= orig.subrange(a, b));
    }
    proof {
        lemma_end_shown_le(lv, b);
        if lines@.len() > 0 {
            lemma_blank_v(orig[b - 1]);
            assert(lines@[lines@.len() - 1] == orig[b - 1]);
            assert(lv[b - 1] == spans_view(orig[b - 1].spans@));
            assert(end_shown(lv, b) == b);
            assert(lines_view(lines@) =~= lv.subrange(a, b));
        } else {
            assert(lines_view(lines@) =~= Seq::<Seq<SpanV>>::empty());
        }
    }
}

/// Appends a blank line (the prefix alone) to separate blocks, unless
/// `out` is empty or already ends with a blank line.
pub fn separate(out: &mut Vec<Line>, prefix: &Vec<Span>)
    ensures
        if old(out)@.len() == 0 || blank_line(old(out)@.last()) {
            final(out)@ == old(out)@
        } else {
            final(out)@.len() == old(out)@.len() + 1 && final(out)@.drop_last() == old(out)@ && spans_view(
                final(out)@.last().spans@,
            ) == spans_view(prefix@)
        },
{
    if out.len() == 0 {
        return;
    }
    if is_blank_line(&out[out.len() - 1]) {
        return;
    }
    let line = prefixed(prefix, Vec::new());
    assert(seg_spans(Seq::<Seg>::empty()) =~= Seq::empty());
    assert(spans_view(prefix@) + Seq::<(Seq<char>, Style)>::empty() =~= spans_view(prefix@));
    let ghost before = out@;
    out.push(line);
    assert(out@.drop_last() =~= before);
}


/// What a Markdown node is, with what the renderer reads of it. Fields
/// that do not apply to a kind are empty.
#[derive(Debug)]
pub struct MdNode {
    /// The kind of the node, by the name `comrak` gives it.
    pub kind: String,
    /// The text of a text, code, math or raw node.
    pub text: Option<String>,
    /// The info string and the content of a code block.
    pub code_block: Option<(String, String)>,
    /// The level of a heading.
    pub heading: Option<u8>,
    /// Of a list or a list item: whether it is ordered, its start and
    /// whether its delimiter is a parenthesis.
    pub list: Option<(bool, usize, bool)>,
    /// Of a task item: whether it is checked.
    pub task: Option<bool>,
    /// Of a table row: whether it is the header.
    pub row_header: Option<bool>,
    /// The destination of a link or an image.
    pub url: Option<String>,
    /// The name of a footnote definition or reference.
    pub footnote: Option<String>,
    /// Of an alert: its type's name and its title.
    pub alert: Option<(String, Option<String>)>,
}

/// A step of a walk through a Markdown document in document order: a node
/// starts, or the last started node ends.
#[derive(Debug)]
pub enum MdEvent {
    Enter(MdNode),
    Exit,
}

/// A Markdown node and its children.
#[derive(Debug)]
pub struct MdTree {
    pub node: MdNode,
    pub children: Vec<MdTree>,
}

/// `comrak`'s node value.
#[verifier::external_type_specification]
#[verifier::external_body]
pub struct ExNodeValue(NodeValue);

/// The steps `comrak` walks through `text` as a document (with
/// strikethrough, tables, task lists, autolinks and footnotes).
pub uninterp spec fn markdown_walk(text: Seq<char>) -> Seq<MdEvent>;

/// Parses `text` with `comrak::parse_document`, with the strikethrough,
/// table, task list, autolink and footnote extensions, and walks the tree
/// with `traverse`. The contract names the result.
#[verifier::external_body]
fn markdown_events(text: &str) -> (r: Vec<MdEvent>)
    ensures
        r@ == markdown_walk(text@),
{
    let arena = comrak::Arena::new();
    let mut options = comrak::Options::default();
    options.extension.strikethrough = true;
    options.extension.table = true;
    options.extension.tasklist = true;
    options.extension.autolink = true;
    options.extension.footnotes = true;
    let root = comrak::parse_document(&arena, text, &options);
    root.traverse().map(|edge| match edge {
        comrak::arena_tree::NodeEdge::Start(node) => MdEvent::Enter(md_node(&node.data.borrow().value)),
        comrak::arena_tree::NodeEdge::End(_) => MdEvent::Exit,
    }).collect()
}

/// What the renderer reads of a node value.
fn md_node(value: &NodeValue) -> (r: MdNode) {
    MdNode {
        kind: node_kind(value),
        text: node_text(value),
        code_block: node_code_block(value),
        heading: node_heading(value),
        list: node_list(value),
        task: node_task(value),
        row_header: node_row_header(value),
        url: node_url(value),
        footnote: node_footnote(value),
        alert: node_alert(value),
    }
}

/// The kind of a node by `NodeValue::xml_node_name`.
#[verifier::external_body]
fn node_kind(value: &NodeValue) -> (r: String) {
    value.xml_node_name().to_owned()
}

/// The text of a text, inline code, math or raw node.
#[verifier::external_body]
fn node_text(value: &NodeValue) -> (r: Option<String>) {
    match value {
        NodeValue::Text(t) => Some(t.to_string()),
        NodeValue::Code(c) => Some(c.literal.clone()),
        NodeValue::Math(m) => Some(m.literal.clone()),
        NodeValue::Raw(t) => Some(t.clone()),
        _ => None,
    }
}

/// The info string and content of a code block.
#[verifier::external_body]
fn node_code_block(value: &NodeValue) -> (r: Option<(String, String)>) {
    match value {
        NodeValue::CodeBlock(b) => Some((b.info.clone(), b.literal.clone())),
        _ => None,
    }
}

/// The level of a heading.
#[verifier::external_body]
fn node_heading(value: &NodeValue) -> (r: Option<u8>) {
    match value {
        NodeValue::Heading(h) => Some(h.level),
        _ => None,
    }
}

/// Of a list or list item: ordered, start, parenthesis delimiter.
#[verifier::external_body]
fn node_list(value: &NodeValue) -> (r: Option<(bool, usize, bool)>) {
    match value {
        NodeValue::List(l) | NodeValue::Item(l) => Some((l.list_type == ListType::Ordered, l.start, l.delimiter == ListDelimType::Paren)),
        _ => None,
    }
}

/// Whether a task item is checked.
#[verifier::external_body]
fn node_task(value: &NodeValue) -> (r: Option<bool>) {
    match value {
        NodeValue::TaskItem(t) => Some(t.symbol.is_some()),
        _ => None,
    }
}

/// Whether a table row is the header.
#[verifier::external_body]
fn node_row_header(value: &NodeValue) -> (r: Option<bool>) {
    match value {
        NodeValue::TableRow(header) => Some(*header),
        _ => None,
    }
}

/// The destination of a link or image.
#[verifier::external_body]
fn node_url(value: &NodeValue) -> (r: Option<String>) {
    match value {
        NodeValue::Link(l) | NodeValue::Image(l) => Some(l.url.clone()),
        _ => None,
    }
}

/// The name of a footnote definition or reference.
#[verifier::external_body]
fn node_footnote(value: &NodeValue) -> (r: Option<String>) {
    match value {
        NodeValue::FootnoteDefinition(f) => Some(f.name.clone()),
        NodeValue::FootnoteReference(f) => Some(f.name.clone()),
        _ => None,
    }
}

/// The type (by its `Debug` name) and title of an alert.
#[verifier::external_body]
fn node_alert(value: &NodeValue) -> (r: Option<(String, Option<String>)>) {
    match value {
        NodeValue::Alert(a) => Some((format!("{:?}", a.alert_type), a.title.clone())),
        _ => None,
    }
}

/// The steps a walk takes through `t`: it enters `t`, walks its children
/// in order, and leaves.
pub open spec fn tree_events(t: MdTree) -> Seq<MdEvent>
    decreases t, 0nat,
{
    proof {
        assert(decreases_to!(t => t.children@));
    }
    seq![MdEvent::Enter(t.node)] + forest_events(t.children@) + seq![MdEvent::Exit]
}

/// The steps of walks through `ts`, one after another.
pub open spec fn forest_events(ts: Seq<MdTree>) -> Seq<MdEvent>
    decreases ts, 0nat,
{
    if ts.len() == 0 {
        seq![]
    } else {
        proof {
            assert(decreases_to!(ts => ts.drop_last()));
            assert(decreases_to!(ts => ts[ts.len() - 1]));
        }
        forest_events(ts.drop_last()) + tree_events(ts[ts.len() - 1])
    }
}

/// The steps taken so far into a node still open: entering it, then the
/// walks of its finished children.
pub open spec fn frame_events(f: (MdNode, Vec<MdTree>)) -> Seq<MdEvent> {
    seq![MdEvent::Enter(f.0)] + forest_events(f.1@)
}

/// The steps taken into the open nodes, outermost first.
pub open spec fn open_events(fs: Seq<(MdNode, Vec<MdTree>)>) -> Seq<MdEvent>
    decreases fs.len(),
{
    if fs.len() == 0 {
        seq![]
    } else {
        open_events(fs.drop_last()) + frame_events(fs.last())
    }
}

/// Whether the walk of `t` is a run of the steps `es`.
pub open spec fn walk_within(t: MdTree, es: Seq<MdEvent>) -> bool {
    exists|a: int| 0 <= a && a + tree_events(t).len() <= es.len()
        && #[trigger] es.subrange(a, a + tree_events(t).len()) == tree_events(t)
}

/// Whether the walk of `t` is the run of `es` that starts where no node is
/// open and ends with the last step that leaves a node entered at the top.
pub open spec fn top_tree(t: MdTree, es: Seq<MdEvent>) -> bool {
    exists|a: int|
        #![trigger es.subrange(a, a + tree_events(t).len())]
        0 <= a && a + tree_events(t).len() <= es.len() && depth(es.take(a)) == 0
            && es.subrange(a, a + tree_events(t).len()) == tree_events(t)
            && top_exit(es, a + tree_events(t).len() - 1)
            && forall|k: int| a + tree_events(t).len() <= k < es.len() ==> !#[trigger] top_exit(es, k)
}

/// How many nodes the steps `es` leave open: entries less exits.
pub open spec fn depth(es: Seq<MdEvent>) -> int
    decreases es.len(),
{
    if es.len() == 0 {
        0
    } else {
        depth(es.drop_last()) + match es.last() {
            MdEvent::Enter(_) => 1int,
            MdEvent::Exit => -1int,
        }
    }
}

/// Whether step `k` of `es` leaves a node that was never entered.
pub open spec fn stray_exit(es: Seq<MdEvent>, k: int) -> bool {
    0 <= k < es.len() && es[k] is Exit && depth(es.take(k)) == 0
}

/// Whether step `k` of `es` leaves a node entered at the top.
pub open spec fn top_exit(es: Seq<MdEvent>, k: int) -> bool {
    0 <= k < es.len() && es[k] is Exit && depth(es.take(k)) == 1
}

/// The tree of the steps `events`: the last node the walk entered at the
/// top and left again, with its descendants, whose walk is a run of the
/// steps; `None` exactly when the walk leaves a node it never entered or
/// leaves no node entered at the top.
#[verifier::rlimit(80)]
fn tree_of(events: Vec<MdEvent>) -> (r: Option<MdTree>)
    ensures
        r is Some <==> (!exists|k: int| #[trigger] stray_exit(events@, k)) && exists|k: int| #[trigger] top_exit(events@, k),
        match r {
            Some(t) => walk_within(t, events@) && top_tree(t, events@),
            None => true,
        },
{
    let ghost es = events@;
    let n = events.len();
    let mut stack: Vec<(MdNode, Vec<MdTree>)> = Vec::new();
    let mut rest = events;
    let mut rev: Vec<MdEvent> = Vec::new();
    while rest.len() > 0
        invariant
            rev@.len() + rest@.len() == es.len(),
            rest@ == es.take(rest@.len() as int),
            forall|k: int| 0 <= k < rev@.len() ==> #[trigger] rev@[k] == es[es.len() - 1 - k],
        decreases rest.len(),
    {
        let e = rest.pop().unwrap();
        rev.push(e);
        assert(rest@ =~= es.take(rest@.len() as int));
    }
    let mut done: Option<MdTree> = None;
    let ghost mut d: Seq<MdEvent> = seq![];
    let ghost mut i: int = 0;
    assert(es.take(0) =~= d + open_events(stack@));
    while rev.len() > 0
        invariant
            rev@.len() == es.len() - i,
            0 <= i <= es.len(),
            forall|k: int| 0 <= k < rev@.len() ==> #[trigger] rev@[k] == es[es.len() - 1 - k],
            es.take(i) == d + open_events(stack@),
            d.len() <= es.len(),
            es.take(d.len() as int) == d,
            depth(d) == 0,
            d.len() <= i,
            forall|k: int| d.len() <= k < i ==> !#[trigger] top_exit(es, k),
            match done {
                Some(t) => d.len() >= tree_events(t).len() && d.subrange(
                    d.len() - tree_events(t).len(),
                    d.len() as int,
                ) == tree_events(t) && top_exit(es, d.len() - 1) && depth(es.take(d.len() - tree_events(t).len())) == 0,
                None => true,
            },
            stack@.len() == depth(es.take(i)),
            es == events@,
            forall|k: int| 0 <= k < i ==> !#[trigger] stray_exit(es, k),
            done is Some <==> exists|k: int| 0 <= k < i && #[trigger] top_exit(es, k),
        decreases rev.len(),
    {
        let ghost p = es.take(i);
        let e = rev.pop().unwrap();
        assert(e == es[i]);
        assert(es.take(i + 1) =~= p.push(es[i]));
        assert(es.take(i + 1).drop_last() =~= p);
        let ghost done_before = done is Some;
        match e {
            MdEvent::Enter(node) => {
                let ghost s0 = stack@;
                let frame = (node, Vec::new());
                assert(forest_events(frame.1@) =~= Seq::<MdEvent>::empty());
                stack.push(frame);
                assert(stack@ =~= s0.push(frame));
                assert(stack@.drop_last() =~= s0);
                assert(es.take(i + 1) =~= d + open_events(stack@));
            },
            MdEvent::Exit => {
                let ghost s0 = stack@;
                let (node, children) = match stack.pop() {
                    Some(top) => top,
                    None => {
                        assert(stray_exit(es, i));
                        return None;
                    },
                };
                assert(!stray_exit(es, i));
                let ghost top = (node, children);
                assert(s0.drop_last() == stack@);
                assert(s0.last() == top);
                assert(open_events(s0) == open_events(s0.drop_last()) + frame_events(s0.last()));
                let tree = MdTree { node, children };
                assert(tree_events(tree) =~= frame_events(top).push(MdEvent::Exit));
                if stack.len() == 0 {
                    proof {
                        assert(open_events(stack@) =~= Seq::<MdEvent>::empty());
                        assert(open_events(s0) =~= frame_events(top));
                        let d_old = d;
                        assert(es.take(d_old.len() as int) == d_old);
                        assert(es.take(i + 1) =~= d_old + tree_events(tree));
                        d = es.take(i + 1);
                        assert(d.len() - tree_events(tree).len() == d_old.len());
                        assert(d =~= p.push(MdEvent::Exit));
                        assert(d.subrange(d.len() - tree_events(tree).len(), d.len() as int) =~= tree_events(tree));
                        assert(es.take(d.len() as int) =~= d);
                    }
                    done = Some(tree);
                    assert(top_exit(es, i));
                    assert(es.take(i + 1) =~= d + open_events(stack@));
                } else {
                    let ghost s1 = stack@;
                    let (parent, mut siblings) = stack.pop().unwrap();
                    let ghost f0 = (parent, siblings);
                    assert(s1.last() == f0 && s1.drop_last() == stack@);
                    assert(open_events(s1) == open_events(s1.drop_last()) + frame_events(s1.last()));
                    let ghost sib0 = siblings@;
                    siblings.push(tree);
                    assert(siblings@.drop_last() =~= sib0);
                    let f1 = (parent, siblings);
                    assert(frame_events(f1) =~= frame_events(f0) + tree_events(tree));
                    stack.push(f1);
                    assert(!top_exit(es, i));
                    proof {
                        assert(s1.drop_last() =~= stack@.drop_last());
                        assert(open_events(s0) =~= open_events(s1.drop_last()) + frame_events(f0) + frame_events(top));
                        assert(open_events(stack@) =~= open_events(s1.drop_last()) + frame_events(f1));
                        assert(es.take(i + 1) =~= d + open_events(stack@));
                    }
                }
            },
        }
        proof {
            assert(!top_exit(es, i) ==> (done is Some <==> done_before));
            assert forall|k: int| 0 <= k < i + 1 implies !#[trigger] stray_exit(es, k) by {
                if k < i {
                } else {
                    assert(k == i);
                }
            }
            assert((done is Some) <==> exists|k: int| 0 <= k < i + 1 && #[trigger] top_exit(es, k)) by {
                if done is Some && !done_before {
                    assert(top_exit(es, i));
                }
                if exists|k: int| 0 <= k < i + 1 && #[trigger] top_exit(es, k) {
                    let k = choose|k: int| 0 <= k < i + 1 && #[trigger] top_exit(es, k);
                    if k < i {
                        assert(done_before);
                    }
                }
            }
            i = i + 1;
        }
    }
    let ghost last = done;
    proof {
        match last {
            Some(t) => {
                let a = d.len() - tree_events(t).len();
                assert(es.subrange(a, a + tree_events(t).len()) =~= d.subrange(a, d.len() as int));
                assert(walk_within(t, es));
                assert(es.take(a) =~= d.take(a));
                assert(top_tree(t, es));
            },
            None => {},
        }
    }
    done
}

/// Whether `new` is `old` with lines appended.
pub open spec fn extends(new: Seq<Line>, old: Seq<Line>) -> bool {
    new.len() >= old.len() && new.take(old.len() as int) == old
}

proof fn lemma_extends_refl(a: Seq<Line>)
    ensures
        extends(a, a),
{
    assert(a.take(a.len() as int) =~= a);
}

proof fn lemma_extends_trans(c: Seq<Line>, b: Seq<Line>, a: Seq<Line>)
    requires
        c.len() >= b.len() && c.take(b.len() as int) == b,
        extends(b, a),
    ensures
        extends(c, a),
{
    assert(c.take(a.len() as int) =~= c.take(b.len() as int).take(a.len() as int));
}

fn is_kind(node: &MdNode, kind: &str) -> (r: bool)
    ensures
        r == (node.kind@ == kind@),
{
    eq_str(&chars_of(node.kind.as_str()), kind)
}

/// Dimmed text.
pub open spec fn dim_spec() -> Style {
    Style { fg: Some(Color::DarkGray), ..Style::plain_spec() }
}

/// Dimmed text.
pub fn dim() -> (r: Style)
    ensures
        r == dim_spec(),
{
    Style::plain().fg(Color::DarkGray)
}

/// Inline code.
pub fn code_style() -> (r: Style)
    ensures
        r == (Style { fg: Some(Color::Cyan), ..Style::plain_spec() }),
{
    Style::plain().fg(Color::Cyan)
}

/// A heading of `level`: bold, magenta for the first level, cyan for the
/// second, blue below.
pub fn heading_style(level: u8) -> (r: Style)
    ensures
        r == (Style {
            fg: Some(if level == 1 { Color::Magenta } else if level == 2 { Color::Cyan } else { Color::Blue }),
            bold: true,
            ..Style::plain_spec()
        }),
{
    let base = Style::plain().bold();
    if level == 1 {
        base.fg(Color::Magenta)
    } else if level == 2 {
        base.fg(Color::Cyan)
    } else {
        base.fg(Color::Blue)
    }
}

/// The text of some segments, one after another.
pub open spec fn segs_text(segs: Seq<Seg>) -> Seq<char>
    decreases segs.len(),
{
    if segs.len() == 0 {
        seq![]
    } else {
        segs_text(segs.drop_last()) + segs.last().text@
    }
}

/// The text of each line of inline content.
pub open spec fn inline_texts(lines: Seq<Vec<Seg>>) -> Seq<Seq<char>> {
    lines.map_values(|l: Vec<Seg>| segs_text(l@))
}

/// The lines after `t` is added to the current (last) line; the first
/// text opens a line.
pub open spec fn add_text(lines: Seq<Seq<char>>, t: Seq<char>) -> Seq<Seq<char>> {
    if t.len() == 0 {
        lines
    } else if lines.len() == 0 {
        seq![t]
    } else {
        lines.update(lines.len() - 1, lines.last() + t)
    }
}

/// A segment as a value: its text, its style and whether it is whitespace.
pub type SegV = (Seq<char>, Style, bool);

/// Segments as values.
pub open spec fn segs_v(segs: Seq<Seg>) -> Seq<SegV> {
    segs.map_values(|g: Seg| (g.text@, g.style, g.is_space))
}

/// Lines of segments as values.
pub open spec fn inline_segs(lines: Seq<Vec<Seg>>) -> Seq<Seq<SegV>> {
    lines.map_values(|l: Vec<Seg>| segs_v(l@))
}

/// The segments of `t` in `style`: its runs of whitespace and of other
/// characters.
pub open spec fn text_segs(t: Seq<char>, style: Style) -> Seq<SegV> {
    groups(t).map_values(|g: (bool, Seq<char>)| (g.1, style, g.0))
}

/// The lines of segments after `t` in `style` is added to the current
/// (last) line; the first text opens a line.
pub open spec fn add_segs(ls: Seq<Seq<SegV>>, t: Seq<char>, style: Style) -> Seq<Seq<SegV>> {
    if t.len() == 0 {
        ls
    } else if ls.len() == 0 {
        seq![text_segs(t, style)]
    } else {
        ls.update(ls.len() - 1, ls.last() + text_segs(t, style))
    }
}

/// The runs of `gs`, one after another.
pub open spec fn groups_text(gs: Seq<(bool, Seq<char>)>) -> Seq<char>
    decreases gs.len(),
{
    if gs.len() == 0 {
        seq![]
    } else {
        groups_text(gs.drop_last()) + gs.last().1
    }
}

/// The runs of a text make up the text.
proof fn lemma_groups_text(s: Seq<char>)
    ensures
        groups_text(groups(s)) == s,
    decreases s.len(),
{
    if s.len() > 0 {
        lemma_groups_text(s.drop_last());
        let before = groups(s.drop_last());
        let c = s.last();
        assert(s.drop_last().push(c) =~= s);
        if before.len() > 0 && before.last().0 == crate::text::is_ws(c) {
            let after = before.update(before.len() - 1, (crate::text::is_ws(c), before.last().1.push(c)));
            assert(groups(s) == after);
            assert(after.drop_last() =~= before.drop_last());
            assert(groups_text(before) == groups_text(before.drop_last()) + before.last().1);
            assert(groups_text(after) == groups_text(after.drop_last()) + after.last().1);
            assert(groups_text(before.drop_last()) + before.last().1.push(c) =~= (groups_text(before.drop_last())
                + before.last().1).push(c));
        } else {
            let after = before.push((crate::text::is_ws(c), seq![c]));
            assert(groups(s) == after);
            assert(after.drop_last() =~= before);
            assert(groups_text(after) == groups_text(before) + seq![c]);
            assert(groups_text(before) + seq![c] =~= groups_text(before).push(c));
        }
    }
}

/// The inline content of a block, in lines that hard breaks separate.
pub struct Inlines {
    pub lines: Vec<Vec<Seg>>,
}

impl Inlines {
    /// No content yet.
    pub fn new() -> (r: Inlines)
        ensures
            r.lines@.len() == 0,
    {
        Inlines { lines: Vec::new() }
    }

    /// Adds `text` in `style` to the current line, as runs of whitespace
    /// and of other characters.
    pub fn push_text(&mut self, text: &str, style: Style)
        ensures
            text@.len() == 0 ==> final(self).lines@ == old(self).lines@,
            text@.len() > 0 ==> final(self).lines@.len() == if old(self).lines@.len() == 0 { 1 } else { old(self).lines@.len() },
            inline_texts(final(self).lines@) == add_text(inline_texts(old(self).lines@), text@),
            inline_segs(final(self).lines@) == add_segs(inline_segs(old(self).lines@), text@, style),
    {
        if chars_of(text).len() == 0 {
            return;
        }
        let ghost old_texts = inline_texts(self.lines@);
        let ghost old_segs = inline_segs(self.lines@);
        if self.lines.len() == 0 {
            self.lines.push(Vec::new());
            assert(segs_text(self.lines@[0]@) =~= Seq::<char>::empty());
        }
        let n = self.lines.len();
        let ghost rest = self.lines@.drop_last();
        let mut current = self.lines.pop().unwrap();
        let ghost start = segs_text(current@);
        let ghost start_v = segs_v(current@);
        let ghost gs = groups(text@);
        let runs = group_by_space(text);
        let mut i: usize = 0;
        while i < runs.len()
            invariant
                i <= runs.len(),
                runs@.len() == gs.len(),
                forall|k: int| 0 <= k < runs@.len() ==> (#[trigger] runs@[k]).0 == gs[k].0 && runs@[k].1@ == gs[k].1,
                segs_text(current@) == start + groups_text(gs.take(i as int)),
                segs_v(current@) == start_v + text_segs(text@, style).take(i as int),
                gs == groups(text@),
            decreases runs.len() - i,
        {
            let (is_space, ref group) = runs[i];
            let seg = Seg { text: group.clone(), style, is_space };
            let ghost c0 = current@;
            current.push(seg);
            assert(current@.drop_last() =~= c0);
            assert(segs_v(current@) =~= segs_v(c0).push((group@, style, is_space)));
            assert(text_segs(text@, style)[i as int] == (gs[i as int].1, style, gs[i as int].0));
            assert(text_segs(text@, style).take(i + 1) =~= text_segs(text@, style).take(i as int).push(text_segs(text@, style)[i as int]));
            assert(segs_v(current@) =~= start_v + text_segs(text@, style).take(i + 1));
            assert(gs.take(i + 1).drop_last() =~= gs.take(i as int));
            i = i + 1;
        }
        proof {
            assert(gs.take(gs.len() as int) =~= gs);
            lemma_groups_text(text@);
        }
        let ghost cur = current;
        self.lines.push(current);
        assert(self.lines@.len() == n);
        assert(self.lines@ =~= rest.push(cur));
        assert(inline_texts(self.lines@) =~= add_text(old_texts, text@));
        assert(text_segs(text@, style).take(gs.len() as int) =~= text_segs(text@, style));
        assert(inline_segs(self.lines@) =~= add_segs(old_segs, text@, style));
    }

    /// Starts a new line.
    pub fn hard_break(&mut self)
        ensures
            final(self).lines@.len() == old(self).lines@.len() + 1,
            inline_texts(final(self).lines@) == inline_texts(old(self).lines@).push(seq![]),
            inline_segs(final(self).lines@) == inline_segs(old(self).lines@).push(seq![]),
    {
        let ghost before = self.lines@;
        let empty: Vec<Seg> = Vec::new();
        self.lines.push(empty);
        assert(self.lines@ =~= before.push(empty));
        assert(segs_text(empty@) =~= Seq::<char>::empty());
        assert(inline_texts(self.lines@) =~= inline_texts(before).push(seq![]));
        assert(segs_v(empty@) =~= Seq::<SegV>::empty());
        assert(inline_segs(self.lines@) =~= inline_segs(before).push(seq![]));
    }

    /// Whether there is nothing but whitespace.
    pub fn is_empty(&self) -> (r: bool)
        ensures
            r == forall|i: int, j: int| 0 <= i < self.lines@.len() && 0 <= j < self.lines@[i]@.len() ==> (#[trigger] self.lines@[i]@[j]).is_space,
    {
        let mut i: usize = 0;
        while i < self.lines.len()
            invariant
                i <= self.lines.len(),
                forall|a: int, b: int| 0 <= a < i && 0 <= b < self.lines@[a]@.len() ==> (#[trigger] self.lines@[a]@[b]).is_space,
            decreases self.lines.len() - i,
        {
            let mut j: usize = 0;
            while j < self.lines[i].len()
                invariant
                    i < self.lines.len(),
                    j <= self.lines@[i as int]@.len(),
                    forall|b: int| 0 <= b < j ==> (#[trigger] self.lines@[i as int]@[b]).is_space,
                decreases self.lines[i as int]@.len() - j,
            {
                if !self.lines[i][j].is_space {
                    return false;
                }
                j = j + 1;
            }
            i = i + 1;
        }
        true
    }
}

/// The text a node holds itself when it is a text node.
pub open spec fn own_text(node: MdNode) -> Seq<char> {
    if node.kind@ == "text"@ {
        match node.text {
            Some(t) => t@,
            None => seq![],
        }
    } else {
        seq![]
    }
}

/// The text of the text nodes of `t`, in document order.
pub open spec fn tree_text(t: MdTree) -> Seq<char>
    decreases t, 1nat, 0nat,
{
    own_text(t.node) + children_text(t, t.children@.len() as nat)
}

/// The text of the text nodes of the first `k` children of `t`.
pub open spec fn children_text(t: MdTree, k: nat) -> Seq<char>
    decreases t, 0nat, k,
{
    if k == 0 || k > t.children@.len() {
        seq![]
    } else {
        proof {
            assert(decreases_to!(t => t.children@[k - 1]));
        }
        children_text(t, (k - 1) as nat) + tree_text(t.children@[k - 1])
    }
}

/// The text of the text nodes of `tree`, in document order, added to `out`.
fn collect_text(tree: &MdTree, out: &mut String)
    ensures
        final(out)@ == old(out)@ + tree_text(*tree),
    decreases tree,
{
    let ghost start = out@;
    if is_kind(&tree.node, "text") {
        match &tree.node.text {
            Some(t) => append_str(out, t.as_str()),
            None => {},
        }
    }
    assert(out@ == start + own_text(tree.node));
    let mut i: usize = 0;
    while i < tree.children.len()
        invariant
            i <= tree.children.len(),
            out@ == start + own_text(tree.node) + children_text(*tree, i as nat),
        decreases tree.children.len() - i,
    {
        proof {
            assert(decreases_to!(tree => tree.children@[i as int]));
        }
        collect_text(&tree.children[i], out);
        assert(children_text(*tree, (i + 1) as nat) == children_text(*tree, i as nat) + tree_text(tree.children@[i as int]));
        i = i + 1;
    }
    assert(out@ =~= start + tree_text(*tree));
}

/// Whether a link's visible text is its URL (or `mailto:` and its text).
pub open spec fn text_is_url(t: MdTree, url: Seq<char>) -> bool {
    url == trim(tree_text(t)) || url == "mailto:"@ + trim(tree_text(t))
}

/// Whether a link's visible text is its URL, as for an autolink, so that
/// showing the URL again would repeat it.
fn link_text_is_url(tree: &MdTree, url: &str) -> (r: bool)
    ensures
        r == text_is_url(*tree, url@),
{
    let mut text = String::new();
    collect_text(tree, &mut text);
    let cs = chars_of(text.as_str());
    let (lo, hi) = trim_bounds(&cs, 0, cs.len());
    let trimmed = string_of(&cs, lo, hi);
    assert(cs@.subrange(0, cs@.len() as int) =~= tree_text(*tree));
    assert(trimmed@ == trim(tree_text(*tree)));
    let u = chars_of(url);
    if eq_str(&u, trimmed.as_str()) {
        return true;
    }
    let mut mailto = "mailto:".to_owned();
    append_str(&mut mailto, trimmed.as_str());
    eq_str(&u, mailto.as_str())
}

/// The text a node holds, or nothing.
pub open spec fn text_or_empty(o: Option<String>) -> Seq<char> {
    match o {
        Some(t) => t@,
        None => seq![],
    }
}

/// The lines of inline text after the child `c` is gathered onto `ls`:
/// text, raw, code and math nodes add their text; a line break starts a
/// line and a soft break adds a space; emphasis and other containers add
/// their children's text; a link adds its text and, in parentheses, its
/// URL unless that is its text; an image adds `[image: `, its text, its URL
/// and `]`; a footnote reference adds its name in brackets; inline HTML
/// adds nothing.
pub open spec fn inl_child(ls: Seq<Seq<char>>, c: MdTree) -> Seq<Seq<char>>
    decreases c, 2nat, 0nat,
{
    let k = c.node.kind@;
    if k == "text"@ || k == "raw"@ {
        match c.node.text {
            Some(t) => add_text(ls, t@),
            None => ls,
        }
    } else if k == "code"@ || k == "math"@ {
        match c.node.text {
            Some(t) => add_text(ls, t@),
            None => ls,
        }
    } else if k == "emph"@ || k == "strong"@ || k == "strikethrough"@ || k == "underline"@ || k == "spoiler"@ {
        inl_tree(ls, c)
    } else if k == "link"@ {
        let inner = inl_tree(ls, c);
        match c.node.url {
            Some(u) => if u@.len() > 0 && !text_is_url(c, u@) {
                add_text(add_text(add_text(inner, " ("@), u@), ")"@)
            } else {
                inner
            },
            None => inner,
        }
    } else if k == "image"@ {
        let inner = inl_tree(add_text(ls, "[image: "@), c);
        let with_url = match c.node.url {
            Some(u) => if u@.len() > 0 { add_text(add_text(inner, " "@), u@) } else { inner },
            None => inner,
        };
        add_text(with_url, "]"@)
    } else if k == "footnote_reference"@ {
        add_text(ls, "["@ + text_or_empty(c.node.footnote) + "]"@)
    } else if k == "softbreak"@ {
        add_text(ls, " "@)
    } else if k == "linebreak"@ {
        ls.push(seq![])
    } else if k == "html_inline"@ || k == "escaped_tag"@ {
        ls
    } else {
        inl_tree(ls, c)
    }
}

/// The lines of inline text after the children of `t` are gathered onto
/// `ls`, in order.
pub open spec fn inl_tree(ls: Seq<Seq<char>>, t: MdTree) -> Seq<Seq<char>>
    decreases t, 1nat, 0nat,
{
    inl_children(ls, t, t.children@.len() as nat)
}

/// The lines of inline text after the first `k` children of `t` are
/// gathered onto `ls`.
pub open spec fn inl_children(ls: Seq<Seq<char>>, t: MdTree, k: nat) -> Seq<Seq<char>>
    decreases t, 0nat, k,
{
    if k == 0 || k > t.children@.len() {
        ls
    } else {
        proof {
            assert(decreases_to!(t => t.children@[k - 1]));
        }
        inl_child(inl_children(ls, t, (k - 1) as nat), t.children@[k - 1])
    }
}

/// The style of code spans.
pub open spec fn code_style_spec() -> Style {
    Style { fg: Some(Color::Cyan), ..Style::plain_spec() }
}

/// The lines of segments after the child `c` is gathered onto `ls` in
/// `style`: as `inl_child` says of the text, each piece in its style: code
/// in the code style; emphasis italic, strong text bold, struck-out text
/// crossed out, underlined text underlined, spoilers dim, link text blue
/// and underlined; the URLs, images and footnote references dim.
pub open spec fn inl_child_s(ls: Seq<Seq<SegV>>, c: MdTree, style: Style) -> Seq<Seq<SegV>>
    decreases c, 2nat, 0nat,
{
    let k = c.node.kind@;
    if k == "text"@ || k == "raw"@ {
        match c.node.text {
            Some(t) => add_segs(ls, t@, style),
            None => ls,
        }
    } else if k == "code"@ || k == "math"@ {
        match c.node.text {
            Some(t) => add_segs(ls, t@, code_style_spec()),
            None => ls,
        }
    } else if k == "emph"@ {
        inl_tree_s(ls, c, Style { italic: true, ..style })
    } else if k == "strong"@ {
        inl_tree_s(ls, c, Style { bold: true, ..style })
    } else if k == "strikethrough"@ {
        inl_tree_s(ls, c, Style { crossed_out: true, ..style })
    } else if k == "underline"@ {
        inl_tree_s(ls, c, Style { underlined: true, ..style })
    } else if k == "spoiler"@ {
        inl_tree_s(ls, c, Style { dim: true, ..style })
    } else if k == "link"@ {
        let inner = inl_tree_s(ls, c, Style { fg: Some(Color::Blue), underlined: true, ..style });
        match c.node.url {
            Some(u) => if u@.len() > 0 && !text_is_url(c, u@) {
                add_segs(add_segs(add_segs(inner, " ("@, dim_spec()), u@, dim_spec()), ")"@, dim_spec())
            } else {
                inner
            },
            None => inner,
        }
    } else if k == "image"@ {
        let inner = inl_tree_s(add_segs(ls, "[image: "@, dim_spec()), c, dim_spec());
        let with_url = match c.node.url {
            Some(u) => if u@.len() > 0 { add_segs(add_segs(inner, " "@, dim_spec()), u@, dim_spec()) } else { inner },
            None => inner,
        };
        add_segs(with_url, "]"@, dim_spec())
    } else if k == "footnote_reference"@ {
        add_segs(ls, "["@ + text_or_empty(c.node.footnote) + "]"@, dim_spec())
    } else if k == "softbreak"@ {
        add_segs(ls, " "@, style)
    } else if k == "linebreak"@ {
        ls.push(seq![])
    } else if k == "html_inline"@ || k == "escaped_tag"@ {
        ls
    } else {
        inl_tree_s(ls, c, style)
    }
}

/// The lines of segments after the children of `t` are gathered onto `ls`
/// in `style`, in order.
pub open spec fn inl_tree_s(ls: Seq<Seq<SegV>>, t: MdTree, style: Style) -> Seq<Seq<SegV>>
    decreases t, 1nat, 0nat,
{
    inl_children_s(ls, t, t.children@.len() as nat, style)
}

/// The lines of segments after the first `k` children of `t` are gathered
/// onto `ls` in `style`.
pub open spec fn inl_children_s(ls: Seq<Seq<SegV>>, t: MdTree, k: nat, style: Style) -> Seq<Seq<SegV>>
    decreases t, 0nat, k,
{
    if k == 0 || k > t.children@.len() {
        ls
    } else {
        proof {
            assert(decreases_to!(t => t.children@[k - 1]));
        }
        inl_child_s(inl_children_s(ls, t, (k - 1) as nat, style), t.children@[k - 1], style)
    }
}

/// Gathers the inline content of the children of `tree` in `style` (see
/// `inl_tree` for the text of each line).
fn collect_inlines(tree: &MdTree, out: &mut Inlines, style: Style)
    ensures
        inline_texts(final(out).lines@) == inl_tree(inline_texts(old(out).lines@), *tree),
        inline_segs(final(out).lines@) == inl_tree_s(inline_segs(old(out).lines@), *tree, style),
    decreases tree,
{
    let ghost start = inline_texts(out.lines@);
    let ghost start_s = inline_segs(out.lines@);
    let mut i: usize = 0;
    while i < tree.children.len()
        invariant
            i <= tree.children.len(),
            inline_texts(out.lines@) == inl_children(start, *tree, i as nat),
            inline_segs(out.lines@) == inl_children_s(start_s, *tree, i as nat, style),
        decreases tree.children.len() - i,
    {
        proof {
            assert(decreases_to!(tree => tree.children@[i as int]));
        }
        let ghost before = inline_texts(out.lines@);
        let ghost before_s = inline_segs(out.lines@);
        let child = &tree.children[i];
        let node = &child.node;
        if is_kind(node, "text") || is_kind(node, "raw") {
            match &node.text {
                Some(t) => out.push_text(t.as_str(), style),
                None => {},
            }
        } else if is_kind(node, "code") || is_kind(node, "math") {
            match &node.text {
                Some(t) => out.push_text(t.as_str(), code_style()),
                None => {},
            }
        } else if is_kind(node, "emph") {
            collect_inlines(child, out, Style { italic: true, ..style });
        } else if is_kind(node, "strong") {
            collect_inlines(child, out, Style { bold: true, ..style });
        } else if is_kind(node, "strikethrough") {
            collect_inlines(child, out, Style { crossed_out: true, ..style });
        } else if is_kind(node, "underline") {
            collect_inlines(child, out, Style { underlined: true, ..style });
        } else if is_kind(node, "spoiler") {
            collect_inlines(child, out, Style { dim: true, ..style });
        } else if is_kind(node, "link") {
            collect_inlines(child, out, Style { fg: Some(Color::Blue), underlined: true, ..style });
            match &node.url {
                Some(url) => if chars_of(url.as_str()).len() > 0 && !link_text_is_url(child, url.as_str()) {
                    out.push_text(" (", dim());
                    out.push_text(url.as_str(), dim());
                    out.push_text(")", dim());
                },
                None => {},
            }
        } else if is_kind(node, "image") {
            out.push_text("[image: ", dim());
            collect_inlines(child, out, dim());
            match &node.url {
                Some(url) => if chars_of(url.as_str()).len() > 0 {
                    out.push_text(" ", dim());
                    out.push_text(url.as_str(), dim());
                },
                None => {},
            }
            out.push_text("]", dim());
        } else if is_kind(node, "footnote_reference") {
            let mut label = "[".to_owned();
            match &node.footnote {
                Some(name) => append_str(&mut label, name.as_str()),
                None => {
                    assert(label@ =~= "["@ + text_or_empty(node.footnote));
                },
            }
            append_str(&mut label, "]");
            out.push_text(label.as_str(), dim());
        } else if is_kind(node, "softbreak") {
            out.push_text(" ", style);
        } else if is_kind(node, "linebreak") {
            out.hard_break();
        } else if is_kind(node, "html_inline") || is_kind(node, "escaped_tag") {
        } else {
            collect_inlines(child, out, style);
        }
        assert(inline_texts(out.lines@) == inl_child(before, *child));
        assert(inline_segs(out.lines@) == inl_child_s(before_s, *child, style));
        i = i + 1;
    }
}

/// Whether lines of segments hold nothing but whitespace.
pub open spec fn all_space(ls: Seq<Seq<SegV>>) -> bool {
    forall|i: int, j: int| 0 <= i < ls.len() && 0 <= j < ls[i].len() ==> (#[trigger] ls[i][j]).2
}

/// The first `k` lines of inline content, each wrapped: the very first
/// after `first`, all others after `cont`.
pub open spec fn inline_lines(ls: Seq<Seq<SegV>>, k: int, first: Seq<SpanV>, cont: Seq<SpanV>, width: usize) -> Seq<Seq<SpanV>>
    decreases k,
{
    if k <= 0 {
        seq![]
    } else {
        inline_lines(ls, k - 1, first, cont, width) + wrapped_lines(ls[k - 1], width, if k == 1 { first } else { cont }, cont)
    }
}

/// The lines of the inline content of `tree` in `style`, wrapped within
/// `width`: nothing when it is only whitespace.
pub open spec fn inline_block(tree: MdTree, first: Seq<SpanV>, cont: Seq<SpanV>, width: usize, style: Style) -> Seq<Seq<SpanV>> {
    let ls = inl_tree_s(seq![], tree, style);
    if all_space(ls) { seq![] } else { inline_lines(ls, ls.len() as int, first, cont, width) }
}

/// Appends the inline content of `tree` as wrapped lines: the first after
/// `first_prefix`, the others after `cont_prefix`. Nothing when the
/// content is only whitespace.
fn render_inline_block(tree: &MdTree, out: &mut Vec<Line>, first_prefix: &Vec<Span>, cont_prefix: &Vec<Span>, width: usize, style: Style)
    ensures
        extends(final(out)@, old(out)@),
        lines_view(final(out)@) == lines_view(old(out)@) + inline_block(*tree, spans_view(first_prefix@), spans_view(cont_prefix@), width, style),
{
    let ghost start = out@;
    proof {
        lemma_extends_refl(start);
    }
    let mut inlines = Inlines::new();
    assert(inline_segs(inlines.lines@) =~= Seq::<Seq<SegV>>::empty());
    collect_inlines(tree, &mut inlines, style);
    let ghost ls = inline_segs(inlines.lines@);
    assert(ls == inl_tree_s(seq![], *tree, style));
    if inlines.is_empty() {
        assert(all_space(ls)) by {
            assert forall|i: int, j: int| 0 <= i < ls.len() && 0 <= j < ls[i].len() implies (#[trigger] ls[i][j]).2 by {
                assert(ls[i][j].2 == inlines.lines@[i]@[j].is_space);
            }
        }
        assert(lines_view(out@) =~= lines_view(start) + inline_block(*tree, spans_view(first_prefix@), spans_view(cont_prefix@), width, style));
        return;
    }
    assert(!all_space(ls)) by {
        let (i, j) = choose|i: int, j: int| 0 <= i < inlines.lines@.len() && 0 <= j < inlines.lines@[i]@.len() && !(#[trigger] inlines.lines@[i]@[j]).is_space;
        assert(ls[i][j].2 == inlines.lines@[i]@[j].is_space);
    }
    let mut first = true;
    let mut i: usize = 0;
    while i < inlines.lines.len()
        invariant
            i <= inlines.lines.len(),
            ls == inline_segs(inlines.lines@),
            first == (i == 0),
            extends(out@, start),
            lines_view(out@) == lines_view(start) + inline_lines(ls, i as int, spans_view(first_prefix@), spans_view(cont_prefix@), width),
        decreases inlines.lines.len() - i,
    {
        let prefix = if first { first_prefix } else { cont_prefix };
        let lines = wrap_segs(&inlines.lines[i], width, prefix, cont_prefix);
        assert(segs_v(inlines.lines@[i as int]@) == ls[i as int]);
        let ghost before = out@;
        append_lines(out, lines);
        proof {
            assert(out@.take(before.len() as int) =~= before);
            lemma_extends_trans(out@, before, start);
            assert(lines_view(out@) =~= lines_view(before) + lines_view(lines@));
        }
        first = false;
        i = i + 1;
    }
}

/// Appends `lines` to `out`, in order.
fn append_lines(out: &mut Vec<Line>, lines: Vec<Line>)
    ensures
        final(out)@ == old(out)@ + lines@,
{
    let mut rest = lines;
    let ghost all = rest@;
    let ghost start = out@;
    proof {
        lemma_extends_refl(start);
    }
    let mut rev: Vec<Line> = Vec::new();
    while rest.len() > 0
        invariant
            rev@.len() + rest@.len() == all.len(),
            rest@ == all.take(rest@.len() as int),
            forall|k: int| 0 <= k < rev@.len() ==> #[trigger] rev@[k] == all[all.len() - 1 - k],
        decreases rest.len(),
    {
        let l = rest.pop().unwrap();
        rev.push(l);
        assert(rest@ =~= all.take(rest@.len() as int));
    }
    while rev.len() > 0
        invariant
            rev@.len() + (out@.len() - start.len()) == all.len(),
            out@.len() >= start.len(),
            forall|k: int| 0 <= k < rev@.len() ==> #[trigger] rev@[k] == all[all.len() - 1 - k],
            out@ == start + all.take(out@.len() - start.len()),
        decreases rev.len(),
    {
        let l = rev.pop().unwrap();
        let ghost before = out@;
        out.push(l);
        assert(all.take(out@.len() - start.len()) =~= all.take(before.len() - start.len()).push(l));
    }
    assert(all.take(all.len() as int) =~= all);
}

/// The spans of `prefix` followed by `extra`.
fn with_span(prefix: &Vec<Span>, extra: Span) -> (r: Vec<Span>)
    ensures
        spans_view(r@) == spans_view(prefix@).push(span_view(extra)),
{
    let mut spans: Vec<Span> = Vec::new();
    let mut i: usize = 0;
    while i < prefix.len()
        invariant
            i <= prefix.len(),
            spans_view(spans@) == spans_view(prefix@.take(i as int)),
        decreases prefix.len() - i,
    {
        let ghost before = spans@;
        let x = prefix[i].clone();
        spans.push(x);
        assert(prefix@.take(i + 1) =~= prefix@.take(i as int).push(prefix@[i as int]));
        assert(spans_view(spans@) =~= spans_view(before).push(span_view(x)));
        i = i + 1;
    }
    assert(prefix@.take(prefix.len() as int) =~= prefix@);
    let ghost before = spans@;
    spans.push(extra);
    assert(spans_view(spans@) =~= spans_view(before).push(span_view(extra)));
    spans
}

/// `n` copies of `s`, one after another.
pub open spec fn repeat_spec(s: Seq<char>, n: nat) -> Seq<char>
    decreases n,
{
    if n == 0 {
        seq![]
    } else {
        repeat_spec(s, (n - 1) as nat) + s
    }
}

/// `count` copies of `s`.
fn repeat(s: &str, count: usize) -> (r: String)
    ensures
        r@ == repeat_spec(s@, count as nat),
{
    let mut out = String::new();
    let mut i: usize = 0;
    while i < count
        invariant
            i <= count,
            out@ == repeat_spec(s@, i as nat),
        decreases count - i,
    {
        append_str(&mut out, s);
        i = i + 1;
    }
    out
}

/// `c` in upper case when it is an ASCII letter.
pub open spec fn upper_char(c: char) -> char {
    if 'a' <= c && c <= 'z' {
        ((c as u32) - 32) as char
    } else {
        c
    }
}

/// `s` with ASCII letters in upper case.
fn ascii_upper(s: &str) -> (r: String)
    ensures
        r@ == s@.map_values(|c: char| upper_char(c)),
{
    let cs = chars_of(s);
    let mut out = String::new();
    let mut i: usize = 0;
    while i < cs.len()
        invariant
            i <= cs.len(),
            cs@ == s@,
            out@ == s@.take(i as int).map_values(|c: char| upper_char(c)),
        decreases cs.len() - i,
    {
        let c = cs[i];
        let up = if 'a' <= c && c <= 'z' { ((c as u32) - 32) as u8 as char } else { c };
        assert(up == upper_char(c));
        push_char(&mut out, up);
        assert(s@.take(i + 1).map_values(|c: char| upper_char(c)) =~= s@.take(i as int).map_values(
            |c: char| upper_char(c),
        ).push(upper_char(c)));
        i = i + 1;
    }
    assert(s@.take(cs.len() as int) =~= s@);
    out
}

/// The index of the first character of `s` at or after `i` that is not
/// whitespace, or `s.len()` when there is none.
pub open spec fn skip_ws(s: Seq<char>, i: int) -> int
    decreases s.len() - i,
{
    if i < 0 || i >= s.len() {
        s.len() as int
    } else if is_ws(s[i]) {
        skip_ws(s, i + 1)
    } else {
        i
    }
}

/// The language a code block's info string names: its first word.
pub open spec fn info_lang(info: Seq<char>) -> Seq<char> {
    let k = skip_ws(info, 0);
    info.subrange(k, find_ws_from(info, k))
}

/// The header of a code block.
pub open spec fn code_header(info: Seq<char>) -> Seq<char> {
    if info_lang(info).len() == 0 { "┌─ code"@ } else { "┌─ "@ + info_lang(info) }
}

/// `s` with each tab as four spaces.
pub open spec fn expand_tabs(s: Seq<char>) -> Seq<char>
    decreases s.len(),
{
    if s.len() == 0 {
        seq![]
    } else {
        expand_tabs(s.drop_last()) + if s.last() == '\t' { "    "@ } else { seq![s.last()] }
    }
}

/// The style of code.
pub open spec fn code_text_style() -> Style {
    Style { fg: Some(Color::Green), ..Style::plain_spec() }
}

/// The lines of the pieces of a line of code, after `pv` and a bar.
pub open spec fn piece_lines(pieces: Seq<Seq<char>>, pv: Seq<(Seq<char>, Style)>) -> Seq<Seq<(Seq<char>, Style)>> {
    pieces.map_values(|p: Seq<char>| pv + seq![("│ "@, dim_spec()), (p, code_text_style())])
}

/// The lines of the code `lines`, each split to `avail` columns.
pub open spec fn code_lines(lines: Seq<Seq<char>>, pv: Seq<(Seq<char>, Style)>, avail: int) -> Seq<Seq<(Seq<char>, Style)>>
    decreases lines.len(),
{
    if lines.len() == 0 {
        seq![]
    } else {
        code_lines(lines.drop_last(), pv, avail) + piece_lines(split_spec(expand_tabs(lines.last()), avail), pv)
    }
}

/// The columns a line of code has after `prefix` and a bar, within
/// `width`: at least one.
pub open spec fn code_avail(width: usize, pv: Seq<SpanV>) -> int {
    let pw = cut_cols(pv);
    let rest = if width > pw { width - pw } else { 0 };
    if rest > 2 && rest - 2 >= 1 { rest - 2 } else { 1 }
}

/// The lines of a code block after `prefix` within `width`: the header,
/// the code, and the footer.
pub open spec fn code_block_lines(info: Seq<char>, literal: Seq<char>, pv: Seq<SpanV>, width: usize) -> Seq<Seq<SpanV>> {
    seq![pv.push((code_header(info), dim_spec()))] + code_lines(lines_spec(literal), pv, code_avail(width, pv))
        + seq![pv.push(("└─"@, dim_spec()))]
}

/// Appends a code block: a header with its language, each line of its
/// content (tabs as four spaces) split to the width left, and a footer.
fn render_code_block(info: &str, literal: &str, out: &mut Vec<Line>, prefix: &Vec<Span>, width: usize)
    ensures
        extends(final(out)@, old(out)@),
        lines_view(final(out)@) == lines_view(old(out)@) + code_block_lines(info@, literal@, spans_view(prefix@), width),
{
    let ghost start = out@;
    let ghost pv = spans_view(prefix@);
    proof {
        lemma_extends_refl(start);
    }
    let info_cs = chars_of(info);
    let mut k: usize = 0;
    while k < info_cs.len() && is_whitespace(info_cs[k])
        invariant
            k <= info_cs.len(),
            skip_ws(info_cs@, 0) == skip_ws(info_cs@, k as int),
        decreases info_cs.len() - k,
    {
        k = k + 1;
    }
    let mut e = k;
    while e < info_cs.len() && !is_whitespace(info_cs[e])
        invariant
            k <= e <= info_cs.len(),
            find_ws_from(info_cs@, k as int) == find_ws_from(info_cs@, e as int),
        decreases info_cs.len() - e,
    {
        e = e + 1;
    }
    let lang = string_of(&info_cs, k, e);
    assert(lang@ == info_lang(info@));
    let pw = spans_width(prefix);
    proof { lemma_vcols(prefix@); }
    let rest = if width > pw { width - pw } else { 0 };
    let avail = if rest > 2 && rest - 2 >= 1 { rest - 2 } else { 1 };
    assert(avail == code_avail(width, spans_view(prefix@)));
    let mut header_text = "┌─ ".to_owned();
    if k == e {
        header_text = "┌─ code".to_owned();
    } else {
        append_str(&mut header_text, lang.as_str());
    }
    assert(header_text@ == code_header(info@));
    let header = Line { spans: with_span(prefix, Span { content: header_text, style: dim() }) };
    out.push(header);
    proof {
        lemma_lines_view_push(start, header);
        assert(out@.take(start.len() as int) =~= start);
    }
    let ghost lv = lines_spec(literal@);
    let raw_lines = lines_of(literal);
    let mut i: usize = 0;
    while i < raw_lines.len()
        invariant
            i <= raw_lines.len(),
            raw_lines@.len() == lv.len(),
            forall|q: int| 0 <= q < raw_lines@.len() ==> (#[trigger] raw_lines@[q])@ == lv[q],
            avail == code_avail(width, spans_view(prefix@)),
            pv == spans_view(prefix@),
            out@.len() > start.len(),
            extends(out@, start),
            lines_view(out@) == lines_view(start) + seq![pv.push((code_header(info@), dim_spec()))]
                + code_lines(lv.take(i as int), pv, avail as int),
        decreases raw_lines.len() - i,
    {
        assert(lv.take(i + 1).drop_last() =~= lv.take(i as int));
        let cs = chars_of(raw_lines[i].as_str());
        let mut expanded = String::new();
        let mut j: usize = 0;
        while j < cs.len()
            invariant
                j <= cs.len(),
                expanded@ == expand_tabs(cs@.take(j as int)),
            decreases cs.len() - j,
        {
            assert(cs@.take(j + 1).drop_last() =~= cs@.take(j as int));
            if cs[j] == '\t' {
                append_str(&mut expanded, "    ");
            } else {
                push_char(&mut expanded, cs[j]);
                assert(expanded@ =~= expand_tabs(cs@.take(j + 1)));
            }
            j = j + 1;
        }
        assert(cs@.take(cs.len() as int) =~= cs@);
        assert(expanded@ == expand_tabs(lv[i as int]));
        let pieces = split_to_width(expanded.as_str(), avail);
        let ghost ps = split_spec(expanded@, avail as int);
        let ghost mid = lines_view(out@);
        let mut p: usize = 0;
        while p < pieces.len()
            invariant
                p <= pieces.len(),
                pieces@.len() == ps.len(),
                forall|q: int| 0 <= q < pieces@.len() ==> (#[trigger] pieces@[q])@ == ps[q],
                pv == spans_view(prefix@),
                out@.len() > start.len(),
                extends(out@, start),
                lines_view(out@) == mid + piece_lines(ps.take(p as int), pv),
            decreases pieces.len() - p,
        {
            let mut spans = with_span(prefix, Span { content: "│ ".to_owned(), style: dim() });
            let x = Span { content: pieces[p].clone(), style: Style::plain().fg(Color::Green) };
            let ghost sb = spans@;
            spans.push(x);
            proof { lemma_spans_view_push(sb, x); }
            let ghost before = out@;
            let line = Line { spans };
            out.push(line);
            proof {
                lemma_lines_view_push(before, line);
                assert(piece_lines(ps.take(p + 1), pv) =~= piece_lines(ps.take(p as int), pv).push(
                    pv + seq![("│ "@, dim_spec()), (ps[p as int], code_text_style())]));
                assert(spans_view(line.spans@) =~= pv + seq![("│ "@, dim_spec()), (ps[p as int], code_text_style())]);
                assert(out@.take(before.len() as int) =~= before);
                lemma_extends_trans(out@, before, start);
            }
            p = p + 1;
        }
        assert(ps.take(pieces.len() as int) =~= ps);
        i = i + 1;
    }
    assert(lv.take(raw_lines.len() as int) =~= lv);
    let ghost before = out@;
    let footer = Line { spans: with_span(prefix, Span { content: "└─".to_owned(), style: dim() }) };
    out.push(footer);
    proof {
        lemma_lines_view_push(before, footer);
        assert(out@.take(before.len() as int) =~= before);
        lemma_extends_trans(out@, before, start);
        assert(lines_view(out@) =~= lines_view(start) + code_block_lines(info@, literal@, spans_view(prefix@), width));
    }
}


/// Lines joined by single spaces.
pub open spec fn join_space(ls: Seq<Seq<char>>) -> Seq<char>
    decreases ls.len(),
{
    if ls.len() == 0 {
        seq![]
    } else if ls.len() == 1 {
        ls[0]
    } else {
        join_space(ls.drop_last()).push(' ') + ls.last()
    }
}

/// The plain text of a table cell: its inline text, lines joined by a
/// space, trimmed.
pub open spec fn cell_spec(cell: MdTree) -> Seq<char> {
    trim(join_space(inl_tree(seq![], cell)))
}

/// The plain text of a table cell (see `cell_spec`).
fn cell_text(cell: &MdTree) -> (r: String)
    ensures
        r@ == cell_spec(*cell),
{
    let mut inlines = Inlines::new();
    assert(inline_texts(inlines.lines@) =~= Seq::<Seq<char>>::empty());
    collect_inlines(cell, &mut inlines, Style::plain());
    let ghost texts = inline_texts(inlines.lines@);
    let mut joined = String::new();
    let mut i: usize = 0;
    while i < inlines.lines.len()
        invariant
            i <= inlines.lines.len(),
            texts == inline_texts(inlines.lines@),
            joined@ == join_space(texts.take(i as int)),
        decreases inlines.lines.len() - i,
    {
        let ghost prev = joined@;
        if i > 0 {
            push_char(&mut joined, ' ');
        }
        let ghost head = joined@;
        let mut j: usize = 0;
        while j < inlines.lines[i].len()
            invariant
                i < inlines.lines.len(),
                j <= inlines.lines@[i as int]@.len(),
                joined@ == head + segs_text(inlines.lines@[i as int]@.take(j as int)),
            decreases inlines.lines@[i as int]@.len() - j,
        {
            append_str(&mut joined, inlines.lines[i][j].text.as_str());
            assert(inlines.lines@[i as int]@.take(j + 1).drop_last() =~= inlines.lines@[i as int]@.take(j as int));
            assert(joined@ =~= head + segs_text(inlines.lines@[i as int]@.take(j + 1)));
            j = j + 1;
        }
        assert(inlines.lines@[i as int]@.take(inlines.lines@[i as int]@.len() as int) =~= inlines.lines@[i as int]@);
        assert(texts[i as int] == segs_text(inlines.lines@[i as int]@));
        assert(texts.take(i + 1).drop_last() =~= texts.take(i as int));
        if i == 0 {
            assert(joined@ =~= join_space(texts.take(1)));
        } else {
            assert(joined@ =~= join_space(texts.take(i + 1)));
        }
        i = i + 1;
    }
    assert(texts.take(inlines.lines.len() as int) =~= texts);
    let cs = chars_of(joined.as_str());
    let (lo, hi) = trim_bounds(&cs, 0, cs.len());
    assert(cs@.subrange(0, cs@.len() as int) =~= joined@);
    string_of(&cs, lo, hi)
}

/// A table row as values: whether it is the header, and its cells' text.
pub type RowView = (bool, Seq<Seq<char>>);

/// Table rows as values.
pub open spec fn rows_view(rows: Seq<(bool, Vec<String>)>) -> Seq<RowView> {
    rows.map_values(|r: (bool, Vec<String>)| (r.0, r.1@.map_values(|c: String| c@)))
}

/// The row `t` is itself, if it is a table row.
pub open spec fn own_row(t: MdTree) -> Seq<RowView> {
    match t.node.row_header {
        Some(h) => if t.node.kind@ == "table_row"@ {
            seq![(h, t.children@.map_values(|c: MdTree| cell_spec(c)))]
        } else {
            seq![]
        },
        None => seq![],
    }
}

/// The table rows in `t`, in document order.
pub open spec fn table_spec(t: MdTree) -> Seq<RowView>
    decreases t, 1nat, 0nat,
{
    own_row(t) + rows_of_children(t, t.children@.len() as nat)
}

/// The table rows in the first `k` children of `t`.
pub open spec fn rows_of_children(t: MdTree, k: nat) -> Seq<RowView>
    decreases t, 0nat, k,
{
    if k == 0 || k > t.children@.len() {
        seq![]
    } else {
        proof {
            assert(decreases_to!(t => t.children@[k - 1]));
        }
        rows_of_children(t, (k - 1) as nat) + table_spec(t.children@[k - 1])
    }
}

/// The rows of a table, in document order (see `table_spec`): whether
/// each is the header, and the text of its cells.
fn table_rows(tree: &MdTree, rows: &mut Vec<(bool, Vec<String>)>)
    ensures
        rows_view(final(rows)@) == rows_view(old(rows)@) + table_spec(*tree),
    decreases tree,
{
    let ghost start = rows_view(rows@);
    match tree.node.row_header {
        Some(header) => if is_kind(&tree.node, "table_row") {
            let mut cells: Vec<String> = Vec::new();
            let mut i: usize = 0;
            while i < tree.children.len()
                invariant
                    i <= tree.children.len(),
                    cells@.map_values(|c: String| c@) == tree.children@.take(i as int).map_values(
                        |c: MdTree| cell_spec(c),
                    ),
                decreases tree.children.len() - i,
            {
                let c = cell_text(&tree.children[i]);
                assert(c@ == cell_spec(tree.children@[i as int]));
                let ghost c0 = cells@;
                cells.push(c);
                assert(cells@ =~= c0.push(c));
                assert(cells@.map_values(|c: String| c@) =~= c0.map_values(|c: String| c@).push(c@));
                assert(tree.children@.take(i + 1) =~= tree.children@.take(i as int).push(tree.children@[i as int]));
                assert(cells@.map_values(|c: String| c@) =~= tree.children@.take(i + 1).map_values(
                    |c: MdTree| cell_spec(c),
                ));
                i = i + 1;
            }
            assert(tree.children@.take(tree.children.len() as int) =~= tree.children@);
            let ghost r0 = rows@;
            let row = (header, cells);
            rows.push(row);
            assert(rows@ =~= r0.push(row));
            assert(rows_view(rows@) =~= rows_view(r0).push((row.0, row.1@.map_values(|c: String| c@))));
        },
        None => {},
    }
    assert(rows_view(rows@) =~= start + own_row(*tree));
    let mut i: usize = 0;
    while i < tree.children.len()
        invariant
            i <= tree.children.len(),
            rows_view(rows@) == start + own_row(*tree) + rows_of_children(*tree, i as nat),
        decreases tree.children.len() - i,
    {
        proof {
            assert(decreases_to!(tree => tree.children@[i as int]));
        }
        table_rows(&tree.children[i], rows);
        assert(rows_of_children(*tree, (i + 1) as nat) == rows_of_children(*tree, i as nat) + table_spec(
            tree.children@[i as int],
        ));
        i = i + 1;
    }
    assert(rows_view(rows@) =~= start + table_spec(*tree));
}

/// The sum of `widths`, in mathematics.
pub open spec fn total(widths: Seq<usize>) -> int
    decreases widths.len(),
{
    if widths.len() == 0 { 0 } else { total(widths.drop_last()) + widths.last() }
}

pub proof fn lemma_total_update(widths: Seq<usize>, i: int, v: usize)
    requires
        0 <= i < widths.len(),
    ensures
        total(widths.update(i, v)) == total(widths) - widths[i] + v,
    decreases widths.len(),
{
    if i < widths.len() - 1 {
        lemma_total_update(widths.drop_last(), i, v);
        assert(widths.update(i, v).drop_last() =~= widths.drop_last().update(i, v));
    } else {
        assert(widths.update(i, v).drop_last() =~= widths.drop_last());
    }
}

proof fn lemma_total_bound(widths: Seq<usize>)
    requires
        forall|i: int| 0 <= i < widths.len() ==> widths[i] <= 1,
    ensures
        0 <= total(widths) <= widths.len(),
    decreases widths.len(),
{
    if widths.len() > 0 {
        lemma_total_bound(widths.drop_last());
    }
}

/// The index of the last of the widest among the first `k` columns (0
/// when there are none).
pub open spec fn widest_in(w: Seq<usize>, k: int) -> int
    decreases k,
{
    if k <= 1 {
        0
    } else {
        let j = widest_in(w, k - 1);
        if w[k - 1] >= w[j] { k - 1 } else { j }
    }
}

/// The widths after narrowing: while the columns and `separators` do not
/// fit `avail`, the last of the widest columns loses a column, until that
/// column is one wide.
pub open spec fn shrink_spec(w: Seq<usize>, separators: usize, avail: usize) -> Seq<usize>
    decreases total(w),
{
    if total(w) + separators <= avail || w.len() == 0 {
        w
    } else {
        let i = widest_in(w, w.len() as int);
        if 0 <= i < w.len() && w[i] > 1 {
            proof {
                lemma_total_update(w, i, (w[i] - 1) as usize);
                lemma_total_nonneg(w.update(i, (w[i] - 1) as usize));
            }
            shrink_spec(w.update(i, (w[i] - 1) as usize), separators, avail)
        } else {
            w
        }
    }
}

/// Narrows the widest columns, one column at a time, until the columns and
/// their separators fit `avail`, or no column is wider than one.
pub fn shrink_to_fit(widths: &mut Vec<usize>, separators: usize, avail: usize)
    requires
        total(old(widths)@) <= usize::MAX,
    ensures
        final(widths)@.len() == old(widths)@.len(),
        forall|i: int| 0 <= i < final(widths)@.len() ==> final(widths)@[i] <= old(widths)@[i],
        total(final(widths)@) + separators <= avail || forall|i: int| 0 <= i < final(widths)@.len() ==> final(widths)@[i] <= 1,
        final(widths)@ == shrink_spec(old(widths)@, separators, avail),
{
    let ghost orig = widths@;
    let mut sum: usize = 0;
    let mut k: usize = 0;
    while k < widths.len()
        invariant
            k <= widths.len(),
            widths@ == orig,
            total(orig) <= usize::MAX,
            sum == total(orig.take(k as int)),
        decreases widths.len() - k,
    {
        assert(orig.take(k + 1).drop_last() =~= orig.take(k as int));
        proof {
            lemma_total_prefix(orig, k + 1);
        }
        sum = sum + widths[k];
        k = k + 1;
    }
    assert(orig.take(widths.len() as int) =~= orig);
    loop
        invariant
            orig == old(widths)@,
            widths@.len() == orig.len(),
            forall|i: int| 0 <= i < widths@.len() ==> widths@[i] <= orig[i],
            sum == total(widths@),
            shrink_spec(widths@, separators, avail) == shrink_spec(orig, separators, avail),
        decreases sum,
    {
        if sum <= avail && separators <= avail - sum {
            return;
        }
        let mut widest: usize = 0;
        let mut i: usize = 1;
        if widths.len() == 0 {
            proof {
                lemma_total_bound(widths@);
            }
            return;
        }
        while i < widths.len()
            invariant
                1 <= i <= widths.len(),
                widest < widths.len(),
                widest == widest_in(widths@, i as int),
                forall|q: int| 0 <= q < i ==> widths@[q] <= widths@[widest as int],
            decreases widths.len() - i,
        {
            if widths[i] >= widths[widest] {
                widest = i;
            }
            i = i + 1;
        }
        if widths[widest] <= 1 {
            return;
        }
        proof {
            lemma_total_ge(widths@, widest as int);
        }
        let ghost before = widths@;
        let v = widths[widest] - 1;
        widths.set(widest, v);
        proof {
            lemma_total_update(before, widest as int, v);
        }
        sum = sum - 1;
    }
}

proof fn lemma_total_ge(widths: Seq<usize>, i: int)
    requires
        0 <= i < widths.len(),
    ensures
        total(widths) >= widths[i],
    decreases widths.len(),
{
    lemma_total_nonneg(widths.drop_last());
    if i < widths.len() - 1 {
        lemma_total_ge(widths.drop_last(), i);
    }
}

proof fn lemma_total_prefix(widths: Seq<usize>, k: int)
    requires
        0 <= k <= widths.len(),
    ensures
        0 <= total(widths.take(k)) <= total(widths),
    decreases widths.len() - k,
{
    if k < widths.len() {
        lemma_total_prefix(widths, k + 1);
        assert(widths.take(k + 1).drop_last() =~= widths.take(k));
        lemma_total_nonneg(widths.take(k));
    } else {
        assert(widths.take(k) =~= widths);
        lemma_total_nonneg(widths);
    }
}

pub proof fn lemma_total_nonneg(widths: Seq<usize>)
    ensures
        total(widths) >= 0,
    decreases widths.len(),
{
    if widths.len() > 0 {
        lemma_total_nonneg(widths.drop_last());
    }
}

/// The most cells any of `rows` has.
pub open spec fn max_cells(rows: Seq<RowView>) -> nat
    decreases rows.len(),
{
    if rows.len() == 0 {
        0
    } else {
        let m = max_cells(rows.drop_last());
        if rows.last().1.len() > m { rows.last().1.len() } else { m }
    }
}

/// The widths `w`, each widened to the width of the cell in its column.
pub open spec fn widen(w: Seq<usize>, cells: Seq<Seq<char>>) -> Seq<usize> {
    Seq::new(w.len(), |i: int| if i < cells.len() && str_columns(cells[i]) > w[i] { str_columns(cells[i]) } else { w[i] })
}

/// The width of each of `columns` columns: that of its widest cell.
pub open spec fn natural_widths(rows: Seq<RowView>, columns: nat) -> Seq<usize>
    decreases rows.len(),
{
    if rows.len() == 0 {
        Seq::new(columns, |i: int| 0usize)
    } else {
        widen(natural_widths(rows.drop_last(), columns), rows.last().1)
    }
}

/// The columns that the separators between `columns` columns take, cut to
/// what a `usize` holds.
pub open spec fn separators_for(columns: nat) -> usize {
    if columns > 0 && columns - 1 <= usize::MAX / 3 {
        ((columns - 1) * 3) as usize
    } else if columns > 0 {
        usize::MAX
    } else {
        0
    }
}

/// The columns a table has after `prefix` within `width`.
pub open spec fn table_avail(width: usize, pv: Seq<SpanV>) -> usize {
    let pw = cut_cols(pv);
    if width > pw { (width - pw) as usize } else { 0 }
}

/// The widths of the columns of `rows`: those of their widest cells,
/// narrowed to fit `avail` (see `shrink_spec`) when their sum is a `usize`.
pub open spec fn table_widths(rows: Seq<RowView>, avail: usize) -> Seq<usize> {
    let columns = max_cells(rows);
    let w = natural_widths(rows, columns);
    if total(w) <= usize::MAX {
        shrink_spec(w, separators_for(columns), avail)
    } else {
        w
    }
}

/// The style of the cells of a row.
pub open spec fn row_style(header: bool) -> Style {
    if header { Style { bold: true, ..Style::plain_spec() } } else { Style::plain_spec() }
}

/// The spans of a row: each cell padded to its column's width, after a
/// separator from the column before it.
pub open spec fn row_spans(cells: Seq<Seq<char>>, widths: Seq<usize>, style: Style) -> Seq<(Seq<char>, Style)>
    decreases widths.len(),
{
    if widths.len() == 0 {
        seq![]
    } else {
        let i = widths.len() - 1;
        let cell = if i < cells.len() { cells[i] } else { seq![] };
        let sep = if i > 0 { seq![(" │ "@, dim_spec())] } else { seq![] };
        row_spans(cells, widths.drop_last(), style) + sep + seq![(pad_spec(cell, widths.last() as int), style)]
    }
}

/// The spans of the rule under the header.
pub open spec fn rule_spans(widths: Seq<usize>) -> Seq<(Seq<char>, Style)>
    decreases widths.len(),
{
    if widths.len() == 0 {
        seq![]
    } else {
        let sep = if widths.len() > 1 { seq![("─┼─"@, dim_spec())] } else { seq![] };
        rule_spans(widths.drop_last()) + sep + seq![(repeat_spec("─"@, widths.last() as nat), dim_spec())]
    }
}

/// The lines of a table's rows after the spans `pv`: a line for each row,
/// and a rule under each header row.
pub open spec fn table_lines(rows: Seq<RowView>, pv: Seq<(Seq<char>, Style)>, widths: Seq<usize>) -> Seq<Seq<(Seq<char>, Style)>>
    decreases rows.len(),
{
    if rows.len() == 0 {
        seq![]
    } else {
        let header = rows.last().0;
        let line = pv + row_spans(rows.last().1, widths, row_style(header));
        table_lines(rows.drop_last(), pv, widths) + if header { seq![line, pv + rule_spans(widths)] } else { seq![line] }
    }
}

/// The lines of the table `tree` after `prefix` within `width`.
pub open spec fn table_block(tree: MdTree, pv: Seq<SpanV>, width: usize) -> Seq<Seq<SpanV>> {
    let rows = table_spec(tree);
    table_lines(rows, pv, table_widths(rows, table_avail(width, pv)))
}

proof fn lemma_lines_view_push(ls: Seq<Line>, l: Line)
    ensures
        lines_view(ls.push(l)) == lines_view(ls).push(spans_view(l.spans@)),
{
    assert(lines_view(ls.push(l)) =~= lines_view(ls).push(spans_view(l.spans@)));
}

proof fn lemma_spans_view_push(ss: Seq<Span>, x: Span)
    ensures
        spans_view(ss.push(x)) == spans_view(ss).push(span_view(x)),
{
    assert(spans_view(ss.push(x)) =~= spans_view(ss).push(span_view(x)));
}

/// The widths of the columns of the table rows `rows` after `prefix`
/// within `width` (see `table_widths`).
fn column_widths(rows: &Vec<(bool, Vec<String>)>, prefix: &Vec<Span>, width: usize) -> (r: Vec<usize>)
    ensures
        r@ == table_widths(rows_view(rows@), table_avail(width, spans_view(prefix@))),
{
    let ghost rv = rows_view(rows@);
    let mut columns: usize = 0;
    let mut r: usize = 0;
    while r < rows.len()
        invariant
            r <= rows.len(),
            rv == rows_view(rows@),
            columns == max_cells(rv.take(r as int)),
        decreases rows.len() - r,
    {
        assert(rv.take(r + 1).drop_last() =~= rv.take(r as int));
        assert(rv[r as int].1.len() == rows@[r as int].1@.len());
        if rows[r].1.len() > columns {
            columns = rows[r].1.len();
        }
        r = r + 1;
    }
    assert(rv.take(rows.len() as int) =~= rv);
    let mut widths: Vec<usize> = Vec::new();
    let mut c: usize = 0;
    while c < columns
        invariant
            c <= columns,
            widths@.len() == c,
            forall|q: int| 0 <= q < c ==> widths@[q] == 0,
        decreases columns - c,
    {
        widths.push(0);
        c = c + 1;
    }
    assert(widths@ =~= natural_widths(rv.take(0), columns as nat));
    let mut r: usize = 0;
    while r < rows.len()
        invariant
            r <= rows.len(),
            rv == rows_view(rows@),
            widths@ == natural_widths(rv.take(r as int), columns as nat),
            widths@.len() == columns,
        decreases rows.len() - r,
    {
        assert(rv.take(r + 1).drop_last() =~= rv.take(r as int));
        let ghost before = widths@;
        let ghost cells = rv[r as int].1;
        assert(cells.len() == rows@[r as int].1@.len());
        let mut i: usize = 0;
        while i < rows[r].1.len() && i < columns
            invariant
                widths@.len() == columns,
                before.len() == columns,
                r < rows.len(),
                rv == rows_view(rows@),
                cells == rv[r as int].1,
                cells.len() == rows@[r as int].1@.len(),
                forall|q: int| 0 <= q < i && q < columns ==> widths@[q] == widen(before, cells)[q],
                forall|q: int| i <= q < columns ==> widths@[q] == before[q],
            decreases rows[r as int].1@.len() - i,
        {
            assert(cells[i as int] == rows@[r as int].1@[i as int]@);
            let w = str_width(rows[r].1[i].as_str());
            if w > widths[i] {
                widths.set(i, w);
            }
            i = i + 1;
        }
        assert(widths@ =~= widen(before, cells));
        r = r + 1;
    }
    assert(rv.take(rows.len() as int) =~= rv);
    let ghost natural = widths@;
    let pw = spans_width(prefix);
    proof { lemma_vcols(prefix@); }
    let avail = if width > pw { width - pw } else { 0 };
    assert(avail == table_avail(width, spans_view(prefix@)));
    let separators: usize = if columns > 0 && columns - 1 <= usize::MAX / 3 { (columns - 1) * 3 } else if columns > 0 { usize::MAX } else { 0 };
    assert(separators == separators_for(columns as nat));
    let mut sum_ok = true;
    let mut s: usize = 0;
    let mut k: usize = 0;
    while k < widths.len()
        invariant
            k <= widths.len(),
            widths@ == natural,
            sum_ok ==> s == total(widths@.take(k as int)),
            !sum_ok ==> total(widths@.take(k as int)) > usize::MAX,
        decreases widths.len() - k,
    {
        assert(widths@.take(k + 1).drop_last() =~= widths@.take(k as int));
        if sum_ok && widths[k] <= usize::MAX - s {
            s = s + widths[k];
        } else {
            sum_ok = false;
        }
        k = k + 1;
    }
    assert(widths@.take(widths.len() as int) =~= widths@);
    if sum_ok {
        shrink_to_fit(&mut widths, separators, avail);
    }
    widths
}

/// The line of a table row: `prefix`, then each cell padded to its
/// column's width, after a separator from the column before it.
fn row_line(cells: &Vec<String>, widths: &Vec<usize>, style: Style, prefix: &Vec<Span>) -> (r: Line)
    ensures
        spans_view(r.spans@) == spans_view(prefix@) + row_spans(cells@.map_values(|c: String| c@), widths@, style),
{
    let ghost pv = spans_view(prefix@);
    let ghost cv = cells@.map_values(|c: String| c@);
    let ghost wv = widths@;
    let mut spans = with_span(prefix, Span { content: String::new(), style: Style::plain() });
    let ghost b0 = spans@;
    spans.pop();
    assert(spans_view(spans@) =~= spans_view(b0).drop_last());
    let mut i: usize = 0;
    while i < widths.len()
        invariant
            i <= widths.len(),
            wv == widths@,
            cv == cells@.map_values(|c: String| c@),
            spans_view(spans@) == pv + row_spans(cv, wv.take(i as int), style),
        decreases widths.len() - i,
    {
        assert(wv.take(i + 1).drop_last() =~= wv.take(i as int));
        let ghost before = spans@;
        if i > 0 {
            let x = Span { content: " │ ".to_owned(), style: dim() };
            spans.push(x);
            proof { lemma_spans_view_push(before, x); }
        }
        let ghost mid = spans@;
        let cell: &str = if i < cells.len() { cells[i].as_str() } else { "" };
        proof {
            reveal_strlit("");
            assert(""@ =~= Seq::<char>::empty());
            assert(cell@ == (if i < cv.len() { cv[i as int] } else { seq![] }));
        }
        let x = Span { content: pad_to(cell, widths[i]), style };
        spans.push(x);
        proof {
            lemma_spans_view_push(mid, x);
            assert(spans_view(spans@) =~= pv + row_spans(cv, wv.take(i + 1), style));
        }
        i = i + 1;
    }
    assert(wv.take(wv.len() as int) =~= wv);
    Line { spans }
}

/// The rule under a table's header: `prefix`, then a line as wide as each
/// column, joined by crossings.
fn rule_line(widths: &Vec<usize>, prefix: &Vec<Span>) -> (r: Line)
    ensures
        spans_view(r.spans@) == spans_view(prefix@) + rule_spans(widths@),
{
    let ghost pv = spans_view(prefix@);
    let ghost wv = widths@;
    let mut rule = with_span(prefix, Span { content: String::new(), style: Style::plain() });
    let ghost b0 = rule@;
    rule.pop();
    assert(spans_view(rule@) =~= spans_view(b0).drop_last());
    let mut i: usize = 0;
    while i < widths.len()
        invariant
            i <= widths.len(),
            wv == widths@,
            spans_view(rule@) == pv + rule_spans(wv.take(i as int)),
        decreases widths.len() - i,
    {
        assert(wv.take(i + 1).drop_last() =~= wv.take(i as int));
        let ghost before = rule@;
        if i > 0 {
            let x = Span { content: "─┼─".to_owned(), style: dim() };
            rule.push(x);
            proof { lemma_spans_view_push(before, x); }
        }
        let ghost mid = rule@;
        let x = Span { content: repeat("─", widths[i]), style: dim() };
        rule.push(x);
        proof {
            lemma_spans_view_push(mid, x);
            assert(spans_view(rule@) =~= pv + rule_spans(wv.take(i + 1)));
        }
        i = i + 1;
    }
    assert(wv.take(wv.len() as int) =~= wv);
    Line { spans: rule }
}

/// Appends a table as aligned columns of plain text: the header in bold
/// with a rule under it, the cells padded to their column's width, the
/// widest columns narrowed until the table fits.
#[verifier::spinoff_prover]
#[verifier::rlimit(40)]
fn render_table(tree: &MdTree, out: &mut Vec<Line>, prefix: &Vec<Span>, width: usize)
    ensures
        extends(final(out)@, old(out)@),
        lines_view(final(out)@) == lines_view(old(out)@) + table_block(*tree, spans_view(prefix@), width),
{
    let ghost start = out@;
    proof {
        lemma_extends_refl(start);
    }
    let mut rows: Vec<(bool, Vec<String>)> = Vec::new();
    table_rows(tree, &mut rows);
    let ghost rv = table_spec(*tree);
    assert(rows_view(rows@) =~= rv);
    let ghost pv = spans_view(prefix@);
    if rows.len() == 0 {
        assert(lines_view(out@) =~= lines_view(start) + table_block(*tree, spans_view(prefix@), width));
        return;
    }
    let widths = column_widths(&rows, prefix, width);
    let ghost wv = widths@;
    let mut r: usize = 0;
    while r < rows.len()
        invariant
            r <= rows.len(),
            rows_view(rows@) == rv,
            widths@ == wv,
            wv == table_widths(rv, table_avail(width, spans_view(prefix@))),
            pv == spans_view(prefix@),
            extends(out@, start),
            lines_view(out@) == lines_view(start) + table_lines(rv.take(r as int), pv, wv),
        decreases rows.len() - r,
    {
        assert(rv.take(r + 1).drop_last() =~= rv.take(r as int));
        let is_header = rows[r].0;
        let style = if is_header { Style::plain().bold() } else { Style::plain() };
        assert(style == row_style(is_header));
        let line = row_line(&rows[r].1, &widths, style, prefix);
        let ghost before = out@;
        out.push(line);
        proof {
            lemma_lines_view_push(before, line);
            assert(out@.take(before.len() as int) =~= before);
            lemma_extends_trans(out@, before, start);
        }
        if is_header {
            let rule = rule_line(&widths, prefix);
            let ghost before = out@;
            out.push(rule);
            proof {
                lemma_lines_view_push(before, rule);
                assert(out@.take(before.len() as int) =~= before);
                lemma_extends_trans(out@, before, start);
            }
        }
        assert(lines_view(out@) =~= lines_view(start) + table_lines(rv.take(r + 1), pv, wv));
        r = r + 1;
    }
    assert(rv.take(rows.len() as int) =~= rv);
}

/// The nesting a block is rendered in: whether its parent is a list item,
/// and the list settings of its parent list, if it is in one.
#[derive(Clone, Copy)]
pub struct Nesting {
    pub in_item: bool,
    pub parent_list: Option<(bool, usize, bool)>,
}

/// Whether a line, as values, shows nothing: all its spans are whitespace.
pub open spec fn blank_v(l: Seq<SpanV>) -> bool {
    forall|i: int| 0 <= i < l.len() ==> trim((#[trigger] l[i]).0).len() == 0
}

proof fn lemma_blank_v(l: Line)
    ensures
        blank_line(l) == blank_v(spans_view(l.spans@)),
{
    let v = spans_view(l.spans@);
    assert forall|i: int| 0 <= i < l.spans@.len() implies (#[trigger] v[i]).0 == l.spans@[i].content@ by {}
    if blank_v(v) {
        assert forall|i: int| 0 <= i < l.spans@.len() implies trim((#[trigger] l.spans@[i]).content@).len() == 0 by {
            assert(v[i].0 == l.spans@[i].content@);
        }
    }
    if blank_line(l) {
        assert forall|i: int| 0 <= i < v.len() implies trim((#[trigger] v[i]).0).len() == 0 by {
            assert(v[i].0 == l.spans@[i].content@);
        }
    }
}

/// The lines `acc` with a separating line (`pv` alone) after them, unless
/// there are none or the last is blank.
pub open spec fn sep_v(acc: Seq<Seq<SpanV>>, pv: Seq<SpanV>) -> Seq<Seq<SpanV>> {
    if acc.len() == 0 || blank_v(acc.last()) { acc } else { acc.push(pv) }
}

/// The nesting that the children of `t` are rendered in.
pub open spec fn children_nesting(t: MdTree) -> Nesting {
    Nesting {
        in_item: t.node.kind@ == "item"@ || t.node.kind@ == "taskitem"@,
        parent_list: if t.node.kind@ == "list"@ { t.node.list } else { None },
    }
}

/// The style of a heading of `level`.
pub open spec fn heading_style_spec(level: u8) -> Style {
    Style {
        fg: Some(if level == 1 { Color::Magenta } else if level == 2 { Color::Cyan } else { Color::Blue }),
        bold: true,
        ..Style::plain_spec()
    }
}

/// The marker of a list item: its number and delimiter, or a bullet.
pub open spec fn item_marker(list: (bool, usize, bool)) -> Seq<char> {
    if list.0 {
        decimal_spec(list.1 as nat).push(if list.2 { ')' } else { '.' }).push(' ')
    } else {
        "• "@
    }
}

/// The prefix of the first line of a list item: its marker, then the
/// checkbox of a task.
pub open spec fn item_first(pv: Seq<SpanV>, marker: Seq<char>, task: Option<bool>) -> Seq<SpanV> {
    pv.push((marker, Style { fg: Some(Color::Yellow), ..Style::plain_spec() })) + match task {
        Some(true) => seq![("[x] "@, Style { fg: Some(Color::Green), ..Style::plain_spec() })],
        Some(false) => seq![("[ ] "@, dim_spec())],
        None => seq![],
    }
}

/// The lines `acc` after the first `k` children of `t` are rendered after
/// `pv` within `width`.
pub open spec fn children_k(acc: Seq<Seq<SpanV>>, t: MdTree, k: nat, pv: Seq<SpanV>, width: usize) -> Seq<Seq<SpanV>>
    decreases t, 0nat, k,
{
    if k == 0 || k > t.children@.len() {
        acc
    } else {
        proof {
            assert(decreases_to!(t => t.children@[k - 1]));
        }
        block_out(children_k(acc, t, (k - 1) as nat, pv, width), t.children@[k - 1], pv, width, children_nesting(t))
    }
}

/// The lines `acc` after the children of a list item from the second to
/// the `k`-th are rendered after `cont`.
pub open spec fn item_rest(acc: Seq<Seq<SpanV>>, t: MdTree, k: nat, cont: Seq<SpanV>, width: usize) -> Seq<Seq<SpanV>>
    decreases t, 0nat, k,
{
    if k <= 1 || k > t.children@.len() {
        acc
    } else {
        proof {
            assert(decreases_to!(t => t.children@[k - 1]));
        }
        block_out(item_rest(acc, t, (k - 1) as nat, cont, width), t.children@[k - 1], cont, width, Nesting { in_item: true, parent_list: None })
    }
}

/// The lines `acc` after the list item `t` is rendered after `pv`: its
/// marker (and checkbox), its first block after them, its other blocks
/// indented under its text.
pub open spec fn item_out(acc: Seq<Seq<SpanV>>, t: MdTree, list: (bool, usize, bool), task: Option<bool>, pv: Seq<SpanV>, width: usize) -> Seq<Seq<SpanV>>
    decreases t, 1nat, 0nat,
{
    let marker = item_marker(list);
    let first = item_first(pv, marker, task);
    let cont = pv.push((repeat_spec(" "@, str_columns(marker) as nat), Style::plain_spec()));
    if t.children@.len() == 0 {
        acc.push(first)
    } else {
        proof {
            assert(decreases_to!(t => t.children@[0]));
        }
        let child = t.children@[0];
        let a1 = if child.node.kind@ == "paragraph"@ {
            acc + inline_block(child, first, cont, width, Style::plain_spec())
        } else {
            block_out(acc, child, first, width, Nesting { in_item: true, parent_list: None })
        };
        item_rest(a1, t, t.children@.len(), cont, width)
    }
}

/// The lines `acc` after the block `t` is rendered after `pv` within
/// `width` in `nesting`: a separating line before most blocks; paragraphs,
/// headings (after their marks) and terms as wrapped text; code blocks,
/// tables and rules as their lines; quotes, alerts (after their title) and
/// footnotes with a mark before their blocks; lists and items as their
/// blocks; HTML as nothing.
pub open spec fn block_out(acc: Seq<Seq<SpanV>>, t: MdTree, pv: Seq<SpanV>, width: usize, nesting: Nesting) -> Seq<Seq<SpanV>>
    decreases t, 2nat, 0nat,
{
    let k = t.node.kind@;
    let n = t.children@.len();
    if k == "document"@ || k == "frontmatter"@ || k == "description_list"@ || k == "description_item"@ {
        children_k(acc, t, n, pv, width)
    } else if k == "paragraph"@ {
        sep_v(acc, pv) + inline_block(t, pv, pv, width, Style::plain_spec())
    } else if k == "heading"@ {
        let level: u8 = match t.node.heading {
            Some(l) => l,
            None => 1,
        };
        sep_v(acc, pv) + inline_block(t, pv.push((repeat_spec("#"@, level as nat).push(' '), dim_spec())), pv, width, heading_style_spec(level))
    } else if k == "code_block"@ {
        match t.node.code_block {
            Some(cb) => sep_v(acc, pv) + code_block_lines(cb.0@, cb.1@, pv, width),
            None => sep_v(acc, pv),
        }
    } else if k == "block_quote"@ || k == "multiline_block_quote"@ {
        children_k(sep_v(acc, pv), t, n, pv.push(("│ "@, dim_spec())), width)
    } else if k == "alert"@ {
        let inner = pv.push(("│ "@, dim_spec()));
        let title = match t.node.alert {
            Some(al) => match al.1 {
                Some(tt) => tt@,
                None => al.0@.map_values(|c: char| upper_char(c)),
            },
            None => seq![],
        };
        children_k(sep_v(acc, pv).push(inner.push((title, Style { fg: Some(Color::Yellow), bold: true, ..Style::plain_spec() }))), t, n, inner, width)
    } else if k == "list"@ {
        children_k(if !nesting.in_item { sep_v(acc, pv) } else { acc }, t, n, pv, width)
    } else if k == "item"@ {
        let list = match t.node.list {
            Some(l) => l,
            None => (false, 1usize, false),
        };
        item_out(acc, t, list, None, pv, width)
    } else if k == "taskitem"@ {
        let list = match nesting.parent_list {
            Some(l) => l,
            None => (false, 1usize, false),
        };
        let checked = match t.node.task {
            Some(c) => c,
            None => false,
        };
        item_out(acc, t, list, Some(checked), pv, width)
    } else if k == "thematic_break"@ {
        let pw = cut_cols(pv);
        let rw = if width > pw && width - pw >= 1 { width - pw } else { 1 };
        sep_v(acc, pv).push(pv.push((repeat_spec("─"@, rw as nat), dim_spec())))
    } else if k == "table"@ {
        sep_v(acc, pv) + table_block(t, pv, width)
    } else if k == "footnote_definition"@ {
        children_k(sep_v(acc, pv), t, n, pv.push(("["@ + text_or_empty(t.node.footnote) + "] "@, dim_spec())), width)
    } else if k == "html_block"@ {
        acc
    } else if k == "description_term"@ {
        sep_v(acc, pv) + inline_block(t, pv, pv, width, Style { bold: true, ..Style::plain_spec() })
    } else if k == "description_details"@ {
        children_k(acc, t, n, pv.push(("  "@, Style::plain_spec())), width)
    } else {
        acc + inline_block(t, pv, pv, width, Style::plain_spec())
    }
}

/// Appends the blocks that are the children of `tree`.
fn render_children(tree: &MdTree, out: &mut Vec<Line>, prefix: &Vec<Span>, width: usize)
    ensures
        lines_view(final(out)@) == children_k(lines_view(old(out)@), *tree, tree.children@.len(), spans_view(prefix@), width),
    decreases tree, 0nat,
{
    let ghost start = lines_view(out@);
    let nesting = Nesting {
        in_item: is_kind(&tree.node, "item") || is_kind(&tree.node, "taskitem"),
        parent_list: if is_kind(&tree.node, "list") { tree.node.list } else { None },
    };
    assert(nesting == children_nesting(*tree));
    let mut i: usize = 0;
    while i < tree.children.len()
        invariant
            i <= tree.children.len(),
            nesting == children_nesting(*tree),
            lines_view(out@) == children_k(start, *tree, i as nat, spans_view(prefix@), width),
        decreases tree.children.len() - i,
    {
        proof {
            assert(decreases_to!(tree => tree.children@[i as int]));
        }
        render_block(&tree.children[i], out, prefix, width, nesting);
        i = i + 1;
    }
}

/// Appends a list item: its marker (`N. `, `N) ` or a bullet, then a
/// checkbox for a task), its first block after the marker, and its other
/// blocks indented under the item's text.
fn render_item(tree: &MdTree, list: (bool, usize, bool), task: Option<bool>, out: &mut Vec<Line>, prefix: &Vec<Span>, width: usize)
    ensures
        lines_view(final(out)@) == item_out(lines_view(old(out)@), *tree, list, task, spans_view(prefix@), width),
    decreases tree, 1nat,
{
    let ghost start = lines_view(out@);
    let ghost pv = spans_view(prefix@);
    let (ordered, number, paren) = list;
    let marker = if ordered {
        let mut m = crate::tool_view::decimal(number);
        push_char(&mut m, if paren { ')' } else { '.' });
        push_char(&mut m, ' ');
        m
    } else {
        "• ".to_owned()
    };
    assert(marker@ == item_marker(list));
    let marker_width = str_width(marker.as_str());
    let mut first = with_span(prefix, Span { content: marker, style: Style::plain().fg(Color::Yellow) });
    let ghost f0 = first@;
    match task {
        Some(checked) => {
            if checked {
                first.push(Span { content: "[x] ".to_owned(), style: Style::plain().fg(Color::Green) });
            } else {
                first.push(Span { content: "[ ] ".to_owned(), style: dim() });
            }
            assert(spans_view(first@) =~= spans_view(f0).push(span_view(first@.last())));
        },
        None => {},
    }
    assert(spans_view(first@) =~= item_first(pv, item_marker(list), task));
    let cont = with_span(prefix, Span { content: repeat(" ", marker_width), style: Style::plain() });
    let ghost cv = spans_view(cont@);
    assert(cv == pv.push((repeat_spec(" "@, str_columns(item_marker(list)) as nat), Style::plain_spec())));
    if tree.children.len() == 0 {
        let ghost before = out@;
        let line = Line { spans: first };
        out.push(line);
        proof { lemma_lines_view_push(before, line); }
        return;
    }
    proof {
        assert(decreases_to!(tree => tree.children@[0]));
    }
    let child = &tree.children[0];
    let nesting = Nesting { in_item: true, parent_list: None };
    if is_kind(&child.node, "paragraph") {
        render_inline_block(child, out, &first, &cont, width, Style::plain());
    } else {
        render_block(child, out, &first, width, nesting);
    }
    let ghost a1 = lines_view(out@);
    assert(item_rest(a1, *tree, 1, cv, width) == a1);
    let mut i: usize = 1;
    while i < tree.children.len()
        invariant
            1 <= i <= tree.children.len(),
            cv == spans_view(cont@),
            nesting == (Nesting { in_item: true, parent_list: None }),
            lines_view(out@) == item_rest(a1, *tree, i as nat, cv, width),
        decreases tree.children.len() - i,
    {
        proof {
            assert(decreases_to!(tree => tree.children@[i as int]));
        }
        render_block(&tree.children[i], out, &cont, width, nesting);
        i = i + 1;
    }
}

/// Appends a separating line (the prefix alone) unless `out` is empty or
/// ends with a blank line.
fn separate_keeping(out: &mut Vec<Line>, prefix: &Vec<Span>)
    ensures
        lines_view(final(out)@) == sep_v(lines_view(old(out)@), spans_view(prefix@)),
{
    let ghost before = out@;
    separate(out, prefix);
    proof {
        if before.len() > 0 {
            lemma_blank_v(before.last());
            assert(lines_view(before).last() == spans_view(before.last().spans@));
        }
        if !(before.len() == 0 || blank_line(before.last())) {
            lemma_lines_view_push(before, out@.last());
            assert(out@ =~= before.push(out@.last()));
        }
    }
}

/// Appends a block of Markdown as wrapped lines after `prefix`.
fn render_block(tree: &MdTree, out: &mut Vec<Line>, prefix: &Vec<Span>, width: usize, nesting: Nesting)
    ensures
        lines_view(final(out)@) == block_out(lines_view(old(out)@), *tree, spans_view(prefix@), width, nesting),
    decreases tree, 2nat,
{
    let ghost start = lines_view(out@);
    let ghost pv = spans_view(prefix@);
    let node = &tree.node;
    if is_kind(node, "document") || is_kind(node, "frontmatter") || is_kind(node, "description_list")
        || is_kind(node, "description_item") {
        render_children(tree, out, prefix, width);
    } else if is_kind(node, "paragraph") {
        separate_keeping(out, prefix);
        render_inline_block(tree, out, prefix, prefix, width, Style::plain());
    } else if is_kind(node, "heading") {
        separate_keeping(out, prefix);
        let level = match node.heading {
            Some(l) => l,
            None => 1,
        };
        let mut marks = repeat("#", level as usize);
        push_char(&mut marks, ' ');
        let first = with_span(prefix, Span { content: marks, style: dim() });
        render_inline_block(tree, out, &first, prefix, width, heading_style(level));
    } else if is_kind(node, "code_block") {
        separate_keeping(out, prefix);
        match &node.code_block {
            Some((info, literal)) => render_code_block(info.as_str(), literal.as_str(), out, prefix, width),
            None => {},
        }
    } else if is_kind(node, "block_quote") || is_kind(node, "multiline_block_quote") {
        separate_keeping(out, prefix);
        let inner = with_span(prefix, Span { content: "│ ".to_owned(), style: dim() });
        render_children(tree, out, &inner, width);
    } else if is_kind(node, "alert") {
        separate_keeping(out, prefix);
        let inner = with_span(prefix, Span { content: "│ ".to_owned(), style: dim() });
        let title = match &node.alert {
            Some((kind, Some(t))) => t.clone(),
            Some((kind, None)) => ascii_upper(kind.as_str()),
            None => String::new(),
        };
        let header = with_span(&inner, Span { content: title, style: Style::plain().fg(Color::Yellow).bold() });
        let ghost before = out@;
        let line = Line { spans: header };
        out.push(line);
        proof { lemma_lines_view_push(before, line); }
        render_children(tree, out, &inner, width);
    } else if is_kind(node, "list") {
        if !nesting.in_item {
            separate_keeping(out, prefix);
        }
        render_children(tree, out, prefix, width);
    } else if is_kind(node, "item") {
        let list = match node.list {
            Some(l) => l,
            None => (false, 1, false),
        };
        render_item(tree, list, None, out, prefix, width);
    } else if is_kind(node, "taskitem") {
        let list = match nesting.parent_list {
            Some(l) => l,
            None => (false, 1, false),
        };
        let checked = match node.task {
            Some(c) => c,
            None => false,
        };
        render_item(tree, list, Some(checked), out, prefix, width);
    } else if is_kind(node, "thematic_break") {
        separate_keeping(out, prefix);
        let pw = spans_width(prefix);
        proof { lemma_vcols(prefix@); }
        let rule_width = if width > pw && width - pw >= 1 { width - pw } else { 1 };
        let spans = with_span(prefix, Span { content: repeat("─", rule_width), style: dim() });
        let ghost before = out@;
        let line = Line { spans };
        out.push(line);
        proof { lemma_lines_view_push(before, line); }
    } else if is_kind(node, "table") {
        separate_keeping(out, prefix);
        render_table(tree, out, prefix, width);
    } else if is_kind(node, "footnote_definition") {
        separate_keeping(out, prefix);
        let mut label = "[".to_owned();
        match &node.footnote {
            Some(name) => append_str(&mut label, name.as_str()),
            None => {},
        }
        append_str(&mut label, "] ");
        proof {
            reveal_strlit("[");
            reveal_strlit("] ");
        }
        assert(label@ =~= "["@ + text_or_empty(node.footnote) + "] "@);
        let inner = with_span(prefix, Span { content: label, style: dim() });
        render_children(tree, out, &inner, width);
    } else if is_kind(node, "html_block") {
    } else if is_kind(node, "description_term") {
        separate_keeping(out, prefix);
        render_inline_block(tree, out, prefix, prefix, width, Style::plain().bold());
    } else if is_kind(node, "description_details") {
        let inner = with_span(prefix, Span { content: "  ".to_owned(), style: Style::plain() });
        render_children(tree, out, &inner, width);
    } else {
        render_inline_block(tree, out, prefix, prefix, width, Style::plain());
    }
}

/// Whether the steps `es` hold a tree: no step leaves a node that was
/// never entered, and some step leaves a node entered at the top.
pub open spec fn has_tree(es: Seq<MdEvent>) -> bool {
    (!exists|k: int| #[trigger] stray_exit(es, k)) && exists|k: int| #[trigger] top_exit(es, k)
}

/// Whether `lv` are the lines of the document whose walk is `es`, within
/// `width`: the blocks of its top tree (see `top_tree`) rendered one after
/// another, without blank lines at the start and at the end; nothing when
/// the walk holds no tree.
pub open spec fn md_rendered(es: Seq<MdEvent>, width: usize, lv: Seq<Seq<SpanV>>) -> bool {
    if has_tree(es) {
        exists|t: MdTree| #[trigger] top_tree(t, es) && lv == trim_edges_v(children_k(seq![], t, t.children@.len(), seq![], width))
    } else {
        lv.len() == 0
    }
}

/// Markdown as styled lines wrapped for a pane `width` columns wide (see
/// `md_rendered`): nothing for a zero width or for text that is only
/// whitespace, and never a blank first or last line.
pub fn render_markdown(text: &str, width: usize) -> (r: Vec<Line>)
    ensures
        width == 0 || trim(text@).len() == 0 ==> r@.len() == 0,
        width > 0 && trim(text@).len() > 0 ==> md_rendered(markdown_walk(text@), width, lines_view(r@)),
        r@.len() > 0 ==> !blank_line(r@[0]) && !blank_line(r@.last()),
{
    let cs = chars_of(text);
    let (lo, hi) = trim_bounds(&cs, 0, cs.len());
    assert(cs@.subrange(0, cs@.len() as int) =~= text@);
    if width == 0 || lo == hi {
        return Vec::new();
    }
    let events = markdown_events(text);
    let ghost es = events@;
    let mut out: Vec<Line> = Vec::new();
    assert(lines_view(out@) =~= Seq::<Seq<SpanV>>::empty());
    let empty: Vec<Span> = Vec::new();
    assert(spans_view(empty@) =~= Seq::<SpanV>::empty());
    let root = tree_of(events);
    match root {
        Some(root) => {
            render_children(&root, &mut out, &empty, width);
            trim_blank_edges(&mut out);
            assert(top_tree(root, es));
        },
        None => {
            trim_blank_edges(&mut out);
        },
    }
    out
}

} // verus!

