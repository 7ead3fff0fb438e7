//! Slash-command autocomplete for the chat input.
//!
//! The match list is derived from the input on every keystroke rather than
//! stored, so it cannot drift out of sync with what has been typed. Only the
//! highlighted row and the dismissed flag are state.

use vstd::prelude::*;
use crate::command::{commands, entries_view, spec_commands, CommandEntry};
use crate::text::{append_str, chars_of, find_ws, find_ws_from, lemma_find_ws_bounds, is_ws};

verus! {

/// A command offered in the popup: the name as typed and its help text.
pub struct Match {
    pub name: &'static str,
    pub description: &'static str,
    /// Whether the command takes an argument, so accepting it leaves a space
    /// for the user to keep typing.
    pub takes_argument: bool,
}

/// The popup state: the highlighted row and whether it was dismissed.
pub struct Completion {
    /// Row highlighted in the popup.
    selected: usize,
    /// Set by Esc, cleared by the next edit.
    dismissed: bool,
}

/// What a match shows: name, description, and whether it takes an argument.
pub type MatchView = (Seq<char>, Seq<char>, bool);

pub open spec fn match_view(m: Match) -> MatchView {
    (m.name@, m.description@, m.takes_argument)
}

pub open spec fn matches_view(ms: Seq<Match>) -> Seq<MatchView> {
    ms.map_values(|m: Match| match_view(m))
}

/// The command name in a usage line: everything before the first whitespace.
pub open spec fn bare_name(usage: Seq<char>) -> Seq<char> {
    usage.take(find_ws_from(usage, 0))
}

pub open spec fn starts_with(s: Seq<char>, prefix: Seq<char>) -> bool {
    s.len() >= prefix.len() && s.take(prefix.len() as int) == prefix
}

/// The entries of `entries` whose name starts with `input`, in order.
pub open spec fn matching(entries: Seq<(Seq<char>, Seq<char>)>, input: Seq<char>) -> Seq<MatchView>
    decreases entries.len(),
{
    if entries.len() == 0 {
        seq![]
    } else {
        let e = entries.last();
        let rest = matching(entries.drop_last(), input);
        if starts_with(bare_name(e.0), input) {
            rest.push((bare_name(e.0), e.1, e.0.contains('[')))
        } else {
            rest
        }
    }
}

/// Whether the input is a command name being typed: it starts with `/` and
/// has no whitespace yet.
pub open spec fn completes(input: Seq<char>) -> bool {
    input.len() > 0 && input[0] == '/' && find_ws_from(input, 0) == input.len()
}

/// The popup rows for `input`, given whether the popup was dismissed.
pub open spec fn spec_matches(dismissed: bool, input: Seq<char>) -> Seq<MatchView> {
    if dismissed || !completes(input) {
        seq![]
    } else {
        matching(spec_commands(), input)
    }
}

/// The highlighted row, clamped into a list of `count` rows.
pub open spec fn clamp_selected(selected: nat, count: nat) -> nat {
    if count == 0 {
        0
    } else if selected < count {
        selected
    } else {
        (count - 1) as nat
    }
}

/// The row after `selected`, wrapping past the end.
pub open spec fn next_row(selected: nat, count: nat) -> nat {
    if count == 0 {
        selected
    } else {
        (clamp_selected(selected, count) + 1) % count
    }
}

/// The row before `selected`, wrapping past the start.
pub open spec fn prev_row(selected: nat, count: nat) -> nat {
    if count == 0 {
        selected
    } else {
        ((clamp_selected(selected, count) + count - 1) as nat) % count
    }
}

impl Completion {
    pub closed spec fn selected_row(&self) -> nat {
        self.selected as nat
    }

    pub closed spec fn is_dismissed(&self) -> bool {
        self.dismissed
    }

    /// A closed-by-default popup with the first row highlighted.
    pub fn default() -> (r: Completion)
        ensures
            r.selected_row() == 0,
            !r.is_dismissed(),
    {
        Completion { selected: 0, dismissed: false }
    }

    /// Commands matching what has been typed. Empty once the input has an
    /// argument: the popup completes names, not values.
    pub fn matches(&self, input: &str) -> (r: Vec<Match>)
        ensures
            matches_view(r@) == spec_matches(self.is_dismissed(), input@),
    {
        let v = chars_of(input);
        let end = find_ws(&v, 0, v.len());
        assert(v@.subrange(0, v@.len() as int) =~= v@);
        if self.dismissed || v.len() == 0 || v[0] != '/' || end != v.len() {
            let r: Vec<Match> = Vec::new();
            assert(matches_view(r@) =~= seq![]);
            return r;
        }
        let entries = commands();
        let mut out: Vec<Match> = Vec::new();
        let mut i: usize = 0;
        while i < entries.len()
            invariant
                i <= entries.len(),
                entries_view(entries@) == spec_commands(),
                v@ == input@,
                matches_view(out@) == matching(entries_view(entries@).take(i as int), input@),
            decreases entries.len() - i,
        {
            let usage = entries[i].usage;
            let uv = chars_of(usage);
            let k = find_ws(&uv, 0, uv.len());
            assert(uv@.subrange(0, uv@.len() as int) =~= uv@);
            proof {
                lemma_find_ws_bounds(uv@, 0);
            }
            let bare = usage.substring_char(0, k);
            let ghost es = entries_view(entries@);
            assert(es.take(i + 1).drop_last() =~= es.take(i as int));
            assert(es.take(i + 1).last() == (usage@, entries@[i as int].description@));
            assert(bare@ == bare_name(usage@));
            if prefix_of(&v, &chars_of(bare)) {
                let takes = contains_char(&uv, '[');
                let m = Match { name: bare, description: entries[i].description, takes_argument: takes };
                let ghost before = out@;
                out.push(m);
                assert(matches_view(out@) =~= matches_view(before).push(match_view(m)));
            }
            i = i + 1;
        }
        assert(entries_view(entries@).take(entries.len() as int) =~= entries_view(entries@));
        out
    }

    pub fn is_open(&self, input: &str) -> (r: bool)
        ensures
            r == (spec_matches(self.is_dismissed(), input@).len() > 0),
    {
        self.matches(input).len() > 0
    }

    /// Highlighted row, clamped in case the match list shrank as the user typed.
    pub fn selected(&self, input: &str) -> (r: usize)
        ensures
            r == clamp_selected(self.selected_row(), spec_matches(self.is_dismissed(), input@).len()),
            spec_matches(self.is_dismissed(), input@).len() > 0 ==> r < spec_matches(
                self.is_dismissed(),
                input@,
            ).len(),
    {
        let count = self.matches(input).len();
        if count == 0 {
            0
        } else if self.selected < count {
            self.selected
        } else {
            count - 1
        }
    }

    /// Moves the highlight down one row, wrapping to the top.
    pub fn next(&mut self, input: &str)
        ensures
            final(self).selected_row() == next_row(
                old(self).selected_row(),
                spec_matches(old(self).is_dismissed(), input@).len(),
            ),
            final(self).is_dismissed() == old(self).is_dismissed(),
    {
        let count = self.matches(input).len();
        if count > 0 {
            self.selected = (self.selected(input) + 1) % count;
        }
    }

    /// Moves the highlight up one row, wrapping to the bottom.
    pub fn prev(&mut self, input: &str)
        ensures
            final(self).selected_row() == prev_row(
                old(self).selected_row(),
                spec_matches(old(self).is_dismissed(), input@).len(),
            ),
            final(self).is_dismissed() == old(self).is_dismissed(),
    {
        let count = self.matches(input).len();
        if count > 0 {
            let sel = self.selected(input);
            proof {
                lemma_prev_wraps(sel as int, count as int);
            }
            self.selected = if sel == 0 {
                count - 1
            } else {
                sel - 1
            };
        }
    }

    /// Hides the popup until the next edit.
    pub fn dismiss(&mut self)
        ensures
            final(self).is_dismissed(),
            final(self).selected_row() == old(self).selected_row(),
    {
        self.dismissed = true;
    }

    /// Called on every edit: a fresh keystroke re-opens the popup and starts
    /// the highlight at the top.
    pub fn reset(&mut self)
        ensures
            !final(self).is_dismissed(),
            final(self).selected_row() == 0,
    {
        self.dismissed = false;
        self.selected = 0;
    }

    /// The input text after accepting the highlighted match: its name, with a
    /// trailing space when the command takes an argument.
    pub fn accept(&self, input: &str) -> (r: Option<String>)
        ensures
            ({
                let ms = spec_matches(self.is_dismissed(), input@);
                let i = clamp_selected(self.selected_row(), ms.len());
                match r {
                    None => ms.len() == 0,
                    Some(s) => ms.len() > 0 && s@ == (if ms[i as int].2 {
                        ms[i as int].0 + " "@
                    } else {
                        ms[i as int].0
                    }),
                }
            }),
    {
        let matches = self.matches(input);
        let index = self.selected(input);
        if index >= matches.len() {
            return None;
        }
        let chosen = &matches[index];
        assert(match_view(*chosen) == matches_view(matches@)[index as int]);
        let mut out = chosen.name.to_owned();
        if chosen.takes_argument {
            append_str(&mut out, " ");
        }
        Some(out)
    }
}

/// Whether `prefix` is a prefix of `s`.
fn prefix_of(prefix: &Vec<char>, s: &Vec<char>) -> (r: bool)
    ensures
        r == starts_with(s@, prefix@),
{
    if prefix.len() > s.len() {
        return false;
    }
    let mut i: usize = 0;
    while i < prefix.len()
        invariant
            prefix.len() <= s.len(),
            i <= prefix.len(),
            forall|j: int| 0 <= j < i ==> s@[j] == prefix@[j],
        decreases prefix.len() - i,
    {
        if s[i] != prefix[i] {
            assert(s@.take(prefix.len() as int)[i as int] != prefix@[i as int]);
            return false;
        }
        i = i + 1;
    }
    assert(s@.take(prefix.len() as int) =~= prefix@);
    true
}

/// Whether `c` occurs in `v`.
fn contains_char(v: &Vec<char>, c: char) -> (r: bool)
    ensures
        r == v@.contains(c),
{
    let mut i: usize = 0;
    while i < v.len()
        invariant
            i <= v.len(),
            forall|j: int| 0 <= j < i ==> v@[j] != c,
        decreases v.len() - i,
    {
        if v[i] == c {
            assert(v@[i as int] == c);
            return true;
        }
        i = i + 1;
    }
    false
}

/// Moving the highlight down and then up again lands on the row that was
/// highlighted before, for any list that is not empty.
pub proof fn lemma_next_then_prev(selected: nat, count: nat)
    requires
        count > 0,
    ensures
        prev_row(next_row(selected, count), count) == clamp_selected(selected, count),
{
    let c: int = clamp_selected(selected, count) as int;
    let n: int = next_row(selected, count) as int;
    let k: int = count as int;
    assert(0 <= c < k);
    assert(n == (c + 1) % k);
    lemma_mod_step(c, k);
    assert(clamp_selected(n as nat, count) == n);
    assert(prev_row(n as nat, count) as int == (n + k - 1) % k);
    lemma_mod_back(c, n, k);
}

proof fn lemma_mod_step(c: int, k: int)
    requires
        0 <= c < k,
    ensures
        (c + 1 < k ==> (c + 1) % k == c + 1),
        (c + 1 == k ==> (c + 1) % k == 0),
        0 <= (c + 1) % k < k,
{
    if c + 1 < k {
        vstd::arithmetic::div_mod::lemma_small_mod((c + 1) as nat, k as nat);
    } else {
        vstd::arithmetic::div_mod::lemma_mod_self_0(k);
    }
}

proof fn lemma_mod_back(c: int, n: int, k: int)
    requires
        0 <= c < k,
        n == (c + 1) % k,
        (c + 1 < k ==> n == c + 1),
        (c + 1 == k ==> n == 0),
    ensures
        (n + k - 1) % k == c,
{
    if c + 1 < k {
        assert(n + k - 1 == c + k);
        vstd::arithmetic::div_mod::lemma_mod_add_multiples_vanish(c, k);
        vstd::arithmetic::div_mod::lemma_small_mod(c as nat, k as nat);
    } else {
        assert(n + k - 1 == c);
        vstd::arithmetic::div_mod::lemma_small_mod(c as nat, k as nat);
    }
}

proof fn lemma_prev_wraps(c: int, k: int)
    requires
        0 <= c < k,
    ensures
        (c + k - 1) % k == (if c == 0 {
            k - 1
        } else {
            c - 1
        }),
{
    if c == 0 {
        vstd::arithmetic::div_mod::lemma_small_mod((k - 1) as nat, k as nat);
    } else {
        vstd::arithmetic::div_mod::lemma_mod_add_multiples_vanish(c - 1, k);
        vstd::arithmetic::div_mod::lemma_small_mod((c - 1) as nat, k as nat);
    }
}

/// The highlighted row is always within the list while the list is not
/// empty, however far the highlight was moved before the list shrank.
pub proof fn lemma_selection_in_range(selected: nat, count: nat)
    requires
        count > 0,
    ensures
        clamp_selected(selected, count) < count,
        next_row(selected, count) < count,
        prev_row(selected, count) < count,
{
    let c: int = clamp_selected(selected, count) as int;
    let k: int = count as int;
    vstd::arithmetic::div_mod::lemma_mod_bound(c + 1, k);
    vstd::arithmetic::div_mod::lemma_mod_bound(c + k - 1, k);
}

} // verus!
