//! Conservative auto-approval policy for the `/bin/sh -c` shell tool.
//!
//! A call is approved without asking the user only when its command is one
//! plain list item of read-only commands (`pwd`, `ls`, `grep`, `rg`, and
//! `find` on its own), with no expansions, assignments, redirections or
//! globs, with only known options, and with every path inside the working
//! directory.

use vstd::prelude::*;
use crate::json::{string_field, string_field_spec};
use crate::path::{
    lemma_normalize_idempotent,
    any_parent_dir, components, has_parent_dir, is_absolute, join_path_text, join_text,
    normalize, normalize_path, path_starts_with, render, render_path, split_components,
    starts_with_path, comps_view, NormPath, NormView, PathComponent,
};
use crate::provider::ToolCallRequest;
use crate::shell_syntax::{
    parse_shell_list, shell_parse, ShellCommand, ShellList, ShellPipeline, ShellSimpleCommand,
    ShellTextUnit, ShellWord, ShellWordUnit,
};
use crate::text::{chars_of, eq_str, has_prefix, has_prefix_str, opt_view};

verus! {

// ── paths ───────────────────────────────────────────────────────────────────

/// Whether the path argument `value` stays inside `cwd`: it is relative, has
/// no `..`, and `cwd` joined with it and normalised still begins with `cwd`.
pub open spec fn within(cwd: NormView, value: Seq<char>) -> bool {
    !is_absolute(value) && !has_parent_dir(value) && starts_with_path(
        normalize(join_text(render(cwd), value)),
        cwd,
    )
}

/// Whether the path argument `value` stays inside `cwd`.
pub fn path_is_within(cwd: &NormPath, value: &Vec<char>) -> (r: bool)
    ensures
        r == within(cwd@, value@),
{
    if value.len() > 0 && value[0] == '/' {
        return false;
    }
    let comps = split_components(value);
    if any_parent_dir(&comps) {
        return false;
    }
    let base = render_path(cwd);
    let joined = join_path_text(&base, value);
    let normalized = normalize_path(&joined);
    path_starts_with(&normalized, cwd)
}

// ── options ─────────────────────────────────────────────────────────────────

/// The commands whose short options are checked.
pub enum OptionSet {
    Ls,
    Grep,
    Rg,
}

/// The short options allowed for each command.
pub open spec fn allowed_short(set: OptionSet, c: char) -> bool {
    match set {
        OptionSet::Ls => c == '1' || c == 'A' || c == 'a' || c == 'd' || c == 'F' || c == 'h'
            || c == 'l' || c == 'R' || c == 'r' || c == 'S' || c == 't' || c == 'U',
        OptionSet::Grep => c == 'E' || c == 'F' || c == 'G' || c == 'H' || c == 'L' || c == 'R'
            || c == 'c' || c == 'h' || c == 'i' || c == 'l' || c == 'n' || c == 'o' || c == 'q'
            || c == 'r' || c == 's' || c == 'v' || c == 'w' || c == 'x',
        OptionSet::Rg => c == 'F' || c == 'H' || c == 'L' || c == 'c' || c == 'h' || c == 'i'
            || c == 'l' || c == 'n' || c == 'o' || c == 'q' || c == 's' || c == 'v' || c == 'w'
            || c == 'x',
    }
}

/// The short options allowed in a bundle are exactly these: for `ls`,
/// `1AadFhlRrStU`; for `grep`, `EFGHLRchilnoqrsvwx`; for `rg`,
/// `FHLchilnoqsvwx`.
pub proof fn lemma_allowed_short_letters(c: char)
    ensures
        allowed_short(OptionSet::Ls, c) <==> "1AadFhlRrStU"@.contains(c),
        allowed_short(OptionSet::Grep, c) <==> "EFGHLRchilnoqrsvwx"@.contains(c),
        allowed_short(OptionSet::Rg, c) <==> "FHLchilnoqsvwx"@.contains(c),
{
    reveal_strlit("1AadFhlRrStU");
    reveal_strlit("EFGHLRchilnoqrsvwx");
    reveal_strlit("FHLchilnoqsvwx");
    let ls = "1AadFhlRrStU"@;
    assert(ls =~= seq!['1', 'A', 'a', 'd', 'F', 'h', 'l', 'R', 'r', 'S', 't', 'U']);
    assert(ls.contains(c) ==> allowed_short(OptionSet::Ls, c));
    if allowed_short(OptionSet::Ls, c) {
        assert(exists|i: int| 0 <= i < ls.len() && ls[i] == c) by {
            if c == '1' { assert(ls[0] == c); } else if c == 'A' { assert(ls[1] == c); } else if c == 'a' { assert(ls[2] == c); } else if c == 'd' { assert(ls[3] == c); } else if c == 'F' { assert(ls[4] == c); } else if c == 'h' { assert(ls[5] == c); } else if c == 'l' { assert(ls[6] == c); } else if c == 'R' { assert(ls[7] == c); } else if c == 'r' { assert(ls[8] == c); } else if c == 'S' { assert(ls[9] == c); } else if c == 't' { assert(ls[10] == c); } else if c == 'U' { assert(ls[11] == c); }
        }
    }
    let gr = "EFGHLRchilnoqrsvwx"@;
    assert(gr =~= seq!['E', 'F', 'G', 'H', 'L', 'R', 'c', 'h', 'i', 'l', 'n', 'o', 'q', 'r', 's', 'v', 'w', 'x']);
    assert(gr.contains(c) ==> allowed_short(OptionSet::Grep, c));
    if allowed_short(OptionSet::Grep, c) {
        assert(exists|i: int| 0 <= i < gr.len() && gr[i] == c) by {
            if c == 'E' { assert(gr[0] == c); } else if c == 'F' { assert(gr[1] == c); } else if c == 'G' { assert(gr[2] == c); } else if c == 'H' { assert(gr[3] == c); } else if c == 'L' { assert(gr[4] == c); } else if c == 'R' { assert(gr[5] == c); } else if c == 'c' { assert(gr[6] == c); } else if c == 'h' { assert(gr[7] == c); } else if c == 'i' { assert(gr[8] == c); } else if c == 'l' { assert(gr[9] == c); } else if c == 'n' { assert(gr[10] == c); } else if c == 'o' { assert(gr[11] == c); } else if c == 'q' { assert(gr[12] == c); } else if c == 'r' { assert(gr[13] == c); } else if c == 's' { assert(gr[14] == c); } else if c == 'v' { assert(gr[15] == c); } else if c == 'w' { assert(gr[16] == c); } else if c == 'x' { assert(gr[17] == c); }
        }
    }
    let rg = "FHLchilnoqsvwx"@;
    assert(rg =~= seq!['F', 'H', 'L', 'c', 'h', 'i', 'l', 'n', 'o', 'q', 's', 'v', 'w', 'x']);
    assert(rg.contains(c) ==> allowed_short(OptionSet::Rg, c));
    if allowed_short(OptionSet::Rg, c) {
        assert(exists|i: int| 0 <= i < rg.len() && rg[i] == c) by {
            if c == 'F' { assert(rg[0] == c); } else if c == 'H' { assert(rg[1] == c); } else if c == 'L' { assert(rg[2] == c); } else if c == 'c' { assert(rg[3] == c); } else if c == 'h' { assert(rg[4] == c); } else if c == 'i' { assert(rg[5] == c); } else if c == 'l' { assert(rg[6] == c); } else if c == 'n' { assert(rg[7] == c); } else if c == 'o' { assert(rg[8] == c); } else if c == 'q' { assert(rg[9] == c); } else if c == 's' { assert(rg[10] == c); } else if c == 'v' { assert(rg[11] == c); } else if c == 'w' { assert(rg[12] == c); } else if c == 'x' { assert(rg[13] == c); }
        }
    }
}

fn is_allowed_short(set: &OptionSet, c: char) -> (r: bool)
    ensures
        r == allowed_short(*set, c),
{
    match set {
        OptionSet::Ls => c == '1' || c == 'A' || c == 'a' || c == 'd' || c == 'F' || c == 'h'
            || c == 'l' || c == 'R' || c == 'r' || c == 'S' || c == 't' || c == 'U',
        OptionSet::Grep => c == 'E' || c == 'F' || c == 'G' || c == 'H' || c == 'L' || c == 'R'
            || c == 'c' || c == 'h' || c == 'i' || c == 'l' || c == 'n' || c == 'o' || c == 'q'
            || c == 'r' || c == 's' || c == 'v' || c == 'w' || c == 'x',
        OptionSet::Rg => c == 'F' || c == 'H' || c == 'L' || c == 'c' || c == 'h' || c == 'i'
            || c == 'l' || c == 'n' || c == 'o' || c == 'q' || c == 's' || c == 'v' || c == 'w'
            || c == 'x',
    }
}

/// A bundle of short options such as `-la`: it starts with one `-`, and the
/// characters from the third on are allowed options. (The character right
/// after the `-` is only checked not to be another `-`.)
pub open spec fn short_bundle(arg: Seq<char>, set: OptionSet) -> bool {
    &&& arg.len() >= 1
    &&& arg[0] == '-'
    &&& (arg.len() == 1 || arg[1] != '-')
    &&& forall|i: int| 2 <= i < arg.len() ==> allowed_short(set, #[trigger] arg[i])
}

/// Whether `arg` is a bundle of short options from `set`.
pub fn short_option_bundle(arg: &Vec<char>, set: &OptionSet) -> (r: bool)
    ensures
        r == short_bundle(arg@, *set),
{
    if arg.len() == 0 || arg[0] != '-' {
        return false;
    }
    if arg.len() >= 2 && arg[1] == '-' {
        return false;
    }
    let mut i: usize = 2;
    while i < arg.len()
        invariant
            2 <= i,
            i <= arg.len() || arg.len() < 2,
            forall|j: int| 2 <= j < i && j < arg.len() ==> allowed_short(*set, #[trigger] arg@[j]),
        decreases arg.len() - i,
    {
        if !is_allowed_short(set, arg[i]) {
            return false;
        }
        i = i + 1;
    }
    true
}

/// The long options `ls` may be given.
pub open spec fn ls_long_option(a: Seq<char>) -> bool {
    a == "--all"@ || a == "--almost-all"@ || a == "--classify"@ || a == "--directory"@ || a
        == "--human-readable"@ || a == "--long"@ || a == "--one-file-system"@ || a
        == "--recursive"@ || a == "--reverse"@
}

fn is_ls_long_option(a: &Vec<char>) -> (r: bool)
    ensures
        r == ls_long_option(a@),
{
    eq_str(a, "--all") || eq_str(a, "--almost-all") || eq_str(a, "--classify") || eq_str(
        a,
        "--directory",
    ) || eq_str(a, "--human-readable") || eq_str(a, "--long") || eq_str(a, "--one-file-system")
        || eq_str(a, "--recursive") || eq_str(a, "--reverse")
}

// ── ls ──────────────────────────────────────────────────────────────────────

/// Whether `ls` may run with `args[i..]`, where `paths_started` tells whether
/// a path or `--` was already seen (after which nothing is an option).
pub open spec fn ls_args_ok(args: Seq<Seq<char>>, i: int, cwd: NormView, paths_started: bool) -> bool
    decreases args.len() - i,
{
    if i < 0 || i >= args.len() {
        true
    } else {
        let a = args[i];
        if a == "--"@ {
            ls_args_ok(args, i + 1, cwd, true)
        } else if !paths_started && has_prefix(a, "--"@) {
            ls_long_option(a) && ls_args_ok(args, i + 1, cwd, paths_started)
        } else if !paths_started && has_prefix(a, "-"@) && a != "-"@ {
            short_bundle(a, OptionSet::Ls) && ls_args_ok(args, i + 1, cwd, paths_started)
        } else {
            within(cwd, a) && ls_args_ok(args, i + 1, cwd, true)
        }
    }
}

pub open spec fn args_view(args: Seq<Vec<char>>) -> Seq<Seq<char>> {
    args.map_values(|a: Vec<char>| a@)
}

/// Whether `ls args` is safe to run in `cwd`.
pub fn validate_ls(args: &Vec<Vec<char>>, cwd: &NormPath) -> (r: bool)
    ensures
        r == ls_args_ok(args_view(args@), 0, cwd@, false),
{
    let ghost av = args_view(args@);
    let mut paths_started = false;
    let mut i: usize = 0;
    while i < args.len()
        invariant
            i <= args.len(),
            av == args_view(args@),
            ls_args_ok(av, 0, cwd@, false) == ls_args_ok(av, i as int, cwd@, paths_started),
        decreases args.len() - i,
    {
        let arg = &args[i];
        assert(av[i as int] == arg@);
        if eq_str(arg, "--") {
            paths_started = true;
            i = i + 1;
            continue;
        }
        if !paths_started && has_prefix_str(arg, "--") {
            if !is_ls_long_option(arg) {
                return false;
            }
            i = i + 1;
            continue;
        }
        if !paths_started && has_prefix_str(arg, "-") && !eq_str(arg, "-") {
            if !short_option_bundle(arg, &OptionSet::Ls) {
                return false;
            }
            i = i + 1;
            continue;
        }
        paths_started = true;
        if !path_is_within(cwd, arg) {
            return false;
        }
        i = i + 1;
    }
    true
}

// ── grep and rg ─────────────────────────────────────────────────────────────

/// Where the options of `grep` end in `args`, scanning from `i`: the index of
/// the pattern, or `None` when an option is not allowed.
pub open spec fn grep_scan(args: Seq<Seq<char>>, i: int, set: OptionSet) -> Option<int>
    decreases args.len() - i,
{
    if i < 0 || i >= args.len() {
        Some(i)
    } else if args[i] == "--"@ {
        Some(i + 1)
    } else if has_prefix(args[i], "-"@) {
        if args[i] == "-"@ || !short_bundle(args[i], set) {
            None
        } else {
            grep_scan(args, i + 1, set)
        }
    } else {
        Some(i)
    }
}

/// A path given to `grep` after the pattern.
pub open spec fn grep_path_ok(cwd: NormView, p: Seq<char>) -> bool {
    p != "-"@ && !has_prefix(p, "-"@) && within(cwd, p)
}

/// Whether `grep args` (or `rg args`) is safe to run in `cwd`: known short
/// options, then a pattern, then only paths inside `cwd`.
pub open spec fn grep_args_ok(args: Seq<Seq<char>>, cwd: NormView, ripgrep: bool) -> bool {
    let set = if ripgrep {
        OptionSet::Rg
    } else {
        OptionSet::Grep
    };
    match grep_scan(args, 0, set) {
        None => false,
        Some(p) => 0 <= p < args.len() && forall|j: int|
            p + 1 <= j < args.len() ==> grep_path_ok(cwd, #[trigger] args[j]),
    }
}

/// Whether `grep args` (or `rg args` when `ripgrep`) is safe to run in `cwd`.
pub fn validate_grep(args: &Vec<Vec<char>>, cwd: &NormPath, ripgrep: bool) -> (r: bool)
    ensures
        r == grep_args_ok(args_view(args@), cwd@, ripgrep),
{
    let ghost av = args_view(args@);
    let set = if ripgrep {
        OptionSet::Rg
    } else {
        OptionSet::Grep
    };
    assert(set == (if ripgrep { OptionSet::Rg } else { OptionSet::Grep }));
    let mut index: usize = 0;
    let mut scanning = true;
    while scanning && index < args.len()
        invariant
            index <= args.len(),
            av == args_view(args@),
            set == (if ripgrep { OptionSet::Rg } else { OptionSet::Grep }),
            scanning ==> grep_scan(av, 0, set) == grep_scan(av, index as int, set),
            !scanning ==> grep_scan(av, 0, set) == Some(index as int),
        decreases args.len() - index + (if scanning { 1int } else { 0int }),
    {
        let arg = &args[index];
        assert(av[index as int] == arg@);
        if eq_str(arg, "--") {
            index = index + 1;
            scanning = false;
        } else if has_prefix_str(arg, "-") {
            if eq_str(arg, "-") || !short_option_bundle(arg, &set) {
                assert(grep_scan(av, index as int, set) == None::<int>);
                return false;
            }
            index = index + 1;
        } else {
            scanning = false;
        }
    }
    assert(grep_scan(av, 0, set) == Some(index as int));
    if index >= args.len() {
        return false;
    }
    index = index + 1;
    let start = index;
    while index < args.len()
        invariant
            start <= index <= args.len(),
            start >= 1,
            av == args_view(args@),
            grep_scan(av, 0, set) == Some(start - 1),
            set == (if ripgrep { OptionSet::Rg } else { OptionSet::Grep }),
            forall|j: int| start <= j < index ==> grep_path_ok(cwd@, #[trigger] av[j]),
        decreases args.len() - index,
    {
        let path = &args[index];
        assert(av[index as int] == path@);
        if eq_str(path, "-") || has_prefix_str(path, "-") || !path_is_within(cwd, path) {
            return false;
        }
        index = index + 1;
    }
    true
}

// ── find ────────────────────────────────────────────────────────────────────

/// Whether `arg` begins the expression part of a `find` command.
pub open spec fn expression_start(arg: Seq<char>) -> bool {
    has_prefix(arg, "-"@) || arg == "!"@ || arg == "("@ || arg == ")"@
}

/// Whether `arg` begins the expression part of a `find` command.
pub fn find_expression_start(arg: &Vec<char>) -> (r: bool)
    ensures
        r == expression_start(arg@),
{
    has_prefix_str(arg, "-") || eq_str(arg, "!") || eq_str(arg, "(") || eq_str(arg, ")")
}

/// Where the starting points of `find` end, scanning from `i`; `None` when a
/// starting point lies outside `cwd`.
pub open spec fn find_paths_end(args: Seq<Seq<char>>, i: int, cwd: NormView) -> Option<int>
    decreases args.len() - i,
{
    if i < 0 || i >= args.len() || expression_start(args[i]) {
        Some(i)
    } else if !within(cwd, args[i]) {
        None
    } else {
        find_paths_end(args, i + 1, cwd)
    }
}

/// `find` tests that take a non-empty string operand.
pub open spec fn find_string_test(p: Seq<char>) -> bool {
    p == "-name"@ || p == "-iname"@ || p == "-path"@ || p == "-ipath"@ || p == "-regex"@ || p
        == "-iregex"@ || p == "-printf"@
}

/// `find` primaries and operators that take no operand.
pub open spec fn find_flag(p: Seq<char>) -> bool {
    p == "-a"@ || p == "-and"@ || p == "-o"@ || p == "-or"@ || p == "!"@ || p == "-not"@ || p
        == "("@ || p == ")"@ || p == "-xdev"@ || p == "-mount"@ || p == "-depth"@ || p == "-d"@
        || p == "-prune"@ || p == "-print"@ || p == "-print0"@ || p == "-ls"@ || p == "-empty"@
        || p == "-readable"@ || p == "-writable"@ || p == "-executable"@
}

/// File types that `find -type` accepts.
pub open spec fn find_file_type(t: Seq<char>) -> bool {
    t == "b"@ || t == "c"@ || t == "d"@ || t == "f"@ || t == "l"@ || t == "p"@ || t == "s"@
}

/// The value of a string of decimal digits.
pub open spec fn digits_value(d: Seq<char>) -> int
    decreases d.len(),
{
    if d.len() == 0 {
        0
    } else {
        digits_value(d.drop_last()) * 10 + (d.last() as int - '0' as int)
    }
}

pub open spec fn all_digits(d: Seq<char>) -> bool {
    forall|i: int| 0 <= i < d.len() ==> '0' <= #[trigger] d[i] && d[i] <= '9'
}

/// Whether `s` parses as a `usize` (`str::parse::<usize>`): an optional `+`,
/// then at least one decimal digit, with a value that fits.
pub open spec fn parses_as_usize(s: Seq<char>) -> bool {
    let d = if s.len() > 1 && s[0] == '+' {
        s.drop_first()
    } else {
        s
    };
    s.len() > 0 && all_digits(d) && digits_value(d) <= usize::MAX
}

/// Whether the expression `args[i..]` of a `find` command only uses tests
/// and operators that cannot change anything.
pub open spec fn find_expression_ok(args: Seq<Seq<char>>, i: int) -> bool
    decreases args.len() - i,
{
    if i < 0 || i >= args.len() {
        true
    } else {
        let p = args[i];
        if find_string_test(p) {
            i + 1 < args.len() && args[i + 1].len() > 0 && find_expression_ok(args, i + 2)
        } else if p == "-type"@ {
            i + 1 < args.len() && find_file_type(args[i + 1]) && find_expression_ok(args, i + 2)
        } else if p == "-maxdepth"@ || p == "-mindepth"@ {
            i + 1 < args.len() && parses_as_usize(args[i + 1]) && find_expression_ok(args, i + 2)
        } else if find_flag(p) {
            find_expression_ok(args, i + 1)
        } else {
            false
        }
    }
}

/// Whether `find args` is safe to run in `cwd`.
pub open spec fn find_args_ok(args: Seq<Seq<char>>, cwd: NormView) -> bool {
    match find_paths_end(args, 0, cwd) {
        None => false,
        Some(i) => find_expression_ok(args, i),
    }
}

fn is_find_string_test(p: &Vec<char>) -> (r: bool)
    ensures
        r == find_string_test(p@),
{
    eq_str(p, "-name") || eq_str(p, "-iname") || eq_str(p, "-path") || eq_str(p, "-ipath")
        || eq_str(p, "-regex") || eq_str(p, "-iregex") || eq_str(p, "-printf")
}

fn is_find_flag(p: &Vec<char>) -> (r: bool)
    ensures
        r == find_flag(p@),
{
    eq_str(p, "-a") || eq_str(p, "-and") || eq_str(p, "-o") || eq_str(p, "-or") || eq_str(p, "!")
        || eq_str(p, "-not") || eq_str(p, "(") || eq_str(p, ")") || eq_str(p, "-xdev") || eq_str(
        p,
        "-mount",
    ) || eq_str(p, "-depth") || eq_str(p, "-d") || eq_str(p, "-prune") || eq_str(p, "-print")
        || eq_str(p, "-print0") || eq_str(p, "-ls") || eq_str(p, "-empty") || eq_str(
        p,
        "-readable",
    ) || eq_str(p, "-writable") || eq_str(p, "-executable")
}

fn is_find_file_type(t: &Vec<char>) -> (r: bool)
    ensures
        r == find_file_type(t@),
{
    eq_str(t, "b") || eq_str(t, "c") || eq_str(t, "d") || eq_str(t, "f") || eq_str(t, "l")
        || eq_str(t, "p") || eq_str(t, "s")
}

proof fn lemma_digits_value_grows(d: Seq<char>, i: int)
    requires
        0 <= i <= d.len(),
        all_digits(d),
    ensures
        digits_value(d.take(i)) <= digits_value(d),
        digits_value(d.take(i)) >= 0,
    decreases d.len() - i,
{
    if i < d.len() {
        lemma_digits_value_grows(d, i + 1);
        assert(d.take(i + 1).drop_last() =~= d.take(i));
        assert('0' <= d[i] && d[i] <= '9');
    } else {
        assert(d.take(i) =~= d);
    }
    lemma_digits_nonneg(d.take(i));
}

proof fn lemma_digits_nonneg(d: Seq<char>)
    requires
        all_digits(d),
    ensures
        digits_value(d) >= 0,
    decreases d.len(),
{
    if d.len() > 0 {
        assert(all_digits(d.drop_last()));
        lemma_digits_nonneg(d.drop_last());
        assert('0' <= d[d.len() - 1]);
    }
}

/// Whether `s` parses as a `usize`.
pub fn parses_usize(s: &Vec<char>) -> (r: bool)
    ensures
        r == parses_as_usize(s@),
{
    if s.len() == 0 {
        return false;
    }
    let start: usize = if s.len() > 1 && s[0] == '+' {
        1
    } else {
        0
    };
    let ghost d = if s@.len() > 1 && s@[0] == '+' {
        s@.drop_first()
    } else {
        s@
    };
    assert(d =~= s@.subrange(start as int, s@.len() as int));
    assert(parses_as_usize(s@) == (all_digits(d) && digits_value(d) <= usize::MAX));
    let mut value: usize = 0;
    let mut i: usize = start;
    while i < s.len()
        invariant
            start <= i <= s.len(),
            d =~= s@.subrange(start as int, s@.len() as int),
            parses_as_usize(s@) == (all_digits(d) && digits_value(d) <= usize::MAX),
            all_digits(d.take(i - start)),
            value as int == digits_value(d.take(i - start)),
        decreases s.len() - i,
    {
        let c = s[i];
        assert(d[i - start] == c);
        if c < '0' || c > '9' {
            assert(!all_digits(d));
            assert(!parses_as_usize(s@));
            return false;
        }
        let digit = (c as u32 - '0' as u32) as usize;
        assert(d.take(i - start + 1).drop_last() =~= d.take(i - start));
        assert(all_digits(d.take(i - start + 1)));
        assert(digits_value(d.take(i - start + 1)) == value * 10 + digit);
        if value > (usize::MAX - digit) / 10 {
            proof {
                assert(value * 10 + digit > usize::MAX) by (nonlinear_arith)
                    requires
                        value > (usize::MAX - digit) / 10,
                        digit <= 9,
                ;
                if all_digits(d) {
                    lemma_digits_value_grows(d, i - start + 1);
                }
                assert(!parses_as_usize(s@));
            }
            return false;
        }
        assert(value * 10 + digit <= usize::MAX) by (nonlinear_arith)
            requires
                value <= (usize::MAX - digit) / 10,
                digit <= 9,
        ;
        value = value * 10 + digit;
        i = i + 1;
    }
    assert(d.take(i - start) =~= d);
    true
}

/// Whether `find args` is safe to run in `cwd`.
pub fn validate_find(args: &Vec<Vec<char>>, cwd: &NormPath) -> (r: bool)
    ensures
        r == find_args_ok(args_view(args@), cwd@),
{
    let ghost av = args_view(args@);
    let mut index: usize = 0;
    while index < args.len() && !find_expression_start(&args[index])
        invariant
            index <= args.len(),
            av == args_view(args@),
            find_paths_end(av, 0, cwd@) == find_paths_end(av, index as int, cwd@),
        decreases args.len() - index,
    {
        assert(av[index as int] == args@[index as int]@);
        if !path_is_within(cwd, &args[index]) {
            return false;
        }
        index = index + 1;
    }
    proof {
        if index < args.len() {
            assert(av[index as int] == args@[index as int]@);
        }
    }
    assert(find_paths_end(av, 0, cwd@) == Some(index as int));
    while index < args.len()
        invariant
            index <= args.len() + 1,
            av == args_view(args@),
            find_args_ok(av, cwd@) == find_expression_ok(av, index as int),
        decreases args.len() + 1 - index,
    {
        let predicate = &args[index];
        assert(av[index as int] == predicate@);
        let i = index;
        index = index + 1;
        if is_find_string_test(predicate) {
            if index >= args.len() || args[index].len() == 0 {
                return false;
            }
            assert(av[index as int] == args@[index as int]@);
            index = index + 1;
        } else if eq_str(predicate, "-type") {
            if index >= args.len() || !is_find_file_type(&args[index]) {
                return false;
            }
            assert(av[index as int] == args@[index as int]@);
            index = index + 1;
        } else if eq_str(predicate, "-maxdepth") || eq_str(predicate, "-mindepth") {
            if index >= args.len() || !parses_usize(&args[index]) {
                return false;
            }
            assert(av[index as int] == args@[index as int]@);
            index = index + 1;
        } else if !is_find_flag(predicate) {
            return false;
        }
        assert(find_expression_ok(av, i as int) == find_expression_ok(av, index as int));
    }
    true
}

} // verus!

verus! {

// ── words ───────────────────────────────────────────────────────────────────

/// The text a text unit stands for, or `None` for an expansion (and, when
/// `reject_glob`, for an unquoted glob character).
pub open spec fn text_unit_str(u: ShellTextUnit, reject_glob: bool) -> Option<Seq<char>> {
    match u {
        ShellTextUnit::Literal(c) => if reject_glob && (c == '*' || c == '?' || c == '[') {
            None
        } else {
            Some(seq![c])
        },
        ShellTextUnit::Backslashed(c) => Some(seq![c]),
        _ => None,
    }
}

/// The text of a sequence of text units, or `None` if one has no fixed text.
pub open spec fn text_str(units: Seq<ShellTextUnit>, reject_glob: bool) -> Option<Seq<char>>
    decreases units.len(),
{
    if units.len() == 0 {
        Some(seq![])
    } else {
        match text_str(units.drop_last(), reject_glob) {
            None => None,
            Some(prefix) => match text_unit_str(units.last(), reject_glob) {
                None => None,
                Some(t) => Some(prefix + t),
            },
        }
    }
}

/// The text a word unit stands for: quotes are removed, and expansions,
/// `$'...'` strings and tildes have no fixed text.
pub open spec fn word_unit_str(u: ShellWordUnit, reject_glob: bool) -> Option<Seq<char>> {
    match u {
        ShellWordUnit::Unquoted(t) => text_unit_str(t, reject_glob),
        ShellWordUnit::SingleQuote(s) => Some(s@),
        ShellWordUnit::DoubleQuote(ts) => text_str(ts@, false),
        _ => None,
    }
}

/// The text of a word, or `None` if some part of it has no fixed text.
pub open spec fn word_str(units: Seq<ShellWordUnit>, reject_glob: bool) -> Option<Seq<char>>
    decreases units.len(),
{
    if units.len() == 0 {
        Some(seq![])
    } else {
        match word_str(units.drop_last(), reject_glob) {
            None => None,
            Some(prefix) => match word_unit_str(units.last(), reject_glob) {
                None => None,
                Some(t) => Some(prefix + t),
            },
        }
    }
}

/// The texts of `words`, or `None` if one of them has no fixed text.
pub open spec fn words_str(words: Seq<ShellWord>, reject_glob: bool) -> Option<Seq<Seq<char>>>
    decreases words.len(),
{
    if words.len() == 0 {
        Some(seq![])
    } else {
        match words_str(words.drop_last(), reject_glob) {
            None => None,
            Some(prefix) => match word_str(words.last().units@, reject_glob) {
                None => None,
                Some(w) => Some(prefix.push(w)),
            },
        }
    }
}

/// The words of a simple command, or `None` when it has assignments or
/// redirections, or a word without fixed text.
pub open spec fn simple_words_spec(simple: ShellSimpleCommand, reject_glob: bool) -> Option<Seq<Seq<char>>> {
    if simple.assigns@.len() > 0 || simple.redirs@.len() > 0 {
        None
    } else {
        words_str(simple.words@, reject_glob)
    }
}

fn append_seq(result: &mut Vec<char>, s: &Vec<char>)
    ensures
        final(result)@ == old(result)@ + s@,
{
    let ghost start = result@;
    let mut i: usize = 0;
    while i < s.len()
        invariant
            i <= s.len(),
            result@ == start + s@.take(i as int),
        decreases s.len() - i,
    {
        result.push(s[i]);
        assert(s@.take(i + 1) =~= s@.take(i as int).push(s@[i as int]));
        i = i + 1;
    }
    assert(s@.take(s.len() as int) =~= s@);
}

/// Appends the text of a text unit; `false` when it has no fixed text.
pub fn append_text_unit(unit: &ShellTextUnit, result: &mut Vec<char>, reject_glob: bool) -> (ok: bool)
    ensures
        ok == text_unit_str(*unit, reject_glob).is_some(),
        ok ==> final(result)@ == old(result)@ + text_unit_str(*unit, reject_glob).unwrap(),
{
    match unit {
        ShellTextUnit::Literal(c) => {
            if reject_glob && (*c == '*' || *c == '?' || *c == '[') {
                return false;
            }
            result.push(*c);
            assert(final(result)@ =~= old(result)@ + seq![*c]);
            true
        },
        ShellTextUnit::Backslashed(c) => {
            result.push(*c);
            assert(final(result)@ =~= old(result)@ + seq![*c]);
            true
        },
        _ => false,
    }
}

/// Appends the text of double-quoted text; `false` when it has an expansion.
pub fn append_text(text: &Vec<ShellTextUnit>, result: &mut Vec<char>) -> (ok: bool)
    ensures
        ok == text_str(text@, false).is_some(),
        ok ==> final(result)@ == old(result)@ + text_str(text@, false).unwrap(),
{
    let ghost start = result@;
    let mut i: usize = 0;
    while i < text.len()
        invariant
            i <= text.len(),
            text_str(text@.take(i as int), false).is_some(),
            result@ == start + text_str(text@.take(i as int), false).unwrap(),
        decreases text.len() - i,
    {
        assert(text@.take(i + 1).drop_last() =~= text@.take(i as int));
        if !append_text_unit(&text[i], result, false) {
            proof {
                lemma_text_none_extends(text@, i as int + 1);
            }
            return false;
        }
        assert(result@ =~= start + text_str(text@.take(i + 1), false).unwrap());
        i = i + 1;
    }
    assert(text@.take(text.len() as int) =~= text@);
    true
}

proof fn lemma_text_none_extends(units: Seq<ShellTextUnit>, i: int)
    requires
        0 <= i <= units.len(),
        text_str(units.take(i), false).is_none(),
    ensures
        text_str(units, false).is_none(),
    decreases units.len() - i,
{
    if i < units.len() {
        assert(units.take(i + 1).drop_last() =~= units.take(i));
        lemma_text_none_extends(units, i + 1);
    } else {
        assert(units.take(i) =~= units);
    }
}

proof fn lemma_word_none_extends(units: Seq<ShellWordUnit>, i: int, reject_glob: bool)
    requires
        0 <= i <= units.len(),
        word_str(units.take(i), reject_glob).is_none(),
    ensures
        word_str(units, reject_glob).is_none(),
    decreases units.len() - i,
{
    if i < units.len() {
        assert(units.take(i + 1).drop_last() =~= units.take(i));
        lemma_word_none_extends(units, i + 1, reject_glob);
    } else {
        assert(units.take(i) =~= units);
    }
}

proof fn lemma_words_none_extends(words: Seq<ShellWord>, i: int, reject_glob: bool)
    requires
        0 <= i <= words.len(),
        words_str(words.take(i), reject_glob).is_none(),
    ensures
        words_str(words, reject_glob).is_none(),
    decreases words.len() - i,
{
    if i < words.len() {
        assert(words.take(i + 1).drop_last() =~= words.take(i));
        lemma_words_none_extends(words, i + 1, reject_glob);
    } else {
        assert(words.take(i) =~= words);
    }
}

/// The text of a word with its quotes removed, or `None` when some part of it
/// has no fixed text.
pub fn word_to_string(word: &ShellWord, reject_glob: bool) -> (r: Option<Vec<char>>)
    ensures
        match r {
            Some(v) => word_str(word.units@, reject_glob) == Some(v@),
            None => word_str(word.units@, reject_glob).is_none(),
        },
{
    let mut result: Vec<char> = Vec::new();
    let mut i: usize = 0;
    assert(result@ =~= Seq::<char>::empty());
    while i < word.units.len()
        invariant
            i <= word.units.len(),
            word_str(word.units@.take(i as int), reject_glob) == Some(result@),
        decreases word.units.len() - i,
    {
        let ghost units = word.units@;
        assert(units.take(i + 1).drop_last() =~= units.take(i as int));
        let ghost before = result@;
        let ok = match &word.units[i] {
            ShellWordUnit::Unquoted(text) => append_text_unit(text, &mut result, reject_glob),
            ShellWordUnit::SingleQuote(value) => {
                let v = chars_of(value.as_str());
                append_seq(&mut result, &v);
                true
            },
            ShellWordUnit::DoubleQuote(text) => append_text(text, &mut result),
            _ => false,
        };
        if !ok {
            proof {
                lemma_word_none_extends(units, i as int + 1, reject_glob);
            }
            return None;
        }
        assert(word_str(units.take(i + 1), reject_glob) == Some(result@));
        i = i + 1;
    }
    assert(word.units@.take(word.units.len() as int) =~= word.units@);
    Some(result)
}

pub open spec fn opt_args_view(r: Option<Vec<Vec<char>>>) -> Option<Seq<Seq<char>>> {
    match r {
        Some(v) => Some(args_view(v@)),
        None => None,
    }
}

/// The words of a simple command, or `None` when it has assignments or
/// redirections, or a word without fixed text.
pub fn simple_words(simple: &ShellSimpleCommand, reject_glob: bool) -> (r: Option<Vec<Vec<char>>>)
    ensures
        opt_args_view(r) == simple_words_spec(*simple, reject_glob),
{
    if simple.assigns.len() > 0 || simple.redirs.len() > 0 {
        return None;
    }
    let mut out: Vec<Vec<char>> = Vec::new();
    let mut i: usize = 0;
    assert(args_view(out@) =~= Seq::<Seq<char>>::empty());
    while i < simple.words.len()
        invariant
            i <= simple.words.len(),
            simple.assigns@.len() == 0 && simple.redirs@.len() == 0,
            words_str(simple.words@.take(i as int), reject_glob) == Some(args_view(out@)),
        decreases simple.words.len() - i,
    {
        let ghost words = simple.words@;
        assert(words.take(i + 1).drop_last() =~= words.take(i as int));
        assert(words.take(i + 1).last() == words[i as int]);
        match word_to_string(&simple.words[i], reject_glob) {
            Some(w) => {
                let ghost before = args_view(out@);
                out.push(w);
                assert(args_view(out@) =~= before.push(w@));
            },
            None => {
                proof {
                    lemma_words_none_extends(words, i as int + 1, reject_glob);
                }
                return None;
            },
        }
        i = i + 1;
    }
    assert(simple.words@.take(simple.words.len() as int) =~= simple.words@);
    Some(out)
}

// ── commands, pipelines, lists ──────────────────────────────────────────────

/// Whether the command `name args` is approved in `cwd`; `standalone` tells
/// whether it is the only command of the list (which `find` requires).
pub open spec fn name_ok(name: Seq<char>, args: Seq<Seq<char>>, cwd: NormView, standalone: bool) -> bool {
    if name == "pwd"@ {
        args.len() == 0
    } else if name == "ls"@ {
        ls_args_ok(args, 0, cwd, false)
    } else if name == "grep"@ {
        grep_args_ok(args, cwd, false)
    } else if name == "rg"@ {
        grep_args_ok(args, cwd, true)
    } else if name == "find"@ {
        standalone && find_args_ok(args, cwd)
    } else {
        false
    }
}

/// Whether a command of a pipeline is approved.
pub open spec fn command_ok(command: ShellCommand, cwd: NormView, standalone: bool) -> bool {
    match command {
        ShellCommand::Simple(simple) => match simple_words_spec(simple, true) {
            None => false,
            Some(words) => words.len() > 0 && name_ok(words[0], words.drop_first(), cwd, standalone),
        },
        _ => false,
    }
}

/// Whether every command of a pipeline is approved.
pub open spec fn pipeline_ok(p: ShellPipeline, cwd: NormView, standalone: bool) -> bool {
    !p.negation && p.commands@.len() > 0 && forall|i: int|
        0 <= i < p.commands@.len() ==> command_ok(#[trigger] p.commands@[i], cwd, standalone)
}

/// Whether a command list is approved: a single item, not sent to the
/// background, whose pipelines are all approved.
pub open spec fn list_ok(list: ShellList, cwd: NormView) -> bool {
    list.items@.len() == 1 && list.items@[0].async_flag.is_none() && {
        let and_or = list.items@[0].and_or;
        let standalone = and_or.rest@.len() == 0 && and_or.first.commands@.len() == 1;
        pipeline_ok(and_or.first, cwd, standalone) && forall|j: int|
            0 <= j < and_or.rest@.len() ==> pipeline_ok(#[trigger] and_or.rest@[j].1, cwd, false)
    }
}

fn drop_first_arg(words: &Vec<Vec<char>>) -> (r: Vec<Vec<char>>)
    requires
        words.len() > 0,
    ensures
        args_view(r@) == args_view(words@).drop_first(),
{
    let mut out: Vec<Vec<char>> = Vec::new();
    let mut i: usize = 1;
    while i < words.len()
        invariant
            1 <= i <= words.len(),
            args_view(out@) == args_view(words@).subrange(1, i as int),
        decreases words.len() - i,
    {
        let mut copy: Vec<char> = Vec::new();
        append_seq(&mut copy, &words[i]);
        assert(copy@ =~= words@[i as int]@);
        let ghost before = args_view(out@);
        let ghost cv = copy@;
        out.push(copy);
        assert(args_view(out@) =~= before.push(cv));
        assert(args_view(words@).subrange(1, i + 1) =~= args_view(words@).subrange(1, i as int).push(
            args_view(words@)[i as int],
        ));
        assert(args_view(out@) =~= args_view(words@).subrange(1, i + 1));
        i = i + 1;
    }
    assert(args_view(words@).subrange(1, words.len() as int) =~= args_view(words@).drop_first());
    out
}

/// Whether a command of a pipeline is approved.
pub fn validate_command(command: &ShellCommand, cwd: &NormPath, standalone: bool) -> (r: bool)
    ensures
        r == command_ok(*command, cwd@, standalone),
{
    let simple = match command {
        ShellCommand::Simple(simple) => simple,
        _ => return false,
    };
    let words = match simple_words(simple, true) {
        Some(words) => words,
        None => return false,
    };
    if words.len() == 0 {
        return false;
    }
    let name = &words[0];
    let args = drop_first_arg(&words);
    assert(args_view(words@)[0] == name@);
    if eq_str(name, "pwd") {
        args.len() == 0
    } else if eq_str(name, "ls") {
        validate_ls(&args, cwd)
    } else if eq_str(name, "grep") {
        validate_grep(&args, cwd, false)
    } else if eq_str(name, "rg") {
        validate_grep(&args, cwd, true)
    } else if eq_str(name, "find") {
        standalone && validate_find(&args, cwd)
    } else {
        false
    }
}

/// Whether every command of a pipeline is approved.
pub fn validate_pipeline(pipeline: &ShellPipeline, cwd: &NormPath, standalone: bool) -> (r: bool)
    ensures
        r == pipeline_ok(*pipeline, cwd@, standalone),
{
    if pipeline.negation || pipeline.commands.len() == 0 {
        return false;
    }
    let mut i: usize = 0;
    while i < pipeline.commands.len()
        invariant
            i <= pipeline.commands.len(),
            forall|j: int| 0 <= j < i ==> command_ok(#[trigger] pipeline.commands@[j], cwd@, standalone),
        decreases pipeline.commands.len() - i,
    {
        if !validate_command(&pipeline.commands[i], cwd, standalone) {
            return false;
        }
        i = i + 1;
    }
    true
}

/// Whether a command list is approved.
pub fn validate_list(list: &ShellList, cwd: &NormPath) -> (r: bool)
    ensures
        r == list_ok(*list, cwd@),
{
    if list.items.len() != 1 {
        return false;
    }
    let item = &list.items[0];
    if item.async_flag.is_some() {
        return false;
    }
    let and_or = &item.and_or;
    let standalone = and_or.rest.len() == 0 && and_or.first.commands.len() == 1;
    if !validate_pipeline(&and_or.first, cwd, standalone) {
        return false;
    }
    let mut j: usize = 0;
    while j < and_or.rest.len()
        invariant
            j <= and_or.rest.len(),
            list.items@.len() == 1,
            *and_or == list.items@[0].and_or,
            list.items@[0].async_flag.is_none(),
            pipeline_ok(and_or.first, cwd@, standalone),
            standalone == (and_or.rest@.len() == 0 && and_or.first.commands@.len() == 1),
            forall|k: int| 0 <= k < j ==> pipeline_ok(#[trigger] and_or.rest@[k].1, cwd@, false),
        decreases and_or.rest.len() - j,
    {
        if !validate_pipeline(&and_or.rest[j].1, cwd, false) {
            assert(!pipeline_ok(and_or.rest@[j as int].1, cwd@, false));
            return false;
        }
        j = j + 1;
    }
    true
}

// ── the policy ──────────────────────────────────────────────────────────────

/// Conservative auto-approval policy for the shell tool, bound to a working
/// directory.
pub struct BashAutoApprovalPolicy {
    cwd: NormPath,
}

/// Whether a shell tool call with these arguments is approved in `cwd`.
pub open spec fn approves(cwd: NormView, name: Seq<char>, arguments: Seq<char>) -> bool {
    name == "shell"@ && match string_field_spec(arguments, "command"@) {
        None => false,
        Some(command) => match shell_parse(command) {
            None => false,
            Some(list) => list_ok(list, cwd),
        },
    }
}

/// A policy made for a directory's normalised text approves exactly what
/// one made for the directory itself approves.
pub proof fn lemma_policy_ignores_normalisation(cwd: Seq<char>, name: Seq<char>, arguments: Seq<char>)
    ensures
        approves(normalize(render(normalize(cwd))), name, arguments) == approves(normalize(cwd), name, arguments),
{
    lemma_normalize_idempotent(cwd);
}

impl BashAutoApprovalPolicy {
    /// The working directory, normalised.
    pub closed spec fn cwd(&self) -> NormView {
        self.cwd@
    }

    /// A policy for the working directory `cwd`.
    pub fn new(cwd: &str) -> (r: BashAutoApprovalPolicy)
        ensures
            r.cwd() == normalize(cwd@),
    {
        let v = chars_of(cwd);
        BashAutoApprovalPolicy { cwd: normalize_path(&v) }
    }

    /// Whether the tool call may run without asking the user.
    pub fn is_approved(&self, tool_call: &ToolCallRequest) -> (r: bool)
        ensures
            r == approves(self.cwd(), tool_call.name@, tool_call.arguments@),
    {
        let name = chars_of(tool_call.name.as_str());
        if !eq_str(&name, "shell") {
            return false;
        }
        let command = match string_field(tool_call.arguments.as_str(), "command") {
            Some(command) => command,
            None => return false,
        };
        let list = match parse_shell_list(command.as_str()) {
            Some(list) => list,
            None => return false,
        };
        validate_list(&list, &self.cwd)
    }
}

} // verus!
