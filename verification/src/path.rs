//! Unix path syntax: components, normalisation, joining and prefixes, as
//! `std::path::Path` and `PathBuf` define them for `/`-separated paths.

use vstd::prelude::*;
use crate::text::push_char;

verus! {

/// A component of a path (the root is kept apart, as a flag).
pub enum PathComponent {
    /// `.` at the start of a relative path.
    CurDir,
    /// `..`
    ParentDir,
    /// Any other name.
    Normal(Seq<char>),
}

/// A path component as the program holds it.
pub enum Comp {
    CurDir,
    ParentDir,
    Normal(Vec<char>),
}

impl View for Comp {
    type V = PathComponent;

    open spec fn view(&self) -> PathComponent {
        match self {
            Comp::CurDir => PathComponent::CurDir,
            Comp::ParentDir => PathComponent::ParentDir,
            Comp::Normal(n) => PathComponent::Normal(n@),
        }
    }
}

pub open spec fn comps_view(v: Seq<Comp>) -> Seq<PathComponent> {
    v.map_values(|c: Comp| c@)
}

/// Whether the path starts at the root.
pub open spec fn is_absolute(s: Seq<char>) -> bool {
    s.len() > 0 && s[0] == '/'
}

/// The component that a `/`-delimited part of a path stands for: empty parts
/// and `.` vanish, except `.` as the first part of a relative path.
pub open spec fn part_component(part: Seq<char>, first: bool, absolute: bool) -> Option<PathComponent> {
    if part.len() == 0 {
        None
    } else if part == seq!['.'] {
        if first && !absolute {
            Some(PathComponent::CurDir)
        } else {
            None
        }
    } else if part == seq!['.', '.'] {
        Some(PathComponent::ParentDir)
    } else {
        Some(PathComponent::Normal(part))
    }
}

pub open spec fn push_part(acc: Seq<PathComponent>, part: Seq<char>, first: bool, absolute: bool) -> Seq<PathComponent> {
    match part_component(part, first, absolute) {
        Some(c) => acc.push(c),
        None => acc,
    }
}

/// The components of `s[i..]`, given the part `cur` read so far, whether it
/// is the first part, and the components `acc` before it.
pub open spec fn comps_from(
    s: Seq<char>,
    i: int,
    cur: Seq<char>,
    first: bool,
    acc: Seq<PathComponent>,
) -> Seq<PathComponent>
    decreases s.len() - i,
{
    if i < 0 || i >= s.len() {
        push_part(acc, cur, first, is_absolute(s))
    } else if s[i] == '/' {
        comps_from(s, i + 1, seq![], false, push_part(acc, cur, first, is_absolute(s)))
    } else {
        comps_from(s, i + 1, cur.push(s[i]), first, acc)
    }
}

/// The components of the path `s` (`Path::components`, without the root).
pub open spec fn components(s: Seq<char>) -> Seq<PathComponent> {
    comps_from(s, 0, seq![], true, seq![])
}

/// Whether some component of `s` is `..`.
pub open spec fn has_parent_dir(s: Seq<char>) -> bool {
    exists|j: int| 0 <= j < components(s).len() && components(s)[j] == PathComponent::ParentDir
}

/// A path with `.` and `..` resolved: whether it is rooted, and its names.
pub struct NormView {
    pub absolute: bool,
    pub names: Seq<Seq<char>>,
}

/// The names left after resolving `comps` in order: `.` is dropped and `..`
/// removes the name before it, if any.
pub open spec fn resolve(comps: Seq<PathComponent>) -> Seq<Seq<char>>
    decreases comps.len(),
{
    if comps.len() == 0 {
        seq![]
    } else {
        let prev = resolve(comps.drop_last());
        match comps.last() {
            PathComponent::CurDir => prev,
            PathComponent::ParentDir => if prev.len() > 0 {
                prev.drop_last()
            } else {
                prev
            },
            PathComponent::Normal(n) => prev.push(n),
        }
    }
}

/// `s` normalised lexically, without looking at the file system.
pub open spec fn normalize(s: Seq<char>) -> NormView {
    NormView { absolute: is_absolute(s), names: resolve(components(s)) }
}

/// `names` joined with `/`.
pub open spec fn join_names(names: Seq<Seq<char>>) -> Seq<char>
    decreases names.len(),
{
    if names.len() == 0 {
        seq![]
    } else if names.len() == 1 {
        names[0]
    } else {
        join_names(names.drop_last()) + seq!['/'] + names.last()
    }
}

/// The text of a normalised path.
pub open spec fn render(p: NormView) -> Seq<char> {
    if p.absolute {
        seq!['/'] + join_names(p.names)
    } else {
        join_names(p.names)
    }
}

/// `base` joined with the relative path `rel` (`Path::join`): a `/` is put
/// between them unless `base` is empty or already ends with one.
pub open spec fn join_text(base: Seq<char>, rel: Seq<char>) -> Seq<char> {
    if base.len() == 0 {
        rel
    } else if base.last() == '/' {
        base + rel
    } else {
        base + seq!['/'] + rel
    }
}

/// Whether `p` begins with the components of `base` (`Path::starts_with`).
pub open spec fn starts_with_path(p: NormView, base: NormView) -> bool {
    let prefix = base.names.len() <= p.names.len() && p.names.take(base.names.len() as int)
        == base.names;
    if base.absolute {
        p.absolute && prefix
    } else if base.names.len() == 0 {
        true
    } else {
        !p.absolute && prefix
    }
}

/// Whether `n` can be a name of a normalised path: not empty, without `/`,
/// and neither `.` nor `..`.
pub open spec fn valid_name(n: Seq<char>) -> bool {
    &&& n.len() > 0
    &&& forall|i: int| 0 <= i < n.len() ==> n[i] != '/'
    &&& n != seq!['.']
    &&& n != seq!['.', '.']
}

/// Whether every name among `comps` can be a name of a normalised path.
pub open spec fn valid_comps(comps: Seq<PathComponent>) -> bool {
    forall|j: int| 0 <= j < comps.len() ==> (#[trigger] comps[j] matches PathComponent::Normal(n) ==> valid_name(n))
}

proof fn lemma_push_part_valid(acc: Seq<PathComponent>, part: Seq<char>, first: bool, absolute: bool)
    requires
        valid_comps(acc),
        forall|i: int| 0 <= i < part.len() ==> part[i] != '/',
    ensures
        valid_comps(push_part(acc, part, first, absolute)),
{
    let r = push_part(acc, part, first, absolute);
    assert forall|j: int| 0 <= j < r.len() implies (#[trigger] r[j] matches PathComponent::Normal(n) ==> valid_name(n)) by {
        if j < acc.len() {
            assert(r[j] == acc[j]);
        }
    }
}

proof fn lemma_comps_from_valid(s: Seq<char>, i: int, cur: Seq<char>, first: bool, acc: Seq<PathComponent>)
    requires
        valid_comps(acc),
        forall|q: int| 0 <= q < cur.len() ==> cur[q] != '/',
    ensures
        valid_comps(comps_from(s, i, cur, first, acc)),
    decreases s.len() - i,
{
    if i < 0 || i >= s.len() {
        lemma_push_part_valid(acc, cur, first, is_absolute(s));
    } else if s[i] == '/' {
        lemma_push_part_valid(acc, cur, first, is_absolute(s));
        lemma_comps_from_valid(s, i + 1, seq![], false, push_part(acc, cur, first, is_absolute(s)));
    } else {
        lemma_comps_from_valid(s, i + 1, cur.push(s[i]), first, acc);
    }
}

proof fn lemma_resolve_valid(comps: Seq<PathComponent>)
    requires
        valid_comps(comps),
    ensures
        forall|j: int| 0 <= j < resolve(comps).len() ==> valid_name(#[trigger] resolve(comps)[j]),
    decreases comps.len(),
{
    if comps.len() > 0 {
        let d = comps.drop_last();
        assert(valid_comps(d)) by {
            assert forall|j: int| 0 <= j < d.len() implies (#[trigger] d[j] matches PathComponent::Normal(n) ==> valid_name(n)) by {
                assert(d[j] == comps[j]);
            }
        }
        lemma_resolve_valid(d);
        let prev = resolve(d);
        let last = comps[comps.len() - 1];
        assert(comps.last() == last);
        assert(last matches PathComponent::Normal(n) ==> valid_name(n));
        let r = resolve(comps);
        assert forall|j: int| 0 <= j < r.len() implies valid_name(#[trigger] r[j]) by {
            match last {
                PathComponent::Normal(n) => {
                    if j < prev.len() {
                        assert(r[j] == prev[j]);
                    } else {
                        assert(r[j] == n);
                    }
                },
                PathComponent::ParentDir => {
                    if prev.len() > 0 {
                        assert(r[j] == prev[j]);
                    } else {
                        assert(r[j] == prev[j]);
                    }
                },
                PathComponent::CurDir => {
                    assert(r[j] == prev[j]);
                },
            }
        }
    }
}

/// `names` joined with `/`, read from the front.
pub open spec fn join_front(names: Seq<Seq<char>>) -> Seq<char>
    decreases names.len(),
{
    if names.len() == 0 {
        seq![]
    } else if names.len() == 1 {
        names[0]
    } else {
        names[0] + seq!['/'] + join_front(names.drop_first())
    }
}

proof fn lemma_join_front(names: Seq<Seq<char>>)
    ensures
        join_names(names) == join_front(names),
    decreases names.len(),
{
    if names.len() > 2 {
        let dl = names.drop_last();
        let df = names.drop_first();
        let dfdl = df.drop_last();
        lemma_join_front(dl);
        lemma_join_front(df);
        lemma_join_front(dfdl);
        assert(dl.drop_first() =~= dfdl);
        assert(dl[0] == names[0]);
        assert(df.last() == names.last());
        assert(join_names(names) == join_names(dl) + seq!['/'] + names.last());
        assert(join_front(dl) == dl[0] + seq!['/'] + join_front(dl.drop_first()));
        assert(join_names(df) == join_names(dfdl) + seq!['/'] + df.last());
        assert(join_front(names) == names[0] + seq!['/'] + join_front(df));
        assert(join_names(names) =~= names[0] + seq!['/'] + join_front(dfdl) + seq!['/'] + names.last());
        assert(join_front(names) =~= names[0] + seq!['/'] + (join_front(dfdl) + seq!['/'] + names.last()));
        let a = names[0] + seq!['/'];
        let b = join_front(dfdl) + seq!['/'];
        assert(a + join_front(dfdl) + seq!['/'] =~= a + b);
        assert((a + b) + names.last() =~= a + (b + names.last()));
    } else if names.len() == 2 {
        assert(names.drop_last().len() == 1);
        assert(names.drop_first().len() == 1);
        assert(names.drop_last()[0] == names[0]);
        assert(names.drop_first()[0] == names[1]);
        assert(join_names(names.drop_last()) == names[0]);
        assert(join_front(names.drop_first()) == names[1]);
        assert(join_names(names) == names[0] + seq!['/'] + names.last());
        assert(join_front(names) == names[0] + seq!['/'] + names[1]);
    }
}

proof fn lemma_scan_word(s: Seq<char>, i: int, j: int, cur: Seq<char>, first: bool, acc: Seq<PathComponent>)
    requires
        0 <= i <= j <= s.len(),
        forall|q: int| i <= q < j ==> s[q] != '/',
    ensures
        comps_from(s, i, cur, first, acc) == comps_from(s, j, cur + s.subrange(i, j), first, acc),
    decreases j - i,
{
    if i == j {
        assert(cur + s.subrange(i, j) =~= cur);
    } else {
        lemma_scan_word(s, i + 1, j, cur.push(s[i]), first, acc);
        assert(cur.push(s[i]) + s.subrange(i + 1, j) =~= cur + s.subrange(i, j));
    }
}

proof fn lemma_scan_names(s: Seq<char>, names: Seq<Seq<char>>, i: int, first: bool, acc: Seq<PathComponent>)
    requires
        names.len() > 0,
        forall|k: int| 0 <= k < names.len() ==> valid_name(#[trigger] names[k]),
        0 <= i <= s.len(),
        s.subrange(i, s.len() as int) == join_front(names),
    ensures
        comps_from(s, i, seq![], first, acc) == acc + names.map_values(|n: Seq<char>| PathComponent::Normal(n)),
    decreases names.len(),
{
    let n0 = names[0];
    assert(valid_name(n0));
    let e = i + n0.len();
    let rest = join_front(names);
    assert(rest.len() >= n0.len());
    assert(rest.subrange(0, n0.len() as int) =~= n0);
    assert forall|q: int| i <= q < e implies s[q] != '/' by {
        assert(s[q] == rest[q - i]);
        assert(rest[q - i] == n0[q - i]);
    }
    lemma_scan_word(s, i, e, seq![], first, acc);
    assert(seq![] + s.subrange(i, e) =~= n0);
    assert(push_part(acc, n0, first, is_absolute(s)) == acc.push(PathComponent::Normal(n0)));
    if names.len() == 1 {
        assert(e == s.len());
        assert(names.map_values(|n: Seq<char>| PathComponent::Normal(n)) =~= seq![PathComponent::Normal(n0)]);
    } else {
        let tail = names.drop_first();
        assert(rest == n0 + seq!['/'] + join_front(tail));
        assert(s[e] == rest[n0.len() as int]);
        assert(s.subrange(e + 1, s.len() as int) =~= rest.subrange(n0.len() as int + 1, rest.len() as int));
        assert(rest.subrange(n0.len() as int + 1, rest.len() as int) =~= join_front(tail));
        assert forall|k: int| 0 <= k < tail.len() implies valid_name(#[trigger] tail[k]) by {
            assert(tail[k] == names[k + 1]);
        }
        lemma_scan_names(s, tail, e + 1, false, acc.push(PathComponent::Normal(n0)));
        assert(acc.push(PathComponent::Normal(n0)) + tail.map_values(|n: Seq<char>| PathComponent::Normal(n))
            =~= acc + names.map_values(|n: Seq<char>| PathComponent::Normal(n)));
    }
}

proof fn lemma_resolve_names(names: Seq<Seq<char>>)
    ensures
        resolve(names.map_values(|n: Seq<char>| PathComponent::Normal(n))) == names,
    decreases names.len(),
{
    if names.len() > 0 {
        lemma_resolve_names(names.drop_last());
        assert(names.map_values(|n: Seq<char>| PathComponent::Normal(n)).drop_last() =~= names.drop_last().map_values(
            |n: Seq<char>| PathComponent::Normal(n),
        ));
        assert(names.drop_last().push(names.last()) =~= names);
    }
}

/// The text of a normalised path normalises to that path again: its names
/// come back one by one, and so does whether it is rooted.
pub proof fn lemma_render_normalizes_back(p: NormView)
    requires
        forall|k: int| 0 <= k < p.names.len() ==> valid_name(#[trigger] p.names[k]),
    ensures
        normalize(render(p)) == p,
{
    let s = render(p);
    let j = join_names(p.names);
    lemma_join_front(p.names);
    if p.names.len() == 0 {
        let e = Seq::<PathComponent>::empty();
        if p.absolute {
            assert(s =~= seq!['/']);
            assert(push_part(e, seq![], true, true) =~= e);
            assert(push_part(e, seq![], false, true) =~= e);
            assert(comps_from(s, 1, seq![], false, e) == e);
            assert(comps_from(s, 0, seq![], true, e) == comps_from(s, 1, seq![], false, push_part(e, seq![], true, true)));
        } else {
            assert(s =~= Seq::<char>::empty());
            assert(push_part(e, seq![], true, false) =~= e);
        }
        assert(components(s) =~= e);
        assert(resolve(e) =~= p.names);
    } else {
        if p.absolute {
            assert(s.subrange(1, s.len() as int) =~= j);
            assert(comps_from(s, 0, seq![], true, seq![]) == comps_from(s, 1, seq![], false, push_part(seq![], seq![], true, true)));
            assert(push_part(seq![], seq![], true, true) =~= Seq::<PathComponent>::empty());
        } else {
            assert(s.subrange(0, s.len() as int) =~= j);
            assert(valid_name(p.names[0]));
            if p.names.len() > 1 {
                assert(j == p.names[0] + seq!['/'] + join_front(p.names.drop_first()));
            }
            assert(j.subrange(0, p.names[0].len() as int) =~= p.names[0]);
            assert(s[0] == p.names[0][0]);
        }
        lemma_scan_names(s, p.names, if p.absolute { 1 } else { 0 }, !p.absolute, seq![]);
        assert(seq![] + p.names.map_values(|n: Seq<char>| PathComponent::Normal(n)) =~= p.names.map_values(
            |n: Seq<char>| PathComponent::Normal(n),
        ));
        lemma_resolve_names(p.names);
    }
}

/// Normalising a path that is already normalised changes nothing.
pub proof fn lemma_normalize_idempotent(s: Seq<char>)
    ensures
        normalize(render(normalize(s))) == normalize(s),
{
    lemma_comps_from_valid(s, 0, seq![], true, seq![]);
    lemma_resolve_valid(components(s));
    lemma_render_normalizes_back(normalize(s));
}

/// A normalised path.
pub struct NormPath {
    pub absolute: bool,
    pub names: Vec<Vec<char>>,
}

impl View for NormPath {
    type V = NormView;

    open spec fn view(&self) -> NormView {
        NormView { absolute: self.absolute, names: self.names@.map_values(|n: Vec<char>| n@) }
    }
}

/// Splits the path `s` into its components.
pub fn split_components(s: &Vec<char>) -> (r: Vec<Comp>)
    ensures
        comps_view(r@) == components(s@),
{
    let absolute = s.len() > 0 && s[0] == '/';
    let mut acc: Vec<Comp> = Vec::new();
    let mut cur: Vec<char> = Vec::new();
    let mut first = true;
    let mut i: usize = 0;
    assert(comps_view(acc@) =~= Seq::<PathComponent>::empty());
    assert(cur@ =~= Seq::<char>::empty());
    while i < s.len()
        invariant
            i <= s.len(),
            absolute == is_absolute(s@),
            comps_from(s@, i as int, cur@, first, comps_view(acc@)) == components(s@),
        decreases s.len() - i,
    {
        if s[i] == '/' {
            push_component(&mut acc, cur, first, absolute);
            cur = Vec::new();
            first = false;
        } else {
            cur.push(s[i]);
        }
        i = i + 1;
    }
    push_component(&mut acc, cur, first, absolute);
    acc
}

fn push_component(acc: &mut Vec<Comp>, part: Vec<char>, first: bool, absolute: bool)
    ensures
        comps_view(final(acc)@) == push_part(comps_view(old(acc)@), part@, first, absolute),
{
    let ghost before = comps_view(acc@);
    if part.len() == 0 {
        return;
    }
    if part.len() == 1 && part[0] == '.' {
        assert(part@ =~= seq!['.']);
        if first && !absolute {
            acc.push(Comp::CurDir);
            assert(comps_view(acc@) =~= before.push(PathComponent::CurDir));
        }
        return;
    }
    if part.len() == 2 && part[0] == '.' && part[1] == '.' {
        assert(part@ =~= seq!['.', '.']);
        acc.push(Comp::ParentDir);
        assert(comps_view(acc@) =~= before.push(PathComponent::ParentDir));
        return;
    }
    assert(part@ != seq!['.']) by {
        if part@ == seq!['.'] {
            assert(part@.len() == 1);
        }
    }
    assert(part@ != seq!['.', '.']) by {
        if part@ == seq!['.', '.'] {
            assert(part@.len() == 2);
        }
    }
    let ghost pv = part@;
    acc.push(Comp::Normal(part));
    assert(comps_view(acc@) =~= before.push(PathComponent::Normal(pv)));
}

/// Whether some component is `..`.
pub fn any_parent_dir(comps: &Vec<Comp>) -> (r: bool)
    ensures
        r == exists|j: int| 0 <= j < comps@.len() && comps_view(comps@)[j] == PathComponent::ParentDir,
{
    let mut i: usize = 0;
    while i < comps.len()
        invariant
            i <= comps.len(),
            forall|j: int| 0 <= j < i ==> comps_view(comps@)[j] != PathComponent::ParentDir,
        decreases comps.len() - i,
    {
        match &comps[i] {
            Comp::ParentDir => {
                assert(comps_view(comps@)[i as int] == PathComponent::ParentDir);
                return true;
            },
            _ => {},
        }
        i = i + 1;
    }
    false
}

fn copy_chars(v: &Vec<char>) -> (r: Vec<char>)
    ensures
        r@ == v@,
{
    let mut r: Vec<char> = Vec::new();
    let mut i: usize = 0;
    while i < v.len()
        invariant
            i <= v.len(),
            r@ == v@.take(i as int),
        decreases v.len() - i,
    {
        r.push(v[i]);
        assert(v@.take(i + 1) =~= v@.take(i as int).push(v@[i as int]));
        i = i + 1;
    }
    assert(v@.take(v.len() as int) =~= v@);
    r
}

/// `path` with `.` and `..` resolved lexically.
pub fn normalize_path(path: &Vec<char>) -> (r: NormPath)
    ensures
        r@ == normalize(path@),
{
    let comps = split_components(path);
    let mut names: Vec<Vec<char>> = Vec::new();
    let mut i: usize = 0;
    while i < comps.len()
        invariant
            i <= comps.len(),
            names@.map_values(|n: Vec<char>| n@) == resolve(comps_view(comps@).take(i as int)),
        decreases comps.len() - i,
    {
        let ghost cv = comps_view(comps@);
        assert(cv.take(i + 1).drop_last() =~= cv.take(i as int));
        assert(cv.take(i + 1).last() == comps@[i as int]@);
        let ghost before = names@.map_values(|n: Vec<char>| n@);
        match &comps[i] {
            Comp::CurDir => {},
            Comp::ParentDir => {
                if names.len() > 0 {
                    names.pop();
                    assert(names@.map_values(|n: Vec<char>| n@) =~= before.drop_last());
                }
            },
            Comp::Normal(n) => {
                let copy = copy_chars(n);
                names.push(copy);
                assert(names@.map_values(|n: Vec<char>| n@) =~= before.push(n@));
            },
        }
        i = i + 1;
    }
    assert(comps_view(comps@).take(comps.len() as int) =~= comps_view(comps@));
    NormPath { absolute: path.len() > 0 && path[0] == '/', names }
}

/// The text of a normalised path.
pub fn render_path(p: &NormPath) -> (r: Vec<char>)
    ensures
        r@ == render(p@),
{
    let mut out: Vec<char> = Vec::new();
    if p.absolute {
        out.push('/');
    }
    let ghost start = out@;
    let mut i: usize = 0;
    while i < p.names.len()
        invariant
            i <= p.names.len(),
            start == (if p.absolute { seq!['/'] } else { Seq::<char>::empty() }),
            out@ == start + join_names(p@.names.take(i as int)),
        decreases p.names.len() - i,
    {
        let ghost ns = p@.names;
        assert(ns.take(i + 1).drop_last() =~= ns.take(i as int));
        let ghost before = out@;
        if i > 0 {
            out.push('/');
        }
        let name = &p.names[i];
        let mut j: usize = 0;
        while j < name.len()
            invariant
                j <= name.len(),
                out@ == before + (if i > 0 { seq!['/'] } else { Seq::<char>::empty() }) + name@.take(j as int),
            decreases name.len() - j,
        {
            out.push(name[j]);
            assert(name@.take(j + 1) =~= name@.take(j as int).push(name@[j as int]));
            j = j + 1;
        }
        assert(name@.take(name.len() as int) =~= name@);
        proof {
            if i == 0 {
                assert(ns.take(1) =~= seq![ns[0]]);
                assert(join_names(ns.take(0)) =~= Seq::<char>::empty());
            }
        }
        assert(out@ =~= start + join_names(ns.take(i + 1)));
        i = i + 1;
    }
    assert(p@.names.take(p.names.len() as int) =~= p@.names);
    if !p.absolute {
        assert(out@ =~= join_names(p@.names));
    }
    out
}

/// `base` joined with the relative path `rel`.
pub fn join_path_text(base: &Vec<char>, rel: &Vec<char>) -> (r: Vec<char>)
    ensures
        r@ == join_text(base@, rel@),
{
    let mut out = copy_chars(base);
    if base.len() > 0 && base[base.len() - 1] != '/' {
        out.push('/');
    }
    let ghost start = out@;
    let mut i: usize = 0;
    while i < rel.len()
        invariant
            i <= rel.len(),
            out@ == start + rel@.take(i as int),
        decreases rel.len() - i,
    {
        out.push(rel[i]);
        assert(rel@.take(i + 1) =~= rel@.take(i as int).push(rel@[i as int]));
        i = i + 1;
    }
    assert(rel@.take(rel.len() as int) =~= rel@);
    assert(out@ =~= join_text(base@, rel@));
    out
}

fn same_chars(a: &Vec<char>, b: &Vec<char>) -> (r: bool)
    ensures
        r == (a@ == b@),
{
    if a.len() != b.len() {
        return false;
    }
    let mut i: usize = 0;
    while i < a.len()
        invariant
            a.len() == b.len(),
            i <= a.len(),
            forall|j: int| 0 <= j < i ==> a@[j] == b@[j],
        decreases a.len() - i,
    {
        if a[i] != b[i] {
            return false;
        }
        i = i + 1;
    }
    assert(a@ =~= b@);
    true
}

/// Whether `p` begins with the components of `base`.
pub fn path_starts_with(p: &NormPath, base: &NormPath) -> (r: bool)
    ensures
        r == starts_with_path(p@, base@),
{
    if !base.absolute && base.names.len() == 0 {
        return true;
    }
    if base.absolute != p.absolute || base.names.len() > p.names.len() {
        return false;
    }
    let mut i: usize = 0;
    while i < base.names.len()
        invariant
            base.names.len() <= p.names.len(),
            i <= base.names.len(),
            forall|j: int| 0 <= j < i ==> p@.names[j] == base@.names[j],
        decreases base.names.len() - i,
    {
        if !same_chars(&p.names[i], &base.names[i]) {
            assert(p@.names.take(base.names.len() as int)[i as int] != base@.names[i as int]);
            return false;
        }
        i = i + 1;
    }
    assert(p@.names.take(base.names.len() as int) =~= base@.names);
    true
}

} // verus!
