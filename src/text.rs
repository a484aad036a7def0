//! Character-sequence helpers shared by the parsers: conversion between
//! `String` and `Vec<char>`, prefix tests, splitting, and placeholder
//! substitution.
use vstd::prelude::*;

verus! {

/// `p` is a prefix of `s`.
pub open spec fn has_prefix(s: Seq<char>, p: Seq<char>) -> bool {
    p.len() <= s.len() && s.subrange(0, p.len() as int) == p
}

/// `p` occurs somewhere in `s`.
pub open spec fn occurs_in(s: Seq<char>, p: Seq<char>) -> bool {
    exists|i: int| 0 <= i && i + p.len() <= s.len() && #[trigger] s.subrange(i, i + p.len()) == p
}

/// Left-to-right, non-overlapping replacement of every occurrence of `pat`
/// in `s` by `rep`.
pub open spec fn replaced(s: Seq<char>, pat: Seq<char>, rep: Seq<char>) -> Seq<char>
    decreases s.len(),
{
    if s.len() == 0 || pat.len() == 0 {
        s
    } else if has_prefix(s, pat) {
        rep + replaced(s.subrange(pat.len() as int, s.len() as int), pat, rep)
    } else {
        seq![s[0]] + replaced(s.subrange(1, s.len() as int), pat, rep)
    }
}

/// Relies on `str::chars` collected into a `Vec`: the characters of `s` in order.
#[verifier::external_body]
pub fn chars_of(s: &str) -> (r: Vec<char>)
    ensures
        r@ == s@,
{
    s.chars().collect()
}

/// Relies on `FromIterator<char>` for `String`: the string made of `v`'s characters.
#[verifier::external_body]
pub fn string_of(v: &Vec<char>) -> (r: String)
    ensures
        r@ == v@,
{
    v.iter().collect()
}

/// Whether `p` occurs in `s` starting at index `i`.
pub fn prefix_at(s: &Vec<char>, i: usize, p: &Vec<char>) -> (r: bool)
    requires
        i <= s@.len(),
    ensures
        r == has_prefix(s@.subrange(i as int, s@.len() as int), p@),
{
    if p.len() > s.len() - i {
        return false;
    }
    let mut j: usize = 0;
    while j < p.len()
        invariant
            i + p@.len() <= s@.len(),
            s@.len() <= usize::MAX,
            j <= p@.len(),
            forall|k: int| 0 <= k < j ==> s@[i + k] == p@[k],
        decreases p@.len() - j,
    {
        if s[i + j] != p[j] {
            assert(s@.subrange(i as int, s@.len() as int).subrange(0, p@.len() as int)[j as int]
                != p@[j as int]);
            return false;
        }
        j = j + 1;
    }
    assert(s@.subrange(i as int, s@.len() as int).subrange(0, p@.len() as int) =~= p@);
    true
}

/// Appends `src` to `dst`.
pub fn append_chars(dst: &mut Vec<char>, src: &Vec<char>)
    ensures
        final(dst)@ == old(dst)@ + src@,
{
    let mut j: usize = 0;
    while j < src.len()
        invariant
            j <= src@.len(),
            dst@ == old(dst)@ + src@.subrange(0, j as int),
        decreases src@.len() - j,
    {
        dst.push(src[j]);
        j = j + 1;
        assert(dst@ =~= old(dst)@ + src@.subrange(0, j as int));
    }
    assert(src@.subrange(0, src@.len() as int) =~= src@);
}

/// Replaces every occurrence of `pat` in `s` by `rep`, scanning left to right.
pub fn replace_all(s: &Vec<char>, pat: &Vec<char>, rep: &Vec<char>) -> (r: Vec<char>)
    ensures
        r@ == replaced(s@, pat@, rep@),
{
    if pat.len() == 0 {
        return s.clone();
    }
    let mut out: Vec<char> = Vec::new();
    let mut i: usize = 0;
    assert(s@.subrange(0, s@.len() as int) =~= s@);
    assert(out@ + replaced(s@, pat@, rep@) =~= replaced(s@, pat@, rep@));
    while i < s.len()
        invariant
            pat@.len() > 0,
            i <= s@.len(),
            replaced(s@, pat@, rep@) == out@ + replaced(s@.subrange(i as int, s@.len() as int), pat@, rep@),
        decreases s@.len() - i,
    {
        let ghost rest = s@.subrange(i as int, s@.len() as int);
        if prefix_at(s, i, pat) {
            append_chars(&mut out, rep);
            i = i + pat.len();
            assert(rest.subrange(pat@.len() as int, rest.len() as int) =~= s@.subrange(i as int, s@.len() as int));
        } else {
            out.push(s[i]);
            i = i + 1;
            assert(rest.subrange(1, rest.len() as int) =~= s@.subrange(i as int, s@.len() as int));
        }
        assert(out@ + replaced(s@.subrange(i as int, s@.len() as int), pat@, rep@) =~= replaced(s@, pat@, rep@));
    }
    assert(s@.subrange(i as int, s@.len() as int) =~= Seq::<char>::empty());
    assert(out@ =~= out@ + Seq::<char>::empty());
    out
}

/// Index of the first `'\n'` in `s`, or `s.len()` when there is none.
pub open spec fn newline_index(s: Seq<char>) -> int
    decreases s.len(),
{
    if s.len() == 0 {
        0
    } else if s[0] == '\n' {
        0
    } else {
        1 + newline_index(s.subrange(1, s.len() as int))
    }
}

/// A line as `str::lines` yields it: a line ended by `'\n'` loses one
/// trailing `'\r'`.
pub open spec fn strip_cr(l: Seq<char>) -> Seq<char> {
    if l.len() > 0 && l[l.len() - 1] == '\r' {
        l.subrange(0, l.len() - 1)
    } else {
        l
    }
}

/// The lines of `s`, split at `'\n'`; a final empty line is not counted.
pub open spec fn split_lines(s: Seq<char>) -> Seq<Seq<char>>
    decreases s.len(),
{
    if s.len() == 0 {
        seq![]
    } else {
        let k = newline_index(s);
        if k < 0 || k >= s.len() {
            seq![s]
        } else {
            seq![strip_cr(s.subrange(0, k))] + split_lines(s.subrange(k + 1, s.len() as int))
        }
    }
}

/// The views of a sequence of character vectors.
pub open spec fn views(v: Seq<Vec<char>>) -> Seq<Seq<char>> {
    v.map_values(|l: Vec<char>| l@)
}

proof fn lemma_newline_index_bounds(s: Seq<char>)
    ensures
        0 <= newline_index(s) <= s.len(),
        newline_index(s) < s.len() ==> s[newline_index(s)] == '\n',
    decreases s.len(),
{
    if s.len() > 0 && s[0] != '\n' {
        lemma_newline_index_bounds(s.subrange(1, s.len() as int));
    }
}

/// Index of the first `'\n'` at or after `start`, or `s.len()`.
fn find_newline(s: &Vec<char>, start: usize) -> (r: usize)
    requires
        start <= s@.len(),
    ensures
        r == start + newline_index(s@.subrange(start as int, s@.len() as int)),
{
    let mut j: usize = start;
    while j < s.len() && s[j] != '\n'
        invariant
            start <= j <= s@.len(),
            newline_index(s@.subrange(start as int, s@.len() as int)) == (j - start) + newline_index(
                s@.subrange(j as int, s@.len() as int),
            ),
        decreases s@.len() - j,
    {
        assert(s@.subrange(j as int, s@.len() as int).subrange(1, s@.len() - j) =~= s@.subrange(
            j + 1,
            s@.len() as int,
        ));
        j = j + 1;
    }
    j
}

/// Copies `s[from..to]` into a new vector.
pub fn copy_range(s: &Vec<char>, from: usize, to: usize) -> (r: Vec<char>)
    requires
        from <= to <= s@.len(),
    ensures
        r@ == s@.subrange(from as int, to as int),
{
    let mut out: Vec<char> = Vec::new();
    let mut j: usize = from;
    while j < to
        invariant
            from <= j <= to <= s@.len(),
            out@ == s@.subrange(from as int, j as int),
        decreases to - j,
    {
        out.push(s[j]);
        j = j + 1;
        assert(out@ =~= s@.subrange(from as int, j as int));
    }
    out
}

/// Splits `s` into lines as `str::lines` does.
pub fn lines_of(s: &Vec<char>) -> (r: Vec<Vec<char>>)
    ensures
        views(r@) == split_lines(s@),
{
    let mut out: Vec<Vec<char>> = Vec::new();
    let mut start: usize = 0;
    assert(s@.subrange(0, s@.len() as int) =~= s@);
    while start < s.len()
        invariant
            start <= s@.len(),
            split_lines(s@) == views(out@) + split_lines(s@.subrange(start as int, s@.len() as int)),
        decreases s@.len() - start,
    {
        let ghost rest = s@.subrange(start as int, s@.len() as int);
        proof {
            lemma_newline_index_bounds(rest);
        }
        let k = find_newline(s, start);
        let ghost old_out = out@;
        if k >= s.len() {
            let line = copy_range(s, start, k);
            out.push(line);
            assert(rest.subrange(0, rest.len() as int) =~= rest);
            start = k;
            assert(views(out@) =~= views(old_out) + seq![rest]);
            assert(s@.subrange(start as int, s@.len() as int) =~= Seq::<char>::empty());
            assert(split_lines(rest) == seq![rest]);
            assert(views(out@) + split_lines(s@.subrange(start as int, s@.len() as int)) =~= views(out@));
        } else {
            let mut end = k;
            if end > start && s[end - 1] == '\r' {
                end = end - 1;
            }
            let line = copy_range(s, start, end);
            out.push(line);
            assert(rest.subrange(0, k - start) =~= s@.subrange(start as int, k as int));
            assert(line@ == strip_cr(rest.subrange(0, k - start)));
            assert(rest.subrange(k - start + 1, rest.len() as int) =~= s@.subrange(k + 1, s@.len() as int));
            start = k + 1;
            assert(views(out@) =~= views(old_out) + seq![line@]);
            assert(views(out@) + split_lines(s@.subrange(start as int, s@.len() as int)) =~= views(old_out) + split_lines(rest));
        }
    }
    assert(s@.subrange(start as int, s@.len() as int) =~= Seq::<char>::empty());
    assert(views(out@) + split_lines(Seq::<char>::empty()) =~= views(out@));
    out
}

/// Index of the first `c` in `s`, or `s.len()` when there is none.
pub open spec fn index_of(s: Seq<char>, c: char) -> int
    decreases s.len(),
{
    if s.len() == 0 {
        0
    } else if s[0] == c {
        0
    } else {
        1 + index_of(s.subrange(1, s.len() as int), c)
    }
}

pub proof fn lemma_index_of_bounds(s: Seq<char>, c: char)
    ensures
        0 <= index_of(s, c) <= s.len(),
        index_of(s, c) < s.len() ==> s[index_of(s, c)] == c,
        forall|k: int| 0 <= k < index_of(s, c) ==> s[k] != c,
    decreases s.len(),
{
    if s.len() > 0 && s[0] != c {
        let rest = s.subrange(1, s.len() as int);
        lemma_index_of_bounds(rest, c);
        assert forall|k: int| 0 < k < index_of(s, c) implies s[k] != c by {
            assert(s[k] == rest[k - 1]);
        }
    }
}

/// Index of the first `c` in `s`, or `s.len()`.
pub fn find_char(s: &Vec<char>, c: char) -> (r: usize)
    ensures
        r == index_of(s@, c),
{
    let mut j: usize = 0;
    assert(s@.subrange(0, s@.len() as int) =~= s@);
    while j < s.len() && s[j] != c
        invariant
            j <= s@.len(),
            index_of(s@, c) == j + index_of(s@.subrange(j as int, s@.len() as int), c),
        decreases s@.len() - j,
    {
        assert(s@.subrange(j as int, s@.len() as int).subrange(1, s@.len() - j) =~= s@.subrange(
            j + 1,
            s@.len() as int,
        ));
        j = j + 1;
    }
    j
}

/// Whether `a` and `b` hold the same characters.
pub fn same_chars(a: &Vec<char>, b: &Vec<char>) -> (r: bool)
    ensures
        r == (a@ == b@),
{
    if a.len() != b.len() {
        return false;
    }
    let r = prefix_at(a, 0, b);
    assert(a@.subrange(0, a@.len() as int) =~= a@);
    r
}

/// The upper-case form of `s`, as `str::to_uppercase` computes it.
pub uninterp spec fn upper_of(s: Seq<char>) -> Seq<char>;

/// The ASCII upper-case form of `c`: `a`..`z` become `A`..`Z`.
pub open spec fn ascii_upper(c: char) -> char {
    if 'a' <= c <= 'z' {
        ((c as u32) - 32) as char
    } else {
        c
    }
}

/// Relies on `str::to_uppercase`: Unicode upper-casing, a function of the
/// characters alone, which on ASCII text maps `a`..`z` to `A`..`Z` and keeps
/// every other character.
#[verifier::external_body]
pub fn to_upper(s: &Vec<char>) -> (r: Vec<char>)
    ensures
        r@ == upper_of(s@),
        (forall|i: int| 0 <= i < s@.len() ==> (s@[i] as u32) < 128) ==> r@ == s@.map_values(
            |c: char| ascii_upper(c),
        ),
{
    let st: String = s.iter().collect();
    st.to_uppercase().chars().collect()
}

/// The sandbox-root placeholder, `${pwd}`.
pub open spec fn placeholder() -> Seq<char> {
    seq!['$', '{', 'p', 'w', 'd', '}']
}

/// A usable sandbox root: an absolute path without a `$`.
pub open spec fn valid_root(root: Seq<char>) -> bool {
    root.len() > 0 && root[0] == '/' && !root.contains('$')
}

/// The placeholder as an executable value.
pub fn placeholder_chars() -> (r: Vec<char>)
    ensures
        r@ == placeholder(),
{
    let r: Vec<char> = vec!['$', '{', 'p', 'w', 'd', '}'];
    assert(r@ =~= placeholder());
    r
}

/// Every `${pwd}` in `s` replaced by `root`.
pub open spec fn with_root(s: Seq<char>, root: Seq<char>) -> Seq<char> {
    replaced(s, placeholder(), root)
}

/// Replaces every `${pwd}` in `s` by `root`.
pub fn substitute_root(s: &Vec<char>, root: &Vec<char>) -> (r: Vec<char>)
    ensures
        r@ == with_root(s@, root@),
{
    let p = placeholder_chars();
    replace_all(s, &p, root)
}

proof fn lemma_prefix_survives(s: Seq<char>, root: Seq<char>, q: Seq<char>)
    requires
        valid_root(root),
        forall|j: int| 0 <= j < q.len() ==> q[j] != '/',
        has_prefix(with_root(s, root), q),
    ensures
        has_prefix(s, q),
    decreases s.len(),
{
    let p = placeholder();
    if q.len() == 0 {
        assert(s.subrange(0, 0) =~= q);
    } else if s.len() == 0 {
        assert(with_root(s, root).len() == 0);
    } else if has_prefix(s, p) {
        let out = with_root(s, root);
        assert(p.len() == 6);
        assert(out == root + with_root(s.subrange(6, s.len() as int), root));
        assert(out[0] == root[0]);
        assert(out.subrange(0, q.len() as int)[0] == q[0]);
    } else {
        let rest = s.subrange(1, s.len() as int);
        let out = with_root(s, root);
        assert(out == seq![s[0]] + with_root(rest, root));
        let q1 = q.subrange(1, q.len() as int);
        assert(with_root(rest, root).subrange(0, q1.len() as int) =~= out.subrange(0, q.len() as int).subrange(1, q.len() as int));
        lemma_prefix_survives(rest, root, q1);
        assert(out.subrange(0, q.len() as int)[0] == q[0]);
        assert(rest.subrange(0, q1.len() as int) == q1);
        assert(s.subrange(0, q.len() as int) =~= seq![s[0]] + rest.subrange(0, q1.len() as int));
        assert(s.subrange(0, q.len() as int) =~= q);
    }
}

/// With a valid root, no `${pwd}` is left after substitution.
pub proof fn lemma_no_placeholder_left(s: Seq<char>, root: Seq<char>)
    requires
        valid_root(root),
    ensures
        !occurs_in(with_root(s, root), placeholder()),
    decreases s.len(),
{
    let p = placeholder();
    let out = with_root(s, root);
    assert(p.len() == 6);
    if s.len() == 0 {
        assert(out.len() == 0);
        if occurs_in(out, p) {
            let i = choose|i: int| 0 <= i && i + p.len() <= out.len() && #[trigger] out.subrange(i, i + p.len()) == p;
        }
    } else if has_prefix(s, p) {
        let rest = s.subrange(6, s.len() as int);
        lemma_no_placeholder_left(rest, root);
        let tail = with_root(rest, root);
        assert(out == root + tail);
        if occurs_in(out, p) {
            let i = choose|i: int| 0 <= i && i + p.len() <= out.len() && #[trigger] out.subrange(i, i + p.len()) == p;
            if i < root.len() {
                assert(out.subrange(i, i + 6)[0] == out[i]);
                assert(root.contains(root[i]));
            } else {
                assert(tail.subrange(i - root.len(), i - root.len() + 6) =~= out.subrange(i, i + 6));
                assert(tail.subrange(i - root.len(), (i - root.len()) + p.len()) == p);
                assert(occurs_in(tail, p));
            }
        }
    } else {
        let rest = s.subrange(1, s.len() as int);
        lemma_no_placeholder_left(rest, root);
        let tail = with_root(rest, root);
        assert(out == seq![s[0]] + tail);
        if occurs_in(out, p) {
            let i = choose|i: int| 0 <= i && i + p.len() <= out.len() && #[trigger] out.subrange(i, i + p.len()) == p;
            if i >= 1 {
                assert(tail.subrange(i - 1, i + 5) =~= out.subrange(i, i + 6));
                assert(tail.subrange(i - 1, (i - 1) + p.len()) == p);
                assert(occurs_in(tail, p));
            } else {
                let q = p.subrange(1, 6);
                assert(tail.subrange(0, 5) =~= out.subrange(0, 6).subrange(1, 6));
                lemma_prefix_survives(rest, root, q);
                assert(s.subrange(0, 6) =~= seq![s[0]] + rest.subrange(0, 5));
                assert(out.subrange(0, 6)[0] == s[0]);
                assert(has_prefix(tail, q));
                assert(rest.subrange(0, 5) == q);
                assert(s[0] == out[0]);
                assert(out[0] == p[0]);
                assert(s.subrange(0, 6) =~= p);
                assert(has_prefix(s, p));
            }
        }
    }
}

/// The pieces of `s` between occurrences of `c` (`str::split` with a char).
pub open spec fn split_on(s: Seq<char>, c: char) -> Seq<Seq<char>>
    decreases s.len(),
{
    let k = index_of(s, c);
    if k < 0 || k >= s.len() {
        seq![s]
    } else {
        seq![s.subrange(0, k)] + split_on(s.subrange(k + 1, s.len() as int), c)
    }
}

/// Index of the first `c` at or after `start`, or `s.len()`.
pub fn find_char_from(s: &Vec<char>, start: usize, c: char) -> (r: usize)
    requires
        start <= s@.len(),
    ensures
        r == start + index_of(s@.subrange(start as int, s@.len() as int), c),
{
    let mut j: usize = start;
    while j < s.len() && s[j] != c
        invariant
            start <= j <= s@.len(),
            index_of(s@.subrange(start as int, s@.len() as int), c) == (j - start) + index_of(
                s@.subrange(j as int, s@.len() as int),
                c,
            ),
        decreases s@.len() - j,
    {
        assert(s@.subrange(j as int, s@.len() as int).subrange(1, s@.len() - j) =~= s@.subrange(
            j + 1,
            s@.len() as int,
        ));
        j = j + 1;
    }
    j
}

/// Splits `s` at every `c`.
pub fn split_chars(s: &Vec<char>, c: char) -> (r: Vec<Vec<char>>)
    ensures
        views(r@) == split_on(s@, c),
{
    let mut out: Vec<Vec<char>> = Vec::new();
    let mut start: usize = 0;
    assert(s@.subrange(0, s@.len() as int) =~= s@);
    loop
        invariant
            start <= s@.len(),
            split_on(s@, c) == views(out@) + split_on(s@.subrange(start as int, s@.len() as int), c),
        decreases s@.len() - start,
    {
        let ghost rest = s@.subrange(start as int, s@.len() as int);
        proof {
            lemma_index_of_bounds(rest, c);
        }
        let k = find_char_from(s, start, c);
        let piece = copy_range(s, start, k);
        let ghost prev = views(out@);
        out.push(piece);
        assert(views(out@) =~= prev + seq![piece@]);
        if k >= s.len() {
            assert(piece@ =~= rest);
            assert(split_on(rest, c) == seq![rest]);
            assert(views(out@) =~= prev + split_on(rest, c));
            return out;
        }
        assert(rest.subrange(0, k - start) =~= piece@);
        assert(rest.subrange(k - start + 1, rest.len() as int) =~= s@.subrange(k + 1, s@.len() as int));
        start = k + 1;
        assert(views(out@) + split_on(s@.subrange(start as int, s@.len() as int), c) =~= prev + split_on(rest, c));
    }
}

proof fn lemma_prefix_kept(s: Seq<char>, pat: Seq<char>, rep: Seq<char>, q: Seq<char>)
    requires
        pat.len() > 0,
        rep.len() > 0,
        forall|j: int| 0 <= j < q.len() ==> q[j] != rep[0],
        has_prefix(replaced(s, pat, rep), q),
    ensures
        has_prefix(s, q),
    decreases s.len(),
{
    let out = replaced(s, pat, rep);
    if q.len() == 0 {
        assert(s.subrange(0, 0) =~= q);
    } else if s.len() == 0 {
        assert(out.len() == 0);
    } else if has_prefix(s, pat) {
        assert(out == rep + replaced(s.subrange(pat.len() as int, s.len() as int), pat, rep));
        assert(out[0] == rep[0]);
        assert(out.subrange(0, q.len() as int)[0] == q[0]);
    } else {
        let rest = s.subrange(1, s.len() as int);
        assert(out == seq![s[0]] + replaced(rest, pat, rep));
        let q1 = q.subrange(1, q.len() as int);
        assert(replaced(rest, pat, rep).subrange(0, q1.len() as int) =~= out.subrange(0, q.len() as int).subrange(1, q.len() as int));
        lemma_prefix_kept(rest, pat, rep, q1);
        assert(out.subrange(0, q.len() as int)[0] == q[0]);
        assert(rest.subrange(0, q1.len() as int) == q1);
        assert(s.subrange(0, q.len() as int) =~= seq![s[0]] + rest.subrange(0, q1.len() as int));
        assert(s.subrange(0, q.len() as int) =~= q);
    }
}

/// Replacing with text that shares no character with `q` creates no new
/// occurrence of `q`.
pub proof fn lemma_replace_keeps_absence(s: Seq<char>, pat: Seq<char>, rep: Seq<char>, q: Seq<char>)
    requires
        pat.len() > 0,
        rep.len() > 0,
        q.len() > 0,
        forall|j: int, k: int| 0 <= j < q.len() && 0 <= k < rep.len() ==> q[j] != rep[k],
        !occurs_in(s, q),
    ensures
        !occurs_in(replaced(s, pat, rep), q),
    decreases s.len(),
{
    let out = replaced(s, pat, rep);
    if s.len() == 0 {
        assert(out.len() == 0);
        if occurs_in(out, q) {
            let i = choose|i: int| 0 <= i && i + q.len() <= out.len() && #[trigger] out.subrange(i, i + q.len()) == q;
        }
    } else if has_prefix(s, pat) {
        let rest = s.subrange(pat.len() as int, s.len() as int);
        if occurs_in(rest, q) {
            let i = choose|i: int| 0 <= i && i + q.len() <= rest.len() && #[trigger] rest.subrange(i, i + q.len()) == q;
            assert(s.subrange(i + pat.len(), i + pat.len() + q.len()) =~= rest.subrange(i, i + q.len()));
            assert(s.subrange(i + pat.len(), (i + pat.len()) + q.len()) == q);
        }
        lemma_replace_keeps_absence(rest, pat, rep, q);
        let tail = replaced(rest, pat, rep);
        assert(out == rep + tail);
        if occurs_in(out, q) {
            let i = choose|i: int| 0 <= i && i + q.len() <= out.len() && #[trigger] out.subrange(i, i + q.len()) == q;
            if i < rep.len() {
                assert(out.subrange(i, i + q.len())[0] == out[i]);
                assert(out[i] == rep[i]);
            } else {
                assert(tail.subrange(i - rep.len(), i - rep.len() + q.len()) =~= out.subrange(i, i + q.len()));
                assert(tail.subrange(i - rep.len(), (i - rep.len()) + q.len()) == q);
            }
        }
    } else {
        let rest = s.subrange(1, s.len() as int);
        if occurs_in(rest, q) {
            let i = choose|i: int| 0 <= i && i + q.len() <= rest.len() && #[trigger] rest.subrange(i, i + q.len()) == q;
            assert(s.subrange(i + 1, i + 1 + q.len()) =~= rest.subrange(i, i + q.len()));
            assert(s.subrange(i + 1, (i + 1) + q.len()) == q);
        }
        lemma_replace_keeps_absence(rest, pat, rep, q);
        let tail = replaced(rest, pat, rep);
        assert(out == seq![s[0]] + tail);
        if occurs_in(out, q) {
            let i = choose|i: int| 0 <= i && i + q.len() <= out.len() && #[trigger] out.subrange(i, i + q.len()) == q;
            if i >= 1 {
                assert(tail.subrange(i - 1, i - 1 + q.len()) =~= out.subrange(i, i + q.len()));
                assert(tail.subrange(i - 1, (i - 1) + q.len()) == q);
            } else {
                let q1 = q.subrange(1, q.len() as int);
                assert(tail.subrange(0, q1.len() as int) =~= out.subrange(0, q.len() as int).subrange(1, q.len() as int));
                lemma_prefix_kept(rest, pat, rep, q1);
                assert(out.subrange(0, q.len() as int)[0] == s[0]);
                assert(rest.subrange(0, q1.len() as int) == q1);
                assert(s.subrange(0, q.len() as int) =~= seq![s[0]] + rest.subrange(0, q1.len() as int));
                assert(s.subrange(0, 0 + q.len() as int) == q);
            }
        }
    }
}

} // verus!
