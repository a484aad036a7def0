//! Parsing of the compiler's `--print=cfg` output into `CARGO_CFG_*`
//! environment variables.
use vstd::prelude::*;
use crate::text::{
    append_chars, chars_of, copy_range, find_char, has_prefix, index_of, lemma_index_of_bounds,
    lines_of, prefix_at, same_chars, split_lines, string_of, to_upper, upper_of, views,
};

verus! {

pub open spec fn target_prefix() -> Seq<char> {
    seq!['t', 'a', 'r', 'g', 'e', 't', '_']
}

pub open spec fn unix_word() -> Seq<char> {
    seq!['u', 'n', 'i', 'x']
}

pub open spec fn windows_word() -> Seq<char> {
    seq!['w', 'i', 'n', 'd', 'o', 'w', 's']
}

pub open spec fn cargo_cfg_prefix() -> Seq<char> {
    seq!['C', 'A', 'R', 'G', 'O', '_', 'C', 'F', 'G', '_']
}

/// What one probe line contributes: a key with a quoted value
/// (`target_os="linux"`), a bare boolean key (`unix`, `windows`), or nothing.
pub open spec fn probe_line(l: Seq<char>) -> Option<(Seq<char>, Option<Seq<char>>)> {
    let k = index_of(l, '=');
    if has_prefix(l, target_prefix()) && 0 <= k < l.len() {
        let v = l.subrange(k + 1, l.len() as int);
        if v.len() >= 2 && v[0] == '"' && v[v.len() - 1] == '"' {
            Some((l.subrange(0, k), Some(v.subrange(1, v.len() - 1))))
        } else {
            None
        }
    } else if l == unix_word() || l == windows_word() {
        Some((l, None))
    } else {
        None
    }
}

/// Position of `key` in the table, or -1.
pub open spec fn key_pos(t: Seq<(Seq<char>, Seq<Seq<char>>)>, key: Seq<char>) -> int
    decreases t.len(),
{
    if t.len() == 0 {
        -1
    } else if t[0].0 == key {
        0
    } else {
        let r = key_pos(t.subrange(1, t.len() as int), key);
        if r < 0 {
            -1
        } else {
            r + 1
        }
    }
}

/// The table after one more probe line, keyed by upper-cased key so that
/// keys which upper-case alike share one variable: a value is appended to
/// its key's list (the key is added at the end when first seen); a bare key
/// gets an empty list.
pub open spec fn probe_step(t: Seq<(Seq<char>, Seq<Seq<char>>)>, l: Seq<char>) -> Seq<
    (Seq<char>, Seq<Seq<char>>),
> {
    match probe_line(l) {
        None => t,
        Some((raw, value)) => {
            let k = upper_of(raw);
            let p = key_pos(t, k);
            let vals = match value {
                Some(v) => if p < 0 {
                    seq![v]
                } else {
                    t[p].1.push(v)
                },
                None => seq![],
            };
            if p < 0 {
                t.push((k, vals))
            } else {
                t.update(p, (k, vals))
            }
        },
    }
}

/// Keys in first-seen order, each with its values in the order seen.
pub open spec fn probe_table(lines: Seq<Seq<char>>) -> Seq<(Seq<char>, Seq<Seq<char>>)>
    decreases lines.len(),
{
    if lines.len() == 0 {
        seq![]
    } else {
        probe_step(probe_table(lines.drop_last()), lines.last())
    }
}

/// The values joined with commas.
pub open spec fn comma_join(vals: Seq<Seq<char>>) -> Seq<char>
    decreases vals.len(),
{
    if vals.len() == 0 {
        seq![]
    } else if vals.len() == 1 {
        vals[0]
    } else {
        comma_join(vals.drop_last()) + seq![','] + vals.last()
    }
}

/// The environment variable named after an upper-cased probe key.
pub open spec fn cfg_var_name(upper_key: Seq<char>) -> Seq<char> {
    cargo_cfg_prefix() + upper_key
}

/// The variables that the probe output `stdout` gives, in first-seen order of
/// their keys.
pub open spec fn cfg_vars(stdout: Seq<char>) -> Seq<(Seq<char>, Seq<char>)> {
    probe_table(split_lines(stdout)).map_values(
        |e: (Seq<char>, Seq<Seq<char>>)| (cfg_var_name(e.0), comma_join(e.1)),
    )
}

struct ProbeEntry {
    key: Vec<char>,
    joined: Vec<char>,
    any: bool,
}

spec fn entry_models(e: ProbeEntry, s: (Seq<char>, Seq<Seq<char>>)) -> bool {
    &&& e.key@ == s.0
    &&& e.joined@ == comma_join(s.1)
    &&& e.any == (s.1.len() > 0)
}

spec fn table_models(t: Seq<ProbeEntry>, s: Seq<(Seq<char>, Seq<Seq<char>>)>) -> bool {
    &&& t.len() == s.len()
    &&& forall|j: int| 0 <= j < t.len() ==> entry_models(#[trigger] t[j], s[j])
}

proof fn lemma_key_pos(s: Seq<(Seq<char>, Seq<Seq<char>>)>, key: Seq<char>)
    ensures
        -1 <= key_pos(s, key) < s.len(),
        key_pos(s, key) >= 0 ==> s[key_pos(s, key)].0 == key,
        forall|j: int| 0 <= j < s.len() && (key_pos(s, key) < 0 || j < key_pos(s, key)) ==> s[j].0 != key,
    decreases s.len(),
{
    if s.len() > 0 && s[0].0 != key {
        let rest = s.subrange(1, s.len() as int);
        lemma_key_pos(rest, key);
        assert forall|j: int| 0 < j < s.len() implies s[j] == rest[j - 1] by {}
    }
}

fn find_key(t: &Vec<ProbeEntry>, key: &Vec<char>, Ghost(s): Ghost<Seq<(Seq<char>, Seq<Seq<char>>)>>) -> (r: Option<usize>)
    requires
        table_models(t@, s),
    ensures
        match r {
            Some(p) => p == key_pos(s, key@),
            None => key_pos(s, key@) < 0,
        },
{
    proof {
        lemma_key_pos(s, key@);
    }
    let mut j: usize = 0;
    while j < t.len()
        invariant
            table_models(t@, s),
            j <= t@.len(),
            forall|m: int| 0 <= m < j ==> s[m].0 != key@,
            -1 <= key_pos(s, key@) < s.len(),
            key_pos(s, key@) >= 0 ==> s[key_pos(s, key@)].0 == key@,
            forall|m: int| 0 <= m < s.len() && (key_pos(s, key@) < 0 || m < key_pos(s, key@)) ==> s[m].0 != key@,
        decreases t@.len() - j,
    {
        assert(entry_models(t@[j as int], s[j as int]));
        if same_chars(&t[j].key, key) {
            return Some(j);
        }
        j = j + 1;
    }
    None
}

fn apply_line(t: &mut Vec<ProbeEntry>, line: &Vec<char>, Ghost(s): Ghost<Seq<(Seq<char>, Seq<Seq<char>>)>>)
    requires
        table_models(old(t)@, s),
    ensures
        table_models(final(t)@, probe_step(s, line@)),
{
    let l = line;
    let k = find_char(l, '=');
    proof {
        lemma_index_of_bounds(l@, '=');
    }
    let target: Vec<char> = vec!['t', 'a', 'r', 'g', 'e', 't', '_'];
    let unix: Vec<char> = vec!['u', 'n', 'i', 'x'];
    let windows: Vec<char> = vec!['w', 'i', 'n', 'd', 'o', 'w', 's'];
    assert(target@ =~= target_prefix());
    assert(unix@ =~= unix_word());
    assert(windows@ =~= windows_word());
    assert(l@.subrange(0, l@.len() as int) =~= l@);
    let key: Vec<char>;
    let value: Option<Vec<char>>;
    if prefix_at(l, 0, &target) && k < l.len() {
        let n = l.len();
        if n - (k + 1) >= 2 && l[k + 1] == '"' && l[n - 1] == '"' {
            key = copy_range(l, 0, k);
            value = Some(copy_range(l, k + 2, n - 1));
            assert(l@.subrange(k + 1, n as int).subrange(1, n - k - 2) =~= l@.subrange(k + 2, n - 1));
        } else {
            return;
        }
    } else if same_chars(l, &unix) || same_chars(l, &windows) {
        key = l.clone();
        value = None;
    } else {
        return;
    }
    assert(probe_line(l@) == Some((key@, match value { Some(v) => Some(v@), None => None::<Seq<char>> })));
    let key = to_upper(&key);
    let pos = find_key(t, &key, Ghost(s));
    proof {
        lemma_key_pos(s, key@);
    }
    match pos {
        None => {
            let any = value.is_some();
            let joined = match value {
                Some(v) => v,
                None => Vec::new(),
            };
            t.push(ProbeEntry { key, joined, any });
            assert(forall|j: int| 0 <= j < t@.len() ==> entry_models(#[trigger] t@[j], probe_step(s, l@)[j]));
        },
        Some(p) => {
            let mut e = ProbeEntry { key: Vec::new(), joined: Vec::new(), any: false };
            assert(entry_models(t@[p as int], s[p as int]));
            match value {
                Some(v) => {
                    let mut joined = t[p].joined.clone();
                    let ghost vals = s[p as int].1;
                    if t[p].any {
                        joined.push(',');
                        append_chars(&mut joined, &v);
                        assert(vals.push(v@).drop_last() =~= vals);
                        assert(joined@ =~= comma_join(vals) + seq![','] + v@);
                    } else {
                        append_chars(&mut joined, &v);
                        assert(vals.push(v@) =~= seq![v@]);
                        assert(joined@ =~= v@);
                    }
                    assert(joined@ == comma_join(vals.push(v@)));
                    e = ProbeEntry { key, joined, any: true };
                },
                None => {
                    e = ProbeEntry { key, joined: Vec::new(), any: false };
                },
            }
            t.set(p, e);
            assert(forall|j: int| 0 <= j < t@.len() ==> entry_models(#[trigger] t@[j], probe_step(s, l@)[j]));
        },
    }
}

/// Parses the output of `rustc --print=cfg`: each `target_<name>="<value>"`
/// line adds `<value>` under `CARGO_CFG_<NAME>`, values of one key joined by
/// commas in the order seen; a bare `unix` or `windows` line gives
/// `CARGO_CFG_UNIX` or `CARGO_CFG_WINDOWS` an empty value. Other lines are
/// ignored. Variables come in the order their keys were first seen.
pub fn parse_rustc_cfg_output(stdout: &str) -> (r: Vec<(String, String)>)
    ensures
        r@.len() == cfg_vars(stdout@).len(),
        forall|i: int|
            0 <= i < r@.len() ==> (#[trigger] r@[i]).0@ == cfg_vars(stdout@)[i].0 && r@[i].1@
                == cfg_vars(stdout@)[i].1,
{
    let chars = chars_of(stdout);
    let lines = lines_of(&chars);
    let ghost ls = views(lines@);
    let mut table: Vec<ProbeEntry> = Vec::new();
    let mut i: usize = 0;
    while i < lines.len()
        invariant
            i <= lines@.len(),
            ls == views(lines@),
            table_models(table@, probe_table(ls.subrange(0, i as int))),
        decreases lines@.len() - i,
    {
        assert(ls.subrange(0, i + 1).drop_last() =~= ls.subrange(0, i as int));
        apply_line(&mut table, &lines[i], Ghost(probe_table(ls.subrange(0, i as int))));
        i = i + 1;
    }
    assert(ls.subrange(0, i as int) =~= ls);
    let ghost tbl = probe_table(ls);
    let prefix: Vec<char> = vec!['C', 'A', 'R', 'G', 'O', '_', 'C', 'F', 'G', '_'];
    let mut out: Vec<(String, String)> = Vec::new();
    let mut j: usize = 0;
    while j < table.len()
        invariant
            table_models(table@, tbl),
            tbl == probe_table(split_lines(stdout@)),
            prefix@ == cargo_cfg_prefix(),
            j <= table@.len(),
            out@.len() == j,
            forall|m: int|
                0 <= m < j ==> (#[trigger] out@[m]).0@ == cfg_var_name(tbl[m].0) && out@[m].1@
                    == comma_join(tbl[m].1),
        decreases table@.len() - j,
    {
        assert(entry_models(table@[j as int], tbl[j as int]));
        let mut name = prefix.clone();
        append_chars(&mut name, &table[j].key);
        out.push((string_of(&name), string_of(&table[j].joined)));
        j = j + 1;
    }
    out
}

/// The key that a probe line names, if it names one.
pub open spec fn probe_key(l: Seq<char>) -> Seq<char> {
    match probe_line(l) {
        Some((k, _)) => k,
        None => seq![],
    }
}

/// Whether a probe line is a bare `unix` or `windows`.
pub open spec fn probe_bare(l: Seq<char>) -> bool {
    match probe_line(l) {
        Some((_, None)) => true,
        _ => false,
    }
}

/// A `target_<name>="<value>"` line contributes `<value>` to the list of its
/// upper-cased key, unless a later bare `unix`/`windows` line upper-cases to
/// the same key and resets it.
pub proof fn lemma_probe_value_contributes(lines: Seq<Seq<char>>, j: int, k: Seq<char>, v: Seq<char>)
    requires
        0 <= j < lines.len(),
        probe_line(lines[j]) == Some((k, Some(v))),
        forall|m: int|
            j < m < lines.len() && (#[trigger] probe_line(lines[m])) is Some ==> (!probe_bare(lines[m])
                || upper_of(probe_key(lines[m])) != upper_of(k)),
    ensures
        exists|p: int|
            0 <= p < probe_table(lines).len() && (#[trigger] probe_table(lines)[p]).0 == upper_of(k)
                && probe_table(lines)[p].1.contains(v),
    decreases lines.len(),
{
    let init = lines.drop_last();
    let t0 = probe_table(init);
    let l = lines.last();
    lemma_key_pos(t0, upper_of(k));
    if j == lines.len() - 1 {
        let p = key_pos(t0, upper_of(k));
        if p < 0 {
            let t1 = probe_table(lines);
            assert(t1[t0.len() as int].1 == seq![v]);
            assert(t1[t0.len() as int].1[0] == v);
        } else {
            let t1 = probe_table(lines);
            assert(t1[p].1 == t0[p].1.push(v));
            assert(t1[p].1[t0[p].1.len() as int] == v);
        }
    } else {
        assert forall|m: int| j < m < init.len() && (#[trigger] probe_line(init[m])) is Some implies (!probe_bare(init[m])
            || upper_of(probe_key(init[m])) != upper_of(k)) by {
            assert(init[m] == lines[m]);
        }
        assert(init[j] == lines[j]);
        lemma_probe_value_contributes(init, j, k, v);
        let p = choose|p: int| 0 <= p < t0.len() && (#[trigger] t0[p]).0 == upper_of(k) && t0[p].1.contains(v);
        let t1 = probe_table(lines);
        assert(t1 == probe_step(t0, l));
        match probe_line(l) {
            None => {
                assert(t1[p] == t0[p]);
            },
            Some((raw, value)) => {
                let q = key_pos(t0, upper_of(raw));
                lemma_key_pos(t0, upper_of(raw));
                assert(probe_line(lines[lines.len() - 1]) is Some);
                if q == p {
                    assert(value is Some);
                    let w = value->0;
                    assert(t1[p].1 == t0[p].1.push(w));
                    let i = choose|i: int| 0 <= i < t0[p].1.len() && t0[p].1[i] == v;
                    assert(t1[p].1[i] == v);
                } else {
                    assert(t1[p] == t0[p]);
                }
            },
        }
    }
}

/// A bare `unix` or `windows` line leaves its upper-cased key with no
/// values, so its variable is empty, unless a later line names the same
/// upper-cased key.
pub proof fn lemma_probe_bare_is_empty(lines: Seq<Seq<char>>, j: int, k: Seq<char>)
    requires
        0 <= j < lines.len(),
        probe_line(lines[j]) == Some((k, None::<Seq<char>>)),
        forall|m: int|
            j < m < lines.len() && (#[trigger] probe_line(lines[m])) is Some ==> upper_of(probe_key(lines[m])) != upper_of(k),
    ensures
        exists|p: int|
            0 <= p < probe_table(lines).len() && #[trigger] probe_table(lines)[p] == (
                upper_of(k),
                Seq::<Seq<char>>::empty(),
            ),
    decreases lines.len(),
{
    let init = lines.drop_last();
    let t0 = probe_table(init);
    let l = lines.last();
    let t1 = probe_table(lines);
    lemma_key_pos(t0, upper_of(k));
    if j == lines.len() - 1 {
        let p = key_pos(t0, upper_of(k));
        if p < 0 {
            assert(t1[t0.len() as int] == (upper_of(k), Seq::<Seq<char>>::empty()));
        } else {
            assert(t1[p] == (upper_of(k), Seq::<Seq<char>>::empty()));
        }
    } else {
        assert forall|m: int| j < m < init.len() && (#[trigger] probe_line(init[m])) is Some implies upper_of(probe_key(init[m])) != upper_of(k) by {
            assert(init[m] == lines[m]);
        }
        assert(init[j] == lines[j]);
        lemma_probe_bare_is_empty(init, j, k);
        let p = choose|p: int| 0 <= p < t0.len() && #[trigger] t0[p] == (upper_of(k), Seq::<Seq<char>>::empty());
        match probe_line(l) {
            None => {
                assert(t1[p] == t0[p]);
            },
            Some((raw, value)) => {
                assert(probe_line(lines[lines.len() - 1]) is Some);
                lemma_key_pos(t0, upper_of(raw));
                assert(t1[p] == t0[p]);
            },
        }
    }
}

} // verus!
