//! An explicit environment: ordered `(name, value)` pairs, where setting a
//! name that is present replaces its value in place.
use vstd::prelude::*;

verus! {

/// The views of a list of string pairs.
pub open spec fn pairs(v: Seq<(String, String)>) -> Seq<(Seq<char>, Seq<char>)> {
    v.map_values(|e: (String, String)| (e.0@, e.1@))
}

/// Position of the first pair named `k`, or -1.
pub open spec fn env_pos(m: Seq<(Seq<char>, Seq<char>)>, k: Seq<char>) -> int
    decreases m.len(),
{
    if m.len() == 0 {
        -1
    } else if m[0].0 == k {
        0
    } else {
        let r = env_pos(m.subrange(1, m.len() as int), k);
        if r < 0 {
            -1
        } else {
            r + 1
        }
    }
}

/// The value of `k`, if set.
pub open spec fn env_lookup(m: Seq<(Seq<char>, Seq<char>)>, k: Seq<char>) -> Option<Seq<char>> {
    let p = env_pos(m, k);
    if 0 <= p < m.len() {
        Some(m[p].1)
    } else {
        None
    }
}

/// `m` with `k` set to `v`: replaced in place when present, else appended.
pub open spec fn env_set(m: Seq<(Seq<char>, Seq<char>)>, k: Seq<char>, v: Seq<char>) -> Seq<
    (Seq<char>, Seq<char>),
> {
    let p = env_pos(m, k);
    if 0 <= p < m.len() {
        m.update(p, (k, v))
    } else {
        m.push((k, v))
    }
}

/// `m` with every pair in `kvs` set, in order.
pub open spec fn env_set_all(
    m: Seq<(Seq<char>, Seq<char>)>,
    kvs: Seq<(Seq<char>, Seq<char>)>,
) -> Seq<(Seq<char>, Seq<char>)>
    decreases kvs.len(),
{
    if kvs.len() == 0 {
        m
    } else {
        let last = kvs.last();
        env_set(env_set_all(m, kvs.drop_last()), last.0, last.1)
    }
}

/// `m` without any pair named `k`.
pub open spec fn env_remove(m: Seq<(Seq<char>, Seq<char>)>, k: Seq<char>) -> Seq<
    (Seq<char>, Seq<char>),
>
    decreases m.len(),
{
    if m.len() == 0 {
        m
    } else if m[0].0 == k {
        env_remove(m.subrange(1, m.len() as int), k)
    } else {
        seq![m[0]] + env_remove(m.subrange(1, m.len() as int), k)
    }
}

pub proof fn lemma_env_pos(m: Seq<(Seq<char>, Seq<char>)>, k: Seq<char>)
    ensures
        -1 <= env_pos(m, k) < m.len(),
        env_pos(m, k) >= 0 ==> m[env_pos(m, k)].0 == k,
        forall|j: int|
            0 <= j < m.len() && (env_pos(m, k) < 0 || j < env_pos(m, k)) ==> m[j].0 != k,
    decreases m.len(),
{
    if m.len() > 0 && m[0].0 != k {
        let rest = m.subrange(1, m.len() as int);
        lemma_env_pos(rest, k);
        assert forall|j: int| 0 < j < m.len() implies m[j] == rest[j - 1] by {}
    }
}

/// `env_pos` is the first position holding `k`.
pub proof fn lemma_env_pos_unique(m: Seq<(Seq<char>, Seq<char>)>, k: Seq<char>, p: int)
    requires
        -1 <= p < m.len(),
        p >= 0 ==> m[p].0 == k,
        forall|j: int| 0 <= j < m.len() && (p < 0 || j < p) ==> m[j].0 != k,
    ensures
        env_pos(m, k) == p,
{
    lemma_env_pos(m, k);
    let q = env_pos(m, k);
    if q >= 0 && p >= 0 {
        assert(!(q < p));
        assert(!(p < q));
    }
}

/// Setting `k` gives `k` its new value and leaves every other name as it was.
pub proof fn lemma_lookup_set(m: Seq<(Seq<char>, Seq<char>)>, k: Seq<char>, v: Seq<char>, k2: Seq<char>)
    ensures
        env_lookup(env_set(m, k, v), k2) == if k2 == k {
            Some(v)
        } else {
            env_lookup(m, k2)
        },
{
    lemma_env_pos(m, k);
    lemma_env_pos(m, k2);
    let n = env_set(m, k, v);
    let p = env_pos(m, k);
    let p2 = env_pos(m, k2);
    if k2 == k {
        if p >= 0 {
            lemma_env_pos_unique(n, k, p);
        } else {
            lemma_env_pos_unique(n, k, m.len() as int);
        }
    } else {
        lemma_env_pos_unique(n, k2, p2);
    }
}

/// Removing `k` unsets it and leaves every other name as it was.
pub proof fn lemma_lookup_remove(m: Seq<(Seq<char>, Seq<char>)>, k: Seq<char>, k2: Seq<char>)
    ensures
        env_lookup(env_remove(m, k), k2) == if k2 == k {
            None
        } else {
            env_lookup(m, k2)
        },
    decreases m.len(),
{
    if m.len() > 0 {
        let rest = m.subrange(1, m.len() as int);
        lemma_lookup_remove(rest, k, k2);
        lemma_env_pos(rest, k2);
        lemma_env_pos(env_remove(rest, k), k2);
        if m[0].0 != k {
            let n = env_remove(m, k);
            assert(n == seq![m[0]] + env_remove(rest, k));
            assert(n.subrange(1, n.len() as int) =~= env_remove(rest, k));
        }
    }
}

/// Finds the first pair named `k`.
pub fn find_env(m: &Vec<(String, String)>, k: &String) -> (r: Option<usize>)
    ensures
        match r {
            Some(p) => p == env_pos(pairs(m@), k@) && p < m@.len(),
            None => env_pos(pairs(m@), k@) < 0,
        },
{
    let ghost pm = pairs(m@);
    proof {
        lemma_env_pos(pm, k@);
    }
    let mut j: usize = 0;
    while j < m.len()
        invariant
            pm == pairs(m@),
            j <= m@.len(),
            forall|i: int| 0 <= i < j ==> pm[i].0 != k@,
            -1 <= env_pos(pm, k@) < pm.len(),
            env_pos(pm, k@) >= 0 ==> pm[env_pos(pm, k@)].0 == k@,
            forall|i: int|
                0 <= i < pm.len() && (env_pos(pm, k@) < 0 || i < env_pos(pm, k@)) ==> pm[i].0 != k@,
        decreases m@.len() - j,
    {
        assert(pm[j as int].0 == m@[j as int].0@);
        if m[j].0 == *k {
            proof {
                lemma_env_pos_unique(pm, k@, j as int);
            }
            return Some(j);
        }
        j = j + 1;
    }
    None
}

/// Sets `k` to `v` in `m`.
pub fn set_env(m: &mut Vec<(String, String)>, k: String, v: String)
    ensures
        pairs(final(m)@) == env_set(pairs(old(m)@), k@, v@),
{
    let ghost (kv, vv) = (k@, v@);
    match find_env(m, &k) {
        Some(p) => {
            m.set(p, (k, v));
            assert(pairs(m@) =~= pairs(old(m)@).update(p as int, (kv, vv)));
        },
        None => {
            proof {
                lemma_env_pos(pairs(old(m)@), kv);
            }
            m.push((k, v));
            assert(pairs(m@) =~= pairs(old(m)@).push((kv, vv)));
        },
    }
}

/// Sets each pair of `kvs` in `m`, in order.
pub fn set_env_all(m: &mut Vec<(String, String)>, kvs: &Vec<(String, String)>)
    ensures
        pairs(final(m)@) == env_set_all(pairs(old(m)@), pairs(kvs@)),
{
    let mut i: usize = 0;
    while i < kvs.len()
        invariant
            i <= kvs@.len(),
            pairs(m@) == env_set_all(pairs(old(m)@), pairs(kvs@).subrange(0, i as int)),
        decreases kvs@.len() - i,
    {
        assert(pairs(kvs@).subrange(0, i + 1).drop_last() =~= pairs(kvs@).subrange(0, i as int));
        set_env(m, kvs[i].0.clone(), kvs[i].1.clone());
        i = i + 1;
    }
    assert(pairs(kvs@).subrange(0, i as int) =~= pairs(kvs@));
}

/// Removes every pair named `k` from `m`.
pub fn remove_env(m: &Vec<(String, String)>, k: &String) -> (r: Vec<(String, String)>)
    ensures
        pairs(r@) == env_remove(pairs(m@), k@),
{
    let ghost pm = pairs(m@);
    let mut out: Vec<(String, String)> = Vec::new();
    let mut i: usize = 0;
    assert(pm.subrange(0, pm.len() as int) =~= pm);
    assert(pairs(out@) + env_remove(pm, k@) =~= env_remove(pm, k@));
    while i < m.len()
        invariant
            pm == pairs(m@),
            i <= m@.len(),
            env_remove(pm, k@) == pairs(out@) + env_remove(pm.subrange(i as int, pm.len() as int), k@),
        decreases m@.len() - i,
    {
        let ghost rest = pm.subrange(i as int, pm.len() as int);
        assert(rest.subrange(1, rest.len() as int) =~= pm.subrange(i + 1, pm.len() as int));
        let ghost prev = pairs(out@);
        if m[i].0 != *k {
            out.push((m[i].0.clone(), m[i].1.clone()));
            assert(pairs(out@) =~= prev + seq![rest[0]]);
        }
        i = i + 1;
        assert(env_remove(pm, k@) =~= pairs(out@) + env_remove(pm.subrange(i as int, pm.len() as int), k@));
    }
    assert(pm.subrange(i as int, pm.len() as int) =~= Seq::<(Seq<char>, Seq<char>)>::empty());
    assert(pairs(out@) + Seq::<(Seq<char>, Seq<char>)>::empty() =~= pairs(out@));
    out
}

/// The value of `k` in `m`, if set.
pub fn lookup_env(m: &Vec<(String, String)>, k: &String) -> (r: Option<String>)
    ensures
        match r {
            Some(v) => env_lookup(pairs(m@), k@) == Some(v@),
            None => env_lookup(pairs(m@), k@) is None,
        },
{
    proof {
        lemma_env_pos(pairs(m@), k@);
    }
    match find_env(m, k) {
        Some(p) => Some(m[p].1.clone()),
        None => None,
    }
}

} // verus!
