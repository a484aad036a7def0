//! Static resolution of cfg-gated dependencies: a dependency whose predicate
//! is satisfied by the `--cfg` flags the crate itself requests is lifted into
//! the unconditional set.
use vstd::prelude::*;
use crate::cfg_eval::{cfg_holds, cfg_parses, flag_set, CfgPredicate, nesting_fits};
use crate::select::{opt_view, CrateContext, CrateDependency, CrateId, Select};

verus! {

pub open spec fn cfg_marker() -> Seq<char> {
    seq!['-', '-', 'c', 'f', 'g']
}

/// The names that follow a `--cfg` marker in `flags`, in order.
pub open spec fn cfg_flag_names(flags: Seq<Seq<char>>) -> Seq<Seq<char>>
    decreases flags.len(),
{
    if flags.len() < 2 {
        seq![]
    } else if flags[flags.len() - 2] == cfg_marker() {
        cfg_flag_names(flags.drop_last()).push(flags.last())
    } else {
        cfg_flag_names(flags.drop_last())
    }
}

/// Collects the value after each `--cfg` in `rustc_flags`; other flags are
/// skipped, and a trailing `--cfg` with nothing after it gives nothing.
pub fn get_cfg_flag_values(rustc_flags: Vec<String>) -> (r: Vec<String>)
    ensures
        r@.map_values(|s: String| s@) == cfg_flag_names(rustc_flags@.map_values(|s: String| s@)),
{
    let ghost fl = rustc_flags@.map_values(|s: String| s@);
    let mut out: Vec<String> = Vec::new();
    if rustc_flags.len() < 2 {
        assert(out@.map_values(|s: String| s@) =~= Seq::<Seq<char>>::empty());
        return out;
    }
    let marker = String::from_str("--cfg");
    proof {
        reveal_strlit("--cfg");
        assert(marker@ =~= cfg_marker());
    }
    let mut i: usize = 1;
    assert(fl.subrange(0, 1).len() < 2);
    assert(out@.map_values(|s: String| s@) =~= cfg_flag_names(fl.subrange(0, 1)));
    while i < rustc_flags.len()
        invariant
            1 <= i <= rustc_flags@.len(),
            fl == rustc_flags@.map_values(|s: String| s@),
            marker@ == cfg_marker(),
            out@.map_values(|s: String| s@) == cfg_flag_names(fl.subrange(0, i as int)),
        decreases rustc_flags@.len() - i,
    {
        let ghost prev = out@;
        let ghost sub = fl.subrange(0, i + 1);
        assert(sub.drop_last() =~= fl.subrange(0, i as int));
        if rustc_flags[i - 1] == marker {
            out.push(rustc_flags[i].clone());
            assert(out@.map_values(|s: String| s@) =~= prev.map_values(|s: String| s@).push(fl[i as int]));
        }
        i = i + 1;
    }
    assert(fl.subrange(0, i as int) =~= fl);
    out
}

/// The identity of a dependency and of a crate compared by their views.
pub open spec fn same_crate(a: CrateId, b: CrateId) -> bool {
    a.name@ == b.name@ && a.version@ == b.version@
}

/// A dependency as character sequences: name, version, target and alias.
pub open spec fn dep_view(d: CrateDependency) -> (Seq<char>, Seq<char>, Seq<char>, Option<Seq<char>>) {
    (d.id.name@, d.id.version@, d.target@, opt_view(d.alias))
}

/// A `(key, dependency)` pair as character sequences.
pub open spec fn pair_view(e: (Option<Seq<char>>, CrateDependency)) -> (
    Option<Seq<char>>,
    (Seq<char>, Seq<char>, Seq<char>, Option<Seq<char>>),
) {
    (e.0, dep_view(e.1))
}

/// The views of a sequence of pairs.
pub open spec fn pair_views(s: Seq<(Option<Seq<char>>, CrateDependency)>) -> Seq<
    (Option<Seq<char>>, (Seq<char>, Seq<char>, Seq<char>, Option<Seq<char>>)),
> {
    s.map_values(|e: (Option<Seq<char>>, CrateDependency)| pair_view(e))
}

/// `acc` with `e` appended unless an equal pair is already there.
pub open spec fn add_pair(
    acc: Seq<(Option<Seq<char>>, CrateDependency)>,
    e: (Option<Seq<char>>, CrateDependency),
) -> Seq<(Option<Seq<char>>, CrateDependency)> {
    if pair_views(acc).contains(pair_view(e)) {
        acc
    } else {
        acc.push(e)
    }
}

/// `acc` after one `(key, dependency)` pair is placed: an unconditional copy
/// first when its key is a cfg expression that `satisfied` says holds and the
/// dependency is not the crate itself, then the pair itself; neither is added
/// twice.
pub open spec fn placed(
    acc: Seq<(Option<Seq<char>>, CrateDependency)>,
    key: Option<Seq<char>>,
    dep: CrateDependency,
    crate_id: CrateId,
    satisfied: bool,
) -> Seq<(Option<Seq<char>>, CrateDependency)> {
    let a = if key is Some && satisfied && !same_crate(crate_id, dep.id) {
        add_pair(acc, (None, dep))
    } else {
        acc
    };
    add_pair(a, (key, dep))
}

/// Whether the pair's key is a cfg expression (within the parser's nesting
/// limit) that holds for `flags`.
pub open spec fn lifts(key: Option<Seq<char>>, flags: Set<Seq<char>>) -> bool {
    match key {
        Some(k) => nesting_fits(k) && cfg_parses(k) && cfg_holds(k, flags),
        None => false,
    }
}

/// The dependency pairs after resolution against `flags`.
pub open spec fn resolved(
    entries: Seq<(Option<Seq<char>>, CrateDependency)>,
    flags: Set<Seq<char>>,
    crate_id: CrateId,
) -> Seq<(Option<Seq<char>>, CrateDependency)>
    decreases entries.len(),
{
    if entries.len() == 0 {
        seq![]
    } else {
        let e = entries.last();
        placed(resolved(entries.drop_last(), flags, crate_id), e.0, e.1, crate_id, lifts(e.0, flags))
    }
}

/// Each pair view occurs at most once.
pub open spec fn no_repeats<A>(s: Seq<A>) -> bool {
    forall|i: int, j: int| 0 <= i < j < s.len() ==> s[i] != s[j]
}

proof fn lemma_add_pair(
    acc: Seq<(Option<Seq<char>>, CrateDependency)>,
    e: (Option<Seq<char>>, CrateDependency),
)
    ensures
        forall|x| #[trigger] pair_views(add_pair(acc, e)).contains(x) <==> pair_views(acc).contains(x)
            || x == pair_view(e),
        no_repeats(pair_views(acc)) ==> no_repeats(pair_views(add_pair(acc, e))),
{
    let a = add_pair(acc, e);
    if !pair_views(acc).contains(pair_view(e)) {
        assert(pair_views(a) =~= pair_views(acc).push(pair_view(e)));
        assert(pair_views(a)[acc.len() as int] == pair_view(e));
        assert forall|x| #[trigger] pair_views(a).contains(x) implies pair_views(acc).contains(x) || x
            == pair_view(e) by {
            let m = choose|m: int| 0 <= m < pair_views(a).len() && pair_views(a)[m] == x;
            if m < acc.len() {
                assert(pair_views(acc)[m] == x);
            }
        }
        assert forall|x| pair_views(acc).contains(x) implies #[trigger] pair_views(a).contains(x) by {
            let m = choose|m: int| 0 <= m < pair_views(acc).len() && pair_views(acc)[m] == x;
            assert(pair_views(a)[m] == x);
        }
    }
}

fn same_key(a: &Option<String>, b: &Option<String>) -> (r: bool)
    ensures
        r == (opt_view(*a) == opt_view(*b)),
{
    match (a, b) {
        (Some(x), Some(y)) => *x == *y,
        (None, None) => true,
        _ => false,
    }
}

fn same_dependency(a: &CrateDependency, b: &CrateDependency) -> (r: bool)
    ensures
        r == (dep_view(*a) == dep_view(*b)),
{
    a.id.same(&b.id) && a.target == b.target && same_key(&a.alias, &b.alias)
}

/// Whether `sel` holds a pair equal to `(key, dep)`.
fn holds_pair(sel: &Select<CrateDependency>, key: &Option<String>, dep: &CrateDependency) -> (r: bool)
    ensures
        r == pair_views(sel.entries()).contains((opt_view(*key), dep_view(*dep))),
{
    let items = sel.items();
    let ghost pv = pair_views(sel.entries());
    let ghost target = (opt_view(*key), dep_view(*dep));
    let mut i: usize = 0;
    while i < items.len()
        invariant
            i <= items@.len(),
            items@.map_values(|e: (Option<String>, CrateDependency)| (opt_view(e.0), e.1)) == sel.entries(),
            pv == pair_views(sel.entries()),
            target == (opt_view(*key), dep_view(*dep)),
            forall|j: int| 0 <= j < i ==> pv[j] != target,
        decreases items@.len() - i,
    {
        assert(pv[i as int] == (opt_view(items@[i as int].0), dep_view(items@[i as int].1)));
        let sk = same_key(&items[i].0, key);
        let sd = same_dependency(&items[i].1, dep);
        if sk && sd {
            assert(pv[i as int] == target);
            return true;
        }
        assert(pv[i as int] != target);
        i = i + 1;
    }
    assert(!pv.contains(target));
    false
}

fn add_dependency(into: &mut Select<CrateDependency>, key: Option<String>, dep: CrateDependency)
    ensures
        final(into).entries() == add_pair(old(into).entries(), (opt_view(key), dep)),
{
    if !holds_pair(into, &key, &dep) {
        into.insert(dep, key);
    }
}

/// Places one dependency pair into `into`: first an unconditional copy when
/// `key` is present, `satisfied` holds and `dep` is not `crate_id`, then the
/// pair under its own key; a pair already held is not added again.
pub fn place_dependency(
    into: &mut Select<CrateDependency>,
    key: &Option<String>,
    dep: &CrateDependency,
    crate_id: &CrateId,
    satisfied: bool,
)
    ensures
        final(into).entries() == placed(old(into).entries(), opt_view(*key), *dep, *crate_id, satisfied),
{
    if key.is_some() && satisfied && !crate_id.same(&dep.id) {
        add_dependency(into, None, dep.duplicate());
    }
    let key_copy = match key {
        Some(s) => Some(s.clone()),
        None => None,
    };
    add_dependency(into, key_copy, dep.duplicate());
}

/// Lifts every dependency whose cfg predicate holds for the crate's own
/// `--cfg` flags into the unconditional set, keeping every pair it had.
/// Predicates that are not cfg expressions (a bare target triple) are left
/// as they are.
pub fn resolve_cfg_deps(crate_context: &mut CrateContext)
    ensures
        final(crate_context).name == old(crate_context).name,
        final(crate_context).version == old(crate_context).version,
        final(crate_context).common_attrs.rustc_flags == old(crate_context).common_attrs.rustc_flags,
        final(crate_context).common_attrs.deps.entries() == resolved(
            old(crate_context).common_attrs.deps.entries(),
            cfg_flag_names(old(crate_context).common_attrs.rustc_flags.value_views()).to_set(),
            CrateId { name: old(crate_context).name, version: old(crate_context).version },
        ),
{
    let rustc_flags = get_cfg_flag_values(crate_context.common_attrs.rustc_flags.values());
    let crate_id = CrateId::new(crate_context.name.clone(), crate_context.version.clone());
    let ghost flags = flag_set(rustc_flags@);
    assert(flags == cfg_flag_names(crate_context.common_attrs.rustc_flags.value_views()).to_set()) by {
        assert(rustc_flags@.map_values(|s: String| s@).to_set() =~= cfg_flag_names(
            crate_context.common_attrs.rustc_flags.value_views(),
        ).to_set());
    }
    let mut new_deps: Select<CrateDependency> = Select::new();
    let items = crate_context.common_attrs.deps.items();
    let ghost ents = crate_context.common_attrs.deps.entries();
    let mut i: usize = 0;
    while i < items.len()
        invariant
            i <= items@.len(),
            items@.map_values(
                |e: (Option<String>, CrateDependency)| (crate::select::opt_view(e.0), e.1),
            ) == ents,
            new_deps.entries() == resolved(ents.subrange(0, i as int), flags, crate_id),
            flags == flag_set(rustc_flags@),
        decreases items@.len() - i,
    {
        let (key, dep) = &items[i];
        assert(ents[i as int] == (crate::select::opt_view(*key), *dep));
        let satisfied = match key {
            Some(k) => match CfgPredicate::parse(k.as_str()) {
                Some(p) => p.holds_for_flags(&rustc_flags),
                None => false,
            },
            None => false,
        };
        assert(satisfied == lifts(crate::select::opt_view(*key), flags));
        place_dependency(&mut new_deps, key, dep, &crate_id, satisfied);
        assert(ents.subrange(0, i + 1).drop_last() =~= ents.subrange(0, i as int));
        i = i + 1;
    }
    assert(ents.subrange(0, i as int) =~= ents);
    crate_context.common_attrs.deps = new_deps;
}

proof fn lemma_views_drop_last(s: Seq<(Option<Seq<char>>, CrateDependency)>)
    requires
        s.len() > 0,
    ensures
        forall|x| #[trigger] pair_views(s).contains(x) <==> pair_views(s.drop_last()).contains(x) || x
            == pair_view(s.last()),
{
    let init = s.drop_last();
    assert(pair_views(s) =~= pair_views(init).push(pair_view(s.last())));
    assert forall|x| #[trigger] pair_views(s).contains(x) implies pair_views(init).contains(x) || x
        == pair_view(s.last()) by {
        let m = choose|m: int| 0 <= m < pair_views(s).len() && pair_views(s)[m] == x;
        if m < init.len() {
            assert(pair_views(init)[m] == x);
        }
    }
    assert forall|x| pair_views(init).contains(x) implies #[trigger] pair_views(s).contains(x) by {
        let m = choose|m: int| 0 <= m < pair_views(init).len() && pair_views(init)[m] == x;
        assert(pair_views(s)[m] == x);
    }
    assert(pair_views(s)[s.len() - 1] == pair_view(s.last()));
}

proof fn lemma_placed(
    acc: Seq<(Option<Seq<char>>, CrateDependency)>,
    key: Option<Seq<char>>,
    dep: CrateDependency,
    crate_id: CrateId,
    satisfied: bool,
)
    ensures
        forall|x| #[trigger] pair_views(placed(acc, key, dep, crate_id, satisfied)).contains(x) <==> (
        pair_views(acc).contains(x) || x == pair_view((key, dep)) || (key is Some && satisfied
            && !same_crate(crate_id, dep.id) && x == pair_view((None, dep)))),
        no_repeats(pair_views(acc)) ==> no_repeats(pair_views(placed(acc, key, dep, crate_id, satisfied))),
{
    let lift = key is Some && satisfied && !same_crate(crate_id, dep.id);
    let a = if lift {
        add_pair(acc, (None, dep))
    } else {
        acc
    };
    if lift {
        lemma_add_pair(acc, (None, dep));
    }
    lemma_add_pair(a, (key, dep));
}

/// Resolution only adds, and adds each pair once: every `(key, dependency)`
/// pair present before a pass is present after it, every pair it adds is
/// unconditional, and no pair occurs twice in the result.
pub proof fn lemma_resolution_keeps_pairs(
    entries: Seq<(Option<Seq<char>>, CrateDependency)>,
    flags: Set<Seq<char>>,
    crate_id: CrateId,
)
    ensures
        forall|x|
            pair_views(entries).contains(x) ==> #[trigger] pair_views(resolved(entries, flags, crate_id)).contains(x),
        forall|x|
            #[trigger] pair_views(resolved(entries, flags, crate_id)).contains(x) && !pair_views(entries).contains(x)
                ==> x.0 is None,
        no_repeats(pair_views(resolved(entries, flags, crate_id))),
    decreases entries.len(),
{
    if entries.len() == 0 {
        assert(pair_views(resolved(entries, flags, crate_id)) =~= Seq::empty());
    } else {
        let init = entries.drop_last();
        let last = entries.last();
        lemma_resolution_keeps_pairs(init, flags, crate_id);
        lemma_views_drop_last(entries);
        lemma_placed(resolved(init, flags, crate_id), last.0, last.1, crate_id, lifts(last.0, flags));
    }
}

/// A dependency gated by a cfg expression that the crate's own flags satisfy
/// is unconditional after resolution, unless it is the crate itself.
pub proof fn lemma_resolution_promotes(
    entries: Seq<(Option<Seq<char>>, CrateDependency)>,
    flags: Set<Seq<char>>,
    crate_id: CrateId,
    key: Seq<char>,
    dep: CrateDependency,
)
    requires
        entries.contains((Some(key), dep)),
        nesting_fits(key),
        cfg_parses(key),
        cfg_holds(key, flags),
        !same_crate(crate_id, dep.id),
    ensures
        pair_views(resolved(entries, flags, crate_id)).contains((None, dep_view(dep))),
    decreases entries.len(),
{
    let init = entries.drop_last();
    let last = entries.last();
    lemma_placed(resolved(init, flags, crate_id), last.0, last.1, crate_id, lifts(last.0, flags));
    if last == (Some(key), dep) {
        assert(pair_view((None::<Seq<char>>, dep)) == (None::<Seq<char>>, dep_view(dep)));
    } else {
        let j = choose|j: int| 0 <= j < entries.len() && entries[j] == (Some(key), dep);
        assert(j != entries.len() - 1);
        assert(init[j] == (Some(key), dep));
        lemma_resolution_promotes(init, flags, crate_id, key, dep);
    }
}

/// A dependency that is only ever gated by predicates that do not lift
/// (for example strings that are not cfg expressions) gains no
/// unconditional entry.
pub proof fn lemma_resolution_keeps_unlifted(
    entries: Seq<(Option<Seq<char>>, CrateDependency)>,
    flags: Set<Seq<char>>,
    crate_id: CrateId,
    dep: CrateDependency,
)
    requires
        forall|j: int|
            0 <= j < entries.len() && dep_view((#[trigger] entries[j]).1) == dep_view(dep) ==> entries[j].0 is Some
                && !lifts(entries[j].0, flags),
    ensures
        !pair_views(resolved(entries, flags, crate_id)).contains((None, dep_view(dep))),
    decreases entries.len(),
{
    if entries.len() == 0 {
        assert(pair_views(resolved(entries, flags, crate_id)) =~= Seq::empty());
    } else {
        let init = entries.drop_last();
        let last = entries.last();
        assert forall|j: int| 0 <= j < init.len() && dep_view((#[trigger] init[j]).1) == dep_view(dep) implies init[j].0 is Some
            && !lifts(init[j].0, flags) by {
            assert(init[j] == entries[j]);
        }
        lemma_resolution_keeps_unlifted(init, flags, crate_id, dep);
        assert(entries[entries.len() - 1] == last);
        lemma_placed(resolved(init, flags, crate_id), last.0, last.1, crate_id, lifts(last.0, flags));
    }
}

} // verus!
