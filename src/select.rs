//! A configuration-indexed multi-value container and the crate records that
//! the dependency resolver works on.
use vstd::prelude::*;

verus! {

/// The view of an optional string.
pub open spec fn opt_view(k: Option<String>) -> Option<Seq<char>> {
    match k {
        Some(s) => Some(s@),
        None => None,
    }
}

/// Values of `T`, each either unconditional (no predicate) or paired with the
/// predicate string under which it applies. Insertion appends; nothing is
/// ever removed, and iteration yields each inserted pair once, in insertion
/// order.
pub struct Select<T> {
    items: Vec<(Option<String>, T)>,
}

impl<T> Select<T> {
    /// The pairs held, in insertion order.
    pub closed spec fn entries(&self) -> Seq<(Option<Seq<char>>, T)> {
        self.items@.map_values(|e: (Option<String>, T)| (opt_view(e.0), e.1))
    }

    pub fn new() -> (r: Self)
        ensures
            r.entries() == Seq::<(Option<Seq<char>>, T)>::empty(),
    {
        let r = Select { items: Vec::new() };
        assert(r.entries() =~= Seq::<(Option<Seq<char>>, T)>::empty());
        r
    }

    /// Adds `value` under `key` (`None`: unconditionally).
    pub fn insert(&mut self, value: T, key: Option<String>)
        ensures
            final(self).entries() == old(self).entries().push((opt_view(key), value)),
    {
        let ghost k = opt_view(key);
        self.items.push((key, value));
        assert(self.entries() =~= old(self).entries().push((k, value)));
    }

    /// The pairs held, in insertion order.
    pub fn items(&self) -> (r: &Vec<(Option<String>, T)>)
        ensures
            r@.map_values(|e: (Option<String>, T)| (opt_view(e.0), e.1)) == self.entries(),
    {
        &self.items
    }
}

impl Select<String> {
    /// The views of every value held, conditional or not, in insertion order.
    pub open spec fn value_views(&self) -> Seq<Seq<char>> {
        self.entries().map_values(|e: (Option<Seq<char>>, String)| e.1@)
    }

    /// Every value held, conditional or not, in insertion order.
    pub fn values(&self) -> (r: Vec<String>)
        ensures
            r@.map_values(|s: String| s@) == self.value_views(),
    {
        let mut out: Vec<String> = Vec::new();
        let mut i: usize = 0;
        while i < self.items.len()
            invariant
                i <= self.items@.len(),
                out@.len() == i,
                out@.map_values(|s: String| s@) == self.value_views().subrange(0, i as int),
            decreases self.items@.len() - i,
        {
            let ghost prev = out@;
            out.push(self.items[i].1.clone());
            assert(self.entries()[i as int].1 == self.items@[i as int].1);
            assert(out@.map_values(|s: String| s@)[i as int] == self.value_views()[i as int]);
            assert(out@.map_values(|s: String| s@).subrange(0, i as int) =~= prev.map_values(|s: String| s@));
            i = i + 1;
            assert(out@.map_values(|s: String| s@) =~= self.value_views().subrange(0, i as int));
        }
        assert(self.value_views().subrange(0, i as int) =~= self.value_views());
        out
    }
}

/// A crate's identity: its name and version.
#[derive(Clone, Debug, PartialEq, Eq)]
pub struct CrateId {
    pub name: String,
    pub version: String,
}

impl CrateId {
    pub fn new(name: String, version: String) -> (r: Self)
        ensures
            r.name == name,
            r.version == version,
    {
        CrateId { name, version }
    }

    /// Whether two identities name the same crate version.
    pub fn same(&self, other: &CrateId) -> (r: bool)
        ensures
            r == (self.name@ == other.name@ && self.version@ == other.version@),
    {
        self.name == other.name && self.version == other.version
    }

    pub fn duplicate(&self) -> (r: Self)
        ensures
            r == *self,
    {
        CrateId { name: self.name.clone(), version: self.version.clone() }
    }
}

/// One dependency of a crate: the crate depended on, the target to link and
/// an optional alias.
#[derive(Clone, Debug, PartialEq, Eq)]
pub struct CrateDependency {
    pub id: CrateId,
    pub target: String,
    pub alias: Option<String>,
}

impl CrateDependency {
    pub fn duplicate(&self) -> (r: Self)
        ensures
            r == *self,
    {
        let alias = match &self.alias {
            Some(a) => Some(a.clone()),
            None => None,
        };
        CrateDependency { id: self.id.duplicate(), target: self.target.clone(), alias }
    }
}

/// The attributes shared by every target of a crate that the resolver reads
/// and rewrites.
pub struct CommonAttributes {
    /// Raw compiler flags the crate requests.
    pub rustc_flags: Select<String>,
    /// The crate's dependencies.
    pub deps: Select<CrateDependency>,
}

/// One resolved crate.
pub struct CrateContext {
    pub name: String,
    pub version: String,
    pub common_attrs: CommonAttributes,
}

} // verus!
