//! The map from names to the blocks bound there.

use vstd::prelude::*;

use crate::order;
use crate::table::Table;
use crate::text;

verus! {

/// A copy-on-write map from names to block digests, over the `imbl` crate's
/// ordered map with `smol_str` keys. Cloning shares the whole tree.
#[verifier::external_body]
#[derive(Debug, PartialEq, Eq)]
pub struct Namespace {
    map: imbl::OrdMap<smol_str::SmolStr, crate::hash::Hash>,
}

/// What each name is bound to.
pub uninterp spec fn bindings(ns: Namespace) -> Map<Seq<char>, crate::hash::Hash>;

/// `imbl::OrdMap::new`: the map without entries.
#[verifier::external_body]
fn ordmap_new() -> (ns: Namespace)
    ensures
        bindings(ns).dom() == Set::<Seq<char>>::empty(),
{
    Namespace { map: imbl::OrdMap::new() }
}

/// `imbl::OrdMap::get`: the value of a key, where the map has it.
#[verifier::external_body]
fn ordmap_get(ns: &Namespace, name: &str) -> (r: Option<crate::hash::Hash>)
    ensures
        match r {
            Some(h) => bindings(*ns).dom().contains(name@) && bindings(*ns)[name@] == h,
            None => !bindings(*ns).dom().contains(name@),
        },
{
    ns.map.get(name).copied()
}

/// `imbl::OrdMap::insert`: sets the value of a key.
#[verifier::external_body]
fn ordmap_insert(ns: &mut Namespace, name: &str, hash: crate::hash::Hash)
    ensures
        bindings(*final(ns)) == bindings(*old(ns)).insert(name@, hash),
{
    ns.map.insert(smol_str::SmolStr::new(name), hash);
}

/// `imbl::OrdMap::remove`: takes a key out and gives back its value, where the
/// map has it.
#[verifier::external_body]
fn ordmap_remove(ns: &mut Namespace, name: &str) -> (r: Option<crate::hash::Hash>)
    ensures
        bindings(*final(ns)) == bindings(*old(ns)).remove(name@),
        match r {
            Some(h) => bindings(*old(ns)).dom().contains(name@) && bindings(*old(ns))[name@] == h,
            None => !bindings(*old(ns)).dom().contains(name@),
        },
{
    ns.map.remove(name)
}

/// `imbl::OrdMap::iter`: every entry once, in increasing key order. A
/// `SmolStr` is ordered as its text is, which is by UTF-8 bytes.
#[verifier::external_body]
fn ordmap_entries(ns: &Namespace) -> (v: Vec<(String, crate::hash::Hash)>)
    ensures
        lists_bindings(v@, bindings(*ns)),
{
    ns.map.iter().map(|(name, hash)| (name.to_string(), *hash)).collect()
}

/// The `Clone` of `imbl::OrdMap`: a map with the same entries.
#[verifier::external_body]
fn ordmap_clone(ns: &Namespace) -> (r: Namespace)
    ensures
        bindings(r) == bindings(*ns),
{
    Namespace { map: ns.map.clone() }
}

/// `entries` lists the bindings of `m`, each once, in increasing byte order of
/// the names.
pub open spec fn lists_bindings(
    entries: Seq<(String, crate::hash::Hash)>,
    m: Map<Seq<char>, crate::hash::Hash>,
) -> bool {
    &&& forall|i: int, j: int|
        #![trigger entries[i], entries[j]]
        0 <= i < j < entries.len() ==> order::lex_lt(
            text::utf8(entries[i].0@),
            text::utf8(entries[j].0@),
        )
    &&& forall|i: int|
        0 <= i < entries.len() ==> m.dom().contains((#[trigger] entries[i]).0@) && m[entries[i].0@]
            == entries[i].1
    &&& forall|n: Seq<char>| #[trigger]
        m.dom().contains(n) ==> exists|i: int|
            0 <= i < entries.len() && (#[trigger] entries[i]).0@ == n
}

impl Namespace {
    /// What each name is bound to.
    pub open spec fn view(&self) -> Map<Seq<char>, crate::hash::Hash> {
        bindings(*self)
    }

    /// The namespace without bindings.
    pub fn new() -> (ns: Self)
        ensures
            ns.view() == Map::<Seq<char>, crate::hash::Hash>::empty(),
    {
        let ns = ordmap_new();
        assert(ns.view() =~= Map::<Seq<char>, crate::hash::Hash>::empty());
        ns
    }

    /// What `name` is bound to.
    pub fn get(&self, name: &str) -> (r: Option<crate::hash::Hash>)
        ensures
            match r {
                Some(h) => self.view().dom().contains(name@) && self.view()[name@] == h,
                None => !self.view().dom().contains(name@),
            },
    {
        ordmap_get(self, name)
    }

    /// Binds `name` to `hash`.
    pub fn insert(&mut self, name: &str, hash: crate::hash::Hash)
        ensures
            final(self).view() == old(self).view().insert(name@, hash),
    {
        ordmap_insert(self, name, hash)
    }

    /// Unbinds `name` and returns what it was bound to.
    pub fn remove(&mut self, name: &str) -> (r: Option<crate::hash::Hash>)
        ensures
            final(self).view() == old(self).view().remove(name@),
            match r {
                Some(h) => old(self).view().dom().contains(name@) && old(self).view()[name@] == h,
                None => !old(self).view().dom().contains(name@),
            },
    {
        ordmap_remove(self, name)
    }

    /// The bindings in name order.
    pub fn entries(&self) -> (v: Vec<(String, crate::hash::Hash)>)
        ensures
            lists_bindings(v@, self.view()),
    {
        ordmap_entries(self)
    }

    /// The number of bindings.
    pub fn len(&self) -> (n: usize)
        ensures
            self.view().dom().finite(),
            n == self.view().dom().len(),
    {
        let v = self.entries();
        proof {
            let names = v@.map_values(|e: (String, crate::hash::Hash)| e.0@);
            assert forall|i: int, j: int| 0 <= i < names.len() && 0 <= j < names.len() && i != j
                implies names[i] != names[j] by {
                let (a, b) = if i < j {
                    (i, j)
                } else {
                    (j, i)
                };
                assert(order::lex_lt(text::utf8(v@[a].0@), text::utf8(v@[b].0@)));
                order::lex_lt_irreflexive(text::utf8(v@[a].0@));
            }
            assert(names.no_duplicates());
            names.unique_seq_to_set();
            assert(names.to_set() =~= self.view().dom()) by {
                assert forall|n: Seq<char>| names.contains(n) == self.view().dom().contains(n) by {
                    if names.contains(n) {
                        let i = choose|i: int| 0 <= i < names.len() && names[i] == n;
                        assert(self.view().dom().contains(v@[i].0@));
                    }
                    if self.view().dom().contains(n) {
                        let i = choose|i: int| 0 <= i < v@.len() && (#[trigger] v@[i]).0@ == n;
                        assert(names[i] == n);
                    }
                }
            }
        }
        v.len()
    }

    /// Whether nothing is bound.
    pub fn is_empty(&self) -> (b: bool)
        ensures
            b == (self.view() == Map::<Seq<char>, crate::hash::Hash>::empty()),
    {
        let v = self.entries();
        proof {
            let m = self.view();
            if v@.len() == 0 {
                assert(m.dom() =~= Set::<Seq<char>>::empty());
                assert(m =~= Map::<Seq<char>, crate::hash::Hash>::empty());
            } else {
                assert(m.dom().contains(v@[0].0@));
            }
        }
        v.len() == 0
    }
}

impl Default for Namespace {
    fn default() -> (ns: Self)
        ensures
            ns.view() == Map::<Seq<char>, crate::hash::Hash>::empty(),
    {
        Namespace::new()
    }
}

impl Clone for Namespace {
    fn clone(&self) -> (ns: Self)
        ensures
            ns.view() == self.view(),
    {
        ordmap_clone(self)
    }
}

/// The digests that a namespace binds.
pub open spec fn bound_hashes(m: Map<Seq<char>, crate::hash::Hash>) -> Set<crate::hash::Hash> {
    Set::new(|h: crate::hash::Hash| exists|n: Seq<char>| #[trigger] m.dom().contains(n) && m[n] == h)
}

/// The digests that `namespace` binds, each once, in increasing byte order.
pub fn namespace_roots(namespace: &Namespace) -> (roots: Vec<crate::hash::Hash>)
    ensures
        roots@.to_set() == bound_hashes(namespace.view()),
        crate::table::strictly_sorted(roots@),
{
    let entries = namespace.entries();
    let mut seen: Table<crate::hash::Hash> = Table::new();
    let mut i: usize = 0;
    while i < entries.len()
        invariant
            i <= entries@.len(),
            seen.wf(),
            forall|h: crate::hash::Hash|
                seen.view().contains(h) <==> exists|j: int|
                    0 <= j < i && (#[trigger] entries@[j]).1 == h,
        decreases entries@.len() - i,
    {
        let ghost before = seen;
        seen.put(entries[i].1);
        proof {
            let x = entries@[i as int].1;
            crate::hash::lemma_table_members(before, seen, x);
            assert forall|h: crate::hash::Hash|
                seen.view().contains(h) <==> exists|j: int|
                    0 <= j < i + 1 && (#[trigger] entries@[j]).1 == h by {
                if exists|j: int| 0 <= j < i + 1 && (#[trigger] entries@[j]).1 == h {
                    let j = choose|j: int| 0 <= j < i + 1 && (#[trigger] entries@[j]).1 == h;
                    if j == i {
                        assert(h == x);
                    } else {
                        assert(before.view().contains(h));
                    }
                }
                if seen.view().contains(h) {
                    if before.view().contains(h) {
                        let j = choose|j: int| 0 <= j < i && (#[trigger] entries@[j]).1 == h;
                        assert(entries@[j].1 == h);
                    } else {
                        assert(entries@[i as int].1 == h);
                    }
                }
            }
        }
        i += 1;
    }
    let roots = seen.into_rows();
    proof {
        let m = namespace.view();
        assert forall|h: crate::hash::Hash| roots@.to_set().contains(h) == bound_hashes(m).contains(h) by {
            if roots@.contains(h) {
                let j = choose|j: int| 0 <= j < entries@.len() && (#[trigger] entries@[j]).1 == h;
                assert(m.dom().contains(entries@[j].0@) && m[entries@[j].0@] == h);
            }
            if bound_hashes(m).contains(h) {
                let n = choose|n: Seq<char>| #[trigger] m.dom().contains(n) && m[n] == h;
                let j = choose|j: int| 0 <= j < entries@.len() && (#[trigger] entries@[j]).0@ == n;
                assert(entries@[j].1 == h);
            }
        }
        assert(roots@.to_set() =~= bound_hashes(m));
    }
    roots
}

} // verus!
