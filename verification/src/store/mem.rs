//! The in-memory backend.

use vstd::prelude::*;

use crate::block::Block;
use crate::effect::VersionRef;
use crate::hash;
use crate::interop::octets;
use crate::namespace;
use crate::namespace::{namespace_roots, Namespace};
use crate::ref_type;
use crate::ref_type::Ref;
use crate::store::error::StoreError;
use crate::store::reachability;
use crate::store::reachability::ReachabilityWalker;
use crate::store::rules::{admit_lookup, plan_gc, prepare_ref, GcStats};
use crate::store::store_trait;
use crate::store::store_trait::Store;
use crate::table;
use crate::table::{Keyed, Table};
use crate::text;

verus! {

/// Blocks and pointers in memory.
#[derive(Debug)]
pub struct MemStore {
    blocks: Table<Block>,
    refs: Table<Ref>,
}

/// The payloads of a table of blocks.
pub open spec fn payloads(t: Map<Seq<u8>, Block>) -> store_trait::Blocks {
    Map::new(
        |h: crate::hash::Hash| t.dom().contains(h.view()),
        |h: crate::hash::Hash| t[h.view()].payload(),
    )
}

/// The pointers of a table of pointers.
pub open spec fn pointers(t: Map<Seq<u8>, Ref>) -> store_trait::Refs {
    Map::new(
        |n: Seq<char>| t.dom().contains(text::utf8(n)),
        |n: Seq<char>| t[text::utf8(n)].view(),
    )
}

impl MemStore {
    /// An empty store.
    #[must_use]
    pub fn new() -> (s: Self)
        ensures
            s.wf(),
            s.blocks() == Map::<crate::hash::Hash, Seq<u8>>::empty(),
            s.refs() == Map::<Seq<char>, ref_type::Pointer>::empty(),
    {
        let s = MemStore { blocks: Table::new(), refs: Table::new() };
        assert(s.blocks() =~= Map::<crate::hash::Hash, Seq<u8>>::empty());
        assert(s.refs() =~= Map::<Seq<char>, ref_type::Pointer>::empty());
        s
    }

    /// The number of stored blocks.
    pub fn block_count(&self) -> (n: usize)
        requires
            self.wf(),
        ensures
            self.blocks().dom().finite(),
            n == self.blocks().dom().len(),
    {
        proof {
            let rows = self.blocks.view();
            let keys = rows.map_values(|b: Block| b.hash);
            assert forall|i: int, j: int| 0 <= i < keys.len() && 0 <= j < keys.len() && i != j
                implies keys[i] != keys[j] by {
                table::lemma_row_of(rows, i);
                if keys[i] == keys[j] {
                    assert(rows[j].key() == rows[i].key());
                }
            }
            assert(keys.no_duplicates());
            keys.unique_seq_to_set();
            assert(keys.to_set() =~= self.blocks().dom()) by {
                assert forall|h: crate::hash::Hash| #[trigger]
                    keys.to_set().contains(h) == self.blocks().dom().contains(h) by {
                    if keys.contains(h) {
                        let i = choose|i: int| 0 <= i < keys.len() && keys[i] == h;
                        table::lemma_row_of(rows, i);
                    }
                    if self.blocks().dom().contains(h) {
                        let i = choose|i: int|
                            0 <= i < rows.len() && (#[trigger] rows[i]).key() == h.view();
                        hash::lemma_hash_ext(rows[i].hash, h);
                        assert(keys[i] == h);
                    }
                }
            }
        }
        self.blocks.len()
    }

    /// The number of stored pointers.
    pub fn ref_count(&self) -> (n: usize)
        requires
            self.wf(),
        ensures
            self.refs().dom().finite(),
            n == self.refs().dom().len(),
    {
        proof {
            let rows = self.refs.view();
            let names = rows.map_values(|r: Ref| r.name@);
            assert forall|i: int, j: int| 0 <= i < names.len() && 0 <= j < names.len() && i != j
                implies names[i] != names[j] by {
                table::lemma_row_of(rows, i);
                if names[i] == names[j] {
                    assert(rows[j].key() == rows[i].key());
                }
            }
            assert(names.no_duplicates());
            names.unique_seq_to_set();
            assert(names.to_set() =~= self.refs().dom()) by {
                assert forall|n: Seq<char>| #[trigger]
                    names.to_set().contains(n) == self.refs().dom().contains(n) by {
                    if names.contains(n) {
                        let i = choose|i: int| 0 <= i < names.len() && names[i] == n;
                        table::lemma_row_of(rows, i);
                    }
                    if self.refs().dom().contains(n) {
                        let i = choose|i: int|
                            0 <= i < rows.len() && (#[trigger] rows[i]).key() == text::utf8(n);
                        text::lemma_utf8_injective(rows[i].name@, n);
                        assert(names[i] == n);
                    }
                }
            }
        }
        self.refs.len()
    }

    /// Whether a block is stored.
    pub(crate) fn holds(&self, hash: &crate::hash::Hash) -> (b: bool)
        requires
            self.wf(),
        ensures
            b == self.blocks().dom().contains(*hash),
    {
        self.blocks.contains(hash.key_bytes())
    }

    /// A copy of the payload of a block, where it is stored.
    pub fn raw_get_payload(&self, hash: &crate::hash::Hash) -> (r: Result<
        Option<Vec<u8>>,
        StoreError,
    >)
        requires
            self.wf(),
        ensures
            match r {
                Ok(Some(p)) => self.blocks().dom().contains(*hash) && p@ == self.blocks()[*hash],
                Ok(None) => !self.blocks().dom().contains(*hash),
                Err(_) => false,
            },
    {
        match self.blocks.get(hash.key_bytes()) {
            Some(b) => Ok(Some(vstd::slice::slice_to_vec(octets::as_slice(&b.data)))),
            None => Ok(None),
        }
    }

    /// The digests that can be reached from `root`, in increasing byte order.
    pub fn closure(&self, root: &Namespace) -> (r: Result<Vec<crate::hash::Hash>, StoreError>)
        requires
            self.wf(),
        ensures
            match r {
                Ok(v) => table::strictly_sorted(v@) && v@.to_set() == store_trait::reachable(
                    self.blocks(),
                    root.view(),
                ),
                Err(_) => false,
            },
    {
        let roots = namespace_roots(root);
        let walker = ReachabilityWalker::default();
        let get_block = |h: &crate::hash::Hash| -> (r: Result<Option<Vec<u8>>, StoreError>)
            ensures
                match r {
                    Ok(Some(p)) => self.blocks().dom().contains(*h) && p@ == self.blocks()[*h],
                    Ok(None) => !self.blocks().dom().contains(*h),
                    Err(_) => false,
                },
            { self.raw_get_payload(h) };
        let r = walker.walk(roots.as_slice(), get_block);
        proof {
            let edges = store_trait::stored_edges(self.blocks());
            if r is Ok {
                let v = r->Ok_0;
                let answers = choose|answers: Map<crate::hash::Hash, Option<Vec<u8>>>|
                    {
                        &&& #[trigger] reachability::are_answers(get_block, answers)
                        &&& answers.dom() == v@.to_set()
                        &&& v@.to_set() == reachability::reach(
                            roots@.to_set(),
                            reachability::edges_of(answers),
                            walker.limit(),
                        )
                    };
                let n = walker.limit();
                let e = reachability::edges_of(answers);
                reachability::lemma_reach_monotone(roots@.to_set(), e, (n - 1) as nat, n);
                assert forall|h: crate::hash::Hash| #[trigger]
                    reachability::reach(roots@.to_set(), e, (n - 1) as nat).contains(h) implies e(
                    h,
                ) == edges(h) by {
                    assert(answers.dom().contains(h));
                    assert(call_ensures(get_block, (&h,), Ok(answers[h])));
                }
                reachability::lemma_reach_congruent(roots@.to_set(), e, edges, n);
            }
        }
        r
    }

    /// Deletes every block that cannot be reached from `root`.
    pub fn gc(&mut self, root: &Namespace) -> (r: Result<GcStats, StoreError>)
        requires
            old(self).wf(),
        ensures
            final(self).wf(),
            final(self).refs() == old(self).refs(),
            r is Ok,
            final(self).blocks() == old(self).blocks().restrict(
                store_trait::reachable(old(self).blocks(), root.view()),
            ),
            old(self).blocks().dom().finite(),
            final(self).blocks().dom().finite(),
            r->Ok_0.kept == final(self).blocks().dom().len(),
            r->Ok_0.kept + r->Ok_0.deleted == old(self).blocks().dom().len(),
    {
        let closure = match self.closure(root) {
            Ok(v) => v,
            Err(e) => return Err(e),
        };
        let ghost live = store_trait::reachable(self.blocks(), root.view());
        let ghost before = self.blocks.map();
        let stored = self.stored_hashes();
        let plan = plan_gc(&stored, &closure);
        let ghost doomed = plan.delete@;
        let mut i: usize = 0;
        proof {
            assert(before.remove_keys(doomed_keys(doomed.take(0))) =~= before);
        }
        while i < plan.delete.len()
            invariant
                i <= plan.delete@.len(),
                doomed == plan.delete@,
                self.wf(),
                self.refs == old(self).refs,
                self.blocks.map() == before.remove_keys(doomed_keys(doomed.take(i as int))),
            decreases plan.delete@.len() - i,
        {
            let ghost prior = self.blocks.map();
            let ghost h = plan.delete@[i as int];
            let _gone = self.blocks.take(plan.delete[i].key_bytes());
            proof {
                assert(doomed.take(i + 1) =~= doomed.take(i as int).push(h));
                lemma_doomed_push(doomed.take(i as int), h);
                assert(self.blocks.map() =~= before.remove_keys(
                    doomed_keys(doomed.take(i + 1)),
                ));
            }
            i += 1;
        }
        proof {
            assert(doomed.take(doomed.len() as int) =~= doomed);
            assert(self.blocks() =~= old(self).blocks().restrict(live)) by {
                assert forall|h: crate::hash::Hash| #[trigger]
                    self.blocks().dom().contains(h) == (old(self).blocks().dom().contains(h)
                        && live.contains(h)) by {
                    crate::store::rules::law_gc_deletes_exactly_orphans(stored@, live, h);
                    lemma_doomed_contains(doomed, h);
                    assert(stored@.to_set().contains(h) == stored@.contains(h));
                    assert(self.blocks.map().dom().contains(h.view()) == (before.dom().contains(
                        h.view(),
                    ) && !doomed_keys(doomed).contains(h.view())));
                }
            }
        }
        proof {
            lemma_orphan_count(old(self).blocks().dom(), stored@, live);
            assert(old(self).blocks().restrict(live).dom() =~= old(self).blocks().dom().intersect(
                live,
            ));
        }
        Ok(plan.stats)
    }

    /// The digests of the stored blocks, in increasing byte order.
    pub fn stored_hashes(&self) -> (v: Vec<crate::hash::Hash>)
        requires
            self.wf(),
        ensures
            table::strictly_sorted(v@),
            v@.no_duplicates(),
            v@.to_set() == self.blocks().dom(),
    {
        let ghost rows = self.blocks.view();
        let mut v: Vec<crate::hash::Hash> = Vec::new();
        let mut i: usize = 0;
        while i < self.blocks.len()
            invariant
                i <= rows.len(),
                rows == self.blocks.view(),
                v@.len() == i,
                forall|j: int| 0 <= j < i ==> #[trigger] v@[j] == rows[j].hash,
            decreases rows.len() - i,
        {
            v.push(self.blocks.row(i).hash);
            i += 1;
        }
        proof {
            assert forall|a: int, b: int|
                #![trigger v@[a], v@[b]]
                0 <= a < b < v@.len() implies crate::order::lex_lt(v@[a].key(), v@[b].key()) by {
                assert(crate::order::lex_lt(rows[a].key(), rows[b].key()));
            }
            assert forall|a: int, b: int| 0 <= a < v@.len() && 0 <= b < v@.len() && a != b
                implies v@[a] != v@[b] by {
                table::lemma_row_of(v@, a);
                if v@[a] == v@[b] {
                    assert(v@[b].key() == v@[a].key());
                }
            }
            assert forall|h: crate::hash::Hash| #[trigger]
                v@.to_set().contains(h) == self.blocks().dom().contains(h) by {
                if v@.contains(h) {
                    let j = choose|j: int| 0 <= j < v@.len() && v@[j] == h;
                    table::lemma_row_of(rows, j);
                }
                if self.blocks().dom().contains(h) {
                    let j = choose|j: int|
                        0 <= j < rows.len() && (#[trigger] rows[j]).key() == h.view();
                    hash::lemma_hash_ext(rows[j].hash, h);
                    assert(v@[j] == h);
                }
            }
            assert(v@.to_set() =~= self.blocks().dom());
        }
        v
    }
}

/// The key bytes of `hashes`.
pub open spec fn doomed_keys(hashes: Seq<crate::hash::Hash>) -> Set<Seq<u8>> {
    hashes.map_values(|h: crate::hash::Hash| h.view()).to_set()
}

proof fn lemma_doomed_contains(hashes: Seq<crate::hash::Hash>, h: crate::hash::Hash)
    ensures
        doomed_keys(hashes).contains(h.view()) <==> hashes.contains(h),
{
    let keys = hashes.map_values(|h: crate::hash::Hash| h.view());
    if keys.contains(h.view()) {
        let i = choose|i: int| 0 <= i < keys.len() && keys[i] == h.view();
        hash::lemma_hash_ext(hashes[i], h);
        assert(hashes[i] == h);
    }
    if hashes.contains(h) {
        let i = choose|i: int| 0 <= i < hashes.len() && hashes[i] == h;
        assert(keys[i] == h.view());
    }
}

proof fn lemma_doomed_push(hashes: Seq<crate::hash::Hash>, h: crate::hash::Hash)
    ensures
        doomed_keys(hashes.push(h)) == doomed_keys(hashes).insert(h.view()),
{
    let f = |h: crate::hash::Hash| h.view();
    let a = hashes.map_values(f);
    let b = hashes.push(h).map_values(f);
    assert(b =~= a.push(h.view()));
    assert forall|k: Seq<u8>| #[trigger]
        b.to_set().contains(k) == a.to_set().insert(h.view()).contains(k) by {
        if a.contains(k) {
            let i = choose|i: int| 0 <= i < a.len() && a[i] == k;
            assert(b[i] == k);
        }
        assert(b[a.len() as int] == h.view());
    }
    assert(b.to_set() =~= a.to_set().insert(h.view()));
}

proof fn lemma_orphan_count(
    all: Set<crate::hash::Hash>,
    stored: Seq<crate::hash::Hash>,
    live: Set<crate::hash::Hash>,
)
    requires
        stored.no_duplicates(),
        stored.to_set() == all,
    ensures
        all.finite(),
        all.intersect(live).finite(),
        stored.len() == all.len(),
        stored.len() - crate::store::rules::orphans(stored, live).len() == all.intersect(live).len(),
{
    stored.unique_seq_to_set();
    let gone = |h: crate::hash::Hash| !live.contains(h);
    let dead = stored.filter(gone);
    crate::store::rules::lemma_filter_unique(stored, gone);
    dead.unique_seq_to_set();
    assert(dead.to_set() =~= all.difference(live)) by {
        assert forall|h: crate::hash::Hash| #[trigger]
            dead.to_set().contains(h) == all.difference(live).contains(h) by {
            crate::store::rules::law_gc_deletes_exactly_orphans(stored, live, h);
        }
    }
    vstd::set_lib::lemma_set_disjoint_lens(all.intersect(live), all.difference(live));
    assert(all.intersect(live) + all.difference(live) =~= all);
}

impl Default for MemStore {
    fn default() -> (s: Self)
        ensures
            s.wf(),
            s.blocks() == Map::<crate::hash::Hash, Seq<u8>>::empty(),
            s.refs() == Map::<Seq<char>, ref_type::Pointer>::empty(),
    {
        MemStore::new()
    }
}

impl Store for MemStore {
    closed spec fn wf(&self) -> bool {
        self.blocks.wf() && self.refs.wf()
    }

    closed spec fn blocks(&self) -> store_trait::Blocks {
        payloads(self.blocks.map())
    }

    closed spec fn refs(&self) -> store_trait::Refs {
        pointers(self.refs.map())
    }

    fn write_block(&mut self, block: &Block) -> (r: Result<(), StoreError>)
        ensures
            r is Ok,
    {
        if !self.blocks.contains(block.key_bytes()) {
            self.blocks.put(block.clone());
            proof {
                let h = block.hash;
                assert(self.blocks() =~= old(self).blocks().insert(h, block.payload())) by {
                    assert forall|g: crate::hash::Hash| #[trigger]
                        self.blocks().dom().contains(g) == old(self).blocks().insert(
                            h,
                            block.payload(),
                        ).dom().contains(g) by {
                        hash::lemma_hash_ext(g, h);
                    }
                    assert forall|g: crate::hash::Hash| #[trigger]
                        self.blocks().dom().contains(g) implies self.blocks()[g] == old(
                        self,
                    ).blocks().insert(h, block.payload())[g] by {
                        hash::lemma_hash_ext(g, h);
                    }
                }
            }
        }
        Ok(())
    }

    fn lookup_by_hash(&self, hash: &crate::hash::Hash, root: &Namespace) -> (r: Result<
        Block,
        StoreError,
    >)
        ensures
            r is Ok <==> self.blocks().dom().contains(*hash) && store_trait::reachable(
                self.blocks(),
                root.view(),
            ).contains(*hash),
            r matches Err(e) ==> e is Protocol,
    {
        let block = match self.blocks.get(hash.key_bytes()) {
            Some(b) => b,
            None => return Err(StoreError::block_not_found(*hash)),
        };
        let closure = match self.closure(root) {
            Ok(v) => v,
            Err(e) => return Err(e),
        };
        proof {
            assert(closure@.to_set().contains(*hash) == closure@.contains(*hash));
        }
        match admit_lookup(hash, true, &closure) {
            Ok(()) => {
                proof {
                    hash::lemma_hash_ext(block.hash, *hash);
                }
                Ok(block.clone())
            },
            Err(e) => Err(e),
        }
    }

    fn raw_lookup_by_hash(&self, hash: &crate::hash::Hash) -> (r: Result<Block, StoreError>)
        ensures
            r is Ok <==> self.blocks().dom().contains(*hash),
            r matches Err(e) ==> e is Protocol,
    {
        match self.blocks.get(hash.key_bytes()) {
            Some(b) => {
                proof {
                    hash::lemma_hash_ext(b.hash, *hash);
                }
                Ok(b.clone())
            },
            None => Err(StoreError::block_not_found(*hash)),
        }
    }

    fn put_ref(
        &mut self,
        name: &str,
        hash: &crate::hash::Hash,
        version_constraint: Option<VersionRef>,
    ) -> (r: Result<(), StoreError>)
        ensures
            r is Ok <==> old(self).blocks().dom().contains(*hash) && ref_type::is_ref_name(name@),
            r matches Err(e) ==> e is Protocol,
    {
        let present = self.blocks.contains(hash.key_bytes());
        let pointer = match prepare_ref(present, name, hash, version_constraint) {
            Ok(p) => p,
            Err(e) => return Err(e),
        };
        let ghost view = pointer.view();
        self.refs.put(pointer);
        proof {
            assert(self.refs() =~= old(self).refs().insert(name@, view)) by {
                assert forall|n: Seq<char>| #[trigger]
                    self.refs().dom().contains(n) == old(self).refs().insert(
                        name@,
                        view,
                    ).dom().contains(n) by {
                    text::lemma_utf8_injective(n, name@);
                }
                assert forall|n: Seq<char>| #[trigger]
                    self.refs().dom().contains(n) implies self.refs()[n] == old(
                    self,
                ).refs().insert(name@, view)[n] by {
                    text::lemma_utf8_injective(n, name@);
                }
            }
        }
        Ok(())
    }

    fn get_ref(&self, name: &str) -> (r: Result<Option<Ref>, StoreError>)
        ensures
            r is Ok,
    {
        match self.refs.get(name.as_bytes()) {
            Some(p) => Ok(Some(p.clone())),
            None => Ok(None),
        }
    }

    fn remove_ref(&mut self, name: &str) -> (r: Result<bool, StoreError>)
        ensures
            r is Ok,
    {
        let gone = self.refs.take(name.as_bytes());
        proof {
            assert(self.refs() =~= old(self).refs().remove(name@)) by {
                assert forall|n: Seq<char>| #[trigger]
                    self.refs().dom().contains(n) == old(self).refs().remove(
                        name@,
                    ).dom().contains(n) by {
                    text::lemma_utf8_injective(n, name@);
                }
            }
        }
        match gone {
            Some(_) => Ok(true),
            None => Ok(false),
        }
    }

    fn list_refs(&self) -> (r: Result<Vec<Ref>, StoreError>)
        ensures
            r is Ok,
    {
        let ghost rows = self.refs.view();
        let mut v: Vec<Ref> = Vec::new();
        let mut i: usize = 0;
        while i < self.refs.len()
            invariant
                i <= rows.len(),
                rows == self.refs.view(),
                v@.len() == i,
                forall|j: int| 0 <= j < i ==> (#[trigger] v@[j]).view() == rows[j].view(),
            decreases rows.len() - i,
        {
            v.push(self.refs.row(i).clone());
            i += 1;
        }
        proof {
            assert forall|a: int, b: int|
                #![trigger v@[a], v@[b]]
                0 <= a < b < v@.len() implies crate::order::lex_lt(v@[a].key(), v@[b].key()) by {
                assert(v@[a].view().name == rows[a].view().name);
                assert(v@[b].view().name == rows[b].view().name);
                assert(crate::order::lex_lt(rows[a].key(), rows[b].key()));
            }
            assert forall|a: int| 0 <= a < v@.len() implies self.refs().dom().contains(
                (#[trigger] v@[a]).name@,
            ) && self.refs()[v@[a].name@] == v@[a].view() by {
                assert(v@[a].view().name == rows[a].view().name);
                table::lemma_row_of(rows, a);
            }
            assert forall|n: Seq<char>| #[trigger] self.refs().dom().contains(n) implies exists|
                a: int,
            |
                0 <= a < v@.len() && (#[trigger] v@[a]).name@ == n by {
                let a = choose|a: int|
                    0 <= a < rows.len() && (#[trigger] rows[a]).key() == text::utf8(n);
                text::lemma_utf8_injective(rows[a].name@, n);
                assert(v@[a].view().name == rows[a].view().name);
            }
        }
        Ok(v)
    }

    fn was_recovered(&self) -> (b: bool)
        ensures
            !b,
    {
        false
    }
}

} // verus!
