//! What every storage backend provides.

use vstd::prelude::*;

use crate::block::Block;
use crate::effect;
use crate::effect::VersionRef;
use crate::error::ReelError;
use crate::namespace;
use crate::namespace::Namespace;
use crate::ref_type;
use crate::ref_type::Ref;
use crate::store::error::StoreError;
use crate::store::reachability;
use crate::store::rules;
use crate::table;

verus! {

/// The stored payloads by digest.
pub type Blocks = Map<crate::hash::Hash, Seq<u8>>;

/// The stored pointers by name.
pub type Refs = Map<Seq<char>, ref_type::Pointer>;

/// Where the stored blocks lead to.
pub open spec fn stored_edges(blocks: Blocks) -> reachability::Edges {
    |h: crate::hash::Hash|
        if blocks.dom().contains(h) {
            reachability::outgoing(blocks[h])
        } else {
            Seq::empty()
        }
}

/// The digests that can be reached from the bindings of a namespace.
pub open spec fn reachable(blocks: Blocks, root: Map<Seq<char>, crate::hash::Hash>) -> Set<
    crate::hash::Hash,
> {
    reachability::reach(
        namespace::bound_hashes(root),
        stored_edges(blocks),
        reachability::DEFAULT_REACHABILITY_DEPTH_LIMIT as nat,
    )
}

/// The blocks after `block` was written: content that is already there stays.
pub open spec fn with_block(blocks: Blocks, block: Block) -> Blocks {
    if blocks.dom().contains(block.hash) {
        blocks
    } else {
        blocks.insert(block.hash, block.payload())
    }
}

/// The error says that the backend itself failed.
pub open spec fn is_backend_failure(e: StoreError) -> bool {
    !(e is Protocol)
}

/// `list` holds every pointer of `refs` once, in increasing byte order of the
/// names.
pub open spec fn lists_refs(list: Seq<Ref>, refs: Refs) -> bool {
    &&& table::strictly_sorted(list)
    &&& forall|i: int|
        0 <= i < list.len() ==> refs.dom().contains((#[trigger] list[i]).name@)
            && refs[list[i].name@] == list[i].view()
    &&& forall|n: Seq<char>| #[trigger]
        refs.dom().contains(n) ==> exists|i: int|
            0 <= i < list.len() && (#[trigger] list[i]).name@ == n
}

/// Storage for blocks and pointers to them.
pub trait Store: Sized {
    /// The invariant of the backend.
    spec fn wf(&self) -> bool;

    /// The stored payloads.
    spec fn blocks(&self) -> Blocks;

    /// The stored pointers.
    spec fn refs(&self) -> Refs;

    /// Stores a block under its digest.
    fn write_block(&mut self, block: &Block) -> (r: Result<(), StoreError>)
        requires
            old(self).wf(),
        ensures
            final(self).wf(),
            final(self).refs() == old(self).refs(),
            match r {
                Ok(()) => final(self).blocks() == with_block(old(self).blocks(), *block),
                Err(e) => is_backend_failure(e),
            },
    ;

    /// Looks a block up that has to be reachable from `root`.
    fn lookup_by_hash(&self, hash: &crate::hash::Hash, root: &Namespace) -> (r: Result<
        Block,
        StoreError,
    >)
        requires
            self.wf(),
        ensures
            match r {
                Ok(b) => {
                    &&& self.blocks().dom().contains(*hash)
                    &&& reachable(self.blocks(), root.view()).contains(*hash)
                    &&& b.hash == *hash
                    &&& b.payload() == self.blocks()[*hash]
                },
                Err(StoreError::Protocol(e)) => if self.blocks().dom().contains(*hash) {
                    &&& !reachable(self.blocks(), root.view()).contains(*hash)
                    &&& e == ReelError::ReachabilityViolation(*hash)
                } else {
                    e == ReelError::BlockNotFound(*hash)
                },
                Err(e) => is_backend_failure(e),
            },
    ;

    /// Looks a block up whether it is reachable or not.
    fn raw_lookup_by_hash(&self, hash: &crate::hash::Hash) -> (r: Result<Block, StoreError>)
        requires
            self.wf(),
        ensures
            match r {
                Ok(b) => {
                    &&& self.blocks().dom().contains(*hash)
                    &&& b.hash == *hash
                    &&& b.payload() == self.blocks()[*hash]
                },
                Err(StoreError::Protocol(e)) => !self.blocks().dom().contains(*hash) && e
                    == ReelError::BlockNotFound(*hash),
                Err(e) => is_backend_failure(e),
            },
    ;

    /// Sets the pointer `name`. Its block has to be stored.
    fn put_ref(
        &mut self,
        name: &str,
        hash: &crate::hash::Hash,
        version_constraint: Option<VersionRef>,
    ) -> (r: Result<(), StoreError>)
        requires
            old(self).wf(),
        ensures
            final(self).wf(),
            final(self).blocks() == old(self).blocks(),
            match r {
                Ok(()) => {
                    &&& old(self).blocks().dom().contains(*hash)
                    &&& ref_type::is_ref_name(name@)
                    &&& final(self).refs() == old(self).refs().insert(
                        name@,
                        ref_type::Pointer {
                            name: name@,
                            hash: *hash,
                            version: effect::version_of(version_constraint),
                        },
                    )
                },
                Err(e) => {
                    &&& final(self).refs() == old(self).refs()
                    &&& is_backend_failure(e) || rules::is_ref_refusal(
                        e,
                        old(self).blocks().dom().contains(*hash),
                        name@,
                        *hash,
                    )
                    &&& e is Protocol ==> !(old(self).blocks().dom().contains(*hash)
                        && ref_type::is_ref_name(name@))
                },
            },
    ;

    /// The pointer `name`.
    fn get_ref(&self, name: &str) -> (r: Result<Option<Ref>, StoreError>)
        requires
            self.wf(),
        ensures
            match r {
                Ok(Some(p)) => self.refs().dom().contains(name@) && self.refs()[name@] == p.view(),
                Ok(None) => !self.refs().dom().contains(name@),
                Err(e) => is_backend_failure(e),
            },
    ;

    /// Removes the pointer `name` and says whether it was there.
    fn remove_ref(&mut self, name: &str) -> (r: Result<bool, StoreError>)
        requires
            old(self).wf(),
        ensures
            final(self).wf(),
            final(self).blocks() == old(self).blocks(),
            match r {
                Ok(b) => b == old(self).refs().dom().contains(name@) && final(self).refs() == old(
                    self,
                ).refs().remove(name@),
                Err(e) => is_backend_failure(e),
            },
    ;

    /// Every pointer, in name order.
    fn list_refs(&self) -> (r: Result<Vec<Ref>, StoreError>)
        requires
            self.wf(),
        ensures
            match r {
                Ok(v) => lists_refs(v@, self.refs()),
                Err(e) => is_backend_failure(e),
            },
    ;

    /// Whether the backend was recovered when it was opened.
    fn was_recovered(&self) -> bool;
}

/// Only what is reachable is handed out: with no binding in the namespace,
/// nothing is.
pub proof fn law_empty_namespace_reaches_nothing(blocks: Blocks, h: crate::hash::Hash)
    ensures
        !reachable(blocks, Map::empty()).contains(h),
{
    let m: Map<Seq<char>, crate::hash::Hash> = Map::empty();
    let roots = namespace::bound_hashes(m);
    assert(roots =~= Set::empty());
    lemma_reach_from_nothing(
        stored_edges(blocks),
        reachability::DEFAULT_REACHABILITY_DEPTH_LIMIT as nat,
    );
}

proof fn lemma_reach_from_nothing(edges: reachability::Edges, n: nat)
    ensures
        reachability::reach(Set::empty(), edges, n) == Set::<crate::hash::Hash>::empty(),
    decreases n,
{
    if n > 0 {
        lemma_reach_from_nothing(edges, (n - 1) as nat);
        let e = Set::<crate::hash::Hash>::empty();
        assert(e.union(reachability::step(e, edges)) =~= e);
    }
}

/// What a name is bound to is reachable.
pub proof fn law_bound_is_reachable(
    blocks: Blocks,
    root: Map<Seq<char>, crate::hash::Hash>,
    name: Seq<char>,
)
    requires
        root.dom().contains(name),
    ensures
        reachable(blocks, root).contains(root[name]),
{
    reachability::lemma_reach_monotone(
        namespace::bound_hashes(root),
        stored_edges(blocks),
        0,
        reachability::DEFAULT_REACHABILITY_DEPTH_LIMIT as nat,
    );
}

/// The targets of a delta that a name is bound to are reachable through it.
pub proof fn law_delta_targets_are_reachable(
    blocks: Blocks,
    root: Map<Seq<char>, crate::hash::Hash>,
    name: Seq<char>,
    target: crate::hash::Hash,
)
    requires
        root.dom().contains(name),
        blocks.dom().contains(root[name]),
        reachability::outgoing(blocks[root[name]]).contains(target),
    ensures
        reachable(blocks, root).contains(target),
{
    let roots = namespace::bound_hashes(root);
    let edges = stored_edges(blocks);
    let h = root[name];
    assert(roots.contains(h));
    assert(edges(h).contains(target));
    assert(reachability::reach(roots, edges, 0) == roots);
    assert(reachability::step(roots, edges).contains(target));
    assert(reachability::reach(roots, edges, 1).contains(target));
    reachability::lemma_reach_monotone(
        roots,
        edges,
        1,
        reachability::DEFAULT_REACHABILITY_DEPTH_LIMIT as nat,
    );
}

/// Writing a block a second time changes nothing.
pub proof fn law_writing_twice_is_writing_once(blocks: Blocks, block: Block)
    ensures
        with_block(with_block(blocks, block), block) == with_block(blocks, block),
{
}

/// A read gives back what a write wrote: after a block is written, its digest
/// leads to its payload, and every other digest to what it led to before. A
/// block that was stored under the digest before must have the same payload.
pub proof fn law_written_block_is_read_back(blocks: Blocks, block: Block, other: crate::hash::Hash)
    requires
        blocks.dom().contains(block.hash) ==> blocks[block.hash] == block.payload(),
    ensures
        with_block(blocks, block).dom().contains(block.hash),
        with_block(blocks, block)[block.hash] == block.payload(),
        other != block.hash ==> with_block(blocks, block).dom().contains(other)
            == blocks.dom().contains(other) && with_block(blocks, block)[other] == blocks[other],
{
}

/// Deleting what cannot be reached does not change what can be reached, and
/// keeps every stored block that can.
pub proof fn law_collection_keeps_what_is_reachable(
    blocks: Blocks,
    root: Map<Seq<char>, crate::hash::Hash>,
    h: crate::hash::Hash,
)
    ensures
        reachable(blocks.restrict(reachable(blocks, root)), root) == reachable(blocks, root),
        blocks.dom().contains(h) && reachable(blocks, root).contains(h) ==> blocks.restrict(
            reachable(blocks, root),
        ).dom().contains(h) && blocks.restrict(reachable(blocks, root))[h] == blocks[h],
        !reachable(blocks, root).contains(h) ==> !blocks.restrict(
            reachable(blocks, root),
        ).dom().contains(h),
{
    let live = reachable(blocks, root);
    let kept = blocks.restrict(live);
    let roots = namespace::bound_hashes(root);
    let n = reachability::DEFAULT_REACHABILITY_DEPTH_LIMIT as nat;
    let a = stored_edges(blocks);
    let b = stored_edges(kept);
    reachability::lemma_reach_monotone(roots, a, (n - 1) as nat, n);
    assert forall|t: crate::hash::Hash| #[trigger]
        reachability::reach(roots, a, (n - 1) as nat).contains(t) implies a(t) == b(t) by {
        assert(live.contains(t));
    }
    reachability::lemma_reach_congruent(roots, a, b, n);
}

/// The block `from` is stored and writes out a delta that has `to` as its base
/// or puts it.
pub open spec fn leads_to(blocks: Blocks, from: crate::hash::Hash, to: crate::hash::Hash) -> bool {
    &&& blocks.dom().contains(from)
    &&& crate::delta::mutations_of_bytes(blocks[from]) matches Some(m) && (to == m.base || exists|
        j: int,
    |
        0 <= j < m.ops.len() && (#[trigger] m.ops[j]) is Put && m.ops[j]->Put_1 == to)
}

/// A block is reachable exactly where deltas lead to it from a name: from a
/// block that is bound in the namespace, over the bases and the puts of stored
/// deltas, in at most 1024 steps.
pub proof fn law_reachable_over_deltas(
    blocks: Blocks,
    root: Map<Seq<char>, crate::hash::Hash>,
    h: crate::hash::Hash,
)
    ensures
        reachable(blocks, root).contains(h) <==> exists|path: Seq<crate::hash::Hash>|
            {
                &&& 0 < #[trigger] path.len() <= 1025
                &&& root.contains_value(path[0])
                &&& path.last() == h
                &&& forall|k: int|
                    0 <= k < path.len() - 1 ==> leads_to(blocks, #[trigger] path[k], path[k + 1])
            },
{
    let roots = namespace::bound_hashes(root);
    let edges = stored_edges(blocks);
    let n = reachability::DEFAULT_REACHABILITY_DEPTH_LIMIT as nat;
    reachability::law_reached_by_a_path(roots, edges, n, h);
    assert forall|a: crate::hash::Hash, b: crate::hash::Hash| #[trigger]
        leads_to(blocks, a, b) == edges(a).contains(b) by {
        if blocks.dom().contains(a) {
            reachability::law_payload_leads_where_its_delta_does(blocks[a], b);
        }
    }
    assert forall|x: crate::hash::Hash| #[trigger] roots.contains(x) == root.contains_value(x) by {
        if roots.contains(x) {
            let name = choose|name: Seq<char>| #[trigger]
                root.dom().contains(name) && root[name] == x;
            assert(root.dom().contains(name) && root[name] == x);
        }
    }
    if reachable(blocks, root).contains(h) {
        let path = choose|path: Seq<crate::hash::Hash>| #[trigger]
            reachability::is_path(roots, edges, path) && path.len() <= n + 1 && path.last() == h;
        assert(0 < path.len() <= 1025);
        assert forall|k: int| 0 <= k < path.len() - 1 implies leads_to(
            blocks,
            #[trigger] path[k],
            path[k + 1],
        ) by {
            assert(edges(path[k]).contains(path[k + 1]));
        }
    }
    if exists|path: Seq<crate::hash::Hash>|
        {
            &&& 0 < #[trigger] path.len() <= 1025
            &&& root.contains_value(path[0])
            &&& path.last() == h
            &&& forall|k: int|
                0 <= k < path.len() - 1 ==> leads_to(blocks, #[trigger] path[k], path[k + 1])
        } {
        let path = choose|path: Seq<crate::hash::Hash>|
            {
                &&& 0 < #[trigger] path.len() <= 1025
                &&& root.contains_value(path[0])
                &&& path.last() == h
                &&& forall|k: int|
                    0 <= k < path.len() - 1 ==> leads_to(blocks, #[trigger] path[k], path[k + 1])
            };
        assert forall|k: int| 0 <= k < path.len() - 1 implies edges(#[trigger] path[k]).contains(
            path[k + 1],
        ) by {
            assert(leads_to(blocks, path[k], path[k + 1]));
        }
        assert(reachability::is_path(roots, edges, path));
    }
}

/// Writing a block stores its payload under its digest, unless that digest is
/// taken, and touches no other block.
pub proof fn law_writing_adds_one_block(blocks: Blocks, block: Block)
    ensures
        with_block(blocks, block).dom() == blocks.dom().insert(block.hash),
        !blocks.dom().contains(block.hash) ==> with_block(blocks, block)[block.hash]
            == block.payload(),
        forall|h: crate::hash::Hash| #[trigger]
            blocks.dom().contains(h) ==> with_block(blocks, block)[h] == blocks[h],
{
    assert(with_block(blocks, block).dom() =~= blocks.dom().insert(block.hash));
}

/// A listing of pointers holds each of them once, as it is stored, in the byte
/// order of the names.
pub proof fn law_listing_is_complete_and_in_order(list: Seq<Ref>, refs: Refs, i: int, j: int)
    requires
        lists_refs(list, refs),
    ensures
        0 <= i < list.len() ==> refs.dom().contains(list[i].name@) && refs[list[i].name@]
            == list[i].view(),
        0 <= i < j < list.len() ==> crate::order::lex_lt(
            crate::text::utf8(list[i].name@),
            crate::text::utf8(list[j].name@),
        ),
        forall|n: Seq<char>| #[trigger]
            refs.dom().contains(n) ==> exists|k: int|
                0 <= k < list.len() && (#[trigger] list[k]).name@ == n,
{
}

} // verus!
