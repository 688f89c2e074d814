//! The decisions that every storage backend takes, and their configuration.

use vstd::prelude::*;

use crate::effect;
use crate::effect::VersionRef;
use crate::error::ReelError;
use crate::ref_type;
use crate::ref_type::Ref;
use crate::store::error::StoreError;
use crate::table;
use crate::table::Keyed;

verus! {

/// When a backend makes its writes durable.
#[derive(Clone, Copy, Debug, PartialEq, Eq, Structural)]
#[non_exhaustive]
pub enum SyncMode {
    /// At every commit.
    Default,
    /// From time to time.
    Periodic,
}

impl Default for SyncMode {
    fn default() -> (m: Self)
        ensures
            m == SyncMode::Default,
    {
        SyncMode::Default
    }
}

/// The configuration of a persistent backend.
#[derive(Clone, Copy, Debug, PartialEq, Eq, Structural)]
pub struct Config {
    /// Whether a store that does not exist is created.
    pub create_if_missing: bool,
    /// How many payloads are cached.
    pub block_cache_entries: u64,
    /// When writes become durable.
    pub sync_mode: SyncMode,
}

impl Default for Config {
    fn default() -> (c: Self)
        ensures
            c.create_if_missing,
            c.block_cache_entries == 1024,
            c.sync_mode == SyncMode::Default,
    {
        Config { create_if_missing: true, block_cache_entries: 1024, sync_mode: SyncMode::Default }
    }
}

/// What a collection of unreachable blocks did.
#[derive(Clone, Copy, Debug, PartialEq, Eq, Structural)]
pub struct GcStats {
    /// How many blocks were kept.
    pub kept: u64,
    /// How many blocks were deleted.
    pub deleted: u64,
}

impl Default for GcStats {
    fn default() -> (s: Self)
        ensures
            s.kept == 0,
            s.deleted == 0,
    {
        GcStats { kept: 0, deleted: 0 }
    }
}

/// The blocks that a collection deletes, and what it will report.
#[derive(Debug)]
pub struct GcPlan {
    /// The blocks to delete.
    pub delete: Vec<crate::hash::Hash>,
    /// The report.
    pub stats: GcStats,
}

/// Decides whether a store may be opened: one that does not exist is refused
/// where the configuration does not create it.
pub fn admit_open(path: &str, present: bool, config: &Config) -> (r: Result<(), StoreError>)
    ensures
        r is Ok <==> present || config.create_if_missing,
        r matches Err(e) ==> (e matches StoreError::Config(m) && m@ == "store at "@ + path@
            + " does not exist and create_if_missing=false"@),
{
    if !present && !config.create_if_missing {
        return Err(
            StoreError::Config(
                String::from_str("store at ").concat(path).concat(
                    " does not exist and create_if_missing=false",
                ),
            ),
        );
    }
    Ok(())
}

/// Whether an opened store was there before: its file existed and already had
/// its schema mark.
pub fn is_recovery(present: bool, had_prior_schema: bool) -> (b: bool)
    ensures
        b == (present && had_prior_schema),
{
    present && had_prior_schema
}

/// Decides a lookup. A block that is not stored is not found; one that is
/// stored and not in `closure` violates reachability.
pub fn admit_lookup(hash: &crate::hash::Hash, stored: bool, closure: &Vec<crate::hash::Hash>) -> (r: Result<
    (),
    StoreError,
>)
    requires
        table::strictly_sorted(closure@),
    ensures
        r is Ok <==> stored && closure@.contains(*hash),
        r matches Err(e) ==> e == (if stored {
            StoreError::Protocol(ReelError::ReachabilityViolation(*hash))
        } else {
            StoreError::Protocol(ReelError::BlockNotFound(*hash))
        }),
{
    if !stored {
        return Err(StoreError::block_not_found(*hash));
    }
    if !sorted_contains(closure, hash) {
        return Err(StoreError::reachability_violation(*hash));
    }
    Ok(())
}

/// Whether a sorted list of digests has `hash`.
pub fn sorted_contains(sorted: &Vec<crate::hash::Hash>, hash: &crate::hash::Hash) -> (b: bool)
    requires
        table::strictly_sorted(sorted@),
    ensures
        b == sorted@.contains(*hash),
{
    match table::locate(sorted, hash.key_bytes()) {
        table::Slot::Taken(i) => {
            proof {
                crate::hash::lemma_hash_ext(sorted@[i as int], *hash);
            }
            true
        },
        table::Slot::Free(_) => {
            proof {
                if sorted@.contains(*hash) {
                    let j = choose|j: int| 0 <= j < sorted@.len() && sorted@[j] == *hash;
                    assert(sorted@[j].key() == hash.view());
                    assert(table::has_key(sorted@, hash.view()));
                }
            }
            false
        },
    }
}

/// Decides a new pointer: its block has to be stored and its name acceptable.
pub fn prepare_ref(
    stored: bool,
    name: &str,
    hash: &crate::hash::Hash,
    version_constraint: Option<VersionRef>,
) -> (r: Result<Ref, StoreError>)
    ensures
        r is Ok <==> stored && ref_type::is_ref_name(name@),
        match r {
            Ok(p) => p.view() == (ref_type::Pointer {
                name: name@,
                hash: *hash,
                version: effect::version_of(version_constraint),
            }),
            Err(e) => is_ref_refusal(e, stored, name@, *hash),
        },
{
    if !stored {
        return Err(StoreError::block_not_found(*hash));
    }
    let made = match version_constraint {
        Some(v) => Ref::with_version_constraint(name, *hash, v),
        None => Ref::new(name, *hash),
    };
    match made {
        Ok(p) => Ok(p),
        Err(e) => Err(StoreError::Protocol(e)),
    }
}

/// The refusal of a new pointer: the block is missing or else the name is not
/// acceptable.
pub open spec fn is_ref_refusal(
    e: StoreError,
    stored: bool,
    name: Seq<char>,
    hash: crate::hash::Hash,
) -> bool {
    if stored {
        e matches StoreError::Protocol(p) && p.is_storage(ref_type::ref_name_refusal(name))
    } else {
        e == StoreError::Protocol(ReelError::BlockNotFound(hash))
    }
}

/// The members of `all` that are not in `keep`, in order.
pub open spec fn orphans(
    all: Seq<crate::hash::Hash>,
    keep: Set<crate::hash::Hash>,
) -> Seq<crate::hash::Hash> {
    all.filter(|h: crate::hash::Hash| !keep.contains(h))
}

/// Plans a collection: of the stored blocks, those outside of `reachable` are
/// deleted and the others kept.
pub fn plan_gc(stored: &Vec<crate::hash::Hash>, reachable: &Vec<crate::hash::Hash>) -> (p: GcPlan)
    requires
        table::strictly_sorted(reachable@),
    ensures
        p.delete@ == orphans(stored@, reachable@.to_set()),
        p.stats.deleted == p.delete@.len(),
        p.stats.kept == stored@.len() - p.delete@.len(),
{
    let mut delete: Vec<crate::hash::Hash> = Vec::new();
    let mut kept: u64 = 0;
    let ghost keep = reachable@.to_set();
    let ghost gone = |h: crate::hash::Hash| !keep.contains(h);
    let mut i: usize = 0;
    proof {
        assert(stored@.take(0).filter(gone) =~= Seq::empty()) by {
            reveal(Seq::filter);
        }
    }
    while i < stored.len()
        invariant
            i <= stored@.len(),
            table::strictly_sorted(reachable@),
            keep == reachable@.to_set(),
            gone == (|h: crate::hash::Hash| !keep.contains(h)),
            delete@ == stored@.take(i as int).filter(gone),
            kept == i - delete@.len(),
            delete@.len() <= i,
        decreases stored@.len() - i,
    {
        let hash = stored[i];
        proof {
            assert(stored@.take(i + 1) =~= stored@.take(i as int).push(hash));
            stored@.take(i as int).lemma_filter_push(hash, gone);
        }
        if sorted_contains(reachable, &hash) {
            kept = kept + 1;
        } else {
            delete.push(hash);
        }
        i += 1;
    }
    assert(stored@.take(stored@.len() as int) =~= stored@);
    let deleted: u64 = delete.len() as u64;
    GcPlan { delete, stats: GcStats { kept, deleted } }
}

/// A collection deletes exactly the stored blocks that cannot be reached.
pub proof fn law_gc_deletes_exactly_orphans(
    stored: Seq<crate::hash::Hash>,
    reachable: Set<crate::hash::Hash>,
    h: crate::hash::Hash,
)
    ensures
        orphans(stored, reachable).contains(h) <==> stored.contains(h) && !reachable.contains(h),
{
    let gone = |x: crate::hash::Hash| !reachable.contains(x);
    if orphans(stored, reachable).contains(h) {
        stored.lemma_filter_contains_rev(gone, h);
        let i = choose|i: int| 0 <= i < stored.filter(gone).len() && stored.filter(gone)[i] == h;
        stored.lemma_filter_pred(gone, i);
    }
    if stored.contains(h) && gone(h) {
        let i = choose|i: int| 0 <= i < stored.len() && stored[i] == h;
        stored.lemma_filter_contains(gone, i);
    }
}

/// Leaving members out keeps a list free of duplicates.
pub proof fn lemma_filter_unique(
    s: Seq<crate::hash::Hash>,
    pred: spec_fn(crate::hash::Hash) -> bool,
)
    requires
        s.no_duplicates(),
    ensures
        s.filter(pred).no_duplicates(),
    decreases s.len(),
{
    reveal(Seq::filter);
    if s.len() > 0 {
        let rest = s.drop_last();
        lemma_filter_unique(rest, pred);
        if pred(s.last()) {
            let out = rest.filter(pred);
            assert(!out.contains(s.last())) by {
                if out.contains(s.last()) {
                    rest.lemma_filter_contains_rev(pred, s.last());
                    let i = choose|i: int| 0 <= i < rest.len() && rest[i] == s.last();
                    assert(s[i] == s[s.len() - 1]);
                }
            }
            assert forall|i: int, j: int|
                0 <= i < out.push(s.last()).len() && 0 <= j < out.push(s.last()).len() && i != j
                implies out.push(s.last())[i] != out.push(s.last())[j] by {
                if i < out.len() {
                    assert(out.contains(out[i]));
                }
                if j < out.len() {
                    assert(out.contains(out[j]));
                }
            }
        }
    }
}

/// A pointer is refused for its block where that is not stored, and for its
/// name otherwise.
pub proof fn law_refused_for_the_block_first(
    e: StoreError,
    stored: bool,
    name: Seq<char>,
    hash: crate::hash::Hash,
)
    requires
        is_ref_refusal(e, stored, name, hash),
    ensures
        !stored ==> e == StoreError::Protocol(ReelError::BlockNotFound(hash)),
        stored ==> (e matches StoreError::Protocol(p) && p is Storage),
{
}

/// A collection deletes in the order of the listing, each block as often as it
/// is listed.
pub proof fn law_orphans_keep_their_order(
    stored: Seq<crate::hash::Hash>,
    more: crate::hash::Hash,
    keep: Set<crate::hash::Hash>,
)
    ensures
        orphans(Seq::empty(), keep) == Seq::<crate::hash::Hash>::empty(),
        keep.contains(more) ==> orphans(stored.push(more), keep) == orphans(stored, keep),
        !keep.contains(more) ==> orphans(stored.push(more), keep) == orphans(stored, keep).push(
            more,
        ),
{
    let gone = |h: crate::hash::Hash| !keep.contains(h);
    stored.lemma_filter_push(more, gone);
    reveal(Seq::filter);
}

} // verus!
