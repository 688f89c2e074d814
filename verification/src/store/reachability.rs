//! Which blocks can be reached from a set of roots.

use vstd::prelude::*;

use crate::delta;
use crate::delta::{Delta, Op};
use crate::hash;
use crate::store::error::StoreError;
use crate::table;
use crate::table::{Keyed, Table};

verus! {

/// The number of rounds that a walk makes by default.
pub const DEFAULT_REACHABILITY_DEPTH_LIMIT: usize = 1024;

/// Where each block leads to.
pub type Edges = spec_fn(crate::hash::Hash) -> Seq<crate::hash::Hash>;

/// The blocks that a payload leads to: the base and the targets of a delta,
/// and none where the payload is no delta.
pub open spec fn outgoing(payload: Seq<u8>) -> Seq<crate::hash::Hash> {
    match delta::mutations_of_bytes(payload) {
        Some(m) => m.targets(),
        None => Seq::empty(),
    }
}

/// The blocks that some block of `from` leads to.
pub open spec fn step(from: Set<crate::hash::Hash>, edges: Edges) -> Set<crate::hash::Hash> {
    Set::new(
        |t: crate::hash::Hash|
            exists|h: crate::hash::Hash| from.contains(h) && (#[trigger] edges(h)).contains(t),
    )
}

/// The blocks that are at most `n` edges away from `roots`.
pub open spec fn reach(roots: Set<crate::hash::Hash>, edges: Edges, n: nat) -> Set<
    crate::hash::Hash,
>
    decreases n,
{
    if n == 0 {
        roots
    } else {
        let near = reach(roots, edges, (n - 1) as nat);
        near.union(step(near, edges))
    }
}

/// Where blocks lead to, by the payloads that were answered for them.
pub open spec fn edges_of(answers: Map<crate::hash::Hash, Option<Vec<u8>>>) -> Edges {
    |h: crate::hash::Hash|
        if answers.dom().contains(h) && answers[h] is Some {
            outgoing(answers[h]->0@)
        } else {
            Seq::empty()
        }
}

/// `answers` are answers that `get_block` may give.
pub open spec fn are_answers<
    F: Fn(&crate::hash::Hash) -> Result<Option<Vec<u8>>, StoreError>,
>(get_block: F, answers: Map<crate::hash::Hash, Option<Vec<u8>>>) -> bool {
    forall|h: crate::hash::Hash| #[trigger]
        answers.dom().contains(h) ==> call_ensures(get_block, (&h,), Ok(answers[h]))
}

/// Computes which blocks can be reached in a bounded number of rounds.
#[derive(Clone, Copy, Debug)]
pub struct ReachabilityWalker {
    depth_limit: usize,
}

impl Default for ReachabilityWalker {
    fn default() -> (w: Self)
        ensures
            w.limit() == DEFAULT_REACHABILITY_DEPTH_LIMIT,
    {
        ReachabilityWalker { depth_limit: DEFAULT_REACHABILITY_DEPTH_LIMIT }
    }
}

impl ReachabilityWalker {
    /// The number of rounds.
    pub closed spec fn limit(&self) -> nat {
        self.depth_limit as nat
    }

    /// A walker that makes `depth_limit` rounds.
    #[must_use]
    pub fn with_depth_limit(depth_limit: usize) -> (w: Self)
        ensures
            w.limit() == depth_limit,
    {
        ReachabilityWalker { depth_limit }
    }

    /// The number of rounds.
    #[must_use]
    pub fn depth_limit(&self) -> (n: usize)
        ensures
            n == self.limit(),
    {
        self.depth_limit
    }

    /// Walks from `roots` along the edges that payloads write out. Each block
    /// is asked for once. A root that is not stored stays in the result and
    /// leads nowhere.
    pub fn walk<F: Fn(&crate::hash::Hash) -> Result<Option<Vec<u8>>, StoreError>>(
        &self,
        roots: &[crate::hash::Hash],
        get_block: F,
    ) -> (r: Result<Vec<crate::hash::Hash>, StoreError>)
        requires
            forall|h: &crate::hash::Hash| call_requires(get_block, (h,)),
        ensures
            match r {
                Ok(closure) => table::strictly_sorted(closure@) && exists|
                    answers: Map<crate::hash::Hash, Option<Vec<u8>>>,
                |
                    {
                        &&& #[trigger] are_answers(get_block, answers)
                        &&& answers.dom() == closure@.to_set()
                        &&& closure@.to_set() == reach(
                            roots@.to_set(),
                            edges_of(answers),
                            self.limit(),
                        )
                    },
                Err(e) => exists|
                    answers: Map<crate::hash::Hash, Option<Vec<u8>>>,
                    h: crate::hash::Hash,
                |
                    {
                        &&& #[trigger] are_answers(get_block, answers)
                        &&& #[trigger] reach(
                            roots@.to_set(),
                            edges_of(answers),
                            self.limit(),
                        ).contains(h)
                        &&& call_ensures(get_block, (&h,), Err(e))
                    },
            },
    {
        let ghost rs = roots@.to_set();
        let ghost limit = self.limit();
        let mut visited: Table<crate::hash::Hash> = Table::new();
        let mut level: Vec<crate::hash::Hash> = copy_hashes(roots);
        let mut depth: usize = 0;
        let ghost mut answers: Map<crate::hash::Hash, Option<Vec<u8>>> = Map::empty();
        proof {
            assert(visited.view().to_set() =~= Set::empty());
            assert(answers.dom() =~= visited.view().to_set());
            assert(visited.view().to_set().union(level@.to_set()) =~= rs);
        }
        loop
            invariant
                forall|h: &crate::hash::Hash| call_requires(get_block, (h,)),
                rs == roots@.to_set(),
                limit == self.limit(),
                limit == self.depth_limit,
                depth <= limit,
                visited.wf(),
                are_answers(get_block, answers),
                answers.dom() == visited.view().to_set(),
                depth == 0 ==> visited.view().len() == 0,
                depth > 0 ==> visited.view().to_set() == reach(
                    rs,
                    edges_of(answers),
                    (depth - 1) as nat,
                ),
                visited.view().to_set().union(level@.to_set()) == reach(
                    rs,
                    edges_of(answers),
                    depth as nat,
                ),
            decreases limit - depth,
        {
            let ghost visited0 = visited.view().to_set();
            let ghost answers0 = answers;
            let mut next: Vec<crate::hash::Hash> = Vec::new();
            let mut i: usize = 0;
            proof {
                assert(level@.take(0).to_set() =~= Set::empty());
                assert(visited.view().to_set() =~= visited0.union(level@.take(0).to_set()));
                assert(next@.to_set() =~= Set::empty());
                assert(step(visited0.difference(visited0), edges_of(answers)) =~= Set::empty());
            }
            while i < level.len()
                invariant
                    forall|h: &crate::hash::Hash| call_requires(get_block, (h,)),
                    rs == roots@.to_set(),
                    limit == self.limit(),
                    limit == self.depth_limit,
                    depth <= limit,
                    i <= level@.len(),
                    visited.wf(),
                    are_answers(get_block, answers),
                    answers.dom() == visited.view().to_set(),
                    visited.view().to_set() == visited0.union(level@.take(i as int).to_set()),
                    answers0.dom() == visited0,
                    forall|h: crate::hash::Hash| #[trigger]
                        visited0.contains(h) ==> answers.dom().contains(h) && answers[h]
                            == answers0[h],
                    depth == 0 ==> visited0 == Set::<crate::hash::Hash>::empty(),
                    depth > 0 ==> visited0 == reach(
                        rs,
                        edges_of(answers0),
                        (depth - 1) as nat,
                    ),
                    visited0.union(level@.to_set()) == reach(
                        rs,
                        edges_of(answers0),
                        depth as nat,
                    ),
                    next@.to_set() == step(
                        visited.view().to_set().difference(visited0),
                        edges_of(answers),
                    ),
                decreases level@.len() - i,
            {
                let hash = level[i];
                let ghost seen = visited.view().to_set();
                let ghost taken = level@.take(i as int).to_set();
                proof {
                    assert(level@.take(i + 1) =~= level@.take(i as int).push(hash));
                    lemma_to_set_push(level@.take(i as int), hash);
                    crate::hash::lemma_table_contains(visited, hash);
                }
                if visited.contains(hash.key_bytes()) {
                    proof {
                        assert(seen.contains(hash));
                        assert(visited0.union(level@.take(i + 1).to_set()) =~= seen);
                    }
                    i += 1;
                    continue;
                }
                match get_block(&hash) {
                    Err(e) => {
                        proof {
                            lemma_answers_agree(rs, answers0, answers, depth as nat);
                            assert(level@.contains(hash));
                            assert(level@.to_set().contains(hash));
                            lemma_reach_monotone(
                                rs,
                                edges_of(answers),
                                depth as nat,
                                limit,
                            );
                            assert(reach(rs, edges_of(answers), limit).contains(hash));
                        }
                        return Err(e);
                    },
                    Ok(found) => {
                        let ghost before = visited;
                        let ghost answers1 = answers;
                        let ghost next1 = next@;
                        visited.put(hash);
                        proof {
                            crate::hash::lemma_table_members(before, visited, hash);
                            answers = answers1.insert(hash, found);
                            assert(visited.view().to_set() =~= seen.insert(hash));
                            assert(answers.dom() =~= visited.view().to_set());
                        }
                        if let Some(payload) = &found {
                            let out = extract_outgoing_hashes(payload.as_slice());
                            append_hashes(&mut next, &out);
                            proof {
                                lemma_to_set_concat(next1, out@);
                            }
                        }
                        proof {
                            assert(edges_of(answers)(hash) == (match found {
                                Some(p) => outgoing(p@),
                                None => Seq::empty(),
                            }));
                            lemma_step_grows(
                                seen.difference(visited0),
                                answers1,
                                hash,
                                found,
                            );
                            assert(visited.view().to_set().difference(visited0)
                                =~= seen.difference(visited0).insert(hash));
                            assert(next@.to_set() =~= step(
                                visited.view().to_set().difference(visited0),
                                edges_of(answers),
                            ));
                            assert(visited.view().to_set() =~= visited0.union(
                                level@.take(i + 1).to_set(),
                            ));
                        }
                    },
                }
                i += 1;
            }
            proof {
                assert(level@.take(level@.len() as int) =~= level@);
                lemma_answers_agree(rs, answers0, answers, depth as nat);
                let here = visited.view().to_set();
                assert(here == reach(rs, edges_of(answers), depth as nat));
                lemma_next_level(rs, answers, depth as nat, visited0, here, next@.to_set());
            }
            if depth == self.depth_limit || next.len() == 0 {
                proof {
                    if depth < limit {
                        assert(next@.to_set() =~= Set::empty());
                        assert(reach(rs, edges_of(answers), (depth + 1) as nat) =~= reach(
                            rs,
                            edges_of(answers),
                            depth as nat,
                        ));
                        lemma_reach_settled(rs, edges_of(answers), depth as nat, limit);
                    }
                }
                return Ok(visited.into_rows());
            }
            depth += 1;
            level = next;
        }
    }
}

fn copy_hashes(hashes: &[crate::hash::Hash]) -> (v: Vec<crate::hash::Hash>)
    ensures
        v@ == hashes@,
{
    let mut v: Vec<crate::hash::Hash> = Vec::new();
    let mut i: usize = 0;
    while i < hashes.len()
        invariant
            i <= hashes@.len(),
            v@ == hashes@.take(i as int),
        decreases hashes@.len() - i,
    {
        v.push(hashes[i]);
        assert(hashes@.take(i + 1) =~= hashes@.take(i as int).push(hashes@[i as int]));
        i += 1;
    }
    assert(hashes@.take(hashes@.len() as int) =~= hashes@);
    v
}

fn append_hashes(to: &mut Vec<crate::hash::Hash>, more: &Vec<crate::hash::Hash>)
    ensures
        final(to)@ == old(to)@ + more@,
{
    let mut i: usize = 0;
    let ghost start = to@;
    while i < more.len()
        invariant
            i <= more@.len(),
            to@ == start + more@.take(i as int),
        decreases more@.len() - i,
    {
        to.push(more[i]);
        assert(start + more@.take(i + 1) =~= (start + more@.take(i as int)).push(more@[i as int]));
        i += 1;
    }
    assert(more@.take(more@.len() as int) =~= more@);
}

/// The blocks that a payload leads to.
pub fn extract_outgoing_hashes(payload: &[u8]) -> (v: Vec<crate::hash::Hash>)
    ensures
        v@ == outgoing(payload@),
{
    let mut out: Vec<crate::hash::Hash> = Vec::new();
    match Delta::from_cbor(payload) {
        Some(d) => {
            out.push(d.base_hash);
            let ghost ms = delta::mutations_of(d.ops@);
            let mut i: usize = 0;
            proof {
                assert(out@ =~= seq![d.base_hash] + delta::put_targets(ms.take(0)));
            }
            while i < d.ops.len()
                invariant
                    i <= d.ops@.len(),
                    ms == delta::mutations_of(d.ops@),
                    out@ == seq![d.base_hash] + delta::put_targets(ms.take(i as int)),
                decreases d.ops@.len() - i,
            {
                proof {
                    assert(ms.take(i + 1).drop_last() =~= ms.take(i as int));
                    assert(ms.take(i + 1).last() == d.ops@[i as int].view());
                }
                if let Op::Put { hash, .. } = &d.ops[i] {
                    out.push(*hash);
                    assert(out@ =~= seq![d.base_hash] + delta::put_targets(
                        ms.take(i as int),
                    ).push(*hash));
                }
                i += 1;
            }
            assert(ms.take(ms.len() as int) =~= ms);
        },
        None => {},
    }
    out
}

proof fn lemma_to_set_push(s: Seq<crate::hash::Hash>, h: crate::hash::Hash)
    ensures
        s.push(h).to_set() == s.to_set().insert(h),
{
    assert forall|x: crate::hash::Hash| #[trigger]
        s.push(h).to_set().contains(x) == s.to_set().insert(h).contains(x) by {
        if s.contains(x) {
            let i = choose|i: int| 0 <= i < s.len() && s[i] == x;
            assert(s.push(h)[i] == x);
        }
        assert(s.push(h)[s.len() as int] == h);
    }
    assert(s.push(h).to_set() =~= s.to_set().insert(h));
}

proof fn lemma_to_set_concat(a: Seq<crate::hash::Hash>, b: Seq<crate::hash::Hash>)
    ensures
        (a + b).to_set() == a.to_set().union(b.to_set()),
{
    assert forall|x: crate::hash::Hash| #[trigger]
        (a + b).to_set().contains(x) == a.to_set().union(b.to_set()).contains(x) by {
        if a.contains(x) {
            let i = choose|i: int| 0 <= i < a.len() && a[i] == x;
            assert((a + b)[i] == x);
        }
        if b.contains(x) {
            let i = choose|i: int| 0 <= i < b.len() && b[i] == x;
            assert((a + b)[a.len() + i] == x);
        }
    }
    assert((a + b).to_set() =~= a.to_set().union(b.to_set()));
}

/// How far one gets depends only on the edges of the blocks on the way.
pub proof fn lemma_reach_congruent(
    roots: Set<crate::hash::Hash>,
    a: Edges,
    b: Edges,
    n: nat,
)
    requires
        n > 0 ==> forall|h: crate::hash::Hash| #[trigger]
            reach(roots, a, (n - 1) as nat).contains(h) ==> a(h) == b(h),
    ensures
        reach(roots, a, n) == reach(roots, b, n),
    decreases n,
{
    if n > 0 {
        let m = (n - 1) as nat;
        if m > 0 {
            lemma_reach_monotone(roots, a, (m - 1) as nat, m);
        }
        lemma_reach_congruent(roots, a, b, m);
        let near = reach(roots, a, m);
        assert forall|t: crate::hash::Hash| step(near, a).contains(t) == step(near, b).contains(t) by {
            if step(near, a).contains(t) {
                let h = choose|h: crate::hash::Hash| near.contains(h) && (#[trigger] a(h)).contains(t);
                assert(near.contains(h) && b(h).contains(t));
            }
            if step(near, b).contains(t) {
                let h = choose|h: crate::hash::Hash| near.contains(h) && (#[trigger] b(h)).contains(t);
                assert(near.contains(h) && a(h).contains(t));
            }
        }
        assert(step(near, a) =~= step(near, b));
    }
}

/// More rounds reach at least as far.
pub proof fn lemma_reach_monotone(
    roots: Set<crate::hash::Hash>,
    edges: Edges,
    n: nat,
    m: nat,
)
    requires
        n <= m,
    ensures
        reach(roots, edges, n).subset_of(reach(roots, edges, m)),
    decreases m,
{
    if n < m {
        lemma_reach_monotone(roots, edges, n, (m - 1) as nat);
    }
}

/// Once a round adds nothing, no later round does.
pub proof fn lemma_reach_settled(
    roots: Set<crate::hash::Hash>,
    edges: Edges,
    n: nat,
    m: nat,
)
    requires
        n <= m,
        reach(roots, edges, n + 1) == reach(roots, edges, n),
    ensures
        reach(roots, edges, m) == reach(roots, edges, n),
    decreases m,
{
    if n < m {
        lemma_reach_settled(roots, edges, n, (m - 1) as nat);
    }
}

proof fn lemma_answers_agree(
    roots: Set<crate::hash::Hash>,
    a: Map<crate::hash::Hash, Option<Vec<u8>>>,
    b: Map<crate::hash::Hash, Option<Vec<u8>>>,
    n: nat,
)
    requires
        n > 0 ==> a.dom() == reach(roots, edges_of(a), (n - 1) as nat),
        forall|h: crate::hash::Hash| #[trigger]
            a.dom().contains(h) ==> b.dom().contains(h) && b[h] == a[h],
    ensures
        reach(roots, edges_of(a), n) == reach(roots, edges_of(b), n),
        n > 0 ==> reach(roots, edges_of(a), (n - 1) as nat) == reach(
            roots,
            edges_of(b),
            (n - 1) as nat,
        ),
{
    if n > 0 {
        assert forall|h: crate::hash::Hash| #[trigger]
            reach(roots, edges_of(a), (n - 1) as nat).contains(h) implies edges_of(a)(h)
            == edges_of(b)(h) by {
            assert(a.dom().contains(h));
        }
        lemma_reach_congruent(roots, edges_of(a), edges_of(b), n);
        if n > 1 {
            lemma_reach_monotone(roots, edges_of(a), (n - 2) as nat, (n - 1) as nat);
        }
        lemma_reach_congruent(roots, edges_of(a), edges_of(b), (n - 1) as nat);
    } else {
        lemma_reach_congruent(roots, edges_of(a), edges_of(b), 0);
    }
}

proof fn lemma_step_grows(
    from: Set<crate::hash::Hash>,
    answers: Map<crate::hash::Hash, Option<Vec<u8>>>,
    h: crate::hash::Hash,
    found: Option<Vec<u8>>,
)
    requires
        !answers.dom().contains(h),
        !from.contains(h),
    ensures
        step(from.insert(h), edges_of(answers.insert(h, found))) == step(
            from,
            edges_of(answers),
        ).union(
            match found {
                Some(p) => outgoing(p@).to_set(),
                None => Set::empty(),
            },
        ),
{
    let e0 = edges_of(answers);
    let e1 = edges_of(answers.insert(h, found));
    let new = match found {
        Some(p) => outgoing(p@).to_set(),
        None => Set::empty(),
    };
    let grown = step(from.insert(h), e1);
    let joined = step(from, e0).union(new);
    assert forall|t: crate::hash::Hash| #[trigger] grown.contains(t) == joined.contains(t) by {
        if step(from.insert(h), e1).contains(t) {
            let x = choose|x: crate::hash::Hash|
                from.insert(h).contains(x) && (#[trigger] e1(x)).contains(t);
            if x != h {
                assert(e0(x) == e1(x));
                assert(from.contains(x) && e0(x).contains(t));
            }
        }
        if step(from, e0).contains(t) {
            let x = choose|x: crate::hash::Hash| from.contains(x) && (#[trigger] e0(x)).contains(t);
            assert(e0(x) == e1(x));
            assert(from.insert(h).contains(x) && e1(x).contains(t));
        }
        if new.contains(t) {
            assert(from.insert(h).contains(h) && e1(h).contains(t));
        }
    }
    assert(grown =~= joined);
}

proof fn lemma_next_level(
    roots: Set<crate::hash::Hash>,
    answers: Map<crate::hash::Hash, Option<Vec<u8>>>,
    depth: nat,
    before: Set<crate::hash::Hash>,
    here: Set<crate::hash::Hash>,
    next: Set<crate::hash::Hash>,
)
    requires
        here == reach(roots, edges_of(answers), depth),
        depth == 0 ==> before == Set::<crate::hash::Hash>::empty(),
        depth > 0 ==> before == reach(roots, edges_of(answers), (depth - 1) as nat),
        next == step(here.difference(before), edges_of(answers)),
    ensures
        here.union(next) == reach(roots, edges_of(answers), depth + 1),
{
    let e = edges_of(answers);
    assert forall|t: crate::hash::Hash| here.union(next).contains(t) == here.union(
        step(here, e),
    ).contains(t) by {
        if step(here, e).contains(t) {
            let h = choose|h: crate::hash::Hash| here.contains(h) && (#[trigger] e(h)).contains(t);
            if before.contains(h) {
                assert(step(before, e).contains(t));
                assert(here.contains(t));
            } else {
                assert(here.difference(before).contains(h) && e(h).contains(t));
            }
        }
        if next.contains(t) {
            let h = choose|h: crate::hash::Hash|
                here.difference(before).contains(h) && (#[trigger] e(h)).contains(t);
            assert(here.contains(h) && e(h).contains(t));
        }
    }
    assert(here.union(next) =~= here.union(step(here, e)));
}

/// A payload leads to the base of the delta that it writes out and to every
/// block that the delta puts, and a payload that is no delta leads nowhere.
pub proof fn law_payload_leads_where_its_delta_does(payload: Seq<u8>, h: crate::hash::Hash)
    ensures
        outgoing(payload).contains(h) <==> (delta::mutations_of_bytes(payload) matches Some(m) && (h
            == m.base || exists|j: int|
            0 <= j < m.ops.len() && (#[trigger] m.ops[j]) is Put && m.ops[j]->Put_1 == h)),
{
    if let Some(m) = delta::mutations_of_bytes(payload) {
        delta::law_delta_leads_to_base_and_every_put(m, 0, h);
        if exists|j: int|
            0 <= j < m.ops.len() && (#[trigger] m.ops[j]) is Put && m.ops[j]->Put_1 == h {
            let j = choose|j: int|
                0 <= j < m.ops.len() && (#[trigger] m.ops[j]) is Put && m.ops[j]->Put_1 == h;
            delta::law_delta_leads_to_base_and_every_put(m, j, h);
        }
    }
}

/// `path` starts at a root and follows an edge at every step.
pub open spec fn is_path(
    roots: Set<crate::hash::Hash>,
    edges: Edges,
    path: Seq<crate::hash::Hash>,
) -> bool {
    &&& path.len() > 0
    &&& roots.contains(path[0])
    &&& forall|k: int| 0 <= k < path.len() - 1 ==> edges(#[trigger] path[k]).contains(path[k + 1])
}

/// A block is reached in `n` rounds exactly where a path of at most `n` edges
/// leads to it from a root.
pub proof fn law_reached_by_a_path(
    roots: Set<crate::hash::Hash>,
    edges: Edges,
    n: nat,
    h: crate::hash::Hash,
)
    ensures
        reach(roots, edges, n).contains(h) <==> exists|path: Seq<crate::hash::Hash>| #[trigger]
            is_path(roots, edges, path) && path.len() <= n + 1 && path.last() == h,
    decreases n,
{
    if reach(roots, edges, n).contains(h) {
        lemma_path_to(roots, edges, n, h);
    }
    if exists|path: Seq<crate::hash::Hash>| #[trigger]
        is_path(roots, edges, path) && path.len() <= n + 1 && path.last() == h {
        let path = choose|path: Seq<crate::hash::Hash>| #[trigger]
            is_path(roots, edges, path) && path.len() <= n + 1 && path.last() == h;
        lemma_path_reaches(roots, edges, path);
        lemma_reach_monotone(roots, edges, (path.len() - 1) as nat, n);
    }
}

proof fn lemma_path_to(
    roots: Set<crate::hash::Hash>,
    edges: Edges,
    n: nat,
    h: crate::hash::Hash,
)
    requires
        reach(roots, edges, n).contains(h),
    ensures
        exists|path: Seq<crate::hash::Hash>| #[trigger]
            is_path(roots, edges, path) && path.len() <= n + 1 && path.last() == h,
    decreases n,
{
    if n == 0 {
        assert(is_path(roots, edges, seq![h]));
        assert(seq![h].last() == h);
    } else {
        let near = reach(roots, edges, (n - 1) as nat);
        if near.contains(h) {
            lemma_path_to(roots, edges, (n - 1) as nat, h);
        } else {
            let x = choose|x: crate::hash::Hash|
                near.contains(x) && (#[trigger] edges(x)).contains(h);
            lemma_path_to(roots, edges, (n - 1) as nat, x);
            let path = choose|path: Seq<crate::hash::Hash>| #[trigger]
                is_path(roots, edges, path) && path.len() <= n && path.last() == x;
            let longer = path.push(h);
            assert forall|k: int| 0 <= k < longer.len() - 1 implies edges(
                #[trigger] longer[k],
            ).contains(longer[k + 1]) by {
                if k < path.len() - 1 {
                    assert(edges(path[k]).contains(path[k + 1]));
                }
            }
            assert(is_path(roots, edges, longer));
            assert(longer.last() == h);
        }
    }
}

proof fn lemma_path_reaches(
    roots: Set<crate::hash::Hash>,
    edges: Edges,
    path: Seq<crate::hash::Hash>,
)
    requires
        is_path(roots, edges, path),
    ensures
        reach(roots, edges, (path.len() - 1) as nat).contains(path.last()),
    decreases path.len(),
{
    if path.len() > 1 {
        let shorter = path.drop_last();
        assert forall|k: int| 0 <= k < shorter.len() - 1 implies edges(
            #[trigger] shorter[k],
        ).contains(shorter[k + 1]) by {
            assert(edges(path[k]).contains(path[k + 1]));
        }
        lemma_path_reaches(roots, edges, shorter);
        let x = path[path.len() - 2];
        assert(shorter.last() == x);
        assert(edges(x).contains(path[path.len() - 2 + 1]));
        assert(step(reach(roots, edges, (path.len() - 2) as nat), edges).contains(path.last()));
    }
}

/// A walk follows the payloads that it was given: a block leads where its
/// answered payload does, and nowhere where none was answered.
pub proof fn law_edges_follow_answers(
    answers: Map<crate::hash::Hash, Option<Vec<u8>>>,
    h: crate::hash::Hash,
)
    ensures
        answers.dom().contains(h) && answers[h] is Some ==> edges_of(answers)(h) == outgoing(
            answers[h]->0@,
        ),
        !(answers.dom().contains(h) && answers[h] is Some) ==> edges_of(answers)(h).len() == 0,
{
}

} // verus!
