//! The workspace closure: a snapshot of a namespace with pending mutations,
//! pending effects and the authority to make them.

use vstd::prelude::*;
use vstd::view::View as _;

use crate::capability;
use crate::capability::{Capability, OpSet};
use crate::delta;
use crate::delta::Delta;
use crate::error::ReelError;
use crate::interop::ids;
use crate::namespace::Namespace;
use crate::status::Status;
use crate::text;
use crate::text::{decimal_string, join, quoted, starts_with};

verus! {

/// The deepest nesting of forked views.
pub const MAX_FORK_DEPTH: u32 = 64;

/// The identifier of a [`View`], a version 7 UUID.
#[derive(Clone, Copy, Debug, PartialEq, Eq, PartialOrd, Ord, Hash, Structural)]
pub struct ViewId(pub u128);

impl ViewId {
    /// Makes a fresh identifier.
    #[must_use]
    pub fn new_v7() -> (id: Self)
        ensures
            ids::uuid_version(id.0) == 7,
            ids::uuid_variant(id.0) == 2,
    {
        ViewId(ids::fresh_uuid())
    }

    /// Renders the identifier in the usual hyphenated form.
    pub fn to_string(&self) -> (s: String)
        ensures
            s@ == ids::uuid_text(self.0),
    {
        ids::render_uuid(self.0)
    }
}

/// A workspace closure.
#[derive(Debug, PartialEq, Eq)]
pub struct View {
    /// The identifier.
    pub id: ViewId,
    /// The names that are visible inside the view.
    pub namespace: Namespace,
    /// The pending mutations.
    pub delta: Delta,
    /// The authority of the view.
    pub caps: Vec<Capability>,
    /// The block that holds the pending remote effects, if there are any.
    pub effects_hash: Option<crate::hash::Hash>,
    /// The lifecycle state.
    pub status: Status,
    /// The view that this one was forked from.
    pub parent: Option<ViewId>,
}

/// What a [`View`] holds.
pub struct Workspace {
    /// The identifier.
    pub id: ViewId,
    /// The visible bindings.
    pub namespace: Map<Seq<char>, crate::hash::Hash>,
    /// The pending mutations.
    pub delta: delta::Mutations,
    /// The authority.
    pub caps: Seq<capability::Authority>,
    /// The block with the pending effects.
    pub effects: Option<crate::hash::Hash>,
    /// The lifecycle state.
    pub status: Status,
    /// The parent.
    pub parent: Option<ViewId>,
}

/// What a list of capabilities holds.
pub open spec fn authorities(caps: Seq<Capability>) -> Seq<capability::Authority> {
    caps.map_values(|c: Capability| c.view())
}

/// Some authority of `parents` covers `child`.
pub open spec fn is_covered(
    parents: Seq<capability::Authority>,
    child: capability::Authority,
) -> bool {
    exists|i: int| 0 <= i < parents.len() && (#[trigger] parents[i]).covers(child)
}

/// Every authority of `children` is covered by one of `parents`.
pub open spec fn is_narrowing(
    parents: Seq<capability::Authority>,
    children: Seq<capability::Authority>,
) -> bool {
    forall|i: int| 0 <= i < children.len() ==> is_covered(parents, #[trigger] children[i])
}

/// The first authority of `children` that none of `parents` covers stands at
/// `i`.
pub open spec fn first_uncovered(
    parents: Seq<capability::Authority>,
    children: Seq<capability::Authority>,
    i: int,
) -> bool {
    &&& 0 <= i < children.len()
    &&& !is_covered(parents, children[i])
    &&& forall|j: int| 0 <= j < i ==> is_covered(parents, #[trigger] children[j])
}

/// Kinds in braces, as a set is shown.
pub open spec fn set_text(kinds: Set<capability::OpKind>) -> Seq<char> {
    "{"@ + text::joined(
        capability::kind_names(capability::kinds_in(capability::all_kinds(), kinds)),
        ", "@,
    ) + "}"@
}

/// Kinds in square brackets, as a list is shown.
pub open spec fn list_text(kinds: Set<capability::OpKind>) -> Seq<char> {
    "["@ + text::joined(
        capability::kind_names(capability::kinds_in(capability::all_kinds(), kinds)),
        ", "@,
    ) + "]"@
}

/// An authority as diagnostics show it.
pub open spec fn authority_text(a: capability::Authority) -> Seq<char> {
    "{path_prefix="@ + text::quoted_text(a.path_prefix) + ", op_set="@ + set_text(a.op_set.view())
        + ", ttl="@ + text::decimal(a.ttl as nat) + "}"@
}

/// The number of bytes from position `i` on that `a` and `b` have in common,
/// added to `i`.
pub open spec fn common_from(a: Seq<u8>, b: Seq<u8>, i: int) -> int
    decreases a.len() - i,
{
    if 0 <= i < a.len() && i < b.len() && a[i] == b[i] {
        common_from(a, b, i + 1)
    } else {
        i
    }
}

/// How well the prefix of `parent` fits `child`: a prefix that covers beats
/// one that does not, and then the longer match wins.
pub open spec fn fit(parent: capability::Authority, child: capability::Authority) -> int {
    if text::has_prefix(child.path_prefix, parent.path_prefix) {
        text::utf8(parent.path_prefix).len() as int + 1000000
    } else {
        common_from(text::utf8(parent.path_prefix), text::utf8(child.path_prefix), 0)
    }
}

/// The last one of the best fitting authorities stands at `i`.
pub open spec fn is_closest(
    parents: Seq<capability::Authority>,
    child: capability::Authority,
    i: int,
) -> bool {
    &&& 0 <= i < parents.len()
    &&& forall|j: int| 0 <= j < parents.len() ==> fit(#[trigger] parents[j], child) <= fit(parents[i], child)
    &&& forall|j: int| i < j < parents.len() ==> fit(#[trigger] parents[j], child) < fit(parents[i], child)
}

/// The axes on which `child` goes beyond `parent`, one text each.
pub open spec fn widened_axes(
    parent: capability::Authority,
    child: capability::Authority,
) -> Seq<Seq<char>> {
    let prefix = if text::has_prefix(child.path_prefix, parent.path_prefix) {
        Seq::empty()
    } else {
        seq![
            "path_prefix "@ + text::quoted_text(child.path_prefix)
                + " is not under parent prefix "@ + text::quoted_text(parent.path_prefix),
        ]
    };
    let ops = if child.op_set.view().subset_of(parent.op_set.view()) {
        Seq::empty()
    } else {
        seq![
            "op_set adds "@ + list_text(child.op_set.view().difference(parent.op_set.view()))
                + " not present in parent op_set "@ + set_text(parent.op_set.view()),
        ]
    };
    let ttl = if parent.ttl != 0 && child.ttl == 0 {
        seq!["ttl=0 (unbounded) exceeds parent ttl="@ + text::decimal(parent.ttl as nat)]
    } else if parent.ttl != 0 && child.ttl > parent.ttl {
        seq![
            "ttl="@ + text::decimal(child.ttl as nat) + " exceeds parent ttl="@ + text::decimal(
                parent.ttl as nat,
            ),
        ]
    } else {
        Seq::empty()
    };
    prefix + ops + ttl
}

/// The diagnostic that names the axes on which `child` goes beyond the closest
/// of `parents`.
pub open spec fn widening_text(
    parents: Seq<capability::Authority>,
    child: capability::Authority,
) -> Seq<char> {
    if parents.len() == 0 {
        "I-003 violation: parent capability set is empty; child "@ + authority_text(child)
            + " cannot be derived"@
    } else {
        let p = parents[choose|i: int| is_closest(parents, child, i)];
        let axes = widened_axes(p, child);
        "I-003 violation: child capability "@ + authority_text(child) + " widens parent "@
            + authority_text(p) + ": "@ + (if axes.len() == 0 {
            "(no axis named; check derivation)"@
        } else {
            text::joined(axes, "; "@)
        })
    }
}

/// The diagnostic for the first of `children` that is not covered.
pub open spec fn narrowing_refusal(
    parents: Seq<capability::Authority>,
    children: Seq<capability::Authority>,
) -> Seq<char> {
    widening_text(parents, children[choose|i: int| first_uncovered(parents, children, i)])
}

/// The digest of 32 zero bytes, which an empty delta starts from.
pub open spec fn is_zero_hash(h: crate::hash::Hash) -> bool {
    forall|i: int| 0 <= i < 32 ==> #[trigger] h.view()[i] == 0
}

fn zero_hash() -> (h: crate::hash::Hash)
    ensures
        is_zero_hash(h),
{
    crate::hash::Hash::from_bytes([0u8; 32])
}

/// A view as it starts out: no mutations, no effects, active.
pub open spec fn is_fresh(v: Workspace) -> bool {
    &&& is_zero_hash(v.delta.base)
    &&& v.delta.ops.len() == 0
    &&& v.effects is None
    &&& v.status == Status::Active
    &&& ids::uuid_version(v.id.0) == 7
    &&& ids::uuid_variant(v.id.0) == 2
}

/// The parent that is asked for after the first `i` answers.
pub open spec fn asked_parent(first: Option<ViewId>, answers: Seq<View>, i: int) -> Option<ViewId> {
    if i == 0 {
        first
    } else {
        answers[i - 1].parent
    }
}

/// `lookup` may answer `answers[i]` when it is asked for the parent that the
/// answers before it lead to.
pub open spec fn is_answer<F: Fn(ViewId) -> Result<View, ReelError>>(
    first: Option<ViewId>,
    lookup: F,
    answers: Seq<View>,
    i: int,
) -> bool {
    &&& asked_parent(first, answers, i) is Some
    &&& call_ensures(lookup, (asked_parent(first, answers, i)->0,), Ok(answers[i]))
}

/// `answers` are what `lookup` may answer when it is asked for the parent
/// `first`, then for that view's parent, and so on.
pub open spec fn is_ancestry<F: Fn(ViewId) -> Result<View, ReelError>>(
    first: Option<ViewId>,
    lookup: F,
    answers: Seq<View>,
) -> bool {
    forall|i: int| 0 <= i < answers.len() ==> #[trigger] is_answer(first, lookup, answers, i)
}

/// What forking a view off `parent` with the authority `caps` gives: a fresh
/// view where the parent is active and its authority covers `caps`, and an
/// error that says which of the two fails otherwise.
pub open spec fn is_fork(parent: View, caps: Vec<Capability>, r: Result<View, ReelError>) -> bool {
    let parents = authorities(parent.caps@);
    let children = authorities(caps@);
    if parent.status != Status::Active {
        r == Err::<View, ReelError>(ReelError::ViewTerminal(parent.status))
    } else if !is_narrowing(parents, children) {
        r matches Err(e) && e.is_capability_violation(narrowing_refusal(parents, children))
    } else {
        &&& r matches Ok(v)
        &&& is_fresh(v.view())
        &&& v.namespace.view() == parent.namespace.view()
        &&& v.caps == caps
        &&& v.parent == Some(parent.id)
    }
}

impl View {
    /// What the view holds.
    pub open spec fn view(&self) -> Workspace {
        Workspace {
            id: self.id,
            namespace: self.namespace.view(),
            delta: self.delta.view(),
            caps: authorities(self.caps@),
            effects: self.effects_hash,
            status: self.status,
            parent: self.parent,
        }
    }

    /// Makes a fresh view without a parent.
    #[must_use]
    pub fn root(caps: Vec<Capability>) -> (v: Self)
        ensures
            is_fresh(v.view()),
            v.namespace.view() == Map::<Seq<char>, crate::hash::Hash>::empty(),
            v.caps == caps,
            v.parent is None,
    {
        View {
            id: ViewId::new_v7(),
            namespace: Namespace::new(),
            delta: Delta::empty(zero_hash()),
            caps,
            effects_hash: None,
            status: Status::Active,
            parent: None,
        }
    }

    /// Forks a fresh view off `parent`, with the namespace of `parent` and
    /// with authority that `parent` covers.
    pub fn child_of(parent: &Self, attenuated_caps: Vec<Capability>) -> (r: Result<Self, ReelError>)
        ensures
            is_fork(*parent, attenuated_caps, r),
    {
        if !parent.is_active() {
            return Err(ReelError::ViewTerminal(parent.status));
        }
        match validate_narrowing(&parent.caps, &attenuated_caps) {
            Ok(()) => Ok(
                View {
                    id: ViewId::new_v7(),
                    namespace: parent.namespace.clone(),
                    delta: Delta::empty(zero_hash()),
                    caps: attenuated_caps,
                    effects_hash: None,
                    status: Status::Active,
                    parent: Some(parent.id),
                },
            ),
            Err(e) => Err(e),
        }
    }

    /// Whether the view is active.
    #[must_use]
    pub fn is_active(&self) -> (b: bool)
        ensures
            b == (self.status == Status::Active),
    {
        matches!(self.status, Status::Active)
    }

    /// Whether the view was committed.
    #[must_use]
    pub fn is_committed(&self) -> (b: bool)
        ensures
            b == (self.status == Status::Committed),
    {
        matches!(self.status, Status::Committed)
    }

    /// Whether the view was aborted.
    #[must_use]
    pub fn is_aborted(&self) -> (b: bool)
        ensures
            b == (self.status == Status::Aborted),
    {
        matches!(self.status, Status::Aborted)
    }

    /// Whether the view has ended.
    #[must_use]
    pub fn is_terminal(&self) -> (b: bool)
        ensures
            b == (self.status != Status::Active),
    {
        self.status.is_terminal()
    }

    /// Ends an active view. Any other transition is refused and changes
    /// nothing.
    pub fn transition_to(&mut self, new_status: Status) -> (r: Result<(), ReelError>)
        ensures
            r is Ok <==> old(self).status == Status::Active && new_status != Status::Active,
            r is Ok ==> *final(self) == (View { status: new_status, ..*old(self) }),
            r matches Err(e) ==> e == ReelError::ViewTerminal(old(self).status) && *final(self)
                == *old(self),
    {
        match (self.status, new_status) {
            (Status::Active, Status::Committed) | (Status::Active, Status::Aborted) => {
                self.status = new_status;
                Ok(())
            },
            _ => Err(ReelError::ViewTerminal(self.status)),
        }
    }

    /// Counts the ancestors, asking `lookup` for one after the other.
    pub fn depth<F: Fn(ViewId) -> Result<View, ReelError>>(&self, lookup: F) -> (r: Result<
        u32,
        ReelError,
    >)
        requires
            forall|id: ViewId| call_requires(lookup, (id,)),
        ensures
            match r {
                Ok(n) => n <= MAX_FORK_DEPTH && exists|answers: Seq<View>|
                    {
                        &&& #[trigger] is_ancestry(self.parent, lookup, answers)
                        &&& answers.len() == n
                        &&& asked_parent(self.parent, answers, n as int) is None
                    },
                Err(e) => exists|answers: Seq<View>|
                    {
                        &&& #[trigger] is_ancestry(self.parent, lookup, answers)
                        &&& asked_parent(self.parent, answers, answers.len() as int) is Some
                        &&& if answers.len() == MAX_FORK_DEPTH {
                            e == ReelError::ForkDepthExceeded((MAX_FORK_DEPTH + 1) as u32)
                        } else {
                            answers.len() < MAX_FORK_DEPTH && call_ensures(
                                lookup,
                                (asked_parent(self.parent, answers, answers.len() as int)->0,),
                                Err(e),
                            )
                        }
                    },
            },
    {
        let mut depth: u32 = 0;
        let mut current_parent = self.parent;
        let ghost mut answers: Seq<View> = Seq::empty();
        loop
            invariant
                depth <= MAX_FORK_DEPTH,
                answers.len() == depth,
                is_ancestry(self.parent, lookup, answers),
                current_parent == asked_parent(self.parent, answers, depth as int),
                forall|id: ViewId| call_requires(lookup, (id,)),
            decreases MAX_FORK_DEPTH - depth,
        {
            let parent_id = match current_parent {
                Some(id) => id,
                None => {
                    return Ok(depth);
                },
            };
            if depth == MAX_FORK_DEPTH {
                return Err(ReelError::ForkDepthExceeded(depth + 1));
            }
            depth = depth + 1;
            let parent = match lookup(parent_id) {
                Ok(v) => v,
                Err(e) => {
                    return Err(e);
                },
            };
            current_parent = parent.parent;
            proof {
                let more = answers.push(parent);
                assert forall|i: int| 0 <= i < more.len() implies #[trigger] is_answer(
                    self.parent,
                    lookup,
                    more,
                    i,
                ) by {
                    assert(asked_parent(self.parent, more, i) == asked_parent(
                        self.parent,
                        answers,
                        i,
                    ));
                    if i < answers.len() {
                        assert(is_answer(self.parent, lookup, answers, i));
                    }
                }
                answers = more;
            }
        }
    }
}

impl Clone for View {
    fn clone(&self) -> (v: Self)
        ensures
            v.view() == self.view(),
    {
        let mut caps: Vec<Capability> = Vec::new();
        let mut i: usize = 0;
        while i < self.caps.len()
            invariant
                i <= self.caps@.len(),
                caps@.len() == i,
                forall|j: int| 0 <= j < i ==> (#[trigger] caps@[j]).view() == self.caps@[j].view(),
            decreases self.caps@.len() - i,
        {
            caps.push(self.caps[i].clone());
            i += 1;
        }
        assert(authorities(caps@) =~= authorities(self.caps@));
        View {
            id: self.id,
            namespace: self.namespace.clone(),
            delta: self.delta.clone(),
            caps,
            effects_hash: self.effects_hash,
            status: self.status,
            parent: self.parent,
        }
    }
}

/// Checks that every capability of `child_caps` is covered by one of
/// `parent_caps`.
pub fn validate_narrowing(parent_caps: &Vec<Capability>, child_caps: &Vec<Capability>) -> (r: Result<
    (),
    ReelError,
>)
    ensures
        r is Ok <==> is_narrowing(authorities(parent_caps@), authorities(child_caps@)),
        r matches Err(e) ==> e.is_capability_violation(
            narrowing_refusal(authorities(parent_caps@), authorities(child_caps@)),
        ),
{
    let ghost ps = authorities(parent_caps@);
    let ghost cs = authorities(child_caps@);
    let mut i: usize = 0;
    while i < child_caps.len()
        invariant
            i <= child_caps@.len(),
            ps == authorities(parent_caps@),
            cs == authorities(child_caps@),
            forall|j: int| 0 <= j < i ==> is_covered(ps, #[trigger] cs[j]),
        decreases child_caps@.len() - i,
    {
        let child = &child_caps[i];
        assert(cs[i as int] == child.view());
        if !any_covers(parent_caps, child) {
            proof {
                assert(first_uncovered(ps, cs, i as int));
                let k = choose|k: int| first_uncovered(ps, cs, k);
                if k < i {
                    assert(is_covered(ps, cs[k]));
                } else if i < k {
                    assert(is_covered(ps, cs[i as int]));
                }
            }
            let diag = diagnose_widening(parent_caps, child);
            return Err(ReelError::CapabilityViolation(diag));
        }
        i += 1;
    }
    Ok(())
}

fn any_covers(parent_caps: &Vec<Capability>, child: &Capability) -> (b: bool)
    ensures
        b == is_covered(authorities(parent_caps@), child.view()),
{
    let ghost ps = authorities(parent_caps@);
    let mut i: usize = 0;
    while i < parent_caps.len()
        invariant
            i <= parent_caps@.len(),
            ps == authorities(parent_caps@),
            forall|j: int| 0 <= j < i ==> !(#[trigger] ps[j]).covers(child.view()),
        decreases parent_caps@.len() - i,
    {
        assert(ps[i as int] == parent_caps@[i as int].view());
        if covers(&parent_caps[i], child) {
            return true;
        }
        i += 1;
    }
    false
}

/// Whether `parent` covers `child`.
pub fn covers(parent: &Capability, child: &Capability) -> (b: bool)
    ensures
        b == parent.view().covers(child.view()),
{
    parent.covers(child)
}

pub(crate) fn set_string(set: &OpSet) -> (s: String)
    ensures
        s@ == set_text(set.view()),
{
    String::from_str("{").concat(join(&set.names(), ", ").as_str()).concat("}")
}

fn list_string(set: &OpSet) -> (s: String)
    ensures
        s@ == list_text(set.view()),
{
    String::from_str("[").concat(join(&set.names(), ", ").as_str()).concat("]")
}

fn authority_string(c: &Capability) -> (s: String)
    ensures
        s@ == authority_text(c.view()),
{
    String::from_str("{path_prefix=").concat(quoted(c.path_prefix.as_str()).as_str()).concat(
        ", op_set=",
    ).concat(set_string(&c.op_set).as_str()).concat(", ttl=").concat(
        decimal_string(c.ttl).as_str(),
    ).concat("}")
}

/// Names the axes on which `child` goes beyond the closest of `parent_caps`.
pub fn diagnose_widening(parent_caps: &Vec<Capability>, child: &Capability) -> (s: String)
    ensures
        s@ == widening_text(authorities(parent_caps@), child.view()),
{
    let child_fmt = authority_string(child);
    let closest = match closest_parent(parent_caps, child) {
        Some(p) => p,
        None => {
            return String::from_str(
                "I-003 violation: parent capability set is empty; child ",
            ).concat(child_fmt.as_str()).concat(" cannot be derived");
        },
    };
    let ghost p = closest.view();
    let ghost c = child.view();
    let mut failures: Vec<String> = Vec::new();
    if !starts_with(child.path_prefix.as_str(), closest.path_prefix.as_str()) {
        failures.push(
            String::from_str("path_prefix ").concat(
                quoted(child.path_prefix.as_str()).as_str(),
            ).concat(" is not under parent prefix ").concat(
                quoted(closest.path_prefix.as_str()).as_str(),
            ),
        );
    }
    if !child.op_set.is_subset(&closest.op_set) {
        let extra = child.op_set.difference(&closest.op_set);
        failures.push(
            String::from_str("op_set adds ").concat(list_string(&extra).as_str()).concat(
                " not present in parent op_set ",
            ).concat(set_string(&closest.op_set).as_str()),
        );
    }
    if closest.ttl != 0 && child.ttl == 0 {
        failures.push(
            String::from_str("ttl=0 (unbounded) exceeds parent ttl=").concat(
                decimal_string(closest.ttl).as_str(),
            ),
        );
    } else if closest.ttl != 0 && child.ttl > closest.ttl {
        failures.push(
            String::from_str("ttl=").concat(decimal_string(child.ttl).as_str()).concat(
                " exceeds parent ttl=",
            ).concat(decimal_string(closest.ttl).as_str()),
        );
    }
    assert(text::texts(failures@) =~= widened_axes(p, c));
    let axes = if failures.len() == 0 {
        String::from_str("(no axis named; check derivation)")
    } else {
        join(&failures, "; ")
    };
    String::from_str("I-003 violation: child capability ").concat(child_fmt.as_str()).concat(
        " widens parent ",
    ).concat(authority_string(closest).as_str()).concat(": ").concat(axes.as_str())
}

fn fit_of(parent: &Capability, child: &Capability) -> (n: u128)
    ensures
        n == fit(parent.view(), child.view()),
{
    if starts_with(child.path_prefix.as_str(), parent.path_prefix.as_str()) {
        parent.path_prefix.as_str().as_bytes().len() as u128 + 1000000
    } else {
        common_prefix_len(parent.path_prefix.as_str(), child.path_prefix.as_str()) as u128
    }
}

/// The capability whose prefix fits `child` best; of several the last one.
pub fn closest_parent<'a>(parent_caps: &'a Vec<Capability>, child: &Capability) -> (r: Option<
    &'a Capability,
>)
    ensures
        match r {
            Some(p) => parent_caps@.len() > 0 && authorities(parent_caps@)[choose|i: int|
                is_closest(authorities(parent_caps@), child.view(), i)] == p.view(),
            None => parent_caps@.len() == 0,
        },
{
    if parent_caps.len() == 0 {
        return None;
    }
    let ghost ps = authorities(parent_caps@);
    let ghost c = child.view();
    let mut best: usize = 0;
    let mut best_fit: u128 = fit_of(&parent_caps[0], child);
    let mut i: usize = 1;
    while i < parent_caps.len()
        invariant
            0 <= best < i <= parent_caps@.len(),
            ps == authorities(parent_caps@),
            c == child.view(),
            best_fit == fit(ps[best as int], c),
            forall|j: int| 0 <= j < i ==> fit(#[trigger] ps[j], c) <= best_fit,
            forall|j: int| best < j < i ==> fit(#[trigger] ps[j], c) < best_fit,
        decreases parent_caps@.len() - i,
    {
        let here = fit_of(&parent_caps[i], child);
        assert(here == fit(ps[i as int], c));
        if here >= best_fit {
            best = i;
            best_fit = here;
        }
        i += 1;
    }
    proof {
        assert(is_closest(ps, c, best as int));
        let k = choose|k: int| is_closest(ps, c, k);
        if k < best {
            assert(fit(ps[best as int], c) < fit(ps[k], c));
        } else if best < k {
            assert(fit(ps[k], c) < fit(ps[best as int], c));
        }
    }
    Some(&parent_caps[best])
}

/// The number of leading bytes that two texts have in common.
pub fn common_prefix_len(a: &str, b: &str) -> (n: usize)
    ensures
        n == common_from(text::utf8(a@), text::utf8(b@), 0),
{
    let x = a.as_bytes();
    let y = b.as_bytes();
    let mut i: usize = 0;
    while i < x.len() && i < y.len() && x[i] == y[i]
        invariant
            x@ == text::utf8(a@),
            y@ == text::utf8(b@),
            i <= x@.len(),
            common_from(text::utf8(a@), text::utf8(b@), 0) == common_from(
                text::utf8(a@),
                text::utf8(b@),
                i as int,
            ),
        decreases x@.len() - i,
    {
        i += 1;
    }
    i
}

/// A capability that none of the parents covers goes beyond the closest of
/// them on at least one named axis.
pub proof fn law_widening_names_an_axis(
    parents: Seq<capability::Authority>,
    child: capability::Authority,
    i: int,
)
    requires
        !is_covered(parents, child),
        0 <= i < parents.len(),
    ensures
        widened_axes(parents[i], child).len() > 0,
{
    assert(!parents[i].covers(child));
}

/// Authority never grows along a chain of forks: if the capabilities of a view
/// narrow those of its parent, and these narrow those of the grandparent, then
/// they narrow those of the grandparent.
pub proof fn law_narrowing_transitive(
    a: Seq<capability::Authority>,
    b: Seq<capability::Authority>,
    c: Seq<capability::Authority>,
)
    requires
        is_narrowing(a, b),
        is_narrowing(b, c),
    ensures
        is_narrowing(a, c),
{
    assert forall|i: int| 0 <= i < c.len() implies is_covered(a, #[trigger] c[i]) by {
        assert(is_covered(b, c[i]));
        let j = choose|j: int| 0 <= j < b.len() && (#[trigger] b[j]).covers(c[i]);
        assert(is_covered(a, b[j]));
        let k = choose|k: int| 0 <= k < a.len() && (#[trigger] a[k]).covers(b[j]);
        capability::law_covers_transitive(a[k], b[j], c[i]);
    }
}

/// Claiming no authority is always a narrowing.
pub proof fn law_renouncing_is_narrowing(parents: Seq<capability::Authority>)
    ensures
        is_narrowing(parents, Seq::empty()),
{
}

/// A fork is accepted exactly where its parent is active and every capability
/// that is asked for lies within one and the same capability of the parent: in
/// its prefix, in its operations and in its lifetime, where `0` means for
/// ever. It then starts out with the parent's names, with the authority that
/// was asked for, without mutations or effects, and active.
pub proof fn law_fork_stays_within_single_capabilities(
    parent: View,
    caps: Vec<Capability>,
    r: Result<View, ReelError>,
    i: int,
)
    requires
        is_fork(parent, caps, r),
    ensures
        parent.status != Status::Active ==> r is Err,
        r is Ok && 0 <= i < caps@.len() ==> exists|j: int|
            {
                &&& 0 <= j < parent.caps@.len()
                &&& (#[trigger] parent.caps@[j]).path_prefix@.len() <= caps@[i].path_prefix@.len()
                &&& caps@[i].path_prefix@.take(parent.caps@[j].path_prefix@.len() as int)
                    == parent.caps@[j].path_prefix@
                &&& caps@[i].op_set.view().subset_of(parent.caps@[j].op_set.view())
                &&& parent.caps@[j].ttl != 0 ==> 0 < caps@[i].ttl <= parent.caps@[j].ttl
            },
        r is Err && parent.status == Status::Active ==> exists|i: int|
            #![trigger caps@[i]]
            0 <= i < caps@.len() && forall|j: int|
                #![trigger parent.caps@[j]]
                0 <= j < parent.caps@.len() ==> {
                    let c = caps@[i];
                    let p = parent.caps@[j];
                    ||| c.path_prefix@.len() < p.path_prefix@.len()
                    ||| c.path_prefix@.take(p.path_prefix@.len() as int) != p.path_prefix@
                    ||| !c.op_set.view().subset_of(p.op_set.view())
                    ||| p.ttl != 0 && (c.ttl == 0 || c.ttl > p.ttl)
                },
        r matches Ok(v) ==> {
            &&& v.caps@ == caps@
            &&& v.parent == Some(parent.id)
            &&& v.namespace.view() == parent.namespace.view()
            &&& v.delta.ops@.len() == 0
            &&& v.effects_hash is None
            &&& v.status == Status::Active
            &&& forall|i: int| 0 <= i < 32 ==> #[trigger] v.delta.base_hash.view()[i] == 0
        },
        r matches Err(e) ==> if parent.status == Status::Active {
            e is CapabilityViolation
        } else {
            e == ReelError::ViewTerminal(parent.status)
        },
{
    let parents = authorities(parent.caps@);
    let children = authorities(caps@);
    if is_narrowing(parents, children) && 0 <= i < caps@.len() {
        assert(is_covered(parents, children[i]));
        let j = choose|j: int| 0 <= j < parents.len() && (#[trigger] parents[j]).covers(children[i]);
        assert(parents[j] == parent.caps@[j].view());
        assert(children[i] == caps@[i].view());
    }
    if !is_narrowing(parents, children) {
        let i = choose|i: int|
            0 <= i < children.len() && !is_covered(parents, #[trigger] children[i]);
        assert(children[i] == caps@[i].view());
        assert forall|j: int|
            #![trigger parent.caps@[j]]
            0 <= j < parent.caps@.len() implies !parents[j].covers(children[i]) by {
            assert(parents[j] == parent.caps@[j].view());
        }
    }
    if let Ok(v) = r {
        assert(v.view().delta.ops.len() == v.delta.ops@.len());
    }
}

/// An accepted fork permits nothing that a single capability of its parent
/// does not permit: whatever a capability of the fork permits, at any name, for
/// any operation, in any second, one capability of the parent permits, the
/// same for all of it.
pub proof fn law_fork_permits_no_more(parent: View, caps: Vec<Capability>, v: View, i: int)
    requires
        is_fork(parent, caps, Ok(v)),
        0 <= i < caps@.len(),
    ensures
        exists|j: int|
            0 <= j < parent.caps@.len() && forall|
                name: Seq<char>,
                kind: capability::OpKind,
                second: nat,
            |
                capability::permits(caps@[i].view(), name, kind, second)
                    ==> #[trigger] capability::permits(
                    (#[trigger] parent.caps@[j]).view(),
                    name,
                    kind,
                    second,
                ),
{
    let parents = authorities(parent.caps@);
    let children = authorities(caps@);
    assert(is_covered(parents, children[i]));
    let j = choose|j: int| 0 <= j < parents.len() && (#[trigger] parents[j]).covers(children[i]);
    let p = parent.caps@[j].view();
    let c = caps@[i].view();
    assert forall|name: Seq<char>, kind: capability::OpKind, second: nat|
        capability::permits(c, name, kind, second) implies #[trigger] capability::permits(
        p,
        name,
        kind,
        second,
    ) by {
        capability::law_cover_is_containment(p, c, kind);
    }
}

/// A diagnosis names one axis for each way in which the child goes beyond the
/// parent, and none where it does not.
pub proof fn law_diagnosis_names_each_widened_axis(
    parent: capability::Authority,
    child: capability::Authority,
)
    ensures
        widened_axes(parent, child).len() == (if parent.path_prefix.len() <= child.path_prefix.len()
            && child.path_prefix.take(parent.path_prefix.len() as int) == parent.path_prefix {
            0int
        } else {
            1
        }) + (if forall|k: capability::OpKind| #[trigger]
            child.op_set.view().contains(k) ==> parent.op_set.view().contains(k) {
            0int
        } else {
            1
        }) + (if parent.ttl != 0 && (child.ttl == 0 || child.ttl > parent.ttl) {
            1int
        } else {
            0
        }),
        widened_axes(parent, child).len() == 0 <==> parent.covers(child),
{
}

proof fn lemma_common(a: Seq<u8>, b: Seq<u8>, i: int)
    requires
        0 <= i <= a.len(),
        i <= b.len(),
    ensures
        i <= common_from(a, b, i) <= a.len(),
        common_from(a, b, i) <= b.len(),
        forall|k: int| i <= k < common_from(a, b, i) ==> a[k] == b[k],
        ({
            let n = common_from(a, b, i);
            n == a.len() || n == b.len() || a[n] != b[n]
        }),
    decreases a.len() - i,
{
    if i < a.len() && i < b.len() && a[i] == b[i] {
        lemma_common(a, b, i + 1);
    }
}

/// The common length of two byte strings is that of their longest common
/// start.
pub proof fn law_common_length_is_the_longest(a: Seq<u8>, b: Seq<u8>, n: int)
    ensures
        0 <= common_from(a, b, 0) <= a.len(),
        common_from(a, b, 0) <= b.len(),
        a.take(common_from(a, b, 0)) == b.take(common_from(a, b, 0)),
        0 <= n <= a.len() && n <= b.len() && a.take(n) == b.take(n) ==> n <= common_from(a, b, 0),
{
    lemma_common(a, b, 0);
    let m = common_from(a, b, 0);
    assert(a.take(m) =~= b.take(m));
    if 0 <= n <= a.len() && n <= b.len() && a.take(n) == b.take(n) && m < n {
        assert(a.take(n)[m] == b.take(n)[m]);
    }
}

/// The closest capability is the last of the best: a prefix that the child
/// continues beats one that it does not, the longer of two such prefixes wins,
/// and among the others the longer common start wins. (For prefixes of less
/// than a million bytes.)
pub proof fn law_closest_capability_fits_best(
    parents: Seq<capability::Authority>,
    child: capability::Authority,
    i: int,
    j: int,
)
    requires
        is_closest(parents, child, i),
        0 <= j < parents.len(),
        text::utf8(child.path_prefix).len() < 1000000,
    ensures
        ({
            let a = parents[i].path_prefix;
            let b = parents[j].path_prefix;
            let c = child.path_prefix;
            let a_covers = a.len() <= c.len() && c.take(a.len() as int) == a;
            let b_covers = b.len() <= c.len() && c.take(b.len() as int) == b;
            &&& b_covers ==> a_covers && text::utf8(b).len() <= text::utf8(a).len()
            &&& a_covers && b_covers && j > i ==> text::utf8(b).len() < text::utf8(a).len()
            &&& !a_covers ==> forall|n: int|
                0 <= n <= text::utf8(b).len() && n <= text::utf8(c).len() && #[trigger] text::utf8(
                    b,
                ).take(n) == text::utf8(c).take(n) ==> n <= text::utf8(a).len() && text::utf8(
                    a,
                ).take(n) == text::utf8(c).take(n)
        }),
{
    let a = text::utf8(parents[i].path_prefix);
    let b = text::utf8(parents[j].path_prefix);
    let c = text::utf8(child.path_prefix);
    assert(fit(parents[j], child) <= fit(parents[i], child));
    law_common_length_is_the_longest(a, c, 0);
    law_common_length_is_the_longest(b, c, 0);
    if j > i {
        assert(fit(parents[j], child) < fit(parents[i], child));
    }
    assert forall|n: int|
        0 <= n <= b.len() && n <= c.len() && #[trigger] b.take(n) == c.take(n) && !text::has_prefix(
            child.path_prefix,
            parents[i].path_prefix,
        ) implies n <= a.len() && a.take(n) == c.take(n) by {
        law_common_length_is_the_longest(b, c, n);
        let m = common_from(a, c, 0);
        assert(n <= m);
        assert(a.take(n) =~= a.take(m).take(n));
        assert(c.take(n) =~= c.take(m).take(n));
    }
}

/// The ancestors of a view are found link by link: each is an answer for the
/// parent that the one before it names, the first for the view's own parent.
pub proof fn law_ancestry_follows_parents<F: Fn(ViewId) -> Result<View, ReelError>>(
    first: Option<ViewId>,
    lookup: F,
    answers: Seq<View>,
    i: int,
)
    requires
        is_ancestry(first, lookup, answers),
        0 <= i < answers.len(),
    ensures
        i == 0 ==> first is Some && call_ensures(lookup, (first->0,), Ok(answers[0])),
        i > 0 ==> answers[i - 1].parent is Some && call_ensures(
            lookup,
            (answers[i - 1].parent->0,),
            Ok(answers[i]),
        ),
        asked_parent(first, answers, answers.len() as int) == answers.last().parent,
        asked_parent(first, Seq::empty(), 0) == first,
{
    assert(is_answer(first, lookup, answers, i));
}

/// What a view holds is each of its parts: its names, its mutations, its
/// capabilities in order, its effects, its status and its place.
pub proof fn law_view_holds_every_part(v: View, i: int)
    ensures
        v.view().id == v.id,
        v.view().namespace == v.namespace.view(),
        v.view().delta == v.delta.view(),
        v.view().effects == v.effects_hash,
        v.view().status == v.status,
        v.view().parent == v.parent,
        v.view().caps.len() == v.caps@.len(),
        0 <= i < v.caps@.len() ==> v.view().caps[i] == (capability::Authority {
            path_prefix: v.caps@[i].path_prefix@,
            op_set: v.caps@[i].op_set,
            ttl: v.caps@[i].ttl,
        }),
{
}

/// Of two capabilities that fit equally well the later one is the closest, also
/// where neither prefix covers the child.
pub proof fn law_closest_capability_is_the_last(
    parents: Seq<capability::Authority>,
    child: capability::Authority,
    i: int,
    j: int,
)
    requires
        is_closest(parents, child, i),
        i < j < parents.len(),
        !(parents[i].path_prefix.len() <= child.path_prefix.len() && child.path_prefix.take(
            parents[i].path_prefix.len() as int,
        ) == parents[i].path_prefix),
        !(parents[j].path_prefix.len() <= child.path_prefix.len() && child.path_prefix.take(
            parents[j].path_prefix.len() as int,
        ) == parents[j].path_prefix),
    ensures
        common_from(text::utf8(parents[j].path_prefix), text::utf8(child.path_prefix), 0)
            < common_from(text::utf8(parents[i].path_prefix), text::utf8(child.path_prefix), 0),
{
    assert(fit(parents[j], child) < fit(parents[i], child));
}

/// The axes of a diagnosis come in the order prefix, operations, lifetime, and
/// each says what was asked for and what the parent has.
pub proof fn law_diagnosis_says_what_was_asked_for(
    parent: capability::Authority,
    child: capability::Authority,
)
    ensures
        ({
            let axes = widened_axes(parent, child);
            let off = !(parent.path_prefix.len() <= child.path_prefix.len()
                && child.path_prefix.take(parent.path_prefix.len() as int) == parent.path_prefix);
            &&& off ==> axes[0] == "path_prefix "@ + text::quoted_text(child.path_prefix)
                + " is not under parent prefix "@ + text::quoted_text(parent.path_prefix)
            &&& !child.op_set.view().subset_of(parent.op_set.view()) ==> axes[if off {
                1int
            } else {
                0
            }] == "op_set adds "@ + list_text(
                child.op_set.view().difference(parent.op_set.view()),
            ) + " not present in parent op_set "@ + set_text(parent.op_set.view())
            &&& parent.ttl != 0 && child.ttl == 0 ==> axes.last()
                == "ttl=0 (unbounded) exceeds parent ttl="@ + text::decimal(parent.ttl as nat)
            &&& parent.ttl != 0 && child.ttl > parent.ttl ==> axes.last() == "ttl="@
                + text::decimal(child.ttl as nat) + " exceeds parent ttl="@ + text::decimal(
                parent.ttl as nat,
            )
        }),
{
}

/// A refused fork is diagnosed for the first capability that no capability of
/// the parent covers, against the closest of the parent's.
pub proof fn law_first_uncovered_is_diagnosed(
    parents: Seq<capability::Authority>,
    children: Seq<capability::Authority>,
    i: int,
    p: int,
)
    requires
        0 <= i < children.len(),
        forall|j: int| 0 <= j < parents.len() ==> !(#[trigger] parents[j]).covers(children[i]),
        forall|k: int|
            0 <= k < i ==> exists|j: int|
                0 <= j < parents.len() && (#[trigger] parents[j]).covers(#[trigger] children[k]),
        is_closest(parents, children[i], p),
    ensures
        widened_axes(parents[p], children[i]).len() > 0,
        narrowing_refusal(parents, children) == "I-003 violation: child capability "@
            + authority_text(children[i]) + " widens parent "@ + authority_text(parents[p]) + ": "@
            + text::joined(widened_axes(parents[p], children[i]), "; "@),
{
    assert forall|k: int| 0 <= k < i implies is_covered(parents, #[trigger] children[k]) by {}
    assert(first_uncovered(parents, children, i));
    let k = choose|k: int| first_uncovered(parents, children, k);
    if k < i {
        assert(is_covered(parents, children[k]));
    } else if i < k {
        assert(is_covered(parents, children[i]));
    }
    let c = children[i];
    let q = choose|q: int| is_closest(parents, c, q);
    if q < p {
        assert(fit(parents[p], c) < fit(parents[q], c));
        assert(fit(parents[q], c) <= fit(parents[p], c));
    } else if p < q {
        assert(fit(parents[q], c) < fit(parents[p], c));
        assert(fit(parents[p], c) <= fit(parents[q], c));
    }
    law_widening_names_an_axis(parents, c, p);
}

} // verus!
