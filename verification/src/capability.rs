//! Attenuating authority over a namespace prefix.

use vstd::prelude::*;

use crate::text;
use crate::text::starts_with;

verus! {

/// A kind of operation that a [`Capability`] may permit.
#[derive(Clone, Copy, Debug, PartialEq, Eq, PartialOrd, Ord, Hash, Structural)]
pub enum OpKind {
    /// Reading blocks and namespace entries.
    Read,
    /// Putting entries into the namespace.
    Write,
    /// Removing entries from the namespace.
    Delete,
    /// Firing idempotent remote effects at commit.
    FireB,
    /// Firing irreversible remote effects at commit.
    FireC,
}

impl OpKind {
    /// The name of the kind.
    pub open spec fn spec_name(self) -> Seq<char> {
        match self {
            OpKind::Read => "Read"@,
            OpKind::Write => "Write"@,
            OpKind::Delete => "Delete"@,
            OpKind::FireB => "FireB"@,
            OpKind::FireC => "FireC"@,
        }
    }

    /// The name of the kind.
    pub fn name(&self) -> (s: &'static str)
        ensures
            s@ == self.spec_name(),
    {
        match self {
            OpKind::Read => "Read",
            OpKind::Write => "Write",
            OpKind::Delete => "Delete",
            OpKind::FireB => "FireB",
            OpKind::FireC => "FireC",
        }
    }
}

/// A set of operation kinds.
#[derive(Clone, Copy, Debug, PartialEq, Eq, Structural)]
pub struct OpSet {
    read: bool,
    write: bool,
    delete: bool,
    fire_b: bool,
    fire_c: bool,
}

/// The names of `kinds`.
pub open spec fn kind_names(kinds: Seq<OpKind>) -> Seq<Seq<char>> {
    kinds.map_values(|k: OpKind| k.spec_name())
}

/// The kinds of `all`, in order, that are in `set`.
pub open spec fn kinds_in(all: Seq<OpKind>, set: Set<OpKind>) -> Seq<OpKind> {
    all.filter(|k: OpKind| set.contains(k))
}

/// Every kind, in declaration order.
pub open spec fn all_kinds() -> Seq<OpKind> {
    seq![OpKind::Read, OpKind::Write, OpKind::Delete, OpKind::FireB, OpKind::FireC]
}

impl OpSet {
    /// Whether the set has `kind`.
    pub closed spec fn has(self, kind: OpKind) -> bool {
        match kind {
            OpKind::Read => self.read,
            OpKind::Write => self.write,
            OpKind::Delete => self.delete,
            OpKind::FireB => self.fire_b,
            OpKind::FireC => self.fire_c,
        }
    }

    /// The members.
    pub open spec fn view(&self) -> Set<OpKind> {
        Set::new(|k: OpKind| self.has(k))
    }

    /// The members in declaration order.
    pub open spec fn spec_members(self) -> Seq<OpKind> {
        kinds_in(all_kinds(), self.view())
    }

    /// The set without members.
    pub fn new() -> (s: Self)
        ensures
            s.view() == Set::<OpKind>::empty(),
    {
        let s = OpSet { read: false, write: false, delete: false, fire_b: false, fire_c: false };
        assert(s.view() =~= Set::<OpKind>::empty());
        s
    }

    /// Adds `kind`.
    pub fn insert(&mut self, kind: OpKind)
        ensures
            final(self).view() == old(self).view().insert(kind),
    {
        match kind {
            OpKind::Read => {
                self.read = true;
            },
            OpKind::Write => {
                self.write = true;
            },
            OpKind::Delete => {
                self.delete = true;
            },
            OpKind::FireB => {
                self.fire_b = true;
            },
            OpKind::FireC => {
                self.fire_c = true;
            },
        }
        assert(self.view() =~= old(self).view().insert(kind));
    }

    /// The set of the kinds in `kinds`.
    pub fn of(kinds: &[OpKind]) -> (s: Self)
        ensures
            s.view() == kinds@.to_set(),
    {
        let mut s = OpSet::new();
        let mut i: usize = 0;
        while i < kinds.len()
            invariant
                i <= kinds@.len(),
                s.view() == kinds@.take(i as int).to_set(),
            decreases kinds@.len() - i,
        {
            s.insert(kinds[i]);
            proof {
                let t = kinds@.take(i as int);
                assert(kinds@.take(i + 1) =~= t.push(kinds@[i as int]));
                assert(t.push(kinds@[i as int]).to_set() =~= t.to_set().insert(kinds@[i as int])) by {
                    let p = t.push(kinds@[i as int]);
                    assert forall|k: OpKind| p.contains(k) == (t.contains(k) || k == kinds@[i as int]) by {
                        if t.contains(k) {
                            let j = choose|j: int| 0 <= j < t.len() && t[j] == k;
                            assert(p[j] == k);
                        }
                        assert(p[t.len() as int] == kinds@[i as int]);
                    }
                }
            }
            i += 1;
        }
        assert(kinds@.take(kinds@.len() as int) =~= kinds@);
        s
    }

    /// Whether `kind` is a member.
    pub fn contains(&self, kind: &OpKind) -> (b: bool)
        ensures
            b == self.view().contains(*kind),
    {
        match kind {
            OpKind::Read => self.read,
            OpKind::Write => self.write,
            OpKind::Delete => self.delete,
            OpKind::FireB => self.fire_b,
            OpKind::FireC => self.fire_c,
        }
    }

    /// Whether every member is also in `other`.
    pub fn is_subset(&self, other: &OpSet) -> (b: bool)
        ensures
            b == self.view().subset_of(other.view()),
    {
        let b = (!self.read || other.read) && (!self.write || other.write) && (!self.delete
            || other.delete) && (!self.fire_b || other.fire_b) && (!self.fire_c || other.fire_c);
        proof {
            if !b {
                let k = if self.read && !other.read {
                    OpKind::Read
                } else if self.write && !other.write {
                    OpKind::Write
                } else if self.delete && !other.delete {
                    OpKind::Delete
                } else if self.fire_b && !other.fire_b {
                    OpKind::FireB
                } else {
                    OpKind::FireC
                };
                assert(self.view().contains(k) && !other.view().contains(k));
            }
        }
        b
    }

    /// The members that are not in `other`.
    pub fn difference(&self, other: &OpSet) -> (s: Self)
        ensures
            s.view() == self.view().difference(other.view()),
    {
        let s = OpSet {
            read: self.read && !other.read,
            write: self.write && !other.write,
            delete: self.delete && !other.delete,
            fire_b: self.fire_b && !other.fire_b,
            fire_c: self.fire_c && !other.fire_c,
        };
        assert(s.view() =~= self.view().difference(other.view()));
        s
    }

    /// The number of members.
    pub fn len(&self) -> (n: usize)
        ensures
            n == self.spec_members().len(),
    {
        self.members().len()
    }

    /// Whether there are no members.
    pub fn is_empty(&self) -> (b: bool)
        ensures
            b == (self.view() == Set::<OpKind>::empty()),
    {
        let b = !self.read && !self.write && !self.delete && !self.fire_b && !self.fire_c;
        proof {
            if b {
                assert(self.view() =~= Set::<OpKind>::empty());
            } else {
                let e = Set::<OpKind>::empty();
                assert(e.contains(OpKind::Read) == false);
                assert(self.view().contains(OpKind::Read) || self.view().contains(OpKind::Write)
                    || self.view().contains(OpKind::Delete) || self.view().contains(OpKind::FireB)
                    || self.view().contains(OpKind::FireC));
            }
        }
        b
    }

    /// The members in declaration order.
    pub fn members(&self) -> (v: Vec<OpKind>)
        ensures
            v@ == self.spec_members(),
    {
        let all: [OpKind; 5] = [
            OpKind::Read,
            OpKind::Write,
            OpKind::Delete,
            OpKind::FireB,
            OpKind::FireC,
        ];
        assert(all@ =~= all_kinds());
        let mut v: Vec<OpKind> = Vec::new();
        let mut i: usize = 0;
        while i < 5
            invariant
                i <= 5,
                all@ == all_kinds(),
                v@ == kinds_in(all_kinds().take(i as int), self.view()),
            decreases 5 - i,
        {
            let k = all[i];
            proof {
                let f = |k: OpKind| self.view().contains(k);
                let t = all_kinds().take(i as int);
                assert(all_kinds().take(i + 1) =~= t.push(k));
                t.lemma_filter_push(k, f);
            }
            if self.contains(&k) {
                v.push(k);
            }
            i += 1;
        }
        assert(all_kinds().take(5) =~= all_kinds());
        v
    }

    /// The names of the members, in declaration order.
    pub fn names(&self) -> (v: Vec<String>)
        ensures
            text::texts(v@) == kind_names(self.spec_members()),
    {
        let ks = self.members();
        let mut v: Vec<String> = Vec::new();
        let mut i: usize = 0;
        while i < ks.len()
            invariant
                i <= ks@.len(),
                v@.len() == i,
                ks@ == self.spec_members(),
                forall|j: int| 0 <= j < i ==> (#[trigger] v@[j])@ == ks@[j].spec_name(),
            decreases ks@.len() - i,
        {
            v.push(String::from_str(ks[i].name()));
            i += 1;
        }
        assert(text::texts(v@) =~= kind_names(ks@));
        v
    }
}

/// Authority over a namespace prefix: which operations, where, for how long.
#[derive(Debug, PartialEq, Eq)]
pub struct Capability {
    /// The namespace prefix that is covered.
    pub path_prefix: String,
    /// The permitted operations.
    pub op_set: OpSet,
    /// Lifetime in seconds; `0` means unbounded.
    pub ttl: u64,
}

/// What a [`Capability`] holds.
pub struct Authority {
    /// The covered prefix.
    pub path_prefix: Seq<char>,
    /// The permitted operations.
    pub op_set: OpSet,
    /// Lifetime in seconds; `0` means unbounded.
    pub ttl: u64,
}

/// A lifetime of `outer` seconds lasts at least as long as one of `inner`,
/// where `0` means unbounded.
pub open spec fn ttl_covers(outer: u64, inner: u64) -> bool {
    outer == 0 || (inner != 0 && inner <= outer)
}

impl Authority {
    /// `other` claims no more than `self`, on any axis.
    pub open spec fn covers(self, other: Authority) -> bool {
        &&& text::has_prefix(other.path_prefix, self.path_prefix)
        &&& other.op_set.view().subset_of(self.op_set.view())
        &&& ttl_covers(self.ttl, other.ttl)
    }
}

impl Capability {
    /// What the capability holds.
    pub open spec fn view(&self) -> Authority {
        Authority { path_prefix: self.path_prefix@, op_set: self.op_set, ttl: self.ttl }
    }

    /// Whether `other` is a narrowing of `self`: its prefix starts with this
    /// prefix, its operations are among these, and it lasts no longer.
    #[must_use]
    pub fn covers(&self, other: &Self) -> (b: bool)
        ensures
            b == self.view().covers(other.view()),
    {
        starts_with(other.path_prefix.as_str(), self.path_prefix.as_str())
            && other.op_set.is_subset(&self.op_set) && (self.ttl == 0 || (other.ttl != 0
            && other.ttl <= self.ttl))
    }

    /// Derives the capability with the given fields, unless it would claim
    /// more than `self` on some axis.
    #[must_use]
    pub fn narrow(&self, path_prefix: String, op_set: OpSet, ttl: u64) -> (r: Option<Self>)
        ensures
            ({
                let wanted = Authority { path_prefix: path_prefix@, op_set, ttl };
                match r {
                    Some(c) => self.view().covers(wanted) && c.view() == wanted,
                    None => !self.view().covers(wanted),
                }
            }),
    {
        let candidate = Capability { path_prefix, op_set, ttl };
        if self.covers(&candidate) {
            Some(candidate)
        } else {
            None
        }
    }

    /// A capability with the same fields.
    pub fn duplicate(&self) -> (c: Self)
        ensures
            c.view() == self.view(),
    {
        Capability { path_prefix: self.path_prefix.clone(), op_set: self.op_set, ttl: self.ttl }
    }
}

impl Clone for Capability {
    fn clone(&self) -> (c: Self)
        ensures
            c.view() == self.view(),
    {
        self.duplicate()
    }
}

proof fn lemma_member(a: OpSet, kind: OpKind)
    ensures
        a.view().contains(kind) == a.has(kind),
{
}

/// A set is its members: two sets with the same members are the same.
pub proof fn law_same_members_same_set(a: OpSet, b: OpSet)
    requires
        a.view() == b.view(),
    ensures
        a == b,
{
    lemma_member(a, OpKind::Read);
    lemma_member(b, OpKind::Read);
    lemma_member(a, OpKind::Write);
    lemma_member(b, OpKind::Write);
    lemma_member(a, OpKind::Delete);
    lemma_member(b, OpKind::Delete);
    lemma_member(a, OpKind::FireB);
    lemma_member(b, OpKind::FireB);
    lemma_member(a, OpKind::FireC);
    lemma_member(b, OpKind::FireC);
}

/// Two authorities that cover each other are the same.
pub proof fn law_covers_antisymmetric(a: Authority, b: Authority)
    requires
        a.covers(b),
        b.covers(a),
    ensures
        a == b,
{
    assert(a.path_prefix =~= b.path_prefix);
    assert(a.op_set.view() =~= b.op_set.view());
    law_same_members_same_set(a.op_set, b.op_set);
}

/// Every authority covers itself.
pub proof fn law_covers_reflexive(a: Authority)
    ensures
        a.covers(a),
{
    assert(a.path_prefix.subrange(0, a.path_prefix.len() as int) =~= a.path_prefix);
}

/// Along a chain of delegations the last authority stays within the first.
pub proof fn law_covers_transitive(a: Authority, b: Authority, c: Authority)
    requires
        a.covers(b),
        b.covers(c),
    ensures
        a.covers(c),
{
    text::lemma_prefix_transitive(c.path_prefix, b.path_prefix, a.path_prefix);
}

/// One authority covers another exactly where it bounds it on every axis: the
/// covered prefix continues the covering one, no operation is added, and the
/// lifetime ends no later, an unbounded one never.
pub proof fn law_cover_bounds_every_axis(a: Authority, b: Authority)
    ensures
        a.covers(b) <==> {
            &&& a.path_prefix.len() <= b.path_prefix.len()
            &&& b.path_prefix.take(a.path_prefix.len() as int) == a.path_prefix
            &&& forall|k: OpKind| #[trigger]
                b.op_set.view().contains(k) ==> a.op_set.view().contains(k)
            &&& a.ttl != 0 ==> 0 < b.ttl <= a.ttl
        },
{
}

/// What a covered authority permits, the covering one permits: at any name
/// below its prefix, for any operation, at any second of its lifetime.
pub proof fn law_covered_authority_permits_no_more(
    a: Authority,
    b: Authority,
    rest: Seq<char>,
    kind: OpKind,
    second: nat,
)
    requires
        a.covers(b),
        b.op_set.view().contains(kind),
        b.ttl == 0 || second < b.ttl,
    ensures
        exists|more: Seq<char>| b.path_prefix + rest == a.path_prefix + more,
        a.op_set.view().contains(kind),
        a.ttl == 0 || second < a.ttl,
{
    text::law_prefix_is_a_leading_part(b.path_prefix, a.path_prefix, rest);
    let more = b.path_prefix.skip(a.path_prefix.len() as int) + rest;
    assert(b.path_prefix + rest =~= a.path_prefix + more);
}

/// The authority permits the operation at the name in the given second of its
/// lifetime.
pub open spec fn permits(a: Authority, name: Seq<char>, kind: OpKind, second: nat) -> bool {
    &&& a.path_prefix.len() <= name.len()
    &&& name.take(a.path_prefix.len() as int) == a.path_prefix
    &&& a.op_set.view().contains(kind)
    &&& a.ttl == 0 || second < a.ttl
}

/// Covering is permitting no less: an authority that permits anything at all
/// is covered by another exactly where the other permits all that it permits.
pub proof fn law_cover_is_containment(a: Authority, b: Authority, some: OpKind)
    requires
        b.op_set.view().contains(some),
    ensures
        a.covers(b) <==> forall|name: Seq<char>, kind: OpKind, second: nat|
            permits(b, name, kind, second) ==> #[trigger] permits(a, name, kind, second),
{
    if a.covers(b) {
        assert forall|name: Seq<char>, kind: OpKind, second: nat|
            permits(b, name, kind, second) implies #[trigger] permits(a, name, kind, second) by {
            assert(name.take(a.path_prefix.len() as int) =~= b.path_prefix.take(
                a.path_prefix.len() as int,
            )) by {
                assert forall|i: int| 0 <= i < a.path_prefix.len() implies name[i]
                    == b.path_prefix[i] by {
                    assert(name.take(b.path_prefix.len() as int)[i] == b.path_prefix[i]);
                }
            }
        }
    }
    if forall|name: Seq<char>, kind: OpKind, second: nat|
        permits(b, name, kind, second) ==> #[trigger] permits(a, name, kind, second) {
        let name = b.path_prefix;
        assert(name.take(b.path_prefix.len() as int) =~= b.path_prefix);
        let last: nat = if b.ttl == 0 {
            a.ttl as nat
        } else {
            (b.ttl - 1) as nat
        };
        assert(permits(b, name, some, last));
        assert(permits(a, name, some, last));
        assert forall|k: OpKind| #[trigger] b.op_set.view().contains(k) implies
            a.op_set.view().contains(k) by {
            assert(permits(b, name, k, last));
            assert(permits(a, name, k, last));
        }
        law_cover_bounds_every_axis(a, b);
    }
}

/// The members of a set are listed once each, in the order of their
/// declaration.
pub proof fn law_members_are_listed_in_order(s: OpSet)
    ensures
        s.spec_members() == seq![
            OpKind::Read,
            OpKind::Write,
            OpKind::Delete,
            OpKind::FireB,
            OpKind::FireC,
        ].filter(|k: OpKind| s.view().contains(k)),
{
}

/// The kinds are named as they are declared.
pub proof fn law_kinds_are_named(k: OpKind)
    ensures
        k is Read <==> k.spec_name() == "Read"@,
        k is Write <==> k.spec_name() == "Write"@,
        k is Delete <==> k.spec_name() == "Delete"@,
        k is FireB <==> k.spec_name() == "FireB"@,
        k is FireC <==> k.spec_name() == "FireC"@,
{
    reveal_strlit("Read");
    reveal_strlit("Write");
    reveal_strlit("Delete");
    reveal_strlit("FireB");
    reveal_strlit("FireC");
    assert("Read"@.len() == 4 && "Write"@.len() == 5 && "Delete"@.len() == 6);
    assert("FireB"@[4] == 'B' && "FireC"@[4] == 'C' && "Write"@[4] == 'e');
}

/// What a capability holds is its prefix, its operations and its lifetime.
pub proof fn law_capability_holds_every_part(c: Capability)
    ensures
        c.view().path_prefix == c.path_prefix@,
        c.view().op_set == c.op_set,
        c.view().ttl == c.ttl,
{
}

} // verus!
