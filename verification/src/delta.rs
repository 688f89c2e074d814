//! Ordered mutations of a namespace, and their CBOR form.

use vstd::prelude::*;

use crate::delta_form;
use crate::effect;
use crate::effect::entry_value;
use crate::hash;
use crate::interop::cbor;

verus! {

/// One mutation of a namespace.
#[derive(Debug, PartialEq, Eq)]
pub enum Op {
    /// Binds a name to a block.
    Put {
        /// The name.
        name: String,
        /// The block.
        hash: crate::hash::Hash,
    },
    /// Unbinds a name.
    Remove {
        /// The name.
        name: String,
    },
}

/// Mutations, in order, on top of a base block.
#[derive(Debug, PartialEq, Eq)]
pub struct Delta {
    /// The block that the mutations start from.
    pub base_hash: crate::hash::Hash,
    /// The mutations in order.
    pub ops: Vec<Op>,
}

/// What an [`Op`] holds.
pub enum Mutation {
    /// Binds a name.
    Put(Seq<char>, crate::hash::Hash),
    /// Unbinds a name.
    Remove(Seq<char>),
}

/// What a [`Delta`] holds.
pub struct Mutations {
    /// The base block.
    pub base: crate::hash::Hash,
    /// The mutations in order.
    pub ops: Seq<Mutation>,
}

/// What a list of operations holds.
pub open spec fn mutations_of(ops: Seq<Op>) -> Seq<Mutation> {
    ops.map_values(|op: Op| op.view())
}

impl Op {
    /// What the operation holds.
    pub open spec fn view(&self) -> Mutation {
        match self {
            Op::Put { name, hash } => Mutation::Put(name@, *hash),
            Op::Remove { name } => Mutation::Remove(name@),
        }
    }

    /// The name that the operation is about.
    pub fn name(&self) -> (n: &str)
        ensures
            n@ == self.view().name(),
    {
        match self {
            Op::Put { name, .. } => name.as_str(),
            Op::Remove { name } => name.as_str(),
        }
    }
}

impl Clone for Op {
    fn clone(&self) -> (op: Self)
        ensures
            op.view() == self.view(),
    {
        match self {
            Op::Put { name, hash } => Op::Put { name: name.clone(), hash: *hash },
            Op::Remove { name } => Op::Remove { name: name.clone() },
        }
    }
}

impl Mutation {
    /// The name that the mutation is about.
    pub open spec fn name(self) -> Seq<char> {
        match self {
            Mutation::Put(name, _) => name,
            Mutation::Remove(name) => name,
        }
    }

    /// The CBOR form: a map that starts with the kind.
    pub open spec fn tree(self) -> cbor::CborTree {
        match self {
            Mutation::Put(name, h) => cbor::CborTree::Entries(
                seq![
                    effect::text_entry("kind"@, cbor::CborTree::Text("put"@)),
                    effect::text_entry("name"@, cbor::CborTree::Text(name)),
                    effect::text_entry("hash"@, cbor::CborTree::Text(hash::hex_text(h.view()))),
                ],
            ),
            Mutation::Remove(name) => cbor::CborTree::Entries(
                seq![
                    effect::text_entry("kind"@, cbor::CborTree::Text("remove"@)),
                    effect::text_entry("name"@, cbor::CborTree::Text(name)),
                ],
            ),
        }
    }
}

impl Mutations {
    /// The CBOR form: a map with the base digest and the mutations.
    pub open spec fn tree(self) -> cbor::CborTree {
        cbor::CborTree::Entries(
            seq![
                effect::text_entry(
                    "base_hash"@,
                    cbor::CborTree::Text(hash::hex_text(self.base.view())),
                ),
                effect::text_entry(
                    "ops"@,
                    cbor::CborTree::Array(self.ops.map_values(|m: Mutation| m.tree())),
                ),
            ],
        )
    }

    /// The blocks that the mutations lead to: the base first, then the target
    /// of each `Put` in order.
    pub open spec fn targets(self) -> Seq<crate::hash::Hash> {
        seq![self.base] + put_targets(self.ops)
    }
}

/// The targets of the `Put`s, in order.
pub open spec fn put_targets(ops: Seq<Mutation>) -> Seq<crate::hash::Hash>
    decreases ops.len(),
{
    if ops.len() == 0 {
        Seq::empty()
    } else {
        match ops.last() {
            Mutation::Put(_, h) => put_targets(ops.drop_last()).push(h),
            Mutation::Remove(_) => put_targets(ops.drop_last()),
        }
    }
}

/// The mutations that a payload writes out in CBOR.
pub open spec fn mutations_of_bytes(payload: Seq<u8>) -> Option<Mutations> {
    delta_form::mutations_of_bytes(payload)
}

impl Op {
    pub(crate) fn to_value(&self) -> (v: ciborium::Value)
        ensures
            cbor::cbor_tree(v) == self.view().tree(),
            delta_form::op_fits(self.view()),
    {
        let _size: usize = self.name().as_bytes().len();
        let mut entries: Vec<(ciborium::Value, ciborium::Value)> = Vec::new();
        match self {
            Op::Put { name, hash } => {
                entries.push(entry_value("kind", cbor::text_value("put")));
                entries.push(entry_value("name", cbor::text_value(name.as_str())));
                entries.push(entry_value("hash", cbor::text_value(hash.to_hex().as_str())));
            },
            Op::Remove { name } => {
                entries.push(entry_value("kind", cbor::text_value("remove")));
                entries.push(entry_value("name", cbor::text_value(name.as_str())));
            },
        }
        assert(cbor::cbor_pairs(entries@) =~= self.view().tree()->Entries_0);
        cbor::map_value(entries)
    }
}

impl Delta {
    /// What the delta holds.
    pub open spec fn view(&self) -> Mutations {
        Mutations { base: self.base_hash, ops: mutations_of(self.ops@) }
    }

    /// A delta without mutations.
    pub fn empty(base_hash: crate::hash::Hash) -> (d: Self)
        ensures
            d.view() == (Mutations { base: base_hash, ops: Seq::empty() }),
            d.ops@.len() == 0,
    {
        let d = Delta { base_hash, ops: Vec::new() };
        assert(d.view().ops =~= Seq::empty());
        d
    }

    /// Encodes the delta as CBOR. The bytes are read back by
    /// [`Delta::from_cbor`].
    pub fn to_cbor(&self) -> (r: Result<Vec<u8>, String>)
        ensures
            r is Ok,
            r->Ok_0@ == cbor::cbor_encoded(self.view().tree()),
            mutations_of_bytes(r->Ok_0@) == Some(self.view()),
    {
        let mut items: Vec<ciborium::Value> = Vec::new();
        let mut i: usize = 0;
        while i < self.ops.len()
            invariant
                i <= self.ops@.len(),
                items@.len() == i,
                forall|j: int|
                    0 <= j < i ==> cbor::cbor_tree(#[trigger] items@[j]) == self.ops@[j].view().tree(),
                forall|j: int| 0 <= j < i ==> delta_form::op_fits((#[trigger] self.ops@[j]).view()),
            decreases self.ops@.len() - i,
        {
            items.push(self.ops[i].to_value());
            i += 1;
        }
        assert(cbor::cbor_trees(items@) =~= self.view().ops.map_values(|m: Mutation| m.tree()));
        let mut entries: Vec<(ciborium::Value, ciborium::Value)> = Vec::new();
        entries.push(
            entry_value("base_hash", cbor::text_value(self.base_hash.to_hex().as_str())),
        );
        entries.push(entry_value("ops", cbor::array_value(items)));
        assert(cbor::cbor_pairs(entries@) =~= self.view().tree()->Entries_0);
        let v = cbor::map_value(entries);
        proof {
            lemma_delta_plain(self.view());
            assert forall|j: int| 0 <= j < self.view().ops.len() implies delta_form::op_fits(
                #[trigger] self.view().ops[j],
            ) by {
                assert(self.view().ops[j] == self.ops@[j].view());
            }
            delta_form::law_delta_is_read_back(self.view());
        }
        cbor::encode(&v)
    }

    /// Reads a delta from a payload, where the payload starts with one in CBOR.
    pub fn from_cbor(payload: &[u8]) -> (r: Option<Self>)
        ensures
            match r {
                Some(d) => mutations_of_bytes(payload@) == Some(d.view()),
                None => mutations_of_bytes(payload@) is None,
            },
    {
        delta_form::read(payload)
    }
}

impl Clone for Delta {
    fn clone(&self) -> (d: Self)
        ensures
            d.view() == self.view(),
    {
        let mut ops: Vec<Op> = Vec::new();
        let mut i: usize = 0;
        while i < self.ops.len()
            invariant
                i <= self.ops@.len(),
                ops@.len() == i,
                forall|j: int| 0 <= j < i ==> (#[trigger] ops@[j]).view() == self.ops@[j].view(),
            decreases self.ops@.len() - i,
        {
            ops.push(self.ops[i].clone());
            i += 1;
        }
        assert(mutations_of(ops@) =~= mutations_of(self.ops@));
        Delta { base_hash: self.base_hash, ops }
    }
}

proof fn lemma_delta_plain(m: Mutations)
    ensures
        cbor::is_plain(m.tree(), 8),
{
    let items = m.ops.map_values(|x: Mutation| x.tree());
    assert forall|i: int| 0 <= i < items.len() implies cbor::is_plain(#[trigger] items[i], 6) by {
        let es = m.ops[i].tree()->Entries_0;
        assert forall|j: int| 0 <= j < es.len() implies cbor::is_plain((#[trigger] es[j]).0, 5)
            && cbor::is_plain(es[j].1, 5) by {}
    }
    assert(cbor::is_plain(cbor::CborTree::Array(items), 7));
    let es = m.tree()->Entries_0;
    assert forall|j: int| 0 <= j < es.len() implies cbor::is_plain((#[trigger] es[j]).0, 7)
        && cbor::is_plain(es[j].1, 7) by {}
}

/// A delta leads to its base and to every block that one of its mutations
/// puts, also where a later mutation is about the same name, and to nothing
/// else.
pub proof fn law_delta_leads_to_base_and_every_put(m: Mutations, i: int, h: crate::hash::Hash)
    ensures
        m.targets().contains(m.base),
        0 <= i < m.ops.len() && m.ops[i] is Put ==> m.targets().contains(m.ops[i]->Put_1),
        m.targets().contains(h) ==> h == m.base || exists|j: int|
            0 <= j < m.ops.len() && (#[trigger] m.ops[j]) is Put && m.ops[j]->Put_1 == h,
{
    let t = m.targets();
    assert(t[0] == m.base);
    if 0 <= i < m.ops.len() && m.ops[i] is Put {
        lemma_put_is_target(m.ops, i);
        let p = put_targets(m.ops);
        let k = choose|k: int| 0 <= k < p.len() && p[k] == m.ops[i]->Put_1;
        assert(t[k + 1] == m.ops[i]->Put_1);
    }
    if t.contains(h) && h != m.base {
        let k = choose|k: int| 0 <= k < t.len() && t[k] == h;
        assert(put_targets(m.ops)[k - 1] == h);
        lemma_target_is_put(m.ops, h);
    }
}

proof fn lemma_put_is_target(ops: Seq<Mutation>, i: int)
    requires
        0 <= i < ops.len(),
        ops[i] is Put,
    ensures
        put_targets(ops).contains(ops[i]->Put_1),
    decreases ops.len(),
{
    let p = put_targets(ops);
    if i == ops.len() - 1 {
        assert(p.last() == ops[i]->Put_1);
        assert(p[p.len() - 1] == ops[i]->Put_1);
    } else {
        let first = ops.drop_last();
        lemma_put_is_target(first, i);
        let q = put_targets(first);
        let k = choose|k: int| 0 <= k < q.len() && q[k] == ops[i]->Put_1;
        assert(p[k] == ops[i]->Put_1);
    }
}

proof fn lemma_target_is_put(ops: Seq<Mutation>, h: crate::hash::Hash)
    requires
        put_targets(ops).contains(h),
    ensures
        exists|j: int|
            0 <= j < ops.len() && (#[trigger] ops[j]) is Put && ops[j]->Put_1 == h,
    decreases ops.len(),
{
    let p = put_targets(ops);
    let first = ops.drop_last();
    let last = ops[ops.len() - 1];
    if last is Put && last->Put_1 == h {
    } else {
        let k = choose|k: int| 0 <= k < p.len() && p[k] == h;
        assert(put_targets(first)[k] == h);
        lemma_target_is_put(first, h);
        let j = choose|j: int|
            0 <= j < first.len() && (#[trigger] first[j]) is Put && first[j]->Put_1 == h;
        assert(ops[j] == first[j]);
    }
}

/// One more put adds its block behind the others that a delta leads to; one
/// more removal adds none.
pub proof fn law_targets_grow_put_by_put(m: Mutations, name: Seq<char>, h: crate::hash::Hash)
    ensures
        (Mutations { base: m.base, ops: Seq::empty() }).targets() == seq![m.base],
        (Mutations { base: m.base, ops: m.ops.push(Mutation::Put(name, h)) }).targets()
            == m.targets().push(h),
        (Mutations { base: m.base, ops: m.ops.push(Mutation::Remove(name)) }).targets()
            == m.targets(),
{
    let put = m.ops.push(Mutation::Put(name, h));
    let gone = m.ops.push(Mutation::Remove(name));
    assert(put.drop_last() =~= m.ops);
    assert(gone.drop_last() =~= m.ops);
    assert((Mutations { base: m.base, ops: put }).targets() =~= m.targets().push(h));
    assert((Mutations { base: m.base, ops: Seq::empty() }).targets() =~= seq![m.base]);
}

/// A delta is written out as its base and its mutations in order, each with its
/// kind, its name and, for a put, its block.
pub proof fn law_delta_form(m: Mutations, name: Seq<char>, h: crate::hash::Hash, i: int)
    ensures
        m.tree() is Entries,
        m.tree()->Entries_0.len() == 2,
        m.tree()->Entries_0[0] == (
            cbor::CborTree::Text("base_hash"@),
            cbor::CborTree::Text(hash::hex_text(m.base.view())),
        ),
        m.tree()->Entries_0[1].0 == cbor::CborTree::Text("ops"@),
        m.tree()->Entries_0[1].1 is Array,
        m.tree()->Entries_0[1].1->Array_0.len() == m.ops.len(),
        0 <= i < m.ops.len() ==> m.tree()->Entries_0[1].1->Array_0[i] == m.ops[i].tree(),
        Mutation::Put(name, h).tree() == cbor::CborTree::Entries(
            seq![
                (cbor::CborTree::Text("kind"@), cbor::CborTree::Text("put"@)),
                (cbor::CborTree::Text("name"@), cbor::CborTree::Text(name)),
                (
                    cbor::CborTree::Text("hash"@),
                    cbor::CborTree::Text(hash::hex_text(h.view())),
                ),
            ],
        ),
        Mutation::Remove(name).tree() == cbor::CborTree::Entries(
            seq![
                (cbor::CborTree::Text("kind"@), cbor::CborTree::Text("remove"@)),
                (cbor::CborTree::Text("name"@), cbor::CborTree::Text(name)),
            ],
        ),
{
}

/// What a delta holds is its base and each of its operations, in order, with
/// its name and its block.
pub proof fn law_delta_holds_every_operation(d: Delta, i: int)
    ensures
        d.view().base == d.base_hash,
        d.view().ops.len() == d.ops@.len(),
        0 <= i < d.ops@.len() ==> d.view().ops[i] == (match d.ops@[i] {
            Op::Put { name, hash } => Mutation::Put(name@, hash),
            Op::Remove { name } => Mutation::Remove(name@),
        }) && d.view().ops[i].name() == (match d.ops@[i] {
            Op::Put { name, .. } => name@,
            Op::Remove { name } => name@,
        }),
{
}

} // verus!
