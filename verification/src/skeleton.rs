//! A kernel over the in-memory store and the fake adapter: fork, submit,
//! commit and abort end to end.

use std::collections::HashMap;
use vstd::prelude::*;

use crate::block;
use crate::block::Block;
use crate::capability::Capability;
use crate::delta;
use crate::delta::{Delta, Op};
use crate::drain::{Drain, DrainStep};
use crate::effect;
use crate::effect::{encode_descriptors, EffectDescriptor};
use crate::effects::boxed::BoxedA;
use crate::effects::class_a::ClassA;
use crate::effects::fake;
use crate::effects::fake::{number_after, FakeAdapter, FakeFsWrite, FakeSlackPost, FakeSlackUpdate};
use crate::effects::fire_capability::FireCapability;
use crate::error::ReelError;
use crate::interop::cbor;
use crate::interop::digest;
use crate::interop::json;
use crate::kernel;
use crate::namespace::Namespace;
use crate::ref_type;
use crate::status::Status;
use crate::store::error::StoreError;
use crate::store::mem::MemStore;
use crate::store::rules::prepare_ref;
use crate::store::store_trait;
use crate::store::store_trait::Store;
use crate::text;
use crate::view;
use crate::view::ViewId;

verus! {

broadcast use vstd::std_specs::hash::group_hash_axioms;

/// The remote effects that a view has pending.
struct PendingEffects {
    class_b: Vec<FakeSlackUpdate>,
    class_c: Vec<FakeSlackPost>,
    descriptors: Vec<EffectDescriptor>,
    next_effect_id: u64,
}

/// What a view has pending.
pub struct Pending {
    /// The idempotent effects in order.
    pub updates: Seq<fake::Update>,
    /// The irreversible effects in order.
    pub posts: Seq<fake::Post>,
    /// The descriptors of all of them in order.
    pub descriptors: Seq<effect::Descriptor>,
    /// The number of the next effect.
    pub next: u64,
}

/// Nothing pending.
pub open spec fn no_pending() -> Pending {
    Pending { updates: Seq::empty(), posts: Seq::empty(), descriptors: Seq::empty(), next: 0 }
}

/// The number of the effect in a place, up to the largest.
pub open spec fn place_number(place: nat) -> u64 {
    if place <= u64::MAX {
        place as u64
    } else {
        u64::MAX
    }
}

/// The number of the effect that a descriptor describes.
pub open spec fn effect_number(d: effect::Descriptor) -> u64 {
    match d {
        effect::Descriptor::B(n, _, _) => n,
        effect::Descriptor::A(n, _) => n,
        effect::Descriptor::C(n, _) => n,
    }
}

/// The versions of the idempotent effects of `ds`, in order.
pub open spec fn versions_in(ds: Seq<effect::Descriptor>) -> Seq<effect::Version>
    decreases ds.len(),
{
    if ds.len() == 0 {
        Seq::empty()
    } else {
        match ds.last() {
            effect::Descriptor::B(_, v, _) => versions_in(ds.drop_last()).push(v),
            _ => versions_in(ds.drop_last()),
        }
    }
}

/// The descriptions of the irreversible effects of `ds`, in order.
pub open spec fn operations_in(ds: Seq<effect::Descriptor>) -> Seq<json::JsonTree>
    decreases ds.len(),
{
    if ds.len() == 0 {
        Seq::empty()
    } else {
        match ds.last() {
            effect::Descriptor::C(_, op) => operations_in(ds.drop_last()).push(op),
            _ => operations_in(ds.drop_last()),
        }
    }
}

/// The payload of the descriptor of an update.
pub open spec fn update_op() -> json::JsonTree {
    json::JsonTree::Object(
        Map::empty().insert("adapter"@, json::JsonTree::Text("fake-slack"@)).insert(
            "op"@,
            json::JsonTree::Text("update"@),
        ),
    )
}

impl Pending {
    /// With one more idempotent effect.
    pub open spec fn with_update(self, u: fake::Update) -> Pending {
        Pending {
            updates: self.updates.push(u),
            descriptors: self.descriptors.push(
                effect::Descriptor::B(self.next, u.version, update_op()),
            ),
            next: number_after(self.next),
            ..self
        }
    }

    /// With one more irreversible effect.
    pub open spec fn with_post(self, post: fake::Post) -> Pending {
        Pending {
            posts: self.posts.push(post),
            descriptors: self.descriptors.push(
                effect::Descriptor::C(self.next, fake::post_description(post.label)),
            ),
            next: number_after(self.next),
            ..self
        }
    }

    /// The descriptors are those of what is pending: each has the number of
    /// its place, up to the largest, and in order they give the versions of
    /// the idempotent effects and the descriptions of the irreversible ones.
    pub open spec fn wf(self) -> bool {
        &&& self.descriptors.len() == self.updates.len() + self.posts.len()
        &&& self.next == place_number(self.descriptors.len())
        &&& forall|i: int|
            0 <= i < self.descriptors.len() ==> effect_number(#[trigger] self.descriptors[i])
                == place_number(i as nat)
        &&& versions_in(self.descriptors) == self.updates.map_values(|u: fake::Update| u.version)
        &&& operations_in(self.descriptors) == self.posts.map_values(
            |q: fake::Post| fake::post_description(q.label),
        )
    }

    /// The payload of the effects block.
    pub open spec fn payload(self) -> Seq<u8> {
        cbor::cbor_encoded(effect::descriptors_tree(self.descriptors))
    }

    /// What the adapter sees when everything fires: the idempotent effects
    /// first, then the irreversible ones, each in order.
    pub open spec fn entries(self) -> Seq<fake::Entry> {
        self.updates.map_values(|u: fake::Update| u.entry()) + self.posts.map_values(
            |q: fake::Post| q.entry(),
        )
    }
}

/// What a list of updates holds.
pub open spec fn updates_of(v: Seq<FakeSlackUpdate>) -> Seq<fake::Update> {
    v.map_values(|u: FakeSlackUpdate| u.view())
}

/// What a list of posts holds.
pub open spec fn posts_of(v: Seq<FakeSlackPost>) -> Seq<fake::Post> {
    v.map_values(|p: FakeSlackPost| p.view())
}

impl PendingEffects {
    /// What is pending.
    spec fn view(&self) -> Pending {
        Pending {
            updates: updates_of(self.class_b@),
            posts: posts_of(self.class_c@),
            descriptors: effect::descriptors_of(self.descriptors@),
            next: self.next_effect_id,
        }
    }

    /// Nothing pending.
    fn new() -> (p: Self)
        ensures
            p.view() == no_pending(),
    {
        let p = PendingEffects {
            class_b: Vec::new(),
            class_c: Vec::new(),
            descriptors: Vec::new(),
            next_effect_id: 0,
        };
        proof {
            assert(p.view().updates =~= Seq::empty());
            assert(p.view().posts =~= Seq::empty());
            assert(p.view().descriptors =~= Seq::empty());
        }
        p
    }

    fn take_number(&mut self) -> (n: u64)
        ensures
            n == old(self).view().next,
            final(self).view() == (Pending { next: number_after(n), ..old(self).view() }),
    {
        let n: u64 = self.next_effect_id;
        if n < u64::MAX {
            self.next_effect_id = n + 1;
        }
        n
    }

    /// Adds an idempotent effect.
    fn push_update(&mut self, effect: FakeSlackUpdate)
        ensures
            final(self).view() == old(self).view().with_update(effect.view()),
            old(self).view().wf() ==> final(self).view().wf(),
    {
        let effect_id: u64 = self.take_number();
        let ghost u = effect.view();
        let mut op = json::empty_object();
        json::set_field(&mut op, "adapter", json::text_json("fake-slack"));
        json::set_field(&mut op, "op", json::text_json("update"));
        let version_ref = effect.version_ref();
        self.descriptors.push(EffectDescriptor::B { effect_id, version_ref, op });
        self.class_b.push(effect);
        proof {
            let w = old(self).view().with_update(u);
            assert(self.view().updates =~= w.updates);
            assert(self.view().descriptors =~= w.descriptors);
            if old(self).view().wf() {
                lemma_with_update(old(self).view(), u);
            }
        }
    }

    /// Takes the last idempotent effect out again, which has the number
    /// `number`.
    fn drop_update(&mut self, number: u64)
        requires
            old(self).view().updates.len() > 0,
            old(self).view().descriptors.len() > 0,
        ensures
            final(self).view() == (Pending {
                updates: old(self).view().updates.drop_last(),
                descriptors: old(self).view().descriptors.drop_last(),
                next: number,
                ..old(self).view()
            }),
    {
        let _ = self.class_b.pop();
        let _ = self.descriptors.pop();
        self.next_effect_id = number;
        proof {
            assert(self.view().updates =~= old(self).view().updates.drop_last());
            assert(self.view().descriptors =~= old(self).view().descriptors.drop_last());
        }
    }

    /// Adds an irreversible effect.
    fn push_post(&mut self, effect: FakeSlackPost)
        ensures
            final(self).view() == old(self).view().with_post(effect.view()),
            old(self).view().wf() ==> final(self).view().wf(),
    {
        let effect_id: u64 = self.take_number();
        let ghost q = effect.view();
        let op = effect.describe();
        self.descriptors.push(EffectDescriptor::C { effect_id, op });
        self.class_c.push(effect);
        proof {
            let w = old(self).view().with_post(q);
            assert(self.view().posts =~= w.posts);
            assert(self.view().descriptors =~= w.descriptors);
            if old(self).view().wf() {
                lemma_with_post(old(self).view(), q);
            }
        }
    }

    /// Takes the last irreversible effect out again, which has the number
    /// `number`.
    fn drop_post(&mut self, number: u64)
        requires
            old(self).view().posts.len() > 0,
            old(self).view().descriptors.len() > 0,
        ensures
            final(self).view() == (Pending {
                posts: old(self).view().posts.drop_last(),
                descriptors: old(self).view().descriptors.drop_last(),
                next: number,
                ..old(self).view()
            }),
    {
        let _ = self.class_c.pop();
        let _ = self.descriptors.pop();
        self.next_effect_id = number;
        proof {
            assert(self.view().posts =~= old(self).view().posts.drop_last());
            assert(self.view().descriptors =~= old(self).view().descriptors.drop_last());
        }
    }
}

proof fn lemma_with_update(p: Pending, u: fake::Update)
    requires
        p.wf(),
    ensures
        p.with_update(u).wf(),
        p.with_update(u).updates.drop_last() == p.updates,
        p.with_update(u).descriptors.drop_last() == p.descriptors,
{
    let w = p.with_update(u);
    assert(w.updates.drop_last() =~= p.updates);
    assert(w.descriptors.drop_last() =~= p.descriptors);
    assert(versions_in(w.descriptors) =~= w.updates.map_values(|x: fake::Update| x.version));
    assert forall|i: int| 0 <= i < w.descriptors.len() implies effect_number(
        #[trigger] w.descriptors[i],
    ) == place_number(i as nat) by {
        if i < p.descriptors.len() {
            assert(w.descriptors[i] == p.descriptors[i]);
        }
    }
}

proof fn lemma_with_post(p: Pending, q: fake::Post)
    requires
        p.wf(),
    ensures
        p.with_post(q).wf(),
        p.with_post(q).posts.drop_last() == p.posts,
        p.with_post(q).descriptors.drop_last() == p.descriptors,
{
    let w = p.with_post(q);
    assert(w.posts.drop_last() =~= p.posts);
    assert(w.descriptors.drop_last() =~= p.descriptors);
    assert(operations_in(w.descriptors) =~= w.posts.map_values(
        |x: fake::Post| fake::post_description(x.label),
    ));
    assert forall|i: int| 0 <= i < w.descriptors.len() implies effect_number(
        #[trigger] w.descriptors[i],
    ) == place_number(i as nat) by {
        if i < p.descriptors.len() {
            assert(w.descriptors[i] == p.descriptors[i]);
        }
    }
}

/// The blocks after a payload with the digest `h` was stored: content that is
/// already there stays.
pub open spec fn with_payload(
    blocks: store_trait::Blocks,
    h: crate::hash::Hash,
    payload: Seq<u8>,
) -> store_trait::Blocks {
    if blocks.dom().contains(h) {
        blocks
    } else {
        blocks.insert(h, payload)
    }
}

/// Pointers and names as a commit publishes them.
pub struct Published {
    /// The pointers of the store.
    pub refs: store_trait::Refs,
    /// The bindings of the kernel's namespace.
    pub names: Map<Seq<char>, crate::hash::Hash>,
}

impl Published {
    /// With `name` set to a block.
    pub open spec fn with(self, name: Seq<char>, h: crate::hash::Hash) -> Published {
        Published {
            refs: self.refs.insert(name, ref_type::Pointer { name, hash: h, version: None }),
            names: self.names.insert(name, h),
        }
    }

    /// With each `Put` of `ops` pinned, in order.
    pub open spec fn with_pins(self, ops: Seq<delta::Mutation>) -> Published
        decreases ops.len(),
    {
        if ops.len() == 0 {
            self
        } else {
            let before = self.with_pins(ops.drop_last());
            match ops.last() {
                delta::Mutation::Put(name, h) => before.with(pin_name(name), h),
                delta::Mutation::Remove(_) => before,
            }
        }
    }
}

/// The name under which the target of a `Put` is pinned.
pub open spec fn pin_name(name: Seq<char>) -> Seq<char> {
    "__delta-put/"@ + name
}

/// The mutation can be pinned: its block is stored and the pin's name is
/// acceptable.
pub open spec fn can_pin(blocks: store_trait::Blocks, m: delta::Mutation) -> bool {
    match m {
        delta::Mutation::Put(name, h) => blocks.dom().contains(h) && ref_type::is_ref_name(
            pin_name(name),
        ),
        delta::Mutation::Remove(_) => true,
    }
}

/// The first mutation that cannot be pinned stands at `i`.
pub open spec fn first_bad_pin(
    blocks: store_trait::Blocks,
    ops: Seq<delta::Mutation>,
    i: int,
) -> bool {
    &&& 0 <= i < ops.len()
    &&& !can_pin(blocks, ops[i])
    &&& forall|j: int| 0 <= j < i ==> can_pin(blocks, #[trigger] ops[j])
}

/// Every mutation can be pinned.
pub open spec fn all_pins(blocks: store_trait::Blocks, ops: Seq<delta::Mutation>) -> bool {
    forall|j: int| 0 <= j < ops.len() ==> can_pin(blocks, #[trigger] ops[j])
}

/// The refusal of the pointer `name` to the block `h`.
pub open spec fn pointer_refusal(
    blocks: store_trait::Blocks,
    name: Seq<char>,
    h: crate::hash::Hash,
) -> Seq<char> {
    if blocks.dom().contains(h) {
        "E-007 Storage: "@ + ref_type::ref_name_refusal(name)
    } else {
        "E-001 BlockNotFound: "@ + crate::hash::hex_text(h.view())
    }
}

/// Why the commit `h` cannot be published under `name`: the name is not
/// acceptable, or else the first mutation that cannot be pinned.
pub open spec fn refusal(
    blocks: store_trait::Blocks,
    name: Seq<char>,
    h: crate::hash::Hash,
    ops: Seq<delta::Mutation>,
) -> Option<Seq<char>> {
    if !ref_type::is_ref_name(name) {
        Some("commit put_ref("@ + name + "): "@ + pointer_refusal(blocks, name, h))
    } else if all_pins(blocks, ops) {
        None
    } else {
        let i = choose|i: int| first_bad_pin(blocks, ops, i);
        let pin = pin_name(ops[i]->Put_0);
        Some("commit pin "@ + pin + ": "@ + pointer_refusal(blocks, pin, ops[i]->Put_1))
    }
}

/// The payload of the block of a delta.
pub open spec fn delta_payload(m: delta::Mutations) -> Seq<u8> {
    cbor::cbor_encoded(m.tree())
}

/// A kernel over the in-memory store and the fake adapter.
pub struct SkeletonKernel {
    store: MemStore,
    buffers: HashMap<u128, PendingEffects>,
    namespace: Namespace,
}

impl SkeletonKernel {
    /// The stored payloads.
    pub closed spec fn blocks(&self) -> store_trait::Blocks {
        self.store.blocks()
    }

    /// The published pointers and names.
    pub closed spec fn published(&self) -> Published {
        Published { refs: self.store.refs(), names: self.namespace.view() }
    }

    /// What each view has pending.
    pub closed spec fn buffered(&self) -> Map<ViewId, Pending> {
        Map::new(
            |id: ViewId| self.buffers@.contains_key(id.0),
            |id: ViewId| self.buffers@[id.0].view(),
        )
    }

    /// What the view `id` has pending.
    pub open spec fn pending(&self, id: ViewId) -> Pending {
        if self.buffered().dom().contains(id) {
            self.buffered()[id]
        } else {
            no_pending()
        }
    }

    /// The invariant of the kernel.
    pub closed spec fn wf(&self) -> bool {
        &&& self.store.wf()
        &&& forall|id: ViewId| #[trigger]
            self.buffered().dom().contains(id) ==> self.buffered()[id].wf()
    }

    /// A kernel over `store` with nothing bound and nothing pending.
    #[must_use]
    pub fn new(store: MemStore) -> (k: Self)
        requires
            store.wf(),
        ensures
            k.wf(),
            k.blocks() == store.blocks(),
            k.published().refs == store.refs(),
            k.published().names == Map::<Seq<char>, crate::hash::Hash>::empty(),
            k.buffered() == Map::<ViewId, Pending>::empty(),
    {
        let k = SkeletonKernel { store, buffers: HashMap::new(), namespace: Namespace::new() };
        assert(k.buffered() =~= Map::<ViewId, Pending>::empty());
        k
    }

    /// The names that the kernel has bound.
    #[must_use]
    pub fn namespace(&self) -> (ns: &Namespace)
        ensures
            ns.view() == self.published().names,
    {
        &self.namespace
    }

    /// The store.
    #[must_use]
    pub fn store(&self) -> (s: &MemStore)
        requires
            self.wf(),
        ensures
            s.wf(),
            s.blocks() == self.blocks(),
            s.refs() == self.published().refs,
    {
        &self.store
    }

    /// Binds `name` to a stored block, outside of any view.
    pub fn seed_ref(&mut self, name: &str, hash: crate::hash::Hash) -> (r: Result<(), ReelError>)
        requires
            old(self).wf(),
        ensures
            final(self).wf(),
            final(self).blocks() == old(self).blocks(),
            final(self).buffered() == old(self).buffered(),
            r is Ok <==> old(self).blocks().dom().contains(hash) && ref_type::is_ref_name(name@),
            r is Ok ==> final(self).published().refs == old(self).published().refs.insert(
                name@,
                ref_type::Pointer { name: name@, hash, version: None },
            ) && final(self).published().names == old(self).published().names.insert(name@, hash),
            match r {
                Ok(()) => final(self).published() == old(self).published().with(name@, hash),
                Err(e) => {
                    &&& final(self).published() == old(self).published()
                    &&& if old(self).blocks().dom().contains(hash) {
                        e.is_storage(
                            "seed_ref("@ + name@ + "): E-007 Storage: "@
                                + ref_type::ref_name_refusal(name@),
                        )
                    } else {
                        e == ReelError::BlockNotFound(hash)
                    }
                },
            },
    {
        match self.store.put_ref(name, &hash, None) {
            Ok(()) => {
                self.namespace.insert(name, hash);
                proof {
                    lemma_buffers_kept(*old(self), *self);
                }
                Ok(())
            },
            Err(StoreError::Protocol(ReelError::BlockNotFound(h))) => {
                proof {
                    lemma_buffers_kept(*old(self), *self);
                }
                Err(ReelError::BlockNotFound(h))
            },
            Err(e) => {
                let m = String::from_str("seed_ref(").concat(name).concat("): ").concat(
                    e.to_string().as_str(),
                );
                proof {
                    lemma_buffers_kept(*old(self), *self);
                    reveal_strlit("): ");
                    reveal_strlit("E-007 Storage: ");
                    reveal_strlit("): E-007 Storage: ");
                    assert("): E-007 Storage: "@ =~= "): "@ + "E-007 Storage: "@);
                    assert(m@ =~= "seed_ref("@ + name@ + "): E-007 Storage: "@
                        + ref_type::ref_name_refusal(name@));
                }
                Err(ReelError::Storage(m))
            },
        }
    }

    /// Stores a block.
    pub fn write_block(&mut self, block: &Block) -> (r: Result<(), ReelError>)
        requires
            old(self).wf(),
        ensures
            final(self).wf(),
            r is Ok,
            final(self).blocks() == store_trait::with_block(old(self).blocks(), *block),
            final(self).published() == old(self).published(),
            final(self).buffered() == old(self).buffered(),
    {
        match self.store.write_block(block) {
            Ok(()) => {
                proof {
                    lemma_buffers_kept(*old(self), *self);
                }
                Ok(())
            },
            Err(e) => Err(
                ReelError::Storage(
                    String::from_str("write_block(").concat(block.hash.short().as_str()).concat(
                        "): ",
                    ).concat(e.to_string().as_str()),
                ),
            ),
        }
    }

    /// Forks a view off `parent` with authority that `parent` covers.
    pub fn fork(&mut self, parent: &view::View, attenuated_caps: Vec<Capability>) -> (r: Result<
        view::View,
        ReelError,
    >)
        ensures
            *final(self) == *old(self),
            view::is_fork(*parent, attenuated_caps, r),
    {
        view::View::child_of(parent, attenuated_caps)
    }

    /// Applies a pure local effect to the delta of an active view. It never
    /// becomes a pending effect.
    pub fn submit_a(
        &mut self,
        view: &mut view::View,
        effect: FakeFsWrite,
        adapter: &mut FakeAdapter,
    ) -> (r: Result<(), ReelError>)
        ensures
            *final(self) == *old(self),
            final(adapter).issued() == old(adapter).issued(),
            is_application(
                *old(view),
                *final(view),
                old(adapter).view(),
                final(adapter).view(),
                effect,
                r,
            ),
    {
        if !view.is_active() {
            return Err(ReelError::ViewTerminal(view.status));
        }
        let ghost m = effect.mutation();
        let boxed = BoxedA::new(effect);
        view.delta.ops.push(boxed.apply(adapter));
        proof {
            assert(boxed.witnessed(*old(adapter), *adapter));
            assert(view.delta.view().ops =~= old(view).view().delta.ops.push(m));
        }
        Ok(())
    }

    /// Adds an idempotent effect to what an active view has pending, and
    /// points the view at the block that describes all of it. The view always
    /// names the block of exactly what is pending, so an effect with which the
    /// block would be too large is refused and not pending.
    pub fn submit_b(&mut self, view: &mut view::View, effect: FakeSlackUpdate) -> (r: Result<
        (),
        ReelError,
    >)
        requires
            old(self).wf(),
        ensures
            final(self).wf(),
            is_submission(
                *old(self),
                *final(self),
                *old(view),
                *final(view),
                old(self).pending(old(view).id).with_update(effect.view()),
                r,
            ),
    {
        if !view.is_active() {
            return Err(ReelError::ViewTerminal(view.status));
        }
        let known = self.buffers.contains_key(&view.id.0);
        let mut pending = self.take_pending(view.id);
        let ghost before = pending.view();
        let number: u64 = pending.next_effect_id;
        let ghost u = effect.view();
        pending.push_update(effect);
        proof {
            lemma_with_update(before, u);
            let all = old(self).buffered();
            assert(all.remove(view.id).insert(view.id, pending.view()) =~= all.insert(
                view.id,
                pending.view(),
            ));
        }
        match build_effects_block(&pending.descriptors) {
            Ok(b) => self.buffer(view, pending, &b, "submit_b effects-block: "),
            Err(e) => {
                pending.drop_update(number);
                if known {
                    self.put_back(view.id, pending);
                }
                assert(self.buffered() =~= old(self).buffered());
                Err(e)
            },
        }
    }

    /// Adds an irreversible effect to what an active view has pending, and
    /// points the view at the block that describes all of it. The view always
    /// names the block of exactly what is pending, so an effect with which the
    /// block would be too large is refused and not pending.
    pub fn submit_c(&mut self, view: &mut view::View, effect: FakeSlackPost) -> (r: Result<
        (),
        ReelError,
    >)
        requires
            old(self).wf(),
        ensures
            final(self).wf(),
            is_submission(
                *old(self),
                *final(self),
                *old(view),
                *final(view),
                old(self).pending(old(view).id).with_post(effect.view()),
                r,
            ),
    {
        if !view.is_active() {
            return Err(ReelError::ViewTerminal(view.status));
        }
        let known = self.buffers.contains_key(&view.id.0);
        let mut pending = self.take_pending(view.id);
        let ghost before = pending.view();
        let number: u64 = pending.next_effect_id;
        let ghost q = effect.view();
        pending.push_post(effect);
        proof {
            lemma_with_post(before, q);
            let all = old(self).buffered();
            assert(all.remove(view.id).insert(view.id, pending.view()) =~= all.insert(
                view.id,
                pending.view(),
            ));
        }
        match build_effects_block(&pending.descriptors) {
            Ok(b) => self.buffer(view, pending, &b, "submit_c effects-block: "),
            Err(e) => {
                pending.drop_post(number);
                if known {
                    self.put_back(view.id, pending);
                }
                assert(self.buffered() =~= old(self).buffered());
                Err(e)
            },
        }
    }

    fn take_pending(&mut self, id: ViewId) -> (p: PendingEffects)
        requires
            old(self).wf(),
        ensures
            final(self).wf(),
            final(self).blocks() == old(self).blocks(),
            final(self).published() == old(self).published(),
            final(self).buffered() == old(self).buffered().remove(id),
            p.view() == old(self).pending(id),
            p.view().wf(),
    {
        let found = self.buffers.remove(&id.0);
        proof {
            assert(self.buffered() =~= old(self).buffered().remove(id));
            law_descriptors_are_of_what_is_pending(*old(self), id);
        }
        match found {
            Some(p) => p,
            None => PendingEffects::new(),
        }
    }

    fn put_back(&mut self, id: ViewId, pending: PendingEffects)
        requires
            old(self).wf(),
            pending.view().wf(),
        ensures
            final(self).wf(),
            final(self).blocks() == old(self).blocks(),
            final(self).published() == old(self).published(),
            final(self).buffered() == old(self).buffered().insert(id, pending.view()),
    {
        let ghost p = pending.view();
        self.buffers.insert(id.0, pending);
        assert(self.buffered() =~= old(self).buffered().insert(id, p)) by {
            assert forall|k: ViewId| #[trigger]
                self.buffered().dom().contains(k) == old(self).buffered().insert(
                    id,
                    p,
                ).dom().contains(k) by {}
        }
    }

    /// Stores the block `described` of what is pending and keeps it for `view`.
    fn buffer(
        &mut self,
        view: &mut view::View,
        pending: PendingEffects,
        described: &Block,
        context: &str,
    ) -> (r: Result<(), ReelError>)
        requires
            old(self).wf(),
            pending.view().wf(),
            described.wf(),
            described.payload() == pending.view().payload(),
        ensures
            final(self).wf(),
            r is Ok,
            final(self).published() == old(self).published(),
            final(self).buffered() == old(self).buffered().insert(old(view).id, pending.view()),
            is_digest_of(final(view).effects_hash, pending.view().payload()),
            final(self).blocks() == with_payload(
                old(self).blocks(),
                final(view).effects_hash->0,
                pending.view().payload(),
            ),
            *final(view) == (view::View {
                effects_hash: final(view).effects_hash,
                ..*old(view)
            }),
    {
        match self.store.write_block(described) {
            Ok(()) => {
                proof {
                    lemma_buffers_kept(*old(self), *self);
                }
                self.put_back(view.id, pending);
                view.effects_hash = Some(described.hash());
                Ok(())
            },
            Err(e) => Err(
                ReelError::Storage(
                    String::from_str(context).concat(e.to_string().as_str()),
                ),
            ),
        }
    }

    /// Commits an active view: stores its delta, fires its pending effects, the
    /// idempotent ones first, and publishes the delta under `name` with a pin
    /// for every block that it puts. A commit that is refused does none of it.
    pub fn commit(&mut self, view: &mut view::View, name: &str, adapter: &mut FakeAdapter) -> (r: Result<
        crate::hash::Hash,
        ReelError,
    >)
        requires
            old(self).wf(),
        ensures
            final(self).wf(),
            final(adapter).issued() == old(adapter).issued(),
            is_commit(
                *old(self),
                *final(self),
                *old(view),
                *final(view),
                old(adapter).view(),
                final(adapter).view(),
                name@,
                r,
            ),
    {
        if !view.is_active() {
            return Err(ReelError::ViewTerminal(view.status));
        }
        let delta_block = match build_delta_block(&view.delta) {
            Ok(b) => b,
            Err(e) => return Err(e),
        };
        let delta_hash = delta_block.hash();
        let ghost payload = delta_payload(view.view().delta);
        assert(is_digest_of(Some(delta_hash), payload));
        match self.admit_publication(view, name, &delta_hash, Ghost(payload)) {
            Ok(()) => {},
            Err(e) => return Err(e),
        }
        match self.store.write_block(&delta_block) {
            Ok(()) => {},
            Err(e) => {
                return Err(
                    ReelError::Storage(
                        String::from_str("commit delta: ").concat(e.to_string().as_str()),
                    ),
                );
            },
        }
        proof {
            lemma_buffers_kept(*old(self), *self);
            assert(self.blocks() == with_payload(old(self).blocks(), delta_hash, payload));
        }
        let pending = self.take_pending(view.id);
        fire_all(pending, adapter);
        self.publish(view, name, delta_hash);
        view.effects_hash = None;
        match view.transition_to(Status::Committed) {
            Ok(()) => Ok(delta_hash),
            Err(e) => Err(e),
        }
    }

    /// Decides whether the delta `delta_hash` of `view`, once it is stored, can
    /// be published under `name` with every block that it puts pinned.
    fn admit_publication(
        &self,
        view: &view::View,
        name: &str,
        delta_hash: &crate::hash::Hash,
        Ghost(payload): Ghost<Seq<u8>>,
    ) -> (r: Result<(), ReelError>)
        requires
            self.wf(),
        ensures
            match refusal(
                with_payload(self.blocks(), *delta_hash, payload),
                name@,
                *delta_hash,
                view.view().delta.ops,
            ) {
                Some(m) => r matches Err(e) && e.is_storage(m),
                None => r is Ok,
            },
    {
        let ghost blocks = with_payload(self.blocks(), *delta_hash, payload);
        let ghost ops = view.view().delta.ops;
        match prepare_ref(true, name, delta_hash, None) {
            Ok(_) => {},
            Err(e) => {
                let m = String::from_str("commit put_ref(").concat(name).concat("): ").concat(
                    e.to_string().as_str(),
                );
                return Err(ReelError::Storage(m));
            },
        }
        let mut i: usize = 0;
        while i < view.delta.ops.len()
            invariant
                i <= view.delta.ops@.len(),
                ops == view.view().delta.ops,
                ops == delta::mutations_of(view.delta.ops@),
                self.wf(),
                blocks == with_payload(self.blocks(), *delta_hash, payload),
                ref_type::is_ref_name(name@),
                forall|j: int| 0 <= j < i ==> can_pin(blocks, #[trigger] ops[j]),
            decreases view.delta.ops@.len() - i,
        {
            assert(ops[i as int] == view.delta.ops@[i as int].view());
            if let Op::Put { name: put_name, hash } = &view.delta.ops[i] {
                let pinned = String::from_str("__delta-put/").concat(put_name.as_str());
                let stored = self.store.holds(hash) || *hash == *delta_hash;
                match prepare_ref(stored, pinned.as_str(), hash, None) {
                    Ok(_) => {},
                    Err(e) => {
                        let m = String::from_str("commit pin ").concat(pinned.as_str()).concat(
                            ": ",
                        ).concat(e.to_string().as_str());
                        proof {
                            assert(first_bad_pin(blocks, ops, i as int));
                            let k = choose|k: int| first_bad_pin(blocks, ops, k);
                            if k < i {
                                assert(can_pin(blocks, ops[k]));
                            } else if i < k {
                                assert(can_pin(blocks, ops[i as int]));
                            }
                            assert(!all_pins(blocks, ops));
                        }
                        return Err(ReelError::Storage(m));
                    },
                }
            }
            i += 1;
        }
        Ok(())
    }

    /// Publishes the committed delta `delta_hash` of `view` under `name`, with
    /// a pin for every block that the delta puts.
    fn publish(&mut self, view: &view::View, name: &str, delta_hash: crate::hash::Hash)
        requires
            old(self).wf(),
            old(self).blocks().dom().contains(delta_hash),
            ref_type::is_ref_name(name@),
            all_pins(old(self).blocks(), view.view().delta.ops),
        ensures
            final(self).wf(),
            final(self).blocks() == old(self).blocks(),
            final(self).buffered() == old(self).buffered(),
            final(self).published() == old(self).published().with(name@, delta_hash).with_pins(
                view.view().delta.ops,
            ),
    {
        let ghost blocks = self.blocks();
        let ghost ops = view.view().delta.ops;
        let ghost base = self.published().with(name@, delta_hash);
        let _ = self.store.put_ref(name, &delta_hash, None);
        self.namespace.insert(name, delta_hash);
        proof {
            lemma_buffers_kept(*old(self), *self);
            assert(self.published() == base);
            assert(ops.take(0) =~= Seq::empty());
        }
        let mut i: usize = 0;
        while i < view.delta.ops.len()
            invariant
                i <= view.delta.ops@.len(),
                ops == view.view().delta.ops,
                ops == delta::mutations_of(view.delta.ops@),
                self.wf(),
                self.blocks() == blocks,
                blocks == old(self).blocks(),
                all_pins(blocks, ops),
                base == old(self).published().with(name@, delta_hash),
                self.buffered() == old(self).buffered(),
                self.published() == base.with_pins(ops.take(i as int)),
            decreases view.delta.ops@.len() - i,
        {
            proof {
                assert(ops.take(i + 1).drop_last() =~= ops.take(i as int));
                assert(ops.take(i + 1).last() == view.delta.ops@[i as int].view());
                assert(ops[i as int] == view.delta.ops@[i as int].view());
                assert(can_pin(blocks, ops[i as int]));
            }
            if let Op::Put { name: put_name, hash } = &view.delta.ops[i] {
                let pinned = String::from_str("__delta-put/").concat(put_name.as_str());
                let ghost mid = *self;
                let _ = self.store.put_ref(pinned.as_str(), hash, None);
                self.namespace.insert(pinned.as_str(), *hash);
                proof {
                    lemma_buffers_kept(mid, *self);
                }
            }
            i += 1;
        }
        assert(ops.take(ops.len() as int) =~= ops);
    }

    /// Aborts `view`: drops what it has pending without firing any of it, and
    /// ends the view. A view that has already ended is refused.
    pub fn abort(&mut self, view: &mut view::View) -> (r: Result<(), ReelError>)
        requires
            old(self).wf(),
        ensures
            final(self).wf(),
            is_abort(*old(self), *final(self), *old(view), *final(view), r),
    {
        let _pending = self.take_pending(view.id);
        let mut verbs = kernel::Kernel::new(());
        verbs.abort(view)
    }

    /// How many remote effects the view has pending.
    #[must_use]
    pub fn pending_count(&self, view_id: ViewId) -> (n: usize)
        requires
            self.wf(),
        ensures
            ({
                let p = self.pending(view_id);
                let total = p.updates.len() + p.posts.len();
                n == if total <= usize::MAX {
                    total as int
                } else {
                    usize::MAX as int
                }
            }),
    {
        match self.buffers.get(&view_id.0) {
            Some(p) => {
                assert(self.buffered().dom().contains(view_id));
                let b: usize = p.class_b.len();
                let c: usize = p.class_c.len();
                if c <= usize::MAX - b {
                    b + c
                } else {
                    usize::MAX
                }
            },
            None => {
                assert(!self.buffered().dom().contains(view_id));
                0
            },
        }
    }

    /// Whether a block is stored and can be reached from the kernel's names.
    pub fn reachable(&self, hash: &crate::hash::Hash) -> (r: Result<bool, ReelError>)
        requires
            self.wf(),
        ensures
            r == Ok::<bool, ReelError>(
                self.blocks().dom().contains(*hash) && store_trait::reachable(
                    self.blocks(),
                    self.published().names,
                ).contains(*hash),
            ),
    {
        match self.store.lookup_by_hash(hash, &self.namespace) {
            Ok(_) => Ok(true),
            Err(StoreError::Protocol(ReelError::BlockNotFound(_))) => Ok(false),
            Err(StoreError::Protocol(ReelError::ReachabilityViolation(_))) => Ok(false),
            Err(e) => Err(
                ReelError::Storage(
                    String::from_str("reachable check: ").concat(e.to_string().as_str()),
                ),
            ),
        }
    }
}

/// `h` is there and is the digest of `payload`.
pub open spec fn is_digest_of(h: Option<crate::hash::Hash>, payload: Seq<u8>) -> bool {
    h matches Some(d) && d.view() == digest::blake3_256(payload)
}

/// What applying a pure local effect to the view `view` does.
pub open spec fn is_application(
    view: view::View,
    view_after: view::View,
    seen: Seq<fake::Entry>,
    seen_after: Seq<fake::Entry>,
    effect: FakeFsWrite,
    r: Result<(), ReelError>,
) -> bool {
    &&& r is Ok <==> view.status == Status::Active
    &&& match r {
        Ok(()) => {
            &&& view_after.view() == (view::Workspace {
                delta: delta::Mutations {
                    base: view.view().delta.base,
                    ops: view.view().delta.ops.push(effect.mutation()),
                },
                ..view.view()
            })
            &&& seen_after == seen.push(effect.entry())
        },
        Err(e) => {
            &&& e == ReelError::ViewTerminal(view.status)
            &&& view_after == view
            &&& seen_after == seen
        },
    }
}

/// What submitting a remote effect does, where `pending` is what the view has
/// pending with the effect.
pub open spec fn is_submission(
    before: SkeletonKernel,
    after: SkeletonKernel,
    view: view::View,
    view_after: view::View,
    pending: Pending,
    r: Result<(), ReelError>,
) -> bool {
    &&& r is Ok <==> view.status == Status::Active && pending.payload().len()
        <= block::MAX_BLOCK_SIZE
    &&& after.published() == before.published()
    &&& if view.status != Status::Active {
        &&& r == Err::<(), ReelError>(ReelError::ViewTerminal(view.status))
        &&& view_after == view
        &&& after.buffered() == before.buffered()
        &&& after.blocks() == before.blocks()
    } else {
        match r {
            Ok(()) => {
                &&& after.buffered() == before.buffered().insert(view.id, pending)
                &&& is_digest_of(view_after.effects_hash, pending.payload())
                &&& view_after == (view::View { effects_hash: view_after.effects_hash, ..view })
                &&& after.blocks() == with_payload(
                    before.blocks(),
                    view_after.effects_hash->0,
                    pending.payload(),
                )
            },
            Err(e) => {
                &&& e.is_storage(block::oversize_text(pending.payload().len()))
                &&& view_after == view
                &&& after.buffered() == before.buffered()
                &&& after.blocks() == before.blocks()
            },
        }
    }
}

/// What an abort of the view `view` does.
pub open spec fn is_abort(
    before: SkeletonKernel,
    after: SkeletonKernel,
    view: view::View,
    view_after: view::View,
    r: Result<(), ReelError>,
) -> bool {
    &&& after.blocks() == before.blocks()
    &&& after.published() == before.published()
    &&& after.buffered() == before.buffered().remove(view.id)
    &&& if view.status == Status::Active {
        r is Ok && kernel::is_aborted_from(view.view(), view_after.view())
    } else {
        r == Err::<(), ReelError>(ReelError::ViewTerminal(view.status)) && view_after == view
    }
}

/// What a commit of the view `view` under `name` does.
pub open spec fn is_commit(
    before: SkeletonKernel,
    after: SkeletonKernel,
    view: view::View,
    view_after: view::View,
    seen: Seq<fake::Entry>,
    seen_after: Seq<fake::Entry>,
    name: Seq<char>,
    r: Result<crate::hash::Hash, ReelError>,
) -> bool {
    let payload = delta_payload(view.view().delta);
    &&& r is Err ==> after == before && view_after == view && seen_after == seen
    &&& if view.status != Status::Active {
        r == Err::<crate::hash::Hash, ReelError>(ReelError::ViewTerminal(view.status))
    } else if payload.len() > block::MAX_BLOCK_SIZE {
        r matches Err(e) && e.is_storage(block::oversize_text(payload.len()))
    } else {
        &&& delta::mutations_of_bytes(payload) == Some(view.view().delta)
        &&& exists|h: crate::hash::Hash| #[trigger]
            is_digest_of(Some(h), payload) && match refusal(
                with_payload(before.blocks(), h, payload),
                name,
                h,
                view.view().delta.ops,
            ) {
                Some(m) => r matches Err(e) && e.is_storage(m),
                None => {
                    &&& r == Ok::<crate::hash::Hash, ReelError>(h)
                    &&& is_done(before, after, view, view_after, seen, seen_after, name, h)
                },
            }
    }
}

/// What a commit leaves behind that was not refused and whose delta has the
/// digest `h`: the delta is stored, everything pending has fired, and the
/// delta is published with all its pins.
pub open spec fn is_done(
    before: SkeletonKernel,
    after: SkeletonKernel,
    view: view::View,
    view_after: view::View,
    seen: Seq<fake::Entry>,
    seen_after: Seq<fake::Entry>,
    name: Seq<char>,
    h: crate::hash::Hash,
) -> bool {
    let delta = view.view().delta;
    &&& after.blocks() == with_payload(before.blocks(), h, delta_payload(delta))
    &&& after.buffered() == before.buffered().remove(view.id)
    &&& after.published() == before.published().with(name, h).with_pins(delta.ops)
    &&& seen_after == seen + before.pending(view.id).entries()
    &&& view_after == (view::View { effects_hash: None, status: Status::Committed, ..view })
}

proof fn lemma_buffers_kept(a: SkeletonKernel, b: SkeletonKernel)
    requires
        a.buffers == b.buffers,
    ensures
        a.buffered() == b.buffered(),
{
    assert(a.buffered() =~= b.buffered());
}

/// A commit fires its idempotent effects before its irreversible ones.
pub proof fn law_commit_fires_b_before_c(p: Pending, i: int)
    requires
        0 <= i < p.updates.len() + p.posts.len(),
    ensures
        p.entries().len() == p.updates.len() + p.posts.len(),
        i < p.updates.len() ==> p.entries()[i] == p.updates[i].entry(),
        i >= p.updates.len() ==> p.entries()[i] == p.posts[i - p.updates.len()].entry(),
{
}

proof fn lemma_pins_keep(start: Published, ops: Seq<delta::Mutation>, name: Seq<char>)
    requires
        start.names.dom().contains(name),
        pins_spare(ops, name),
    ensures
        start.with_pins(ops).names.dom().contains(name),
        start.with_pins(ops).names[name] == start.names[name],
    decreases ops.len(),
{
    if ops.len() > 0 {
        assert(pins_spare(ops.drop_last(), name)) by {
            assert forall|i: int| 0 <= i < ops.drop_last().len() implies !((
            #[trigger] ops.drop_last()[i]) is Put && pin_name(ops.drop_last()[i]->Put_0) == name) by {
                assert(ops.drop_last()[i] == ops[i]);
            }
        }
        lemma_pins_keep(start, ops.drop_last(), name);
        assert(ops.last() == ops[ops.len() - 1]);
    }
}

/// None of the pins of `ops` has the name `name`.
pub open spec fn pins_spare(ops: Seq<delta::Mutation>, name: Seq<char>) -> bool {
    forall|i: int|
        0 <= i < ops.len() ==> !((#[trigger] ops[i]) is Put && pin_name(ops[i]->Put_0) == name)
}

/// After a commit that succeeded, the committed delta and everything that it
/// puts can be reached from the kernel's names. The name of the commit must
/// not be that of one of its own pins, and a block that was stored under the
/// delta's digest before must be the delta's.
pub proof fn law_commit_keeps_its_blocks_reachable(
    before: SkeletonKernel,
    after: SkeletonKernel,
    view: view::View,
    view_after: view::View,
    seen: Seq<fake::Entry>,
    seen_after: Seq<fake::Entry>,
    name: Seq<char>,
    h: crate::hash::Hash,
    target: crate::hash::Hash,
)
    requires
        is_commit(before, after, view, view_after, seen, seen_after, name, Ok(h)),
        before.blocks().dom().contains(h) ==> before.blocks()[h] == delta_payload(
            view.view().delta,
        ),
        pins_spare(view.view().delta.ops, name),
    ensures
        after.blocks().dom().contains(h),
        store_trait::reachable(after.blocks(), after.published().names).contains(h),
        view.view().delta.targets().contains(target) ==> store_trait::reachable(
            after.blocks(),
            after.published().names,
        ).contains(target),
{
    let payload = delta_payload(view.view().delta);
    let ops = view.view().delta.ops;
    let r = Ok::<crate::hash::Hash, ReelError>(h);
    lemma_pins_keep(before.published().with(name, h), ops, name);
    store_trait::law_bound_is_reachable(after.blocks(), after.published().names, name);
    if view.view().delta.targets().contains(target) {
        store_trait::law_delta_targets_are_reachable(
            after.blocks(),
            after.published().names,
            name,
            target,
        );
    }
}

/// Submitting and then aborting leaves nothing pending and publishes nothing.
pub proof fn law_abort_forgets_submissions(
    before: SkeletonKernel,
    between: SkeletonKernel,
    after: SkeletonKernel,
    view: view::View,
    view_between: view::View,
    view_after: view::View,
    pending: Pending,
    submitted: Result<(), ReelError>,
    aborted: Result<(), ReelError>,
)
    requires
        is_submission(before, between, view, view_between, pending, submitted),
        is_abort(between, after, view_between, view_after, aborted),
    ensures
        after.pending(view.id) == no_pending(),
        after.published() == before.published(),
        after.buffered() == before.buffered().remove(view.id),
        view.status == Status::Active ==> view_after.status == Status::Aborted
            && view_after.effects_hash is None,
{
    assert(before.buffered().insert(view.id, pending).remove(view.id)
        =~= before.buffered().remove(view.id));
}

/// An abort silences a view for good: whatever was pending, a later commit of
/// the view is refused and fires nothing, and a later submission is refused
/// and leaves nothing to fire.
pub proof fn law_abort_silences_effects(
    before: SkeletonKernel,
    aborted: SkeletonKernel,
    later: SkeletonKernel,
    after: SkeletonKernel,
    view: view::View,
    view_aborted: view::View,
    view_after: view::View,
    seen: Seq<fake::Entry>,
    seen_after: Seq<fake::Entry>,
    name: Seq<char>,
    pending: Pending,
    r: Result<(), ReelError>,
    committed: Result<crate::hash::Hash, ReelError>,
    submitted: Result<(), ReelError>,
)
    requires
        is_abort(before, aborted, view, view_aborted, r),
        r is Ok,
    ensures
        aborted.pending(view.id) == no_pending(),
        view_aborted.effects_hash is None,
        is_commit(later, after, view_aborted, view_after, seen, seen_after, name, committed)
            ==> seen_after == seen && committed == Err::<crate::hash::Hash, ReelError>(
            ReelError::ViewTerminal(Status::Aborted),
        ) && after.published() == later.published(),
        is_submission(later, after, view_aborted, view_after, pending, submitted) ==> submitted
            == Err::<(), ReelError>(ReelError::ViewTerminal(Status::Aborted)) && after.buffered()
            == later.buffered(),
{
    assert(view_aborted.view().status == Status::Aborted);
    assert(view_aborted.view().effects is None);
}

/// The kernel, one of its views and what the adapter has seen, at one time.
pub struct Moment {
    /// The kernel.
    pub kernel: SkeletonKernel,
    /// The view.
    pub view: view::View,
    /// What the adapter has seen.
    pub seen: Seq<fake::Entry>,
}

/// The remote effects among `seen` that have fired, in order.
pub open spec fn fired(seen: Seq<fake::Entry>) -> Seq<fake::Entry> {
    seen.filter(|e: fake::Entry| !(e.event is Applied))
}

/// One call of the kernel on the view leads from `a` to `b`.
pub open spec fn is_call(a: Moment, b: Moment) -> bool {
    ||| b.kernel == a.kernel && exists|effect: FakeFsWrite, r: Result<(), ReelError>|
        #[trigger] is_application(a.view, b.view, a.seen, b.seen, effect, r)
    ||| b.seen == a.seen && exists|pending: Pending, r: Result<(), ReelError>|
        #[trigger] is_submission(a.kernel, b.kernel, a.view, b.view, pending, r)
    ||| b.seen == a.seen && exists|r: Result<(), ReelError>|
        #[trigger] is_abort(a.kernel, b.kernel, a.view, b.view, r)
    ||| exists|name: Seq<char>, r: Result<crate::hash::Hash, ReelError>|
        #[trigger] is_commit(a.kernel, b.kernel, a.view, b.view, a.seen, b.seen, name, r)
}

/// Each moment of `h` follows from the one before by a call on the view, or by
/// something else that leaves the view as it is.
pub open spec fn is_history(h: Seq<Moment>) -> bool {
    forall|i: int|
        #![trigger h[i]]
        0 <= i && i + 1 < h.len() ==> is_call(h[i], h[i + 1]) || h[i + 1].view == h[i].view
}

proof fn lemma_committed_stays(h: Seq<Moment>, i: int)
    requires
        is_history(h),
        0 <= i < h.len(),
        h[i].view.status == Status::Committed,
    ensures
        h.last().view.status == Status::Committed,
    decreases h.len() - i,
{
    if i + 1 < h.len() {
        assert(is_call(h[i], h[i + 1]) || h[i + 1].view == h[i].view);
        assert(h[i + 1].view == h[i].view);
        lemma_committed_stays(h, i + 1);
    }
}

/// Nothing of a view fires unless the view is committed: in a history at whose
/// end the view is still active or was aborted, no call on the view, at any
/// time, has fired a remote effect.
pub proof fn law_uncommitted_view_never_fired(h: Seq<Moment>, i: int)
    requires
        is_history(h),
        0 <= i && i + 1 < h.len(),
        is_call(h[i], h[i + 1]),
        h.last().view.status != Status::Committed,
    ensures
        fired(h[i + 1].seen) == fired(h[i].seen),
{
    let a = h[i];
    let b = h[i + 1];
    if b.view.status == Status::Committed {
        lemma_committed_stays(h, i + 1);
    }
    if b.seen != a.seen {
        let (effect, r) = choose|effect: FakeFsWrite, r: Result<(), ReelError>|
            #[trigger] is_application(a.view, b.view, a.seen, b.seen, effect, r);
        reveal(Seq::filter);
        assert(b.seen.drop_last() =~= a.seen);
        assert(b.seen.last() == effect.entry());
    }
}

/// An effect fires at most once: a view that was committed has nothing
/// pending, and a second commit of it is refused and fires nothing.
pub proof fn law_effects_fire_once(
    before: SkeletonKernel,
    between: SkeletonKernel,
    after: SkeletonKernel,
    view: view::View,
    view_between: view::View,
    view_after: view::View,
    seen: Seq<fake::Entry>,
    seen_between: Seq<fake::Entry>,
    seen_after: Seq<fake::Entry>,
    name: Seq<char>,
    again: Seq<char>,
    h: crate::hash::Hash,
    r: Result<crate::hash::Hash, ReelError>,
)
    requires
        is_commit(before, between, view, view_between, seen, seen_between, name, Ok(h)),
        is_commit(between, after, view_between, view_after, seen_between, seen_after, again, r),
    ensures
        between.pending(view.id) == no_pending(),
        seen_between == seen + before.pending(view.id).entries(),
        seen_after == seen_between,
        r == Err::<crate::hash::Hash, ReelError>(ReelError::ViewTerminal(Status::Committed)),
        after.published() == between.published(),
{
}

/// A commit happens as a whole or not at all. Where it is refused, nothing has
/// fired, nothing is stored or published, everything pending still is, and the
/// view is as it was. Where it succeeds, everything pending has fired, the
/// delta is published with all its pins, and the view has ended. Success is
/// owed where the view is active, its delta fits into a block, the name is
/// acceptable and every pin can be set.
pub proof fn law_commit_is_all_or_nothing(
    before: SkeletonKernel,
    after: SkeletonKernel,
    view: view::View,
    view_after: view::View,
    seen: Seq<fake::Entry>,
    seen_after: Seq<fake::Entry>,
    name: Seq<char>,
    r: Result<crate::hash::Hash, ReelError>,
)
    requires
        is_commit(before, after, view, view_after, seen, seen_after, name, r),
    ensures
        r is Ok ==> seen_after == seen + before.pending(view.id).entries() && after.published()
            == before.published().with(name, r->Ok_0).with_pins(view.view().delta.ops)
            && after.blocks().dom().contains(r->Ok_0) && after.pending(view.id) == no_pending()
            && view_after.status == Status::Committed,
        r is Err ==> seen_after == seen && after.published() == before.published()
            && after.blocks() == before.blocks() && after.buffered() == before.buffered()
            && view_after == view,
        r is Ok ==> view.status == Status::Active && ref_type::is_ref_name(name) && delta_payload(
            view.view().delta,
        ).len() <= block::MAX_BLOCK_SIZE && all_pins(after.blocks(), view.view().delta.ops),
        view.status == Status::Active && ref_type::is_ref_name(name) && delta_payload(
            view.view().delta,
        ).len() <= block::MAX_BLOCK_SIZE && all_pins(before.blocks(), view.view().delta.ops)
            ==> r is Ok,
{
    let payload = delta_payload(view.view().delta);
    let ops = view.view().delta.ops;
    if all_pins(before.blocks(), ops) {
        assert forall|h: crate::hash::Hash| all_pins(
            #[trigger] with_payload(before.blocks(), h, payload),
            ops,
        ) by {
            let blocks = with_payload(before.blocks(), h, payload);
            assert forall|j: int| 0 <= j < ops.len() implies can_pin(
                blocks,
                #[trigger] ops[j],
            ) by {
                assert(can_pin(before.blocks(), ops[j]));
            }
        }
    }
}

/// What a view has pending is described in full: the descriptors are as many
/// as the effects, are numbered in order, and give the versions of the
/// idempotent effects and the descriptions of the irreversible ones.
pub proof fn law_descriptors_are_of_what_is_pending(k: SkeletonKernel, id: ViewId)
    requires
        k.wf(),
    ensures
        k.pending(id).wf(),
{
    assert(versions_in(no_pending().descriptors) =~= no_pending().updates.map_values(
        |u: fake::Update| u.version,
    ));
    assert(operations_in(no_pending().descriptors) =~= no_pending().posts.map_values(
        |q: fake::Post| fake::post_description(q.label),
    ));
}

/// A view names the block of exactly what it has pending, or none where
/// nothing is pending.
pub open spec fn names_its_effects(k: SkeletonKernel, view: view::View) -> bool {
    if view.effects_hash is Some {
        is_digest_of(view.effects_hash, k.pending(view.id).payload())
    } else {
        k.pending(view.id) == no_pending()
    }
}

/// The block that a view names always describes exactly what the view has
/// pending: a submission keeps this whether it is accepted or refused, and so
/// do a commit and an abort.
pub proof fn law_view_names_what_is_pending(
    before: SkeletonKernel,
    after: SkeletonKernel,
    view: view::View,
    view_after: view::View,
    pending: Pending,
    seen: Seq<fake::Entry>,
    seen_after: Seq<fake::Entry>,
    name: Seq<char>,
    submitted: Result<(), ReelError>,
    committed: Result<crate::hash::Hash, ReelError>,
    aborted: Result<(), ReelError>,
)
    requires
        names_its_effects(before, view),
    ensures
        is_submission(before, after, view, view_after, pending, submitted) ==> names_its_effects(
            after,
            view_after,
        ),
        is_commit(before, after, view, view_after, seen, seen_after, name, committed)
            ==> names_its_effects(after, view_after),
        is_abort(before, after, view, view_after, aborted) && aborted is Ok ==> names_its_effects(
            after,
            view_after,
        ),
{
    if is_abort(before, after, view, view_after, aborted) && aborted is Ok {
        assert(view_after.view().effects is None);
        assert(view_after.view().id == view.view().id);
    }
}

/// The pending effects are a stored block: after a submission, the view names
/// the block that holds exactly the descriptors of what is pending. A block
/// that was stored under that digest before must have the same payload.
pub proof fn law_pending_effects_are_a_block(
    before: SkeletonKernel,
    after: SkeletonKernel,
    view: view::View,
    view_after: view::View,
    pending: Pending,
)
    requires
        is_submission(before, after, view, view_after, pending, Ok(())),
        forall|h: crate::hash::Hash| #[trigger]
            is_digest_of(Some(h), pending.payload()) && before.blocks().dom().contains(h)
                ==> before.blocks()[h] == pending.payload(),
    ensures
        view_after.effects_hash is Some,
        is_digest_of(view_after.effects_hash, pending.payload()),
        after.blocks().dom().contains(view_after.effects_hash->0),
        after.blocks()[view_after.effects_hash->0] == pending.payload(),
        after.pending(view.id) == pending,
{
    assert(is_digest_of(Some(view_after.effects_hash->0), pending.payload()));
}

/// Fires everything pending: the idempotent effects first, then the
/// irreversible ones.
fn fire_all(pending: PendingEffects, adapter: &mut FakeAdapter)
    ensures
        final(adapter).view() == old(adapter).view() + pending.view().entries(),
        final(adapter).issued() == old(adapter).issued(),
{
    let cap = FireCapability::new_for_skeleton();
    let ghost us = pending.view().updates.map_values(|u: fake::Update| u.entry());
    let ghost ps = pending.view().posts.map_values(|q: fake::Post| q.entry());
    let mut class_b = pending.class_b;
    let mut class_c = pending.class_c;
    let ghost b0 = class_b@;
    let ghost c0 = class_c@;
    let mut drain = Drain::new(class_b.len(), class_c.len());
    proof {
        assert(b0.skip(0) =~= b0);
        assert(c0.skip(0) =~= c0);
        assert(adapter.view() =~= old(adapter).view() + us.take(0) + ps.take(0));
    }
    loop
        invariant
            drain.wf(),
            !drain.has_failed(),
            drain.total_b() == b0.len(),
            drain.total_c() == c0.len(),
            class_b@ == b0.skip(drain.done_b() as int),
            class_c@ == c0.skip(drain.done_c() as int),
            us == updates_of(b0).map_values(|u: fake::Update| u.entry()),
            ps == posts_of(c0).map_values(|q: fake::Post| q.entry()),
            adapter.view() == old(adapter).view() + us.take(drain.done_b() as int) + ps.take(
                drain.done_c() as int,
            ),
            pending.view().entries() == us + ps,
            adapter.issued() == old(adapter).issued(),
        decreases b0.len() - drain.done_b() + c0.len() - drain.done_c(),
    {
        match drain.next() {
            DrainStep::FireB(_) => {
                let ghost n = drain.done_b() as int;
                let effect = class_b.remove(0);
                proof {
                    assert(effect == b0[n]);
                    assert(us[n] == effect.view().entry());
                }
                let fired = effect.fire(&cap, adapter);
                drain.record(fired.is_ok());
                proof {
                    assert(class_b@ =~= b0.skip(n + 1));
                    assert(ps.take(0) =~= Seq::empty());
                    assert(us.take(n + 1) =~= us.take(n).push(us[n]));
                    assert(adapter.view() =~= old(adapter).view() + us.take(n + 1) + ps.take(0));
                }
            },
            DrainStep::FireC(_) => {
                let ghost n = drain.done_c() as int;
                let effect = class_c.remove(0);
                proof {
                    assert(effect == c0[n]);
                    assert(ps[n] == effect.view().entry());
                }
                let fired = effect.fire(&cap, adapter);
                drain.record(fired.is_ok());
                proof {
                    assert(class_c@ =~= c0.skip(n + 1));
                    assert(ps.take(n + 1) =~= ps.take(n).push(ps[n]));
                    assert(adapter.view() =~= old(adapter).view() + us.take(drain.done_b() as int)
                        + ps.take(n + 1));
                }
            },
            DrainStep::Publish => {
                proof {
                    assert(us.take(us.len() as int) =~= us);
                    assert(ps.take(ps.len() as int) =~= ps);
                    assert(adapter.view() =~= old(adapter).view() + (us + ps));
                }
                return ;
            },
            DrainStep::Stop => {
                return ;
            },
        }
    }
}

/// The block of a delta.
pub fn build_delta_block(d: &Delta) -> (r: Result<Block, ReelError>)
    ensures
        ({
            let payload = delta_payload(d.view());
            match r {
                Ok(b) => {
                    &&& payload.len() <= block::MAX_BLOCK_SIZE
                    &&& b.wf()
                    &&& b.payload() == payload
                    &&& delta::mutations_of_bytes(b.payload()) == Some(d.view())
                },
                Err(e) => payload.len() > block::MAX_BLOCK_SIZE && e.is_storage(
                    block::oversize_text(payload.len()),
                ),
            }
        }),
{
    match d.to_cbor() {
        Ok(bytes) => Block::new(bytes),
        Err(e) => Err(
            ReelError::Storage(String::from_str("CBOR encode delta: ").concat(e.as_str())),
        ),
    }
}

/// The block that describes a list of effects.
pub fn build_effects_block(descriptors: &Vec<EffectDescriptor>) -> (r: Result<Block, ReelError>)
    ensures
        ({
            let payload = cbor::cbor_encoded(
                effect::descriptors_tree(effect::descriptors_of(descriptors@)),
            );
            match r {
                Ok(b) => payload.len() <= block::MAX_BLOCK_SIZE && b.wf() && b.payload() == payload,
                Err(e) => payload.len() > block::MAX_BLOCK_SIZE && e.is_storage(
                    block::oversize_text(payload.len()),
                ),
            }
        }),
{
    match encode_descriptors(descriptors) {
        Ok(bytes) => Block::new(bytes),
        Err(e) => Err(
            ReelError::Storage(String::from_str("CBOR encode effects: ").concat(e.as_str())),
        ),
    }
}

/// The digest of the block that describes a list of effects.
pub fn compute_effects_hash(descriptors: &Vec<EffectDescriptor>) -> (r: Result<
    crate::hash::Hash,
    ReelError,
>)
    ensures
        ({
            let payload = cbor::cbor_encoded(
                effect::descriptors_tree(effect::descriptors_of(descriptors@)),
            );
            match r {
                Ok(h) => payload.len() <= block::MAX_BLOCK_SIZE && is_digest_of(Some(h), payload),
                Err(e) => payload.len() > block::MAX_BLOCK_SIZE && e.is_storage(
                    block::oversize_text(payload.len()),
                ),
            }
        }),
{
    match build_effects_block(descriptors) {
        Ok(b) => Ok(b.hash()),
        Err(e) => Err(e),
    }
}

proof fn lemma_pin_names(a: Seq<char>, b: Seq<char>)
    ensures
        pin_name(a) == "__delta-put/"@ + a,
        pin_name(a) == pin_name(b) <==> a == b,
{
    let n = "__delta-put/"@.len() as int;
    if pin_name(a) == pin_name(b) {
        assert(pin_name(a).skip(n) =~= a);
        assert(pin_name(b).skip(n) =~= b);
    }
}

/// Setting a name replaces what stood there, in the store and in the kernel's
/// own names, without a version constraint, and touches no other name.
pub proof fn law_setting_a_name_replaces_it(
    p: Published,
    name: Seq<char>,
    h: crate::hash::Hash,
    other: Seq<char>,
)
    ensures
        p.with(name, h).refs.dom().contains(name),
        p.with(name, h).refs[name].hash == h,
        p.with(name, h).refs[name].name == name,
        p.with(name, h).refs[name].version is None,
        p.with(name, h).names.dom().contains(name),
        p.with(name, h).names[name] == h,
        other != name ==> p.with(name, h).refs.dom().contains(other) == p.refs.dom().contains(other)
            && p.with(name, h).refs[other] == p.refs[other],
        other != name ==> p.with(name, h).names.dom().contains(other) == p.names.dom().contains(
            other,
        ) && p.with(name, h).names[other] == p.names[other],
{
}

/// The pointer and the name `name` lead to `h`, without a version constraint.
pub open spec fn leads_to(p: Published, name: Seq<char>, h: crate::hash::Hash) -> bool {
    &&& p.refs.dom().contains(name)
    &&& p.refs[name].hash == h
    &&& p.refs[name].name == name
    &&& p.refs[name].version is None
    &&& p.names.dom().contains(name)
    &&& p.names[name] == h
}

proof fn lemma_pins_frame(start: Published, ops: Seq<delta::Mutation>, name: Seq<char>)
    requires
        forall|j: int|
            0 <= j < ops.len() && (#[trigger] ops[j]) is Put ==> "__delta-put/"@ + ops[j]->Put_0
                != name,
    ensures
        start.with_pins(ops).refs.dom().contains(name) == start.refs.dom().contains(name),
        start.with_pins(ops).refs[name] == start.refs[name],
        start.with_pins(ops).names.dom().contains(name) == start.names.dom().contains(name),
        start.with_pins(ops).names[name] == start.names[name],
    decreases ops.len(),
{
    if ops.len() > 0 {
        let first = ops.drop_last();
        assert forall|j: int| 0 <= j < first.len() && (#[trigger] first[j]) is Put implies
            "__delta-put/"@ + first[j]->Put_0 != name by {
            assert(first[j] == ops[j]);
        }
        lemma_pins_frame(start, first, name);
        assert(ops.last() == ops[ops.len() - 1]);
    }
}

proof fn lemma_last_pin_stands(start: Published, ops: Seq<delta::Mutation>, i: int)
    requires
        0 <= i < ops.len(),
        ops[i] is Put,
        forall|j: int|
            i < j < ops.len() && (#[trigger] ops[j]) is Put ==> ops[j]->Put_0 != ops[i]->Put_0,
    ensures
        leads_to(start.with_pins(ops), "__delta-put/"@ + ops[i]->Put_0, ops[i]->Put_1),
    decreases ops.len(),
{
    let last = ops.len() - 1;
    let first = ops.drop_last();
    if i < last {
        assert forall|j: int| i < j < first.len() && (#[trigger] first[j]) is Put implies
            first[j]->Put_0 != first[i]->Put_0 by {
            assert(first[j] == ops[j] && first[i] == ops[i]);
        }
        lemma_last_pin_stands(start, first, i);
        assert(first[i] == ops[i]);
        if ops[last] is Put {
            lemma_pin_names(ops[last]->Put_0, ops[i]->Put_0);
        }
    }
}

/// A commit under a name that succeeds moves the name to the committed delta,
/// whatever it pointed at before: the store's pointer and the kernel's name
/// lead to the delta, without a version constraint. (Where a pin of the same
/// delta has that name, the pin stands.) Each block that the delta puts is
/// pinned under its name, the last one that is put under it, and no other name
/// is touched.
pub proof fn law_commit_moves_the_name(
    before: SkeletonKernel,
    after: SkeletonKernel,
    view: view::View,
    view_after: view::View,
    seen: Seq<fake::Entry>,
    seen_after: Seq<fake::Entry>,
    name: Seq<char>,
    h: crate::hash::Hash,
    i: int,
    other: Seq<char>,
)
    requires
        is_commit(before, after, view, view_after, seen, seen_after, name, Ok(h)),
    ensures
        ({
            let ops = view.view().delta.ops;
            &&& (forall|j: int|
                0 <= j < ops.len() && (#[trigger] ops[j]) is Put ==> "__delta-put/"@
                    + ops[j]->Put_0 != name) ==> {
                &&& after.published().refs.dom().contains(name)
                &&& after.published().refs[name].hash == h
                &&& after.published().refs[name].name == name
                &&& after.published().refs[name].version is None
                &&& after.published().names.dom().contains(name)
                &&& after.published().names[name] == h
            }
            &&& 0 <= i < ops.len() && ops[i] is Put && (forall|j: int|
                i < j < ops.len() && (#[trigger] ops[j]) is Put ==> ops[j]->Put_0
                    != ops[i]->Put_0) ==> {
                let pin = "__delta-put/"@ + ops[i]->Put_0;
                &&& after.published().refs.dom().contains(pin)
                &&& after.published().refs[pin].hash == ops[i]->Put_1
                &&& after.published().refs[pin].name == pin
                &&& after.published().refs[pin].version is None
                &&& after.published().names.dom().contains(pin)
                &&& after.published().names[pin] == ops[i]->Put_1
            }
            &&& other != name && (forall|j: int|
                0 <= j < ops.len() && (#[trigger] ops[j]) is Put ==> "__delta-put/"@
                    + ops[j]->Put_0 != other) ==> {
                &&& after.published().refs.dom().contains(other)
                    == before.published().refs.dom().contains(other)
                &&& after.published().refs[other] == before.published().refs[other]
                &&& after.published().names.dom().contains(other)
                    == before.published().names.dom().contains(other)
                &&& after.published().names[other] == before.published().names[other]
            }
        }),
{
    let ops = view.view().delta.ops;
    let start = before.published().with(name, h);
    law_setting_a_name_replaces_it(before.published(), name, h, other);
    if forall|j: int|
        0 <= j < ops.len() && (#[trigger] ops[j]) is Put ==> "__delta-put/"@ + ops[j]->Put_0 != name {
        lemma_pins_frame(start, ops, name);
    }
    if 0 <= i < ops.len() && ops[i] is Put && (forall|j: int|
        i < j < ops.len() && (#[trigger] ops[j]) is Put ==> ops[j]->Put_0 != ops[i]->Put_0) {
        lemma_last_pin_stands(start, ops, i);
    }
    if forall|j: int|
        0 <= j < ops.len() && (#[trigger] ops[j]) is Put ==> "__delta-put/"@ + ops[j]->Put_0
            != other {
        lemma_pins_frame(start, ops, other);
    }
}

/// What a commit publishes is the view's delta: the digest that it returns is
/// that of bytes that write out exactly this delta, they are stored under it
/// unless the digest was taken, and no other block changes.
pub proof fn law_commit_stores_the_delta(
    before: SkeletonKernel,
    after: SkeletonKernel,
    view: view::View,
    view_after: view::View,
    seen: Seq<fake::Entry>,
    seen_after: Seq<fake::Entry>,
    name: Seq<char>,
    h: crate::hash::Hash,
)
    requires
        is_commit(before, after, view, view_after, seen, seen_after, name, Ok(h)),
    ensures
        exists|payload: Seq<u8>|
            {
                &&& h.view() == #[trigger] digest::blake3_256(payload)
                &&& delta::mutations_of_bytes(payload) == Some(view.view().delta)
                &&& payload.len() <= 16777216
                &&& !before.blocks().dom().contains(h) ==> after.blocks()[h] == payload
            },
        after.blocks().dom() == before.blocks().dom().insert(h),
        forall|x: crate::hash::Hash| #[trigger]
            before.blocks().dom().contains(x) ==> after.blocks()[x] == before.blocks()[x],
{
    let payload = delta_payload(view.view().delta);
    assert(h.view() == digest::blake3_256(payload));
    assert(after.blocks().dom() =~= before.blocks().dom().insert(h));
}

/// A commit of an active view succeeds exactly where its delta fits into a
/// block, the name is of one to 4096 bytes, and each block that the delta puts
/// is stored, or is the delta itself, and has a name that leaves room for its
/// pin.
pub proof fn law_commit_succeeds_where_it_can(
    before: SkeletonKernel,
    after: SkeletonKernel,
    view: view::View,
    view_after: view::View,
    seen: Seq<fake::Entry>,
    seen_after: Seq<fake::Entry>,
    name: Seq<char>,
    r: Result<crate::hash::Hash, ReelError>,
)
    requires
        is_commit(before, after, view, view_after, seen, seen_after, name, r),
    ensures
        r is Ok ==> {
            let ops = view.view().delta.ops;
            &&& view.status == Status::Active
            &&& 0 < name.len() && text::utf8(name).len() <= 4096
            &&& forall|j: int|
                0 <= j < ops.len() && (#[trigger] ops[j]) is Put ==> (before.blocks().dom().contains(
                    ops[j]->Put_1,
                ) || ops[j]->Put_1 == r->Ok_0) && text::utf8(
                    "__delta-put/"@ + ops[j]->Put_0,
                ).len() <= 4096
        },
        ({
            let ops = view.view().delta.ops;
            &&& view.status == Status::Active
            &&& 0 < name.len() && text::utf8(name).len() <= 4096
            &&& delta_payload(view.view().delta).len() <= 16777216
            &&& forall|j: int|
                0 <= j < ops.len() && (#[trigger] ops[j]) is Put ==> before.blocks().dom().contains(
                    ops[j]->Put_1,
                ) && text::utf8("__delta-put/"@ + ops[j]->Put_0).len() <= 4096
        }) ==> r is Ok,
        r matches Err(e) ==> if view.status == Status::Active {
            e is Storage
        } else {
            e == ReelError::ViewTerminal(view.status)
        },
{
    let ops = view.view().delta.ops;
    let payload = delta_payload(view.view().delta);
    reveal_strlit("__delta-put/");
    law_commit_is_all_or_nothing(before, after, view, view_after, seen, seen_after, name, r);
    if r is Ok {
        assert forall|j: int| 0 <= j < ops.len() && (#[trigger] ops[j]) is Put implies (
        before.blocks().dom().contains(ops[j]->Put_1) || ops[j]->Put_1 == r->Ok_0) && text::utf8(
            "__delta-put/"@ + ops[j]->Put_0,
        ).len() <= 4096 by {
            assert(can_pin(after.blocks(), ops[j]));
        }
    }
    if forall|j: int|
        0 <= j < ops.len() && (#[trigger] ops[j]) is Put ==> before.blocks().dom().contains(
            ops[j]->Put_1,
        ) && text::utf8("__delta-put/"@ + ops[j]->Put_0).len() <= 4096 {
        assert forall|j: int| 0 <= j < ops.len() implies can_pin(
            before.blocks(),
            #[trigger] ops[j],
        ) by {
            if ops[j] is Put {
                assert(pin_name(ops[j]->Put_0).len() > 0);
            }
        }
    }
}

/// A commit fires everything that is pending and nothing else: behind what the
/// adapter saw before stand first the idempotent effects and then the
/// irreversible ones, each in the order of submission, each in its own log
/// with its own label.
pub proof fn law_commit_fires_what_is_pending(
    before: SkeletonKernel,
    after: SkeletonKernel,
    view: view::View,
    view_after: view::View,
    seen: Seq<fake::Entry>,
    seen_after: Seq<fake::Entry>,
    name: Seq<char>,
    h: crate::hash::Hash,
    i: int,
)
    requires
        is_commit(before, after, view, view_after, seen, seen_after, name, Ok(h)),
    ensures
        ({
            let p = before.pending(view.id);
            let n = seen.len() as int;
            let b = p.updates.len() as int;
            &&& seen_after.len() == n + b + p.posts.len()
            &&& seen_after.take(n) == seen
            &&& 0 <= i < b ==> seen_after[n + i] == (fake::Entry {
                log: p.updates[i].log,
                event: fake::Event::FiredB(
                    "slack.update("@ + p.updates[i].label + ")"@,
                    p.updates[i].version,
                ),
            })
            &&& 0 <= i < p.posts.len() ==> seen_after[n + b + i] == (fake::Entry {
                log: p.posts[i].log,
                event: fake::Event::FiredC("slack.post("@ + p.posts[i].label + ")"@),
            })
            &&& after.pending(view.id).updates.len() == 0
            &&& after.pending(view.id).posts.len() == 0
            &&& after.pending(view.id).descriptors.len() == 0
            &&& forall|id: ViewId| id != view.id ==> #[trigger] after.pending(id) == before.pending(
                id,
            )
            &&& view_after == (view::View {
                effects_hash: None,
                status: Status::Committed,
                ..view
            })
        }),
{
    assert(seen_after.take(seen.len() as int) =~= seen);
}

/// A submission that is accepted adds its effect behind those of its class
/// that the view has pending, and its description behind all of theirs. What
/// any other view has pending stays, as does everything where it is refused.
pub proof fn law_submission_adds_one_update(
    before: SkeletonKernel,
    after: SkeletonKernel,
    view: view::View,
    view_after: view::View,
    u: fake::Update,
    r: Result<(), ReelError>,
    id: ViewId,
)
    requires
        is_submission(
            before,
            after,
            view,
            view_after,
            before.pending(view.id).with_update(u),
            r,
        ),
    ensures
        r is Ok ==> {
            let was = before.pending(view.id);
            let now = after.pending(view.id);
            &&& view.status == Status::Active
            &&& now.updates == was.updates.push(u)
            &&& now.posts == was.posts
            &&& now.descriptors == was.descriptors.push(
                effect::Descriptor::B(
                    was.next,
                    u.version,
                    json::JsonTree::Object(
                        map!["adapter"@ => json::JsonTree::Text("fake-slack"@),
                            "op"@ => json::JsonTree::Text("update"@)],
                    ),
                ),
            )
            &&& was.next < u64::MAX ==> now.next == was.next + 1
        },
        id != view.id || r is Err ==> after.pending(id) == before.pending(id),
        after.published() == before.published(),
        view_after.status == view.status && view_after.delta == view.delta,
        r is Err ==> view_after == view && after.blocks() == before.blocks(),
{
}

/// The same for an irreversible effect.
pub proof fn law_submission_adds_one_post(
    before: SkeletonKernel,
    after: SkeletonKernel,
    view: view::View,
    view_after: view::View,
    q: fake::Post,
    r: Result<(), ReelError>,
    id: ViewId,
)
    requires
        is_submission(before, after, view, view_after, before.pending(view.id).with_post(q), r),
    ensures
        r is Ok ==> {
            let was = before.pending(view.id);
            let now = after.pending(view.id);
            &&& view.status == Status::Active
            &&& now.updates == was.updates
            &&& now.posts == was.posts.push(q)
            &&& now.descriptors == was.descriptors.push(
                effect::Descriptor::C(
                    was.next,
                    json::JsonTree::Object(
                        map!["class"@ => json::JsonTree::Text("C"@),
                            "irreversible"@ => json::JsonTree::Bool(true),
                            "label"@ => json::JsonTree::Text(q.label)],
                    ),
                ),
            )
            &&& was.next < u64::MAX ==> now.next == was.next + 1
        },
        id != view.id || r is Err ==> after.pending(id) == before.pending(id),
        after.published() == before.published(),
        view_after.status == view.status && view_after.delta == view.delta,
        r is Err ==> view_after == view && after.blocks() == before.blocks(),
{
}

/// A submission to an active view is accepted exactly where the block of all
/// that would be pending is not too large; one to a view that has ended never
/// is.
pub proof fn law_submission_is_accepted_where_it_fits(
    before: SkeletonKernel,
    after: SkeletonKernel,
    view: view::View,
    view_after: view::View,
    pending: Pending,
    r: Result<(), ReelError>,
)
    requires
        is_submission(before, after, view, view_after, pending, r),
    ensures
        r is Ok <==> view.status == Status::Active && cbor::cbor_encoded(
            cbor::CborTree::Array(pending.descriptors.map_values(|d: effect::Descriptor| d.tree())),
        ).len() <= 16777216,
        r matches Err(e) ==> if view.status == Status::Active {
            e is Storage
        } else {
            e == ReelError::ViewTerminal(view.status)
        },
{
}

/// A pure local effect adds one mutation, the put of its block at its path, at
/// the end of the view's delta, and leaves one event in its log; nothing else
/// of the view changes.
pub proof fn law_application_adds_one_put(
    view: view::View,
    view_after: view::View,
    seen: Seq<fake::Entry>,
    seen_after: Seq<fake::Entry>,
    effect: FakeFsWrite,
    r: Result<(), ReelError>,
)
    requires
        is_application(view, view_after, seen, seen_after, effect, r),
    ensures
        r is Ok <==> view.status == Status::Active,
        r is Ok ==> {
            let was = view.view();
            let now = view_after.view();
            &&& now.delta.ops == was.delta.ops.push(
                delta::Mutation::Put(effect.spec_path(), effect.spec_content()),
            )
            &&& now.delta.base == was.delta.base
            &&& now.effects == was.effects && now.status == was.status && now.caps == was.caps
            &&& now.namespace == was.namespace && now.id == was.id && now.parent == was.parent
            &&& seen_after == seen.push(
                fake::Entry {
                    log: effect.spec_log(),
                    event: fake::Event::Applied("fs.write("@ + effect.spec_path() + ")"@),
                },
            )
        },
        r is Err ==> view_after == view && seen_after == seen && r->Err_0
            == ReelError::ViewTerminal(view.status),
{
}

/// An abort of an active view drops its mutations and everything that it has
/// pending, ends it, and keeps all else: its names, its authority, every other
/// view's pending effects, the stored blocks and the published names.
pub proof fn law_abort_drops_only_what_is_pending(
    before: SkeletonKernel,
    after: SkeletonKernel,
    view: view::View,
    view_after: view::View,
    r: Result<(), ReelError>,
    id: ViewId,
)
    requires
        is_abort(before, after, view, view_after, r),
    ensures
        r is Ok <==> view.status == Status::Active,
        r is Ok ==> {
            let was = view.view();
            let now = view_after.view();
            &&& now.status == Status::Aborted
            &&& now.effects is None
            &&& now.delta.ops.len() == 0
            &&& now.delta.base == was.delta.base
            &&& now.id == was.id && now.namespace == was.namespace && now.caps == was.caps
                && now.parent == was.parent
        },
        r is Err ==> view_after == view && r->Err_0 == ReelError::ViewTerminal(view.status),
        after.pending(view.id).updates.len() == 0,
        after.pending(view.id).posts.len() == 0,
        after.pending(view.id).descriptors.len() == 0,
        id != view.id ==> after.pending(id) == before.pending(id),
        after.blocks() == before.blocks(),
        after.published() == before.published(),
{
}

/// A submission that is accepted stores the block of all that is pending, names
/// it by its digest in the view, and touches no other block.
pub proof fn law_submission_stores_the_block(
    before: SkeletonKernel,
    after: SkeletonKernel,
    view: view::View,
    view_after: view::View,
    pending: Pending,
)
    requires
        is_submission(before, after, view, view_after, pending, Ok(())),
    ensures
        ({
            let payload = cbor::cbor_encoded(
                cbor::CborTree::Array(
                    pending.descriptors.map_values(|d: effect::Descriptor| d.tree()),
                ),
            );
            let h = view_after.effects_hash->0;
            &&& view_after.effects_hash is Some
            &&& h.view() == digest::blake3_256(payload)
            &&& after.blocks().dom() == before.blocks().dom().insert(h)
            &&& !before.blocks().dom().contains(h) ==> after.blocks()[h] == payload
            &&& forall|x: crate::hash::Hash| #[trigger]
                before.blocks().dom().contains(x) ==> after.blocks()[x] == before.blocks()[x]
            &&& view_after == (view::View { effects_hash: Some(h), ..view })
        }),
{
    assert(after.blocks().dom() =~= before.blocks().dom().insert(view_after.effects_hash->0));
}

/// A view that never submitted has nothing pending, and its first effect gets
/// the number 0.
pub proof fn law_nothing_is_pending_at_first(k: SkeletonKernel, id: ViewId)
    ensures
        !k.buffered().dom().contains(id) ==> {
            &&& k.pending(id).updates.len() == 0
            &&& k.pending(id).posts.len() == 0
            &&& k.pending(id).descriptors.len() == 0
            &&& k.pending(id).next == 0
        },
        k.buffered().dom().contains(id) ==> k.pending(id) == k.buffered()[id],
{
}

/// The reason of a refused commit is the name where that is not acceptable, and
/// otherwise the first put whose block is missing or whose name is too long.
pub proof fn law_refused_commit_says_why(
    blocks: store_trait::Blocks,
    name: Seq<char>,
    h: crate::hash::Hash,
    ops: Seq<delta::Mutation>,
    i: int,
)
    requires
        blocks.dom().contains(h),
    ensures
        name.len() == 0 || text::utf8(name).len() > 4096 ==> refusal(blocks, name, h, ops) == Some(
            "commit put_ref("@ + name + "): "@ + ("E-007 Storage: "@ + ref_type::ref_name_refusal(
                name,
            )),
        ),
        0 < name.len() && text::utf8(name).len() <= 4096 && 0 <= i < ops.len() && ops[i] is Put
            && !blocks.dom().contains(ops[i]->Put_1) && (forall|j: int|
            0 <= j < i ==> can_pin(blocks, #[trigger] ops[j])) ==> refusal(blocks, name, h, ops)
            == Some(
            "commit pin "@ + ("__delta-put/"@ + ops[i]->Put_0) + ": "@ + (
            "E-001 BlockNotFound: "@ + crate::hash::hex_text(ops[i]->Put_1.view())),
        ),
{
    if 0 < name.len() && text::utf8(name).len() <= 4096 && 0 <= i < ops.len() && ops[i] is Put
        && !blocks.dom().contains(ops[i]->Put_1) && (forall|j: int|
        0 <= j < i ==> can_pin(blocks, #[trigger] ops[j])) {
        assert(!can_pin(blocks, ops[i]));
        assert(first_bad_pin(blocks, ops, i));
        let k = choose|k: int| first_bad_pin(blocks, ops, k);
        if k < i {
            assert(can_pin(blocks, ops[k]));
        } else if i < k {
            assert(can_pin(blocks, ops[i]));
        }
        assert(!all_pins(blocks, ops));
    }
}

} // verus!
