//! Effect descriptors and the version references of idempotent effects.

use vstd::prelude::*;

use crate::interop::cbor;
use crate::interop::json;
use crate::text;
use crate::text::{decimal_string, quoted};

verus! {

/// What kind of identifier a [`VersionRef`] holds.
#[derive(Clone, Copy, Debug, PartialEq, Eq, Hash, Structural)]
pub enum VersionKind {
    /// An HTTP entity tag.
    Etag,
    /// A commit digest.
    CommitSha,
    /// An object-store version.
    ObjectVersionId,
    /// Any other stable identifier.
    Opaque,
}

impl VersionKind {
    /// The name used in encodings.
    pub open spec fn spec_wire_name(self) -> Seq<char> {
        match self {
            VersionKind::Etag => "etag"@,
            VersionKind::CommitSha => "commit_sha"@,
            VersionKind::ObjectVersionId => "object_version_id"@,
            VersionKind::Opaque => "opaque"@,
        }
    }

    /// The name used in encodings.
    pub fn wire_name(&self) -> (s: &'static str)
        ensures
            s@ == self.spec_wire_name(),
    {
        match self {
            VersionKind::Etag => "etag",
            VersionKind::CommitSha => "commit_sha",
            VersionKind::ObjectVersionId => "object_version_id",
            VersionKind::Opaque => "opaque",
        }
    }

    /// The name used in diagnostics.
    pub open spec fn spec_name(self) -> Seq<char> {
        match self {
            VersionKind::Etag => "Etag"@,
            VersionKind::CommitSha => "CommitSha"@,
            VersionKind::ObjectVersionId => "ObjectVersionId"@,
            VersionKind::Opaque => "Opaque"@,
        }
    }

    /// The name used in diagnostics.
    pub fn name(&self) -> (s: &'static str)
        ensures
            s@ == self.spec_name(),
    {
        match self {
            VersionKind::Etag => "Etag",
            VersionKind::CommitSha => "CommitSha",
            VersionKind::ObjectVersionId => "ObjectVersionId",
            VersionKind::Opaque => "Opaque",
        }
    }
}

/// A stable identifier of a remote resource's version.
#[derive(Debug, PartialEq, Eq, Hash)]
pub struct VersionRef {
    /// What kind of identifier this is.
    pub kind: VersionKind,
    /// The identifier.
    pub value: String,
}

/// What a [`VersionRef`] holds.
pub struct Version {
    /// The kind.
    pub kind: VersionKind,
    /// The identifier.
    pub value: Seq<char>,
}

impl VersionRef {
    /// What the reference holds.
    pub open spec fn view(&self) -> Version {
        Version { kind: self.kind, value: self.value@ }
    }
}

impl Clone for VersionRef {
    fn clone(&self) -> (v: Self)
        ensures
            v.view() == self.view(),
    {
        VersionRef { kind: self.kind, value: self.value.clone() }
    }
}

/// What an optional [`VersionRef`] holds.
pub open spec fn version_of(v: Option<VersionRef>) -> Option<Version> {
    match v {
        Some(r) => Some(r.view()),
        None => None,
    }
}

/// An effect as it is buffered: its class, its number and its payload.
#[derive(Debug, PartialEq, Eq)]
pub enum EffectDescriptor {
    /// Pure local and reversible; applied to the delta.
    A {
        /// The number of the effect within its batch.
        effect_id: u64,
        /// The adapter's payload.
        op: serde_json::Value,
    },
    /// Idempotent and remote; gated by a version reference.
    B {
        /// The number of the effect within its batch.
        effect_id: u64,
        /// The version that the effect was submitted against.
        version_ref: VersionRef,
        /// The adapter's payload.
        op: serde_json::Value,
    },
    /// Irreversible and remote; never fires after an abort.
    C {
        /// The number of the effect within its batch.
        effect_id: u64,
        /// The adapter's payload.
        op: serde_json::Value,
    },
}

impl Clone for EffectDescriptor {
    fn clone(&self) -> (d: Self)
        ensures
            d.view() == self.view(),
    {
        match self {
            EffectDescriptor::A { effect_id, op } => EffectDescriptor::A {
                effect_id: *effect_id,
                op: json::duplicate(op),
            },
            EffectDescriptor::B { effect_id, version_ref, op } => EffectDescriptor::B {
                effect_id: *effect_id,
                version_ref: version_ref.clone(),
                op: json::duplicate(op),
            },
            EffectDescriptor::C { effect_id, op } => EffectDescriptor::C {
                effect_id: *effect_id,
                op: json::duplicate(op),
            },
        }
    }
}

/// What an [`EffectDescriptor`] holds.
pub enum Descriptor {
    /// Pure local.
    A(u64, json::JsonTree),
    /// Idempotent remote.
    B(u64, Version, json::JsonTree),
    /// Irreversible remote.
    C(u64, json::JsonTree),
}

/// One entry of a CBOR map with a text key.
pub open spec fn text_entry(key: Seq<char>, value: cbor::CborTree) -> (cbor::CborTree, cbor::CborTree) {
    (cbor::CborTree::Text(key), value)
}

impl Version {
    /// The CBOR form of the version.
    pub open spec fn tree(self) -> cbor::CborTree {
        cbor::CborTree::Entries(
            seq![
                text_entry("kind"@, cbor::CborTree::Text(self.kind.spec_wire_name())),
                text_entry("value"@, cbor::CborTree::Text(self.value)),
            ],
        )
    }

    /// The diagnostic form of the version.
    pub open spec fn debug_text(self) -> Seq<char> {
        "VersionRef { kind: "@ + self.kind.spec_name() + ", value: "@ + text::quoted_text(
            self.value,
        ) + " }"@
    }
}

impl Descriptor {
    /// The CBOR form of the descriptor: a map with its class first.
    pub open spec fn tree(self) -> cbor::CborTree {
        match self {
            Descriptor::A(id, op) => cbor::CborTree::Entries(
                seq![
                    text_entry("class"@, cbor::CborTree::Text("A"@)),
                    text_entry("effect_id"@, cbor::CborTree::Integer(id as int)),
                    text_entry("op"@, cbor::cbor_of_json(op)),
                ],
            ),
            Descriptor::B(id, version, op) => cbor::CborTree::Entries(
                seq![
                    text_entry("class"@, cbor::CborTree::Text("B"@)),
                    text_entry("effect_id"@, cbor::CborTree::Integer(id as int)),
                    text_entry("version_ref"@, version.tree()),
                    text_entry("op"@, cbor::cbor_of_json(op)),
                ],
            ),
            Descriptor::C(id, op) => cbor::CborTree::Entries(
                seq![
                    text_entry("class"@, cbor::CborTree::Text("C"@)),
                    text_entry("effect_id"@, cbor::CborTree::Integer(id as int)),
                    text_entry("op"@, cbor::cbor_of_json(op)),
                ],
            ),
        }
    }

    /// The diagnostic form of the descriptor.
    pub open spec fn debug_text(self) -> Seq<char> {
        match self {
            Descriptor::A(id, op) => "A { effect_id: "@ + text::decimal(id as nat) + ", op: "@
                + json::json_debug_text(op) + " }"@,
            Descriptor::B(id, version, op) => "B { effect_id: "@ + text::decimal(id as nat)
                + ", version_ref: "@ + version.debug_text() + ", op: "@ + json::json_debug_text(op)
                + " }"@,
            Descriptor::C(id, op) => "C { effect_id: "@ + text::decimal(id as nat) + ", op: "@
                + json::json_debug_text(op) + " }"@,
        }
    }
}

/// What a list of descriptors holds.
pub open spec fn descriptors_of(list: Seq<EffectDescriptor>) -> Seq<Descriptor> {
    list.map_values(|d: EffectDescriptor| d.view())
}

/// The CBOR form of a list of descriptors.
pub open spec fn descriptors_tree(list: Seq<Descriptor>) -> cbor::CborTree {
    cbor::CborTree::Array(list.map_values(|d: Descriptor| d.tree()))
}

/// Builds one entry of a CBOR map.
pub(crate) fn entry_value(key: &str, value: ciborium::Value) -> (e: (
    ciborium::Value,
    ciborium::Value,
))
    ensures
        (cbor::cbor_tree(e.0), cbor::cbor_tree(e.1)) == text_entry(key@, cbor::cbor_tree(value)),
{
    (cbor::text_value(key), value)
}

impl VersionRef {
    /// Builds the CBOR form.
    pub(crate) fn to_value(&self) -> (v: ciborium::Value)
        ensures
            cbor::cbor_tree(v) == self.view().tree(),
    {
        let mut entries: Vec<(ciborium::Value, ciborium::Value)> = Vec::new();
        entries.push(entry_value("kind", cbor::text_value(self.kind.wire_name())));
        entries.push(entry_value("value", cbor::text_value(self.value.as_str())));
        let v = cbor::map_value(entries);
        assert(cbor::cbor_pairs(entries@) =~= self.view().tree()->Entries_0);
        v
    }

    /// Renders the reference for diagnostics.
    pub fn debug_string(&self) -> (s: String)
        ensures
            s@ == self.view().debug_text(),
    {
        String::from_str("VersionRef { kind: ").concat(self.kind.name()).concat(
            ", value: ",
        ).concat(quoted(self.value.as_str()).as_str()).concat(" }")
    }
}

impl EffectDescriptor {
    /// What the descriptor holds.
    pub open spec fn view(&self) -> Descriptor {
        match self {
            EffectDescriptor::A { effect_id, op } => Descriptor::A(
                *effect_id,
                json::json_tree(*op),
            ),
            EffectDescriptor::B { effect_id, version_ref, op } => Descriptor::B(
                *effect_id,
                version_ref.view(),
                json::json_tree(*op),
            ),
            EffectDescriptor::C { effect_id, op } => Descriptor::C(
                *effect_id,
                json::json_tree(*op),
            ),
        }
    }

    /// Builds the CBOR form.
    pub(crate) fn to_value(&self) -> (r: Result<ciborium::Value, String>)
        ensures
            r is Ok,
            cbor::cbor_tree(r->Ok_0) == self.view().tree(),
    {
        let mut entries: Vec<(ciborium::Value, ciborium::Value)> = Vec::new();
        match self {
            EffectDescriptor::A { effect_id, op } => {
                let op = match cbor::from_json(op) {
                    Ok(v) => v,
                    Err(e) => return Err(e),
                };
                entries.push(entry_value("class", cbor::text_value("A")));
                entries.push(entry_value("effect_id", cbor::integer_value(*effect_id)));
                entries.push(entry_value("op", op));
            },
            EffectDescriptor::B { effect_id, version_ref, op } => {
                let op = match cbor::from_json(op) {
                    Ok(v) => v,
                    Err(e) => return Err(e),
                };
                entries.push(entry_value("class", cbor::text_value("B")));
                entries.push(entry_value("effect_id", cbor::integer_value(*effect_id)));
                entries.push(entry_value("version_ref", version_ref.to_value()));
                entries.push(entry_value("op", op));
            },
            EffectDescriptor::C { effect_id, op } => {
                let op = match cbor::from_json(op) {
                    Ok(v) => v,
                    Err(e) => return Err(e),
                };
                entries.push(entry_value("class", cbor::text_value("C")));
                entries.push(entry_value("effect_id", cbor::integer_value(*effect_id)));
                entries.push(entry_value("op", op));
            },
        }
        assert(cbor::cbor_pairs(entries@) =~= self.view().tree()->Entries_0);
        Ok(cbor::map_value(entries))
    }

    /// Renders the descriptor for diagnostics.
    pub fn debug_string(&self) -> (s: String)
        ensures
            s@ == self.view().debug_text(),
    {
        match self {
            EffectDescriptor::A { effect_id, op } => String::from_str("A { effect_id: ").concat(
                decimal_string(*effect_id).as_str(),
            ).concat(", op: ").concat(json::debug_json(op).as_str()).concat(" }"),
            EffectDescriptor::B { effect_id, version_ref, op } => String::from_str(
                "B { effect_id: ",
            ).concat(decimal_string(*effect_id).as_str()).concat(", version_ref: ").concat(
                version_ref.debug_string().as_str(),
            ).concat(", op: ").concat(json::debug_json(op).as_str()).concat(" }"),
            EffectDescriptor::C { effect_id, op } => String::from_str("C { effect_id: ").concat(
                decimal_string(*effect_id).as_str(),
            ).concat(", op: ").concat(json::debug_json(op).as_str()).concat(" }"),
        }
    }
}

/// Encodes a list of descriptors as CBOR.
pub fn encode_descriptors(list: &Vec<EffectDescriptor>) -> (r: Result<Vec<u8>, String>)
    ensures
        r is Ok,
        r->Ok_0@ == cbor::cbor_encoded(descriptors_tree(descriptors_of(list@))),
{
    let mut items: Vec<ciborium::Value> = Vec::new();
    let mut i: usize = 0;
    while i < list.len()
        invariant
            i <= list@.len(),
            items@.len() == i,
            forall|j: int|
                0 <= j < i ==> cbor::cbor_tree(#[trigger] items@[j]) == list@[j].view().tree(),
        decreases list@.len() - i,
    {
        match list[i].to_value() {
            Ok(v) => items.push(v),
            Err(e) => return Err(e),
        }
        i += 1;
    }
    assert(cbor::cbor_trees(items@) =~= descriptors_of(list@).map_values(|d: Descriptor| d.tree()));
    let v = cbor::array_value(items);
    cbor::encode(&v)
}

/// The form of a descriptor says its class, its number, for an idempotent
/// effect its version, and its payload, in this order.
pub proof fn law_descriptor_form(id: u64, version: Version, op: json::JsonTree)
    ensures
        Descriptor::A(id, op).tree() == cbor::CborTree::Entries(
            seq![
                (cbor::CborTree::Text("class"@), cbor::CborTree::Text("A"@)),
                (cbor::CborTree::Text("effect_id"@), cbor::CborTree::Integer(id as int)),
                (cbor::CborTree::Text("op"@), cbor::cbor_of_json(op)),
            ],
        ),
        Descriptor::B(id, version, op).tree() == cbor::CborTree::Entries(
            seq![
                (cbor::CborTree::Text("class"@), cbor::CborTree::Text("B"@)),
                (cbor::CborTree::Text("effect_id"@), cbor::CborTree::Integer(id as int)),
                (
                    cbor::CborTree::Text("version_ref"@),
                    cbor::CborTree::Entries(
                        seq![
                            (
                                cbor::CborTree::Text("kind"@),
                                cbor::CborTree::Text(
                                    match version.kind {
                                        VersionKind::Etag => "etag"@,
                                        VersionKind::CommitSha => "commit_sha"@,
                                        VersionKind::ObjectVersionId => "object_version_id"@,
                                        VersionKind::Opaque => "opaque"@,
                                    },
                                ),
                            ),
                            (cbor::CborTree::Text("value"@), cbor::CborTree::Text(version.value)),
                        ],
                    ),
                ),
                (cbor::CborTree::Text("op"@), cbor::cbor_of_json(op)),
            ],
        ),
        Descriptor::C(id, op).tree() == cbor::CborTree::Entries(
            seq![
                (cbor::CborTree::Text("class"@), cbor::CborTree::Text("C"@)),
                (cbor::CborTree::Text("effect_id"@), cbor::CborTree::Integer(id as int)),
                (cbor::CborTree::Text("op"@), cbor::cbor_of_json(op)),
            ],
        ),
{
}

/// A list of effects is written out as the list of their forms, in order.
pub proof fn law_descriptors_are_written_in_order(list: Seq<Descriptor>, i: int)
    ensures
        descriptors_tree(list) is Array,
        descriptors_tree(list)->Array_0.len() == list.len(),
        0 <= i < list.len() ==> descriptors_tree(list)->Array_0[i] == list[i].tree(),
{
}

/// Two lists of effects with the same form are the same up to their payloads:
/// as many, of the same classes, with the same numbers.
pub proof fn law_descriptor_form_tells_class_and_number(a: Descriptor, b: Descriptor)
    requires
        a.tree() == b.tree(),
    ensures
        a is A <==> b is A,
        a is B <==> b is B,
        a is C <==> b is C,
        a matches Descriptor::B(m, v, _) ==> (b matches Descriptor::B(n, w, _) && m == n && v == w),
        a matches Descriptor::A(m, _) ==> (b matches Descriptor::A(n, _) && m == n),
        a matches Descriptor::C(m, _) ==> (b matches Descriptor::C(n, _) && m == n),
{
    reveal_strlit("A");
    reveal_strlit("B");
    reveal_strlit("C");
    reveal_strlit("etag");
    reveal_strlit("commit_sha");
    reveal_strlit("object_version_id");
    reveal_strlit("opaque");
    assert("A"@[0] == 'A' && "B"@[0] == 'B' && "C"@[0] == 'C');
    assert("etag"@.len() == 4 && "commit_sha"@.len() == 10 && "object_version_id"@.len() == 17
        && "opaque"@.len() == 6);
    let x = a.tree()->Entries_0;
    let y = b.tree()->Entries_0;
    assert(x[0] == y[0] && x[1] == y[1] && x[2] == y[2]);
    if let Descriptor::B(m, v, _) = a {
        if let Descriptor::B(n, w, _) = b {
            let p = v.tree()->Entries_0;
            let q = w.tree()->Entries_0;
            assert(p[0] == q[0] && p[1] == q[1]);
        }
    }
}

/// What a descriptor holds is its class, its number, for an idempotent effect
/// its version, and its payload.
pub proof fn law_descriptor_holds_every_part(d: EffectDescriptor)
    ensures
        d.view() == (match d {
            EffectDescriptor::A { effect_id, op } => Descriptor::A(effect_id, json::json_tree(op)),
            EffectDescriptor::B { effect_id, version_ref, op } => Descriptor::B(
                effect_id,
                Version { kind: version_ref.kind, value: version_ref.value@ },
                json::json_tree(op),
            ),
            EffectDescriptor::C { effect_id, op } => Descriptor::C(effect_id, json::json_tree(op)),
        }),
{
}

/// A list of descriptors holds each of them, in order.
pub proof fn law_descriptors_are_held_in_order(list: Seq<EffectDescriptor>, i: int)
    ensures
        descriptors_of(list).len() == list.len(),
        0 <= i < list.len() ==> descriptors_of(list)[i] == list[i].view(),
{
}

} // verus!
