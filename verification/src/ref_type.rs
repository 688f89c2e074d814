//! Named pointers to blocks.

use vstd::prelude::*;
use vstd::std_specs::cmp::PartialOrdSpec;

use crate::effect;
use crate::effect::VersionRef;
use crate::error::ReelError;
use crate::order;
use crate::order::{relate, Relation};
use crate::table::Keyed;
use crate::text;
use crate::text::decimal_string;
use std::cmp::Ordering;

verus! {

/// The longest name of a [`Ref`], in UTF-8 bytes.
pub const MAX_REF_NAME_BYTES: usize = 4096;

/// A named pointer to a block. The name is its identity.
#[derive(Debug, PartialEq, Eq)]
pub struct Ref {
    /// The name.
    pub name: String,
    /// The block that is pointed to.
    pub hash: crate::hash::Hash,
    /// The remote version that a commit has to find unchanged.
    pub version_constraint: Option<VersionRef>,
}

/// What a [`Ref`] holds.
pub struct Pointer {
    /// The name.
    pub name: Seq<char>,
    /// The block that is pointed to.
    pub hash: crate::hash::Hash,
    /// The version constraint.
    pub version: Option<effect::Version>,
}

/// A name is acceptable: not empty and not too long.
pub open spec fn is_ref_name(name: Seq<char>) -> bool {
    0 < name.len() && text::utf8(name).len() <= MAX_REF_NAME_BYTES
}

/// The refusal of a name that is not acceptable.
pub open spec fn ref_name_refusal(name: Seq<char>) -> Seq<char> {
    if name.len() == 0 {
        "Ref name must be non-empty (schema minLength: 1)"@
    } else {
        "Ref name exceeds MAX_REF_NAME_BYTES ("@ + text::decimal(text::utf8(name).len()) + " > "@
            + text::decimal(MAX_REF_NAME_BYTES as nat) + " bytes)"@
    }
}

impl Ref {
    /// What the pointer holds.
    pub open spec fn view(&self) -> Pointer {
        Pointer {
            name: self.name@,
            hash: self.hash,
            version: effect::version_of(self.version_constraint),
        }
    }

    /// Makes a pointer without a version constraint.
    pub fn new(name: &str, hash: crate::hash::Hash) -> (r: Result<Self, ReelError>)
        ensures
            match r {
                Ok(p) => is_ref_name(name@) && p.view() == (Pointer {
                    name: name@,
                    hash,
                    version: None,
                }) && p.version_constraint is None,
                Err(e) => !is_ref_name(name@) && e.is_storage(ref_name_refusal(name@)),
            },
    {
        match validate_name(name) {
            Ok(()) => Ok(Ref { name: String::from_str(name), hash, version_constraint: None }),
            Err(e) => Err(e),
        }
    }

    /// Makes a pointer with a version constraint.
    pub fn with_version_constraint(
        name: &str,
        hash: crate::hash::Hash,
        version_ref: VersionRef,
    ) -> (r: Result<Self, ReelError>)
        ensures
            match r {
                Ok(p) => is_ref_name(name@) && p.view() == (Pointer {
                    name: name@,
                    hash,
                    version: Some(version_ref.view()),
                }) && p.version_constraint == Some(version_ref),
                Err(e) => !is_ref_name(name@) && e.is_storage(ref_name_refusal(name@)),
            },
    {
        match validate_name(name) {
            Ok(()) => Ok(
                Ref { name: String::from_str(name), hash, version_constraint: Some(version_ref) },
            ),
            Err(e) => Err(e),
        }
    }

    /// The name.
    #[must_use]
    pub fn name(&self) -> (n: &str)
        ensures
            n@ == self.name@,
    {
        self.name.as_str()
    }

    /// The block that is pointed to.
    #[must_use]
    pub fn hash(&self) -> (h: &crate::hash::Hash)
        ensures
            *h == self.hash,
    {
        &self.hash
    }

    /// The version constraint.
    #[must_use]
    pub fn version_constraint(&self) -> (v: Option<&VersionRef>)
        ensures
            match v {
                Some(r) => self.version_constraint == Some(*r),
                None => self.version_constraint is None,
            },
    {
        match &self.version_constraint {
            Some(r) => Some(r),
            None => None,
        }
    }
}

impl Clone for Ref {
    fn clone(&self) -> (r: Self)
        ensures
            r.view() == self.view(),
    {
        let version_constraint = match &self.version_constraint {
            Some(v) => Some(v.clone()),
            None => None,
        };
        Ref { name: self.name.clone(), hash: self.hash, version_constraint }
    }
}

impl Keyed for Ref {
    open spec fn key(&self) -> Seq<u8> {
        text::utf8(self.name@)
    }

    fn key_bytes(&self) -> (k: &[u8]) {
        self.name.as_str().as_bytes()
    }
}

impl PartialOrd for Ref {
    fn partial_cmp(&self, other: &Self) -> (r: Option<Ordering>) {
        proof {
            order::lex_lt_irreflexive(text::utf8(self.name@));
            if order::lex_lt(text::utf8(self.name@), text::utf8(other.name@)) && order::lex_lt(
                text::utf8(other.name@),
                text::utf8(self.name@),
            ) {
                order::lex_lt_transitive(
                    text::utf8(self.name@),
                    text::utf8(other.name@),
                    text::utf8(self.name@),
                );
            }
        }
        match relate(self.name.as_str().as_bytes(), other.name.as_str().as_bytes()) {
            Relation::Before => Some(Ordering::Less),
            Relation::Same => Some(Ordering::Equal),
            Relation::After => Some(Ordering::Greater),
        }
    }
}

impl vstd::std_specs::cmp::PartialOrdSpecImpl for Ref {
    open spec fn obeys_partial_cmp_spec() -> bool {
        true
    }

    /// Pointers are ordered by the bytes of their names alone.
    open spec fn partial_cmp_spec(&self, other: &Self) -> Option<Ordering> {
        if order::lex_lt(text::utf8(self.name@), text::utf8(other.name@)) {
            Some(Ordering::Less)
        } else if text::utf8(self.name@) == text::utf8(other.name@) {
            Some(Ordering::Equal)
        } else {
            Some(Ordering::Greater)
        }
    }
}

/// Checks a candidate name.
pub fn validate_name(name: &str) -> (r: Result<(), ReelError>)
    ensures
        r is Ok <==> is_ref_name(name@),
        r matches Err(e) ==> e.is_storage(ref_name_refusal(name@)),
{
    if name.is_empty() {
        return Err(
            ReelError::Storage(
                String::from_str("Ref name must be non-empty (schema minLength: 1)"),
            ),
        );
    }
    let len: usize = name.as_bytes().len();
    if len > MAX_REF_NAME_BYTES {
        let m = String::from_str("Ref name exceeds MAX_REF_NAME_BYTES (").concat(
            decimal_string(len as u64).as_str(),
        ).concat(" > ").concat(decimal_string(MAX_REF_NAME_BYTES as u64).as_str()).concat(
            " bytes)",
        );
        return Err(ReelError::Storage(m));
    }
    Ok(())
}

/// `a` is ordered before `b`.
pub open spec fn is_before(a: Ref, b: Ref) -> bool {
    order::lex_lt(text::utf8(a.name@), text::utf8(b.name@))
}

/// Pointers are totally ordered by their names: never before themselves,
/// transitively, and one way or the other where the names differ.
pub proof fn law_pointers_are_ordered_by_name(a: Ref, b: Ref, c: Ref)
    ensures
        !is_before(a, a),
        is_before(a, b) && is_before(b, c) ==> is_before(a, c),
        a.name@ == b.name@ || is_before(a, b) || is_before(b, a),
        a.name@ == b.name@ ==> !is_before(a, b),
{
    order::lex_lt_irreflexive(text::utf8(a.name@));
    if is_before(a, b) && is_before(b, c) {
        order::lex_lt_transitive(text::utf8(a.name@), text::utf8(b.name@), text::utf8(c.name@));
    }
    order::lex_lt_total(text::utf8(a.name@), text::utf8(b.name@));
    text::lemma_utf8_injective(a.name@, b.name@);
}

/// A name is acceptable exactly where it has one to 4096 bytes.
pub proof fn law_names_have_one_to_4096_bytes(name: Seq<char>)
    ensures
        is_ref_name(name) <==> 0 < name.len() && text::utf8(name).len() <= 4096,
{
}

/// Pointers compare as the bytes of their names do, whatever they point at.
pub proof fn law_pointers_compare_by_name(a: Ref, b: Ref)
    ensures
        a.partial_cmp_spec(&b) == Some(Ordering::Less) <==> order::lex_lt(
            text::utf8(a.name@),
            text::utf8(b.name@),
        ),
        a.partial_cmp_spec(&b) == Some(Ordering::Equal) <==> a.name@ == b.name@,
        a.partial_cmp_spec(&b) == Some(Ordering::Greater) <==> order::lex_lt(
            text::utf8(b.name@),
            text::utf8(a.name@),
        ),
{
    let x = text::utf8(a.name@);
    let y = text::utf8(b.name@);
    order::lex_lt_irreflexive(x);
    order::lex_lt_total(x, y);
    text::lemma_utf8_injective(a.name@, b.name@);
    if order::lex_lt(x, y) && order::lex_lt(y, x) {
        order::lex_lt_transitive(x, y, x);
    }
}

/// What a pointer holds is its name, its block and its version constraint.
pub proof fn law_pointer_holds_every_part(r: Ref)
    ensures
        r.view().name == r.name@,
        r.view().hash == r.hash,
        match r.version_constraint {
            Some(v) => r.view().version == Some(
                effect::Version { kind: v.kind, value: v.value@ },
            ),
            None => r.view().version is None,
        },
{
}

} // verus!
