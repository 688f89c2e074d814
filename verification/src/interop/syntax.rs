//! Rust items, from the `syn` crate.

use vstd::prelude::*;

use crate::effects::marker::{Declaration, ItemShape};

verus! {

/// What is read of an item.
pub struct Declared {
    /// The kind of the item.
    pub shape: ItemShape,
    /// Its name; empty where it is neither a struct nor an enum.
    pub ident: Seq<char>,
    /// The number of its generic parameters; none where it is neither.
    pub generics: nat,
}

/// The item that a source text is, where `syn` reads it as exactly one.
pub uninterp spec fn syn_item(source: Seq<char>) -> Option<Declared>;

/// `syn::parse_str` for an item: reads the whole text as one item, or fails
/// with a message of which nothing is promised.
#[verifier::external_body]
pub(crate) fn parse_item(source: &str) -> (r: Result<Declaration, String>)
    ensures
        match r {
            Ok(d) => syn_item(source@) == Some(d.view()),
            Err(_) => syn_item(source@) is None,
        },
{
    match syn::parse_str::<syn::Item>(source) {
        Ok(syn::Item::Struct(s)) => {
            let (ident, generics) = (s.ident.to_string(), s.generics.params.len());
            Ok(Declaration { shape: ItemShape::Struct, ident, generics })
        }
        Ok(syn::Item::Enum(e)) => {
            let (ident, generics) = (e.ident.to_string(), e.generics.params.len());
            Ok(Declaration { shape: ItemShape::Enum, ident, generics })
        }
        Ok(_) => Ok(Declaration { shape: ItemShape::Other, ident: String::new(), generics: 0 }),
        Err(e) => Err(e.to_string()),
    }
}

} // verus!
