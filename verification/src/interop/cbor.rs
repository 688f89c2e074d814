//! CBOR values and their encoding, from the `ciborium` crate.

use vstd::prelude::*;

use crate::cbor_head;
use crate::cbor_head::head_bytes;
use crate::interop::json;
use crate::text;

verus! {

/// The `ciborium` crate's dynamic CBOR value.
#[verifier::external_type_specification]
#[verifier::external_body]
pub struct ExCborValue(ciborium::Value);

/// A CBOR data item.
pub enum CborTree {
    /// An integer.
    Integer(int),
    /// A byte string.
    Bytes(Seq<u8>),
    /// A floating-point number, by its 64 bits.
    Float(u64),
    /// A text string.
    Text(Seq<char>),
    /// A truth value.
    Bool(bool),
    /// Null.
    Null,
    /// A tagged item.
    Tag(u64, Box<CborTree>),
    /// An array.
    Array(Seq<CborTree>),
    /// A map, as the sequence of its entries.
    Entries(Seq<(CborTree, CborTree)>),
}

/// The data item that a `ciborium::Value` holds.
pub uninterp spec fn cbor_tree(v: ciborium::Value) -> CborTree;

/// The items of a sequence of values.
pub open spec fn cbor_trees(vs: Seq<ciborium::Value>) -> Seq<CborTree> {
    vs.map_values(|v: ciborium::Value| cbor_tree(v))
}

/// The entries of a sequence of pairs of values.
pub open spec fn cbor_pairs(vs: Seq<(ciborium::Value, ciborium::Value)>) -> Seq<
    (CborTree, CborTree),
> {
    vs.map_values(|p: (ciborium::Value, ciborium::Value)| (cbor_tree(p.0), cbor_tree(p.1)))
}

/// The item is made of texts, arrays and maps alone, nested at most `depth`
/// deep.
pub open spec fn is_plain(t: CborTree, depth: nat) -> bool
    decreases depth,
{
    match t {
        CborTree::Text(_) => true,
        CborTree::Array(items) => depth > 0 && forall|i: int|
            0 <= i < items.len() ==> is_plain(#[trigger] items[i], (depth - 1) as nat),
        CborTree::Entries(entries) => depth > 0 && forall|i: int|
            0 <= i < entries.len() ==> is_plain((#[trigger] entries[i]).0, (depth - 1) as nat)
                && is_plain(entries[i].1, (depth - 1) as nat),
        _ => false,
    }
}

/// The item that `ciborium` reads at the start of `bytes`, if they start with
/// a well-formed one that is nested at most `limit` deep, and what stands
/// behind it.
pub uninterp spec fn cbor_parsed(bytes: Seq<u8>, limit: usize) -> Option<(CborTree, Seq<u8>)>;

/// The bytes that `ciborium::into_writer` writes for an item.
pub uninterp spec fn cbor_encoded(t: CborTree) -> Seq<u8>;

/// The CBOR item that a JSON value serialises to.
pub uninterp spec fn cbor_of_json(j: json::JsonTree) -> CborTree;

/// `ciborium::de::from_reader_with_recursion_limit`, reading a value from a
/// byte slice: takes the item off the start of the slice, or gives an error
/// where there is none.
#[verifier::external_body]
pub(crate) fn parse(bytes: &[u8], limit: usize) -> (r: Option<(ciborium::Value, &[u8])>)
    ensures
        match r {
            Some((v, rest)) => {
                &&& cbor_parsed(bytes@, limit) == Some((cbor_tree(v), rest@))
                &&& rest@.len() < bytes@.len()
            },
            None => cbor_parsed(bytes@, limit) is None,
        },
{
    let mut rest = bytes;
    match ciborium::de::from_reader_with_recursion_limit(&mut rest, limit) {
        Ok(v) => Some((v, rest)),
        Err(_) => None,
    }
}

/// The bytes of an item of texts, arrays and maps, nested at most `depth`
/// deep: each with the shortest head, one after the other.
pub open spec fn plain_bytes(t: CborTree, depth: nat) -> Seq<u8>
    decreases depth, 0nat,
{
    match t {
        CborTree::Text(s) => head_bytes(cbor_head::TEXT, text::utf8(s).len()) + text::utf8(s),
        CborTree::Array(items) => if depth == 0 {
            Seq::empty()
        } else {
            head_bytes(cbor_head::ARRAY, items.len()) + plain_items(items, (depth - 1) as nat)
        },
        CborTree::Entries(entries) => if depth == 0 {
            Seq::empty()
        } else {
            head_bytes(cbor_head::MAP, entries.len()) + plain_entries(entries, (depth - 1) as nat)
        },
        _ => Seq::empty(),
    }
}

/// The bytes of items, in order.
pub open spec fn plain_items(items: Seq<CborTree>, depth: nat) -> Seq<u8>
    decreases depth, items.len(),
{
    if items.len() == 0 {
        Seq::empty()
    } else {
        plain_bytes(items[0], depth) + plain_items(items.drop_first(), depth)
    }
}

/// The bytes of the entries of a map, in order.
pub open spec fn plain_entries(entries: Seq<(CborTree, CborTree)>, depth: nat) -> Seq<u8>
    decreases depth, entries.len(),
{
    if entries.len() == 0 {
        Seq::empty()
    } else {
        plain_bytes(entries[0].0, depth) + plain_bytes(entries[0].1, depth) + plain_entries(
            entries.drop_first(),
            depth,
        )
    }
}

/// `ciborium::into_writer`, writing a value to the end of an empty vector. A
/// vector takes every write, so it succeeds. An item of texts, arrays and maps
/// is written with the shortest heads, in one piece and in order.
#[verifier::external_body]
pub(crate) fn encode(v: &ciborium::Value) -> (r: Result<Vec<u8>, String>)
    ensures
        r is Ok,
        r->Ok_0@ == cbor_encoded(cbor_tree(*v)),
        is_plain(cbor_tree(*v), 8) ==> r->Ok_0@ == plain_bytes(cbor_tree(*v), 8),
{
    let mut out = Vec::new();
    match ciborium::into_writer(v, &mut out) {
        Ok(()) => Ok(out),
        Err(e) => Err(e.to_string()),
    }
}

/// `ciborium::Value::serialized` on a JSON value. None of the calls that a JSON
/// value's serialisation makes can fail there, so it succeeds.
#[verifier::external_body]
pub(crate) fn from_json(j: &serde_json::Value) -> (r: Result<ciborium::Value, String>)
    ensures
        r is Ok,
        cbor_tree(r->Ok_0) == cbor_of_json(json::json_tree(*j)),
{
    ciborium::Value::serialized(j).map_err(|e| e.to_string())
}

/// The `Text` variant of `ciborium::Value`.
#[verifier::external_body]
pub(crate) fn text_value(s: &str) -> (v: ciborium::Value)
    ensures
        cbor_tree(v) == CborTree::Text(s@),
{
    ciborium::Value::from(s)
}

/// The `Integer` variant of `ciborium::Value`.
#[verifier::external_body]
pub(crate) fn integer_value(n: u64) -> (v: ciborium::Value)
    ensures
        cbor_tree(v) == CborTree::Integer(n as int),
{
    ciborium::Value::from(n)
}

/// The `Array` variant of `ciborium::Value`.
#[verifier::external_body]
pub(crate) fn array_value(items: Vec<ciborium::Value>) -> (v: ciborium::Value)
    ensures
        cbor_tree(v) == CborTree::Array(cbor_trees(items@)),
{
    ciborium::Value::from(items)
}

/// The `Map` variant of `ciborium::Value`.
#[verifier::external_body]
pub(crate) fn map_value(entries: Vec<(ciborium::Value, ciborium::Value)>) -> (v: ciborium::Value)
    ensures
        cbor_tree(v) == CborTree::Entries(cbor_pairs(entries@)),
{
    ciborium::Value::from(entries)
}

/// `ciborium::Value::as_text`: the text, where the value is one.
pub assume_specification[ ciborium::Value::as_text ](v: &ciborium::Value) -> (r: Option<&str>)
    ensures
        match r {
            Some(s) => cbor_tree(*v) == CborTree::Text(s@),
            None => !(cbor_tree(*v) is Text),
        },
;

/// `ciborium::Value::as_array`: the items, where the value is an array.
pub assume_specification[ ciborium::Value::as_array ](v: &ciborium::Value) -> (r: Option<
    &Vec<ciborium::Value>,
>)
    ensures
        match r {
            Some(items) => cbor_tree(*v) == CborTree::Array(cbor_trees(items@)),
            None => !(cbor_tree(*v) is Array),
        },
;

/// `ciborium::Value::as_map`: the entries, where the value is a map.
pub assume_specification[ ciborium::Value::as_map ](v: &ciborium::Value) -> (r: Option<
    &Vec<(ciborium::Value, ciborium::Value)>,
>)
    ensures
        match r {
            Some(entries) => cbor_tree(*v) == CborTree::Entries(cbor_pairs(entries@)),
            None => !(cbor_tree(*v) is Entries),
        },
;

/// `ciborium::Value::as_bytes`: the bytes, where the value is a byte string.
pub assume_specification[ ciborium::Value::as_bytes ](v: &ciborium::Value) -> (r: Option<&Vec<u8>>)
    ensures
        match r {
            Some(b) => cbor_tree(*v) == CborTree::Bytes(b@),
            None => !(cbor_tree(*v) is Bytes),
        },
;

/// `ciborium::Value::as_tag`: the tag and the tagged value, where the value is
/// a tagged one.
pub assume_specification[ ciborium::Value::as_tag ](v: &ciborium::Value) -> (r: Option<
    (u64, &ciborium::Value),
>)
    ensures
        match r {
            Some((n, inner)) => cbor_tree(*v) == CborTree::Tag(n, Box::new(cbor_tree(*inner))),
            None => !(cbor_tree(*v) is Tag),
        },
;

/// `ciborium::Value::as_integer`: the number, where the value is an integer.
#[verifier::external_body]
pub(crate) fn as_number(v: &ciborium::Value) -> (r: Option<i128>)
    ensures
        match r {
            Some(n) => cbor_tree(*v) == CborTree::Integer(n as int),
            None => !(cbor_tree(*v) is Integer),
        },
{
    v.as_integer().map(i128::from)
}

} // verus!
