//! How a delta is read from its CBOR form.

use vstd::prelude::*;
use vstd::slice::slice_subrange;

use crate::cbor_head;
use crate::cbor_head::{head, head_bytes, law_head_round_trip, read_head, Head};
use crate::delta::{mutations_of, Delta, Mutation, Mutations, Op};
use crate::hash;
use crate::interop::cbor;
use crate::text;
use crate::text::{from_utf8, same_bytes};

verus! {

/// What stands behind the tags at the start of `b`.
pub open spec fn skip_tags(b: Seq<u8>) -> Option<Seq<u8>>
    decreases b.len(),
{
    match head(b) {
        Some((h, rest)) => if h.major != cbor_head::TAG {
            Some(b)
        } else if h.arg is None || rest.len() >= b.len() {
            None
        } else {
            skip_tags(rest)
        },
        None => None,
    }
}

/// The bytes of the string in one piece at the start of `b`, whether it is a
/// text, and what stands behind it. A text has to be UTF-8.
pub open spec fn string(b: Seq<u8>) -> Option<(Seq<u8>, bool, Seq<u8>)> {
    match head(b) {
        Some((Head { major, arg: Some(n) }, rest)) => if (major == cbor_head::TEXT || major
            == cbor_head::BYTES) && n <= rest.len() && (major == cbor_head::TEXT
            ==> vstd::utf8::valid_utf8(rest.take(n as int))) {
            Some((rest.take(n as int), major == cbor_head::TEXT, rest.skip(n as int)))
        } else {
            None
        },
        _ => None,
    }
}

/// The largest number of bytes in a key of a delta or in a kind.
pub const MAX_WORD_SIZE: usize = 4096;

/// The key of a delta or the kind at the start of `b`: a string in one piece
/// of limited size, with or without tags.
pub open spec fn word(b: Seq<u8>) -> Option<(Seq<u8>, Seq<u8>)> {
    match skip_tags(b) {
        Some(p) => match string(p) {
            Some((w, _, rest)) => if w.len() <= MAX_WORD_SIZE {
                Some((w, rest))
            } else {
                None
            },
            None => None,
        },
        None => None,
    }
}

/// The item at the start of `b`, nested at most `limit` deep.
pub open spec fn item(b: Seq<u8>, limit: usize) -> Option<(cbor::CborTree, Seq<u8>)> {
    match string(b) {
        Some((w, true, rest)) => Some(
            (cbor::CborTree::Text(vstd::utf8::decode_utf8(w)), rest),
        ),
        _ => cbor::cbor_parsed(b, limit),
    }
}

/// The item holds no tag, and no negative integer that needs more than 64 bits.
pub open spec fn is_bare(t: cbor::CborTree) -> bool
    decreases t,
{
    match t {
        cbor::CborTree::Tag(_, _) => false,
        cbor::CborTree::Integer(n) => n >= i64::MIN,
        cbor::CborTree::Array(items) => forall|i: int|
            0 <= i < items.len() ==> is_bare(#[trigger] items[i]),
        cbor::CborTree::Entries(es) => forall|i: int|
            0 <= i < es.len() ==> is_bare((#[trigger] es[i]).0) && is_bare(es[i].1),
        _ => true,
    }
}

/// No head in `b` is a tag, up to the last `stop` bytes.
pub open spec fn is_tag_free(b: Seq<u8>, stop: nat) -> bool
    decreases b.len(),
{
    b.len() <= stop || match head(b) {
        Some((h, rest)) => {
            let skipped = if (h.major == cbor_head::TEXT || h.major == cbor_head::BYTES)
                && h.arg is Some {
                h.arg->0 as int
            } else {
                0
            };
            &&& h.major != cbor_head::TAG
            &&& rest.len() < b.len()
            &&& skipped <= rest.len()
            &&& is_tag_free(rest.skip(skipped), stop)
        },
        None => false,
    }
}

/// How deep an item in a delta may be nested.
pub const DELTA_DEPTH: usize = 255;

/// How deep an item in a mutation may be nested.
pub const OP_DEPTH: usize = 253;

/// The item of a mutation at the start of `b`. It holds no tag.
pub open spec fn content(b: Seq<u8>) -> Option<(cbor::CborTree, Seq<u8>)> {
    match item(b, OP_DEPTH) {
        Some((t, rest)) => if is_bare(t) && is_tag_free(b, rest.len()) {
            Some((t, rest))
        } else {
            None
        },
        None => None,
    }
}

/// What stands behind an array or a map that ends here, where `left` says how
/// much of it is left, or that it ends with a break.
pub open spec fn end_of(b: Seq<u8>, left: Option<u64>) -> Option<Seq<u8>> {
    match left {
        Some(n) => if n == 0 {
            Some(b)
        } else {
            None
        },
        None => if b.len() > 0 && b[0] == 0xff {
            Some(b.skip(1))
        } else {
            None
        },
    }
}

/// How much is left of an array or a map after one more.
pub open spec fn one_less(left: Option<u64>) -> Option<u64> {
    match left {
        Some(n) => Some((n - 1) as u64),
        None => None,
    }
}

/// A field of a mutation, besides its kind.
#[derive(Clone, Copy, Debug, PartialEq, Eq, Structural)]
pub enum Field {
    /// The name.
    Name,
    /// The digest.
    Target,
    /// Anything else, which is passed over.
    Other,
}

/// The field of a mutation that the bytes of a key name. Only a `put` has a
/// digest.
pub open spec fn named_field(b: Seq<u8>, put: bool) -> Field {
    if b == text::utf8("name"@) {
        Field::Name
    } else if put && b == text::utf8("hash"@) {
        Field::Target
    } else {
        Field::Other
    }
}

/// The field of a mutation that a key names, where it is a key: by its name,
/// as a text or a byte string, or by its place behind the kind.
pub open spec fn op_field(key: cbor::CborTree, put: bool) -> Option<Field> {
    match key {
        cbor::CborTree::Text(s) => Some(named_field(text::utf8(s), put)),
        cbor::CborTree::Bytes(b) => Some(named_field(b, put)),
        cbor::CborTree::Integer(n) => if n < 0 {
            None
        } else if n == 0 {
            Some(Field::Name)
        } else if n == 1 && put {
            Some(Field::Target)
        } else {
            Some(Field::Other)
        },
        _ => None,
    }
}

/// The key is that of the kind of a mutation.
pub open spec fn is_kind_key(key: cbor::CborTree) -> bool {
    match key {
        cbor::CborTree::Text(s) => text::utf8(s) == text::utf8("kind"@),
        cbor::CborTree::Bytes(b) => b == text::utf8("kind"@),
        _ => false,
    }
}

/// The field at `i` is the only one that is `f`.
pub open spec fn is_sole(fields: Seq<Option<Field>>, f: Field, i: int) -> bool {
    &&& 0 <= i < fields.len()
    &&& fields[i] == Some(f)
    &&& forall|j: int| 0 <= j < fields.len() && j != i ==> #[trigger] fields[j] != Some(f)
}

/// The value of the only entry whose field is `f`, where every key names one.
pub open spec fn value_of(
    entries: Seq<(cbor::CborTree, cbor::CborTree)>,
    fields: Seq<Option<Field>>,
    f: Field,
) -> Option<cbor::CborTree> {
    if !fields.contains(None) && exists|i: int| is_sole(fields, f, i) {
        Some(entries[choose|i: int| is_sole(fields, f, i)].1)
    } else {
        None
    }
}

/// The fields of the entries of a mutation.
pub open spec fn op_fields(es: Seq<(cbor::CborTree, cbor::CborTree)>, put: bool) -> Seq<
    Option<Field>,
> {
    es.map_values(|e: (cbor::CborTree, cbor::CborTree)| op_field(e.0, put))
}

/// The digest that a text of 64 hexadecimal digits writes out.
pub open spec fn hash_of_text(s: Seq<char>) -> Option<crate::hash::Hash> {
    if hash::is_hex_digest(text::utf8(s)) {
        Some(
            choose|h: crate::hash::Hash| #[trigger] hash::hex_decodes(text::utf8(s), h.view()),
        )
    } else {
        None
    }
}

/// The text in a mutation: a text, or a byte string that is one in UTF-8.
pub open spec fn text_of_tree(t: cbor::CborTree) -> Option<Seq<char>> {
    match t {
        cbor::CborTree::Text(s) => Some(s),
        cbor::CborTree::Bytes(b) => if vstd::utf8::valid_utf8(b) {
            Some(vstd::utf8::decode_utf8(b))
        } else {
            None
        },
        _ => None,
    }
}

/// Whether a kind is `put`, where it is that or `remove`.
pub open spec fn is_put(kind: Seq<u8>) -> Option<bool> {
    if kind == text::utf8("put"@) {
        Some(true)
    } else if kind == text::utf8("remove"@) {
        Some(false)
    } else {
        None
    }
}

/// The mutation of a kind with the name and, for `put`, the digest that two
/// items write out.
pub open spec fn mutation_of_parts(
    put: bool,
    name: Option<cbor::CborTree>,
    target: Option<cbor::CborTree>,
) -> Option<Mutation> {
    let name = match name {
        Some(n) => text_of_tree(n),
        None => None,
    };
    let target = match target {
        Some(h) => match text_of_tree(h) {
            Some(s) => hash_of_text(s),
            None => None,
        },
        None => None,
    };
    match name {
        Some(n) => if !put {
            Some(Mutation::Remove(n))
        } else {
            match target {
                Some(h) => Some(Mutation::Put(n, h)),
                None => None,
            }
        },
        None => None,
    }
}

/// The mutation of a kind with the other entries of its map.
pub open spec fn mutation_of_entries(
    put: bool,
    entries: Seq<(cbor::CborTree, cbor::CborTree)>,
) -> Option<Mutation> {
    let fields = op_fields(entries, put);
    mutation_of_parts(
        put,
        value_of(entries, fields, Field::Name),
        value_of(entries, fields, Field::Target),
    )
}

/// The mutation of a kind with the other items of its list.
pub open spec fn mutation_of_items(put: bool, items: Seq<cbor::CborTree>) -> Option<Mutation> {
    if put && items.len() == 2 {
        mutation_of_parts(true, Some(items[0]), Some(items[1]))
    } else if !put && items.len() == 1 {
        mutation_of_parts(false, Some(items[0]), None)
    } else {
        None
    }
}

/// The mutation of the map whose entries go on at the start of `b`, where
/// `kind` and `entries` have been read already.
pub open spec fn op_map(
    b: Seq<u8>,
    left: Option<u64>,
    kind: Option<bool>,
    entries: Seq<(cbor::CborTree, cbor::CborTree)>,
) -> Option<(Mutation, Seq<u8>)>
    decreases b.len(),
{
    match end_of(b, left) {
        Some(rest) => match kind {
            Some(put) => match mutation_of_entries(put, entries) {
                Some(m) => Some((m, rest)),
                None => None,
            },
            None => None,
        },
        None => match content(b) {
            Some((key, behind)) => if is_kind_key(key) {
                match word(behind) {
                    Some((w, rest)) => if kind is None && is_put(w) is Some && rest.len() < b.len() {
                        op_map(rest, one_less(left), is_put(w), entries)
                    } else {
                        None
                    },
                    None => None,
                }
            } else {
                match content(behind) {
                    Some((value, rest)) => if rest.len() < b.len() {
                        op_map(rest, one_less(left), kind, entries.push((key, value)))
                    } else {
                        None
                    },
                    None => None,
                }
            },
            None => None,
        },
    }
}

/// The mutation of the list whose items go on at the start of `b`, where the
/// kind and `items` have been read already.
pub open spec fn op_list(
    b: Seq<u8>,
    left: Option<u64>,
    put: bool,
    items: Seq<cbor::CborTree>,
) -> Option<(Mutation, Seq<u8>)>
    decreases b.len(),
{
    match end_of(b, left) {
        Some(rest) => match mutation_of_items(put, items) {
            Some(m) => Some((m, rest)),
            None => None,
        },
        None => match content(b) {
            Some((t, rest)) => if rest.len() < b.len() {
                op_list(rest, one_less(left), put, items.push(t))
            } else {
                None
            },
            None => None,
        },
    }
}

/// The mutation at the start of `b`: a map with a kind, a name and, for `put`,
/// a digest, in which other entries are passed over, or a list of just these.
pub open spec fn op(b: Seq<u8>) -> Option<(Mutation, Seq<u8>)> {
    match head(b) {
        Some((h, inside)) => if h.major == cbor_head::MAP {
            op_map(inside, h.arg, None, Seq::empty())
        } else if h.major == cbor_head::ARRAY && end_of(inside, h.arg) is None {
            match word(inside) {
                Some((w, rest)) => match is_put(w) {
                    Some(put) => op_list(rest, one_less(h.arg), put, Seq::empty()),
                    None => None,
                },
                None => None,
            }
        } else {
            None
        },
        None => None,
    }
}

/// The mutations of the array whose items go on at the start of `b`, where
/// `ops` have been read already.
pub open spec fn ops_array(b: Seq<u8>, left: Option<u64>, ops: Seq<Mutation>) -> Option<
    (Seq<Mutation>, Seq<u8>),
>
    decreases b.len(),
{
    match end_of(b, left) {
        Some(rest) => Some((ops, rest)),
        None => match op(b) {
            Some((m, rest)) => if rest.len() < b.len() {
                ops_array(rest, one_less(left), ops.push(m))
            } else {
                None
            },
            None => None,
        },
    }
}

/// The mutations at the start of `b`: an array, with or without tags, or an
/// empty byte string, which stands for none.
pub open spec fn ops_value(b: Seq<u8>) -> Option<(Seq<Mutation>, Seq<u8>)> {
    match skip_tags(b) {
        Some(p) => match head(p) {
            Some((h, inside)) => if h.major == cbor_head::ARRAY {
                ops_array(inside, h.arg, Seq::empty())
            } else {
                match item(p, DELTA_DEPTH) {
                    Some((cbor::CborTree::Bytes(none), rest)) => if none.len() == 0 {
                        Some((Seq::empty(), rest))
                    } else {
                        None
                    },
                    _ => None,
                }
            },
            None => None,
        },
        None => None,
    }
}

/// The base digest at the start of `b`: a text, with or without tags.
pub open spec fn base_value(b: Seq<u8>) -> Option<(crate::hash::Hash, Seq<u8>)> {
    match skip_tags(b) {
        Some(p) => match item(p, DELTA_DEPTH) {
            Some((cbor::CborTree::Text(s), rest)) => match hash_of_text(s) {
                Some(h) => Some((h, rest)),
                None => None,
            },
            _ => None,
        },
        None => None,
    }
}

/// The delta whose entries go on at the start of `b`, where `base` and `ops`
/// have been read already. Entries with other keys are passed over.
pub open spec fn delta_map(
    b: Seq<u8>,
    left: Option<u64>,
    base: Option<crate::hash::Hash>,
    ops: Option<Seq<Mutation>>,
) -> Option<Mutations>
    decreases b.len(),
{
    match end_of(b, left) {
        Some(_) => match (base, ops) {
            (Some(base), Some(ops)) => Some(Mutations { base, ops }),
            _ => None,
        },
        None => match word(b) {
            Some((key, behind)) => if key == text::utf8("base_hash"@) {
                match base_value(behind) {
                    Some((h, rest)) => if base is None && rest.len() < b.len() {
                        delta_map(rest, one_less(left), Some(h), ops)
                    } else {
                        None
                    },
                    None => None,
                }
            } else if key == text::utf8("ops"@) {
                match ops_value(behind) {
                    Some((ms, rest)) => if ops is None && rest.len() < b.len() {
                        delta_map(rest, one_less(left), base, Some(ms))
                    } else {
                        None
                    },
                    None => None,
                }
            } else {
                match item(behind, DELTA_DEPTH) {
                    Some((_, rest)) => if rest.len() < b.len() {
                        delta_map(rest, one_less(left), base, ops)
                    } else {
                        None
                    },
                    None => None,
                }
            },
            None => None,
        },
    }
}

/// The mutations that a payload writes out in CBOR: a map with a base digest
/// and mutations, with or without tags.
pub open spec fn mutations_of_bytes(payload: Seq<u8>) -> Option<Mutations> {
    match skip_tags(payload) {
        Some(p) => match head(p) {
            Some((h, inside)) => if h.major == cbor_head::MAP {
                delta_map(inside, h.arg, None, None)
            } else {
                None
            },
            None => None,
        },
        None => None,
    }
}

fn tail(b: &[u8], n: usize) -> (r: &[u8])
    requires
        n <= b@.len(),
    ensures
        r@ == b@.skip(n as int),
{
    slice_subrange(b, n, b.len())
}

fn pass_tags(b: &[u8]) -> (r: Option<&[u8]>)
    ensures
        match r {
            Some(p) => skip_tags(b@) == Some(p@) && p@.len() <= b@.len(),
            None => skip_tags(b@) is None,
        },
{
    let mut at = b;
    loop
        invariant
            skip_tags(at@) == skip_tags(b@),
            at@.len() <= b@.len(),
        decreases at@.len(),
    {
        match read_head(at) {
            Some((h, rest)) => {
                if h.major != cbor_head::TAG {
                    return Some(at);
                }
                if h.arg.is_none() {
                    return None;
                }
                at = rest;
            },
            None => {
                return None;
            },
        }
    }
}

fn read_string(b: &[u8]) -> (r: Option<(&[u8], bool, &[u8])>)
    ensures
        match r {
            Some((w, is_text, rest)) => string(b@) == Some((w@, is_text, rest@)) && rest@.len()
                < b@.len(),
            None => string(b@) is None,
        },
{
    let (h, rest) = match read_head(b) {
        Some(x) => x,
        None => return None,
    };
    if h.major != cbor_head::TEXT && h.major != cbor_head::BYTES {
        return None;
    }
    let n: usize = match h.arg {
        Some(n) => if n <= rest.len() as u64 {
            n as usize
        } else {
            return None;
        },
        None => return None,
    };
    let w = slice_subrange(rest, 0, n);
    let is_text = h.major == cbor_head::TEXT;
    if is_text && from_utf8(w).is_none() {
        return None;
    }
    Some((w, is_text, tail(rest, n)))
}

fn read_word(b: &[u8]) -> (r: Option<(&[u8], &[u8])>)
    ensures
        match r {
            Some((w, rest)) => word(b@) == Some((w@, rest@)) && rest@.len() < b@.len(),
            None => word(b@) is None,
        },
{
    match pass_tags(b) {
        Some(p) => match read_string(p) {
            Some((w, _, rest)) => if w.len() <= MAX_WORD_SIZE {
                Some((w, rest))
            } else {
                None
            },
            None => None,
        },
        None => None,
    }
}

fn read_item(b: &[u8], limit: usize) -> (r: Option<(ciborium::Value, &[u8])>)
    ensures
        match r {
            Some((v, rest)) => item(b@, limit) == Some((cbor::cbor_tree(v), rest@)) && rest@.len()
                < b@.len(),
            None => item(b@, limit) is None,
        },
{
    if let Some((w, true, rest)) = read_string(b) {
        if let Some(s) = from_utf8(w) {
            return Some((cbor::text_value(s), rest));
        }
    }
    cbor::parse(b, limit)
}

fn holds_bare(v: &ciborium::Value) -> (b: bool)
    ensures
        b == is_bare(cbor::cbor_tree(*v)),
    decreases cbor::cbor_tree(*v),
{
    let ghost t = cbor::cbor_tree(*v);
    if v.as_tag().is_some() {
        return false;
    }
    if let Some(n) = cbor::as_number(v) {
        return n >= i64::MIN as i128;
    }
    if let Some(items) = v.as_array() {
        let mut i: usize = 0;
        while i < items.len()
            invariant
                i <= items@.len(),
                t == cbor::CborTree::Array(cbor::cbor_trees(items@)),
                t == cbor::cbor_tree(*v),
                forall|j: int| 0 <= j < i ==> is_bare(#[trigger] cbor::cbor_trees(items@)[j]),
            decreases items@.len() - i,
        {
            assert(t->Array_0[i as int] == cbor::cbor_tree(items@[i as int]));
            assert(decreases_to!(t->Array_0 => t->Array_0[i as int]));
            if !holds_bare(&items[i]) {
                return false;
            }
            i += 1;
        }
        return true;
    }
    if let Some(es) = v.as_map() {
        let mut i: usize = 0;
        while i < es.len()
            invariant
                i <= es@.len(),
                t == cbor::CborTree::Entries(cbor::cbor_pairs(es@)),
                t == cbor::cbor_tree(*v),
                forall|j: int|
                    0 <= j < i ==> is_bare((#[trigger] cbor::cbor_pairs(es@)[j]).0) && is_bare(
                        cbor::cbor_pairs(es@)[j].1,
                    ),
            decreases es@.len() - i,
        {
            assert(t->Entries_0[i as int].0 == cbor::cbor_tree(es@[i as int].0));
            assert(t->Entries_0[i as int].1 == cbor::cbor_tree(es@[i as int].1));
            assert(decreases_to!(t->Entries_0 => t->Entries_0[i as int]));
            if !holds_bare(&es[i].0) || !holds_bare(&es[i].1) {
                return false;
            }
            i += 1;
        }
        return true;
    }
    true
}

fn holds_no_tag(b: &[u8], stop: usize) -> (r: bool)
    ensures
        r == is_tag_free(b@, stop as nat),
{
    let mut at = b;
    while at.len() > stop
        invariant
            is_tag_free(at@, stop as nat) == is_tag_free(b@, stop as nat),
        decreases at@.len(),
    {
        let (h, rest) = match read_head(at) {
            Some(x) => x,
            None => return false,
        };
        if h.major == cbor_head::TAG {
            return false;
        }
        let skipped: usize = if h.major == cbor_head::TEXT || h.major == cbor_head::BYTES {
            match h.arg {
                Some(n) => if n <= rest.len() as u64 {
                    n as usize
                } else {
                    return false;
                },
                None => 0,
            }
        } else {
            0
        };
        at = tail(rest, skipped);
    }
    true
}

fn read_content(b: &[u8]) -> (r: Option<(ciborium::Value, &[u8])>)
    ensures
        match r {
            Some((v, rest)) => content(b@) == Some((cbor::cbor_tree(v), rest@)) && rest@.len()
                < b@.len(),
            None => content(b@) is None,
        },
{
    match read_item(b, OP_DEPTH) {
        Some((v, rest)) => if holds_bare(&v) && holds_no_tag(b, rest.len()) {
            Some((v, rest))
        } else {
            None
        },
        None => None,
    }
}

fn find_end(b: &[u8], left: Option<u64>) -> (r: Option<&[u8]>)
    ensures
        match r {
            Some(rest) => end_of(b@, left) == Some(rest@) && rest@.len() <= b@.len(),
            None => end_of(b@, left) is None,
        },
{
    match left {
        Some(n) => if n == 0 {
            Some(b)
        } else {
            None
        },
        None => if b.len() > 0 && b[0] == 0xff {
            Some(tail(b, 1))
        } else {
            None
        },
    }
}

fn take_one(left: Option<u64>) -> (r: Option<u64>)
    requires
        left != Some(0u64),
    ensures
        r == one_less(left),
{
    match left {
        Some(n) => Some(n - 1),
        None => None,
    }
}

fn read_named_field(b: &[u8], put: bool) -> (f: Field)
    ensures
        f == named_field(b@, put),
{
    if same_bytes(b, "name".as_bytes()) {
        Field::Name
    } else if put && same_bytes(b, "hash".as_bytes()) {
        Field::Target
    } else {
        Field::Other
    }
}

fn read_op_field(v: &ciborium::Value, put: bool) -> (r: Option<Field>)
    ensures
        r == op_field(cbor::cbor_tree(*v), put),
{
    if let Some(s) = v.as_text() {
        return Some(read_named_field(s.as_bytes(), put));
    }
    if let Some(b) = v.as_bytes() {
        return Some(read_named_field(b.as_slice(), put));
    }
    match cbor::as_number(v) {
        Some(n) => if n < 0 {
            None
        } else if n == 0 {
            Some(Field::Name)
        } else if n == 1 && put {
            Some(Field::Target)
        } else {
            Some(Field::Other)
        },
        None => None,
    }
}

fn names_kind(v: &ciborium::Value) -> (r: bool)
    ensures
        r == is_kind_key(cbor::cbor_tree(*v)),
{
    if let Some(s) = v.as_text() {
        return same_bytes(s.as_bytes(), "kind".as_bytes());
    }
    if let Some(b) = v.as_bytes() {
        return same_bytes(b.as_slice(), "kind".as_bytes());
    }
    false
}

proof fn lemma_sole(
    entries: Seq<(cbor::CborTree, cbor::CborTree)>,
    fields: Seq<Option<Field>>,
    f: Field,
    i: int,
)
    requires
        is_sole(fields, f, i),
        !fields.contains(None),
    ensures
        value_of(entries, fields, f) == Some(entries[i].1),
{
    let j = choose|j: int| is_sole(fields, f, j);
    assert(i == j) by {
        if i != j {
            assert(fields[j] != Some(f));
        }
    }
}

/// The value of the only entry with the field `f`, where `fields` are those of
/// the entries.
fn find_value<'a>(
    entries: &'a Vec<(ciborium::Value, ciborium::Value)>,
    fields: &Vec<Option<Field>>,
    f: Field,
) -> (r: Option<&'a ciborium::Value>)
    requires
        fields@.len() == entries@.len(),
    ensures
        match r {
            Some(v) => value_of(cbor::cbor_pairs(entries@), fields@, f) == Some(
                cbor::cbor_tree(*v),
            ),
            None => value_of(cbor::cbor_pairs(entries@), fields@, f) is None,
        },
{
    let ghost es = cbor::cbor_pairs(entries@);
    let mut found: Option<usize> = None;
    let mut i: usize = 0;
    while i < fields.len()
        invariant
            i <= fields@.len(),
            match found {
                Some(p) => p < i && fields@[p as int] == Some(f) && forall|j: int|
                    0 <= j < i && j != p ==> #[trigger] fields@[j] != Some(f),
                None => forall|j: int| 0 <= j < i ==> #[trigger] fields@[j] != Some(f),
            },
            forall|j: int| 0 <= j < i ==> #[trigger] fields@[j] is Some,
        decreases fields@.len() - i,
    {
        match fields[i] {
            Some(g) => {
                if g == f {
                    match found {
                        Some(p) => {
                            proof {
                                assert forall|k: int| !is_sole(fields@, f, k) by {
                                    if is_sole(fields@, f, k) {
                                        if k != p {
                                            assert(fields@[p as int] != Some(f));
                                        } else {
                                            assert(fields@[i as int] != Some(f));
                                        }
                                    }
                                }
                            }
                            return None;
                        },
                        None => {
                            found = Some(i);
                        },
                    }
                }
            },
            None => {
                assert(fields@[i as int] == None::<Field>);
                assert(fields@.contains(None));
                return None;
            },
        }
        i += 1;
    }
    match found {
        Some(p) => {
            proof {
                assert(is_sole(fields@, f, p as int));
                assert(!fields@.contains(None));
                lemma_sole(es, fields@, f, p as int);
                assert(es[p as int].1 == cbor::cbor_tree(entries@[p as int].1));
            }
            Some(&entries[p].1)
        },
        None => None,
    }
}

fn read_op_fields(entries: &Vec<(ciborium::Value, ciborium::Value)>, put: bool) -> (v: Vec<
    Option<Field>,
>)
    ensures
        v@ == op_fields(cbor::cbor_pairs(entries@), put),
{
    let mut v: Vec<Option<Field>> = Vec::new();
    let mut i: usize = 0;
    while i < entries.len()
        invariant
            i <= entries@.len(),
            v@.len() == i,
            forall|j: int|
                0 <= j < i ==> #[trigger] v@[j] == op_field(cbor::cbor_pairs(entries@)[j].0, put),
        decreases entries@.len() - i,
    {
        v.push(read_op_field(&entries[i].0, put));
        i += 1;
    }
    assert(v@ =~= op_fields(cbor::cbor_pairs(entries@), put));
    v
}

fn read_hash(s: &str) -> (r: Option<crate::hash::Hash>)
    ensures
        r == hash_of_text(s@),
{
    match crate::hash::Hash::from_hex(s) {
        Ok(h) => {
            proof {
                let g = choose|g: crate::hash::Hash| #[trigger]
                    hash::hex_decodes(text::utf8(s@), g.view());
                hash::lemma_decodes_unique(text::utf8(s@), g, h);
            }
            Some(h)
        },
        Err(_) => None,
    }
}

fn read_text(v: &ciborium::Value) -> (r: Option<&str>)
    ensures
        match r {
            Some(s) => text_of_tree(cbor::cbor_tree(*v)) == Some(s@),
            None => text_of_tree(cbor::cbor_tree(*v)) is None,
        },
{
    match v.as_text() {
        Some(s) => Some(s),
        None => match v.as_bytes() {
            Some(b) => from_utf8(b.as_slice()),
            None => None,
        },
    }
}

fn read_kind(w: &[u8]) -> (r: Option<bool>)
    ensures
        r == is_put(w@),
{
    if same_bytes(w, "put".as_bytes()) {
        Some(true)
    } else if same_bytes(w, "remove".as_bytes()) {
        Some(false)
    } else {
        None
    }
}

/// The item that a value holds, where there is one.
spec fn tree_of(v: Option<&ciborium::Value>) -> Option<cbor::CborTree> {
    match v {
        Some(x) => Some(cbor::cbor_tree(*x)),
        None => None,
    }
}

fn read_parts(put: bool, name: Option<&ciborium::Value>, target: Option<&ciborium::Value>) -> (r: Option<
    Op,
>)
    ensures
        match r {
            Some(op) => mutation_of_parts(put, tree_of(name), tree_of(target)) == Some(op.view()),
            None => mutation_of_parts(put, tree_of(name), tree_of(target)) is None,
        },
{
    let name = match name {
        Some(n) => match read_text(n) {
            Some(s) => s,
            None => return None,
        },
        None => return None,
    };
    if !put {
        return Some(Op::Remove { name: String::from_str(name) });
    }
    match target {
        Some(h) => match read_text(h) {
            Some(s) => match read_hash(s) {
                Some(hash) => Some(Op::Put { name: String::from_str(name), hash }),
                None => None,
            },
            None => None,
        },
        None => None,
    }
}

fn read_op_map(b: &[u8], count: Option<u64>) -> (r: Option<(Op, &[u8])>)
    ensures
        match r {
            Some((o, rest)) => op_map(b@, count, None, Seq::empty()) == Some((o.view(), rest@))
                && rest@.len() <= b@.len(),
            None => op_map(b@, count, None, Seq::empty()) is None,
        },
{
    let mut at = b;
    let mut left: Option<u64> = count;
    let mut kind: Option<bool> = None;
    let mut entries: Vec<(ciborium::Value, ciborium::Value)> = Vec::new();
    assert(cbor::cbor_pairs(entries@) =~= Seq::empty());
    loop
        invariant
            op_map(at@, left, kind, cbor::cbor_pairs(entries@)) == op_map(
                b@,
                count,
                None,
                Seq::empty(),
            ),
            at@.len() <= b@.len(),
        decreases at@.len(),
    {
        if let Some(rest) = find_end(at, left) {
            let put = match kind {
                Some(p) => p,
                None => return None,
            };
            let fields = read_op_fields(&entries, put);
            let found = read_parts(
                put,
                find_value(&entries, &fields, Field::Name),
                find_value(&entries, &fields, Field::Target),
            );
            return match found {
                Some(o) => Some((o, rest)),
                None => None,
            };
        }
        let (key, behind) = match read_content(at) {
            Some(x) => x,
            None => return None,
        };
        if names_kind(&key) {
            let (w, rest) = match read_word(behind) {
                Some(x) => x,
                None => return None,
            };
            if kind.is_some() {
                return None;
            }
            kind = read_kind(w);
            if kind.is_none() {
                return None;
            }
            left = take_one(left);
            at = rest;
        } else {
            let (value, rest) = match read_content(behind) {
                Some(x) => x,
                None => return None,
            };
            let ghost before = cbor::cbor_pairs(entries@);
            let ghost pair = (cbor::cbor_tree(key), cbor::cbor_tree(value));
            entries.push((key, value));
            assert(cbor::cbor_pairs(entries@) =~= before.push(pair));
            left = take_one(left);
            at = rest;
        }
    }
}

fn read_op_list(b: &[u8], count: Option<u64>, put: bool) -> (r: Option<(Op, &[u8])>)
    ensures
        match r {
            Some((o, rest)) => op_list(b@, count, put, Seq::empty()) == Some((o.view(), rest@))
                && rest@.len() <= b@.len(),
            None => op_list(b@, count, put, Seq::empty()) is None,
        },
{
    let mut at = b;
    let mut left: Option<u64> = count;
    let mut items: Vec<ciborium::Value> = Vec::new();
    assert(cbor::cbor_trees(items@) =~= Seq::empty());
    loop
        invariant
            op_list(at@, left, put, cbor::cbor_trees(items@)) == op_list(
                b@,
                count,
                put,
                Seq::empty(),
            ),
            at@.len() <= b@.len(),
        decreases at@.len(),
    {
        if let Some(rest) = find_end(at, left) {
            let found = if put && items.len() == 2 {
                read_parts(true, Some(&items[0]), Some(&items[1]))
            } else if !put && items.len() == 1 {
                read_parts(false, Some(&items[0]), None)
            } else {
                None
            };
            return match found {
                Some(o) => Some((o, rest)),
                None => None,
            };
        }
        let (v, rest) = match read_content(at) {
            Some(x) => x,
            None => return None,
        };
        let ghost before = cbor::cbor_trees(items@);
        let ghost t = cbor::cbor_tree(v);
        items.push(v);
        assert(cbor::cbor_trees(items@) =~= before.push(t));
        left = take_one(left);
        at = rest;
    }
}

fn read_op(b: &[u8]) -> (r: Option<(Op, &[u8])>)
    ensures
        match r {
            Some((o, rest)) => op(b@) == Some((o.view(), rest@)) && rest@.len() < b@.len(),
            None => op(b@) is None,
        },
{
    let (h, inside) = match read_head(b) {
        Some(x) => x,
        None => return None,
    };
    if h.major == cbor_head::MAP {
        return read_op_map(inside, h.arg);
    }
    if h.major != cbor_head::ARRAY || find_end(inside, h.arg).is_some() {
        return None;
    }
    match read_word(inside) {
        Some((w, rest)) => match read_kind(w) {
            Some(put) => read_op_list(rest, take_one(h.arg), put),
            None => None,
        },
        None => None,
    }
}

fn read_ops_array(b: &[u8], count: Option<u64>) -> (r: Option<(Vec<Op>, &[u8])>)
    ensures
        match r {
            Some((v, rest)) => ops_array(b@, count, Seq::empty()) == Some((mutations_of(v@), rest@))
                && rest@.len() <= b@.len(),
            None => ops_array(b@, count, Seq::empty()) is None,
        },
{
    let mut at = b;
    let mut left: Option<u64> = count;
    let mut ops: Vec<Op> = Vec::new();
    assert(mutations_of(ops@) =~= Seq::empty());
    loop
        invariant
            ops_array(at@, left, mutations_of(ops@)) == ops_array(b@, count, Seq::empty()),
            at@.len() <= b@.len(),
        decreases at@.len(),
    {
        if let Some(rest) = find_end(at, left) {
            return Some((ops, rest));
        }
        let (o, rest) = match read_op(at) {
            Some(x) => x,
            None => return None,
        };
        let ghost before = mutations_of(ops@);
        let ghost m = o.view();
        ops.push(o);
        assert(mutations_of(ops@) =~= before.push(m));
        left = take_one(left);
        at = rest;
    }
}

fn read_ops_value(b: &[u8]) -> (r: Option<(Vec<Op>, &[u8])>)
    ensures
        match r {
            Some((v, rest)) => ops_value(b@) == Some((mutations_of(v@), rest@)) && rest@.len()
                < b@.len(),
            None => ops_value(b@) is None,
        },
{
    let p = match pass_tags(b) {
        Some(p) => p,
        None => return None,
    };
    let (h, inside) = match read_head(p) {
        Some(x) => x,
        None => return None,
    };
    if h.major == cbor_head::ARRAY {
        return read_ops_array(inside, h.arg);
    }
    match read_item(p, DELTA_DEPTH) {
        Some((v, rest)) => match v.as_bytes() {
            Some(none) => if none.len() == 0 {
                let ops: Vec<Op> = Vec::new();
                assert(mutations_of(ops@) =~= Seq::empty());
                Some((ops, rest))
            } else {
                None
            },
            None => None,
        },
        None => None,
    }
}

fn read_base_value(b: &[u8]) -> (r: Option<(crate::hash::Hash, &[u8])>)
    ensures
        match r {
            Some((h, rest)) => base_value(b@) == Some((h, rest@)) && rest@.len() < b@.len(),
            None => base_value(b@) is None,
        },
{
    let p = match pass_tags(b) {
        Some(p) => p,
        None => return None,
    };
    match read_item(p, DELTA_DEPTH) {
        Some((v, rest)) => match v.as_text() {
            Some(s) => match read_hash(s) {
                Some(h) => Some((h, rest)),
                None => None,
            },
            None => None,
        },
        None => None,
    }
}

/// What optional mutations hold.
spec fn optional_mutations(ops: Option<Vec<Op>>) -> Option<Seq<Mutation>> {
    match ops {
        Some(v) => Some(mutations_of(v@)),
        None => None,
    }
}

/// Reads the delta that a payload starts with.
pub fn read(payload: &[u8]) -> (r: Option<Delta>)
    ensures
        match r {
            Some(d) => mutations_of_bytes(payload@) == Some(d.view()),
            None => mutations_of_bytes(payload@) is None,
        },
{
    let p = match pass_tags(payload) {
        Some(p) => p,
        None => return None,
    };
    let (h, inside) = match read_head(p) {
        Some(x) => x,
        None => return None,
    };
    if h.major != cbor_head::MAP {
        return None;
    }
    let mut at = inside;
    let mut left: Option<u64> = h.arg;
    let mut base: Option<crate::hash::Hash> = None;
    let mut ops: Option<Vec<Op>> = None;
    loop
        invariant
            delta_map(at@, left, base, optional_mutations(ops)) == delta_map(
                inside@,
                h.arg,
                None,
                None,
            ),
            mutations_of_bytes(payload@) == delta_map(inside@, h.arg, None, None),
        decreases at@.len(),
    {
        if find_end(at, left).is_some() {
            return match (base, ops) {
                (Some(base_hash), Some(ops)) => Some(Delta { base_hash, ops }),
                _ => None,
            };
        }
        let (key, behind) = match read_word(at) {
            Some(x) => x,
            None => return None,
        };
        if same_bytes(key, "base_hash".as_bytes()) {
            match read_base_value(behind) {
                Some((found, rest)) => {
                    if base.is_some() {
                        return None;
                    }
                    base = Some(found);
                    at = rest;
                },
                None => return None,
            }
        } else if same_bytes(key, "ops".as_bytes()) {
            match read_ops_value(behind) {
                Some((found, rest)) => {
                    if ops.is_some() {
                        return None;
                    }
                    ops = Some(found);
                    at = rest;
                },
                None => return None,
            }
        } else {
            match read_item(behind, DELTA_DEPTH) {
                Some((_, rest)) => {
                    at = rest;
                },
                None => return None,
            }
        }
        left = take_one(left);
    }
}

/// The bytes of a text.
#[verifier::opaque]
spec fn text_bytes(s: Seq<char>) -> Seq<u8> {
    head_bytes(cbor_head::TEXT, text::utf8(s).len()) + text::utf8(s)
}

proof fn lemma_text_read(s: Seq<char>, rest: Seq<u8>, limit: usize)
    requires
        text::utf8(s).len() <= u64::MAX,
    ensures
        string(text_bytes(s) + rest) == Some((text::utf8(s), true, rest)),
        skip_tags(text_bytes(s) + rest) == Some(text_bytes(s) + rest),
        item(text_bytes(s) + rest, limit) == Some((cbor::CborTree::Text(s), rest)),
        content(text_bytes(s) + rest) == Some((cbor::CborTree::Text(s), rest)),
        text::utf8(s).len() <= MAX_WORD_SIZE ==> word(text_bytes(s) + rest) == Some(
            (text::utf8(s), rest),
        ),
        (text_bytes(s) + rest).len() > rest.len(),
{
    reveal(text_bytes);
    let u = text::utf8(s);
    let b = text_bytes(s) + rest;
    assert(b =~= head_bytes(cbor_head::TEXT, u.len()) + (u + rest));
    law_head_round_trip(cbor_head::TEXT, u.len(), u + rest);
    assert((u + rest).take(u.len() as int) =~= u);
    assert((u + rest).skip(u.len() as int) =~= rest);
    vstd::utf8::encode_utf8_valid_utf8(s);
    vstd::utf8::encode_utf8_decode_utf8(s);
    reveal_with_fuel(is_tag_free, 2);
}

proof fn lemma_utf8_len(s: Seq<char>)
    ensures
        text::utf8(s).len() <= 4 * s.len(),
    decreases s.len(),
{
    reveal_with_fuel(vstd::utf8::encode_utf8, 2);
    if s.len() > 0 {
        lemma_utf8_len(s.drop_first());
    }
}

proof fn lemma_words()
    ensures
        text::utf8("kind"@) != text::utf8("name"@),
        text::utf8("kind"@) != text::utf8("hash"@),
        text::utf8("name"@) != text::utf8("hash"@),
        text::utf8("base_hash"@) != text::utf8("ops"@),
        text::utf8("put"@) != text::utf8("remove"@),
        text::utf8("kind"@).len() <= 64,
        text::utf8("name"@).len() <= 64,
        text::utf8("hash"@).len() <= 64,
        text::utf8("base_hash"@).len() <= 64,
        text::utf8("ops"@).len() <= 64,
        text::utf8("put"@).len() <= 64,
        text::utf8("remove"@).len() <= 64,
{
    reveal_strlit("kind");
    reveal_strlit("name");
    reveal_strlit("hash");
    reveal_strlit("base_hash");
    reveal_strlit("ops");
    reveal_strlit("put");
    reveal_strlit("remove");
    assert("kind"@[0] == 'k');
    assert("name"@[0] == 'n');
    assert("hash"@[0] == 'h');
    assert("base_hash"@.len() == 9);
    assert("ops"@.len() == 3);
    assert("put"@.len() == 3);
    assert("remove"@.len() == 6);
    text::lemma_utf8_injective("kind"@, "name"@);
    text::lemma_utf8_injective("kind"@, "hash"@);
    text::lemma_utf8_injective("name"@, "hash"@);
    text::lemma_utf8_injective("base_hash"@, "ops"@);
    text::lemma_utf8_injective("put"@, "remove"@);
    lemma_utf8_len("kind"@);
    lemma_utf8_len("name"@);
    lemma_utf8_len("hash"@);
    lemma_utf8_len("base_hash"@);
    lemma_utf8_len("ops"@);
    lemma_utf8_len("put"@);
    lemma_utf8_len("remove"@);
}

proof fn lemma_hash_text_round_trip(h: crate::hash::Hash)
    ensures
        hash_of_text(hash::hex_text(h.view())) == Some(h),
        text::utf8(hash::hex_text(h.view())).len() <= 64,
{
    let a = text::utf8(hash::hex_text(h.view()));
    hash::lemma_hex_text_decodes(h);
    let g = choose|g: crate::hash::Hash| #[trigger] hash::hex_decodes(a, g.view());
    hash::law_hex_round_trip(h, g);
}

proof fn lemma_kind_entry(kind: Seq<char>, rest: Seq<u8>, n: u64)
    requires
        n > 0,
        kind == "put"@ || kind == "remove"@,
    ensures
        op_map(text_bytes("kind"@) + (text_bytes(kind) + rest), Some(n), None, Seq::empty())
            == op_map(rest, Some((n - 1) as u64), Some(kind == "put"@), Seq::empty()),
{
    lemma_words();
    lemma_text_read("kind"@, text_bytes(kind) + rest, OP_DEPTH);
    lemma_text_read(kind, rest, OP_DEPTH);
}

proof fn lemma_other_entry(
    key: Seq<char>,
    value: Seq<char>,
    rest: Seq<u8>,
    n: u64,
    put: bool,
    entries: Seq<(cbor::CborTree, cbor::CborTree)>,
)
    requires
        n > 0,
        text::utf8(key).len() <= u64::MAX,
        text::utf8(value).len() <= u64::MAX,
        text::utf8(key) != text::utf8("kind"@),
    ensures
        op_map(text_bytes(key) + (text_bytes(value) + rest), Some(n), Some(put), entries) == op_map(
            rest,
            Some((n - 1) as u64),
            Some(put),
            entries.push((cbor::CborTree::Text(key), cbor::CborTree::Text(value))),
        ),
{
    lemma_text_read(key, text_bytes(value) + rest, OP_DEPTH);
    lemma_text_read(value, rest, OP_DEPTH);
}

/// The lengths in the mutation can be written.
pub open spec fn op_fits(m: Mutation) -> bool {
    text::utf8(m.name()).len() <= u64::MAX
}

/// The bytes of an entry of texts.
spec fn entry_bytes(key: Seq<char>, value: Seq<char>) -> Seq<u8> {
    text_bytes(key) + text_bytes(value)
}

proof fn lemma_entries_bytes(
    es: Seq<(cbor::CborTree, cbor::CborTree)>,
    key: Seq<char>,
    value: Seq<char>,
    depth: nat,
)
    requires
        es.len() > 0,
        es[0] == (cbor::CborTree::Text(key), cbor::CborTree::Text(value)),
    ensures
        cbor::plain_entries(es, depth) == entry_bytes(key, value) + cbor::plain_entries(
            es.drop_first(),
            depth,
        ),
{
    reveal(text_bytes);
    assert(cbor::plain_bytes(es[0].0, depth) == text_bytes(key));
    assert(cbor::plain_bytes(es[0].1, depth) == text_bytes(value));
}

proof fn lemma_put_bytes(name: Seq<char>, h: crate::hash::Hash)
    ensures
        cbor::plain_bytes(Mutation::Put(name, h).tree(), 6) == head_bytes(cbor_head::MAP, 3) + (
        entry_bytes("kind"@, "put"@) + (entry_bytes("name"@, name) + entry_bytes(
            "hash"@,
            hash::hex_text(h.view()),
        ))),
{
    let es = Mutation::Put(name, h).tree()->Entries_0;
    let hex = hash::hex_text(h.view());
    let two = es.drop_first();
    let one = two.drop_first();
    lemma_entries_bytes(es, "kind"@, "put"@, 5);
    lemma_entries_bytes(two, "name"@, name, 5);
    lemma_entries_bytes(one, "hash"@, hex, 5);
    assert(cbor::plain_entries(one.drop_first(), 5) =~= Seq::empty());
    assert(cbor::plain_entries(one, 5) =~= entry_bytes("hash"@, hex));
}

proof fn lemma_remove_bytes(name: Seq<char>)
    ensures
        cbor::plain_bytes(Mutation::Remove(name).tree(), 6) == head_bytes(cbor_head::MAP, 2) + (
        entry_bytes("kind"@, "remove"@) + entry_bytes("name"@, name)),
{
    let es = Mutation::Remove(name).tree()->Entries_0;
    let one = es.drop_first();
    lemma_entries_bytes(es, "kind"@, "remove"@, 5);
    lemma_entries_bytes(one, "name"@, name, 5);
    assert(cbor::plain_entries(one.drop_first(), 5) =~= Seq::empty());
    assert(cbor::plain_entries(one, 5) =~= entry_bytes("name"@, name));
}

proof fn lemma_put_entries(name: Seq<char>, h: crate::hash::Hash)
    ensures
        mutation_of_entries(
            true,
            seq![
                (cbor::CborTree::Text("name"@), cbor::CborTree::Text(name)),
                (cbor::CborTree::Text("hash"@), cbor::CborTree::Text(hash::hex_text(h.view()))),
            ],
        ) == Some(Mutation::Put(name, h)),
{
    lemma_words();
    lemma_hash_text_round_trip(h);
    let full = seq![
        (cbor::CborTree::Text("name"@), cbor::CborTree::Text(name)),
        (cbor::CborTree::Text("hash"@), cbor::CborTree::Text(hash::hex_text(h.view()))),
    ];
    let fields = op_fields(full, true);
    assert(is_sole(fields, Field::Name, 0));
    lemma_sole(full, fields, Field::Name, 0);
    assert(is_sole(fields, Field::Target, 1));
    lemma_sole(full, fields, Field::Target, 1);
}

proof fn lemma_remove_entries(name: Seq<char>)
    ensures
        mutation_of_entries(
            false,
            seq![(cbor::CborTree::Text("name"@), cbor::CborTree::Text(name))],
        ) == Some(Mutation::Remove(name)),
{
    let full = seq![(cbor::CborTree::Text("name"@), cbor::CborTree::Text(name))];
    let fields = op_fields(full, false);
    assert(is_sole(fields, Field::Name, 0));
    lemma_sole(full, fields, Field::Name, 0);
}

proof fn lemma_put_read(name: Seq<char>, h: crate::hash::Hash, rest: Seq<u8>)
    requires
        text::utf8(name).len() <= u64::MAX,
    ensures
        op_map(
            text_bytes("kind"@) + (text_bytes("put"@) + (text_bytes("name"@) + (text_bytes(name) + (
            text_bytes("hash"@) + (text_bytes(hash::hex_text(h.view())) + rest))))),
            Some(3),
            None,
            Seq::empty(),
        ) == Some((Mutation::Put(name, h), rest)),
{
    let none = Seq::<(cbor::CborTree, cbor::CborTree)>::empty();
    let entry = (cbor::CborTree::Text("name"@), cbor::CborTree::Text(name));
    let hex = hash::hex_text(h.view());
    let third = (cbor::CborTree::Text("hash"@), cbor::CborTree::Text(hex));
    lemma_words();
    lemma_hash_text_round_trip(h);
    let after_name = text_bytes("hash"@) + (text_bytes(hex) + rest);
    let after_kind = text_bytes("name"@) + (text_bytes(name) + after_name);
    lemma_kind_entry("put"@, after_kind, 3);
    lemma_other_entry("name"@, name, after_name, 2, true, none);
    lemma_other_entry("hash"@, hex, rest, 1, true, none.push(entry));
    assert(none.push(entry).push(third) =~= seq![entry, third]);
    lemma_put_entries(name, h);
}

proof fn lemma_remove_read(name: Seq<char>, rest: Seq<u8>)
    requires
        text::utf8(name).len() <= u64::MAX,
    ensures
        op_map(
            text_bytes("kind"@) + (text_bytes("remove"@) + (text_bytes("name"@) + (text_bytes(name)
                + rest))),
            Some(2),
            None,
            Seq::empty(),
        ) == Some((Mutation::Remove(name), rest)),
{
    let none = Seq::<(cbor::CborTree, cbor::CborTree)>::empty();
    let entry = (cbor::CborTree::Text("name"@), cbor::CborTree::Text(name));
    lemma_words();
    let after_kind = text_bytes("name"@) + (text_bytes(name) + rest);
    lemma_kind_entry("remove"@, after_kind, 2);
    lemma_other_entry("name"@, name, rest, 1, false, none);
    assert(none.push(entry) =~= seq![entry]);
    lemma_remove_entries(name);
}

proof fn lemma_regroup_two(h: Seq<u8>, a: Seq<u8>, b: Seq<u8>, c: Seq<u8>, d: Seq<u8>, r: Seq<u8>)
    ensures
        (h + ((a + b) + (c + d))) + r == h + (a + (b + (c + (d + r)))),
{
    assert((h + ((a + b) + (c + d))) + r =~= h + (a + (b + (c + (d + r)))));
}

proof fn lemma_regroup_three(
    h: Seq<u8>,
    a: Seq<u8>,
    b: Seq<u8>,
    c: Seq<u8>,
    d: Seq<u8>,
    e: Seq<u8>,
    f: Seq<u8>,
    r: Seq<u8>,
)
    ensures
        (h + ((a + b) + ((c + d) + (e + f)))) + r == h + (a + (b + (c + (d + (e + (f + r)))))),
{
    assert((h + ((a + b) + ((c + d) + (e + f)))) + r =~= h + (a + (b + (c + (d + (e + (f
        + r)))))));
}

proof fn lemma_op_read(m: Mutation, rest: Seq<u8>)
    requires
        op_fits(m),
    ensures
        op(cbor::plain_bytes(m.tree(), 6) + rest) == Some((m, rest)),
        (cbor::plain_bytes(m.tree(), 6) + rest).len() > rest.len(),
{
    let b = cbor::plain_bytes(m.tree(), 6) + rest;
    match m {
        Mutation::Put(name, h) => {
            let hex = hash::hex_text(h.view());
            lemma_put_bytes(name, h);
            let inside = text_bytes("kind"@) + (text_bytes("put"@) + (text_bytes("name"@) + (
            text_bytes(name) + (text_bytes("hash"@) + (text_bytes(hex) + rest)))));
            lemma_regroup_three(
                head_bytes(cbor_head::MAP, 3),
                text_bytes("kind"@),
                text_bytes("put"@),
                text_bytes("name"@),
                text_bytes(name),
                text_bytes("hash"@),
                text_bytes(hex),
                rest,
            );
            assert(b == head_bytes(cbor_head::MAP, 3) + inside);
            law_head_round_trip(cbor_head::MAP, 3, inside);
            lemma_put_read(name, h, rest);
        },
        Mutation::Remove(name) => {
            lemma_remove_bytes(name);
            let inside = text_bytes("kind"@) + (text_bytes("remove"@) + (text_bytes("name"@) + (
            text_bytes(name) + rest)));
            lemma_regroup_two(
                head_bytes(cbor_head::MAP, 2),
                text_bytes("kind"@),
                text_bytes("remove"@),
                text_bytes("name"@),
                text_bytes(name),
                rest,
            );
            assert(b == head_bytes(cbor_head::MAP, 2) + inside);
            law_head_round_trip(cbor_head::MAP, 2, inside);
            lemma_remove_read(name, rest);
        },
    }
}

/// The CBOR forms of mutations.
spec fn op_trees(ops: Seq<Mutation>) -> Seq<cbor::CborTree> {
    ops.map_values(|m: Mutation| m.tree())
}

proof fn lemma_ops_read(ops: Seq<Mutation>, rest: Seq<u8>, before: Seq<Mutation>)
    requires
        ops.len() <= u64::MAX,
        forall|i: int| 0 <= i < ops.len() ==> op_fits(#[trigger] ops[i]),
    ensures
        ops_array(
            cbor::plain_items(op_trees(ops), 6) + rest,
            Some(ops.len() as u64),
            before,
        ) == Some((before + ops, rest)),
    decreases ops.len(),
{
    let trees = op_trees(ops);
    let b = cbor::plain_items(trees, 6) + rest;
    if ops.len() == 0 {
        assert(b =~= rest);
        assert(before + ops =~= before);
    } else {
        let later = ops.drop_first();
        assert(trees.drop_first() =~= op_trees(later));
        let behind = cbor::plain_items(op_trees(later), 6) + rest;
        assert(b =~= cbor::plain_bytes(ops[0].tree(), 6) + behind);
        lemma_op_read(ops[0], behind);
        assert forall|i: int| 0 <= i < later.len() implies op_fits(#[trigger] later[i]) by {
            assert(later[i] == ops[i + 1]);
        }
        lemma_ops_read(later, rest, before.push(ops[0]));
        assert(before.push(ops[0]) + later =~= before + ops);
    }
}

/// The bytes of a list of mutations.
spec fn list_bytes(ops: Seq<Mutation>) -> Seq<u8> {
    head_bytes(cbor_head::ARRAY, ops.len()) + cbor::plain_items(op_trees(ops), 6)
}

proof fn lemma_delta_bytes(m: Mutations)
    ensures
        cbor::plain_bytes(m.tree(), 8) == head_bytes(cbor_head::MAP, 2) + (entry_bytes(
            "base_hash"@,
            hash::hex_text(m.base.view()),
        ) + (text_bytes("ops"@) + list_bytes(m.ops))),
{
    let hex = hash::hex_text(m.base.view());
    let es = m.tree()->Entries_0;
    let one = es.drop_first();
    lemma_entries_bytes(es, "base_hash"@, hex, 7);
    reveal(text_bytes);
    assert(cbor::plain_bytes(one[0].0, 7) == text_bytes("ops"@));
    assert(cbor::plain_bytes(one[0].1, 7) == list_bytes(m.ops));
    assert(cbor::plain_entries(one.drop_first(), 7) =~= Seq::empty());
    assert(cbor::plain_entries(one, 7) =~= text_bytes("ops"@) + list_bytes(m.ops));
}

proof fn lemma_list_read(ops: Seq<Mutation>)
    requires
        ops.len() <= u64::MAX,
        forall|i: int| 0 <= i < ops.len() ==> op_fits(#[trigger] ops[i]),
    ensures
        ops_value(list_bytes(ops)) == Some((ops, Seq::<u8>::empty())),
        list_bytes(ops).len() > 0,
{
    let none = Seq::<u8>::empty();
    let inside = cbor::plain_items(op_trees(ops), 6);
    law_head_round_trip(cbor_head::ARRAY, ops.len(), inside);
    lemma_ops_read(ops, none, Seq::empty());
    assert(inside + none =~= inside);
    assert(Seq::<Mutation>::empty() + ops =~= ops);
}

/// The CBOR form of a delta is read back as that delta: what one kernel
/// stores, another reads. The lengths in the delta must fit into 64 bits.
pub proof fn law_delta_is_read_back(m: Mutations)
    requires
        m.ops.len() <= u64::MAX,
        forall|i: int| 0 <= i < m.ops.len() ==> op_fits(#[trigger] m.ops[i]),
    ensures
        mutations_of_bytes(cbor::plain_bytes(m.tree(), 8)) == Some(m),
{
    let hex = hash::hex_text(m.base.view());
    let b = cbor::plain_bytes(m.tree(), 8);
    let listed = list_bytes(m.ops);
    let none = Seq::<u8>::empty();
    lemma_words();
    lemma_hash_text_round_trip(m.base);
    lemma_delta_bytes(m);
    let after_base = text_bytes("ops"@) + listed;
    let inside = text_bytes("base_hash"@) + (text_bytes(hex) + after_base);
    assert(b =~= head_bytes(cbor_head::MAP, 2) + inside);
    law_head_round_trip(cbor_head::MAP, 2, inside);
    lemma_text_read("base_hash"@, text_bytes(hex) + after_base, DELTA_DEPTH);
    lemma_text_read(hex, after_base, DELTA_DEPTH);
    lemma_text_read("ops"@, listed, DELTA_DEPTH);
    lemma_list_read(m.ops);
    assert(base_value(text_bytes(hex) + after_base) == Some((m.base, after_base)));
    assert(delta_map(none, Some(0u64), Some(m.base), Some(m.ops)) == Some(m));
    assert(delta_map(after_base, Some(1u64), Some(m.base), None) == Some(m));
    assert(delta_map(inside, Some(2u64), None, None) == Some(m));
}

/// A value of an entry is found exactly where every key names a field and one
/// entry alone has the wanted one.
pub proof fn law_field_is_found_where_it_stands_alone(
    entries: Seq<(cbor::CborTree, cbor::CborTree)>,
    fields: Seq<Option<Field>>,
    f: Field,
    i: int,
    j: int,
)
    requires
        fields.len() == entries.len(),
    ensures
        0 <= i < fields.len() && fields[i] == Some(f) && !fields.contains(None) && (forall|k: int|
            0 <= k < fields.len() && k != i ==> #[trigger] fields[k] != Some(f)) ==> value_of(
            entries,
            fields,
            f,
        ) == Some(entries[i].1),
        0 <= i < j < fields.len() && fields[i] == Some(f) && fields[j] == Some(f) ==> value_of(
            entries,
            fields,
            f,
        ) is None,
        fields.contains(None) || !fields.contains(Some(f)) ==> value_of(entries, fields, f) is None,
{
    if 0 <= i < fields.len() && fields[i] == Some(f) && !fields.contains(None) && (forall|k: int|
        0 <= k < fields.len() && k != i ==> #[trigger] fields[k] != Some(f)) {
        assert(is_sole(fields, f, i));
        lemma_sole(entries, fields, f, i);
    }
    if 0 <= i < j < fields.len() && fields[i] == Some(f) && fields[j] == Some(f) {
        assert forall|k: int| !is_sole(fields, f, k) by {
            if is_sole(fields, f, k) {
                if k != i {
                    assert(fields[i] != Some(f));
                } else {
                    assert(fields[j] != Some(f));
                }
            }
        }
    }
    if !fields.contains(Some(f)) {
        assert forall|k: int| !is_sole(fields, f, k) by {
            if is_sole(fields, f, k) {
                assert(fields[k] == Some(f));
            }
        }
    }
}

/// A mutation has a kind of its own words, a name, and for a put a digest; a
/// removal has no use for a digest.
pub proof fn law_mutation_needs_its_parts(
    name: Seq<char>,
    hex: Seq<char>,
    kind: Seq<u8>,
    any: Option<cbor::CborTree>,
)
    ensures
        is_put(kind) == Some(true) <==> kind == text::utf8("put"@),
        is_put(kind) == Some(false) <==> kind == text::utf8("remove"@),
        mutation_of_parts(true, None, any) is None,
        mutation_of_parts(false, None, any) is None,
        mutation_of_parts(false, Some(cbor::CborTree::Text(name)), any) == Some(
            Mutation::Remove(name),
        ),
        mutation_of_parts(true, Some(cbor::CborTree::Text(name)), None) is None,
        hash_of_text(hex) matches Some(h) ==> mutation_of_parts(
            true,
            Some(cbor::CborTree::Text(name)),
            Some(cbor::CborTree::Text(hex)),
        ) == Some(Mutation::Put(name, h)),
        hash_of_text(hex) is None ==> mutation_of_parts(
            true,
            Some(cbor::CborTree::Text(name)),
            Some(cbor::CborTree::Text(hex)),
        ) is None,
{
    lemma_words();
}

/// The keys of a mutation are its words, as texts or as byte strings, or their
/// places; what else is a text, a byte string or a number is passed over.
pub proof fn law_keys_of_a_mutation(b: Seq<u8>, n: int, put: bool)
    ensures
        is_kind_key(cbor::CborTree::Bytes(b)) <==> b == text::utf8("kind"@),
        op_field(cbor::CborTree::Bytes(b), put) == Some(Field::Name) <==> b == text::utf8("name"@),
        op_field(cbor::CborTree::Bytes(b), put) == Some(Field::Target) <==> put && b == text::utf8(
            "hash"@,
        ),
        op_field(cbor::CborTree::Bytes(b), put) is Some,
        op_field(cbor::CborTree::Integer(n), put) is None <==> n < 0,
        op_field(cbor::CborTree::Integer(n), put) == Some(Field::Name) <==> n == 0,
        op_field(cbor::CborTree::Integer(n), put) == Some(Field::Target) <==> n == 1 && put,
        op_field(cbor::CborTree::Null, put) is None,
        op_field(cbor::CborTree::Bool(put), put) is None,
{
    lemma_words();
}

/// Tags before a key or a kind, or before a delta, mean nothing; an item inside
/// a mutation may have none.
pub proof fn law_tags(n: u64, b: Seq<u8>)
    ensures
        skip_tags(head_bytes(cbor_head::TAG, n as nat) + b) == skip_tags(b),
        word(head_bytes(cbor_head::TAG, n as nat) + b) == word(b),
        mutations_of_bytes(head_bytes(cbor_head::TAG, n as nat) + b) == mutations_of_bytes(b),
        forall|stop: nat|
            stop < (head_bytes(cbor_head::TAG, n as nat) + b).len() ==> !#[trigger] is_tag_free(
                head_bytes(cbor_head::TAG, n as nat) + b,
                stop,
            ),
        word(b) matches Some((w, _)) ==> w.len() <= 4096,
{
    law_head_round_trip(cbor_head::TAG, n as nat, b);
    let t = head_bytes(cbor_head::TAG, n as nat) + b;
    assert(t.len() > b.len());
    reveal_with_fuel(is_tag_free, 2);
}

/// An entry of a delta with any other key is passed over, one more base or one
/// more list of mutations is refused, and what stands behind the last entry
/// does not matter.
pub proof fn law_entries_of_a_delta(
    key: Seq<char>,
    value: Seq<char>,
    rest: Seq<u8>,
    n: u64,
    base: Option<crate::hash::Hash>,
    ops: Option<Seq<Mutation>>,
)
    requires
        n > 0,
        text::utf8(key).len() <= 4096,
        text::utf8(value).len() <= u64::MAX,
    ensures
        ({
            let k = cbor::plain_bytes(cbor::CborTree::Text(key), 0);
            let v = cbor::plain_bytes(cbor::CborTree::Text(value), 0);
            let b = k + (v + rest);
            &&& key != "base_hash"@ && key != "ops"@ ==> delta_map(b, Some(n), base, ops)
                == delta_map(rest, Some((n - 1) as u64), base, ops)
            &&& key == "base_hash"@ && base is Some ==> delta_map(b, Some(n), base, ops) is None
            &&& key == "ops"@ && ops is Some ==> delta_map(b, Some(n), base, ops) is None
        }),
        base is Some && ops is Some ==> delta_map(rest, Some(0), base, ops) == Some(
            Mutations { base: base->0, ops: ops->0 },
        ),
        base is None || ops is None ==> delta_map(rest, Some(0), base, ops) is None,
{
    reveal(text_bytes);
    lemma_text_read(key, text_bytes(value) + rest, DELTA_DEPTH);
    lemma_text_read(value, rest, DELTA_DEPTH);
    text::lemma_utf8_injective(key, "base_hash"@);
    text::lemma_utf8_injective(key, "ops"@);
    lemma_words();
}

/// An entry of a mutation is kept under its key until the end, a second kind is
/// refused, and a mutation without a kind is none.
pub proof fn law_entries_of_a_mutation(
    key: Seq<char>,
    value: Seq<char>,
    rest: Seq<u8>,
    n: u64,
    kind: Option<bool>,
    entries: Seq<(cbor::CborTree, cbor::CborTree)>,
)
    requires
        n > 0,
        text::utf8(key).len() <= u64::MAX,
        text::utf8(value).len() <= 4096,
    ensures
        ({
            let k = cbor::plain_bytes(cbor::CborTree::Text(key), 0);
            let v = cbor::plain_bytes(cbor::CborTree::Text(value), 0);
            let b = k + (v + rest);
            let left = Some((n - 1) as u64);
            &&& key != "kind"@ ==> op_map(b, Some(n), kind, entries) == op_map(
                rest,
                left,
                kind,
                entries.push((cbor::CborTree::Text(key), cbor::CborTree::Text(value))),
            )
            &&& key == "kind"@ && kind is Some ==> op_map(b, Some(n), kind, entries) is None
            &&& key == "kind"@ && kind is None && value == "put"@ ==> op_map(
                b,
                Some(n),
                kind,
                entries,
            ) == op_map(rest, left, Some(true), entries)
            &&& key == "kind"@ && kind is None && value == "remove"@ ==> op_map(
                b,
                Some(n),
                kind,
                entries,
            ) == op_map(rest, left, Some(false), entries)
            &&& key == "kind"@ && value != "put"@ && value != "remove"@ ==> op_map(
                b,
                Some(n),
                kind,
                entries,
            ) is None
        }),
        op_map(rest, Some(0), None, entries) is None,
{
    reveal(text_bytes);
    lemma_text_read(key, text_bytes(value) + rest, OP_DEPTH);
    lemma_text_read(value, rest, OP_DEPTH);
    text::lemma_utf8_injective(key, "kind"@);
    text::lemma_utf8_injective(value, "put"@);
    text::lemma_utf8_injective(value, "remove"@);
    lemma_words();
}

} // verus!
