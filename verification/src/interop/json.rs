//! JSON values, from the `serde_json` crate.

use vstd::prelude::*;

use crate::text;

verus! {

/// The `serde_json` crate's JSON value.
#[verifier::external_type_specification]
#[verifier::external_body]
pub struct ExJsonValue(serde_json::Value);

/// A JSON value.
pub enum JsonTree {
    /// Null.
    Null,
    /// A truth value.
    Bool(bool),
    /// A number that is not negative and has no fraction.
    Unsigned(u64),
    /// A negative number without a fraction.
    Negative(i64),
    /// A floating-point number, by its 64 bits.
    Float(u64),
    /// A text.
    Text(Seq<char>),
    /// An array.
    List(Seq<JsonTree>),
    /// An object, as the map of its fields.
    Object(Map<Seq<char>, JsonTree>),
}

/// The JSON value that a `serde_json::Value` holds.
pub uninterp spec fn json_tree(v: serde_json::Value) -> JsonTree;

/// How the `Debug` formatting of `serde_json::Value` renders a value.
pub uninterp spec fn json_debug_text(j: JsonTree) -> Seq<char>;

/// An object without fields.
#[verifier::external_body]
pub(crate) fn empty_object() -> (v: serde_json::Value)
    ensures
        json_tree(v) == JsonTree::Object(Map::empty()),
{
    serde_json::Value::Object(serde_json::Map::new())
}

/// `serde_json::Map::insert` on the fields of an object: sets one field.
#[verifier::external_body]
pub(crate) fn set_field(object: &mut serde_json::Value, key: &str, value: serde_json::Value)
    requires
        json_tree(*old(object)) is Object,
    ensures
        json_tree(*final(object)) == JsonTree::Object(
            json_tree(*old(object))->Object_0.insert(key@, json_tree(value)),
        ),
{
    if let serde_json::Value::Object(fields) = object {
        fields.insert(key.to_owned(), value);
    }
}

/// The `String` variant of `serde_json::Value`.
#[verifier::external_body]
pub(crate) fn text_json(s: &str) -> (v: serde_json::Value)
    ensures
        json_tree(v) == JsonTree::Text(s@),
{
    serde_json::Value::from(s)
}

/// The `Bool` variant of `serde_json::Value`.
#[verifier::external_body]
pub(crate) fn flag_json(b: bool) -> (v: serde_json::Value)
    ensures
        json_tree(v) == JsonTree::Bool(b),
{
    serde_json::Value::from(b)
}

/// The `Number` variant of `serde_json::Value`, from an unsigned number.
#[verifier::external_body]
pub(crate) fn number_json(n: u64) -> (v: serde_json::Value)
    ensures
        json_tree(v) == JsonTree::Unsigned(n),
{
    serde_json::Value::from(n)
}

/// `serde_json::Value::get` with a text key: the field of that name, where the
/// value is an object that has it.
#[verifier::external_body]
pub(crate) fn field<'a>(v: &'a serde_json::Value, key: &str) -> (r: Option<&'a serde_json::Value>)
    ensures
        match r {
            Some(f) => json_tree(*v) matches JsonTree::Object(m) && m.dom().contains(key@)
                && m[key@] == json_tree(*f),
            None => !(json_tree(*v) matches JsonTree::Object(m) && m.dom().contains(key@)),
        },
{
    v.get(key)
}

/// `serde_json::Value::as_str`: the text, where the value is one.
pub assume_specification[ serde_json::Value::as_str ](v: &serde_json::Value) -> (r: Option<&str>)
    ensures
        match r {
            Some(s) => json_tree(*v) == JsonTree::Text(s@),
            None => !(json_tree(*v) is Text),
        },
;

/// The values that a list of `serde_json::Value`s holds.
pub open spec fn json_trees(list: Seq<serde_json::Value>) -> Seq<JsonTree> {
    list.map_values(|v: serde_json::Value| json_tree(v))
}

/// `serde_json::Value::as_array`: the items, where the value is an array.
pub assume_specification[ serde_json::Value::as_array ](v: &serde_json::Value) -> (r: Option<
    &Vec<serde_json::Value>,
>)
    ensures
        match r {
            Some(a) => json_tree(*v) == JsonTree::List(json_trees(a@)),
            None => !(json_tree(*v) is List),
        },
;

/// The `Clone` of `serde_json::Value`: a value with the same contents.
#[verifier::external_body]
pub(crate) fn duplicate(v: &serde_json::Value) -> (r: serde_json::Value)
    ensures
        json_tree(r) == json_tree(*v),
{
    v.clone()
}

/// The `Debug` formatting of `serde_json::Value`, a function of the value
/// alone.
#[verifier::external_body]
pub(crate) fn debug_json(v: &serde_json::Value) -> (s: String)
    ensures
        s@ == json_debug_text(json_tree(*v)),
{
    format!("{v:?}")
}

/// `serde_json::Value::as_bool`: the truth value, where the value is one.
pub assume_specification[ serde_json::Value::as_bool ](v: &serde_json::Value) -> (r: Option<bool>)
    ensures
        match r {
            Some(b) => json_tree(*v) == JsonTree::Bool(b),
            None => !(json_tree(*v) is Bool),
        },
;

/// `serde_json::Value::is_null`.
pub assume_specification[ serde_json::Value::is_null ](v: &serde_json::Value) -> (b: bool)
    ensures
        b == (json_tree(*v) is Null),
;

/// `serde_json::Value::is_object`.
pub assume_specification[ serde_json::Value::is_object ](v: &serde_json::Value) -> (b: bool)
    ensures
        b == (json_tree(*v) is Object),
;

/// `serde_json::Value::is_f64`: whether the value is a floating-point number.
pub assume_specification[ serde_json::Value::is_f64 ](v: &serde_json::Value) -> (b: bool)
    ensures
        b == (json_tree(*v) is Float),
;

/// The shortest decimal text of a floating-point number, given by its 64 bits.
pub uninterp spec fn float_text(bits: u64) -> Seq<char>;

/// The `Display` formatting of `serde_json::Value` on a number: whole numbers
/// in decimal, and a text for every other that depends on the number alone.
#[verifier::external_body]
pub(crate) fn number_text(v: &serde_json::Value) -> (s: String)
    requires
        json_tree(*v) is Unsigned || json_tree(*v) is Negative || json_tree(*v) is Float,
    ensures
        match json_tree(*v) {
            JsonTree::Unsigned(n) => s@ == text::decimal(n as nat),
            JsonTree::Negative(n) => s@ == "-"@ + text::decimal((-n) as nat),
            JsonTree::Float(bits) => s@ == float_text(bits),
            _ => true,
        },
{
    v.to_string()
}

} // verus!
