//! Why a JSON value is no operation of the Slack adapter.

use vstd::prelude::*;

use crate::adapters::slack;
use crate::interop::json;
use crate::text;
use crate::text::{decimal_string, quoted, same_text};

verus! {

/// What a value is, as a diagnostic says it.
pub open spec fn found_text(j: json::JsonTree) -> Seq<char> {
    match j {
        json::JsonTree::Null => "null"@,
        json::JsonTree::Bool(b) => if b {
            "boolean `true`"@
        } else {
            "boolean `false`"@
        },
        json::JsonTree::Unsigned(n) => "integer `"@ + text::decimal(n as nat) + "`"@,
        json::JsonTree::Negative(n) => "integer `"@ + ("-"@ + text::decimal((-n) as nat)) + "`"@,
        json::JsonTree::Float(bits) => "floating point `"@ + json::float_text(bits) + "`"@,
        json::JsonTree::Text(s) => "string "@ + text::quoted_text(s),
        json::JsonTree::List(_) => "sequence"@,
        json::JsonTree::Object(_) => "map"@,
    }
}

/// The diagnostic of a value of the wrong type.
pub open spec fn mismatch_text(j: json::JsonTree, wanted: Seq<char>) -> Seq<char> {
    "invalid type: "@ + found_text(j) + ", expected "@ + wanted
}

/// The diagnostic of a field that is not there.
pub open spec fn missing_text(key: Seq<char>) -> Seq<char> {
    "missing field `"@ + key + "`"@
}

/// The diagnostic of a name that no operation has.
pub open spec fn unknown_text(verb: Seq<char>) -> Seq<char> {
    "unknown variant `"@ + verb
        + "`, expected one of `post_message`, `edit_message`, `delete_message`"@
}

/// The diagnostic of a list of the wrong length.
pub open spec fn length_text(len: nat, wanted: Seq<char>) -> Seq<char> {
    "invalid length "@ + text::decimal(len) + ", expected "@ + wanted
}

/// The first of two diagnostics.
pub open spec fn first_of(a: Option<Seq<char>>, b: Option<Seq<char>>) -> Option<Seq<char>> {
    if a is Some {
        a
    } else {
        b
    }
}

/// What is wrong with the type of a field that is there.
pub open spec fn field_mismatch(fields: Map<Seq<char>, json::JsonTree>, key: Seq<char>) -> Option<
    Seq<char>,
> {
    if fields.dom().contains(key) && !(fields[key] is Text) {
        Some(mismatch_text(fields[key], "a string"@))
    } else {
        None
    }
}

/// What is wrong where a field is not there.
pub open spec fn field_missing(fields: Map<Seq<char>, json::JsonTree>, key: Seq<char>) -> Option<
    Seq<char>,
> {
    if fields.dom().contains(key) {
        None
    } else {
        Some(missing_text(key))
    }
}

/// What is wrong with the fields of an operation: a type first, in the order
/// of the names, and then a field that is not there, in the order of the
/// operation.
pub open spec fn fields_problem(
    verb: Seq<char>,
    fields: Map<Seq<char>, json::JsonTree>,
) -> Option<Seq<char>> {
    let channel = field_mismatch(fields, "channel"@);
    let text = field_mismatch(fields, "text"@);
    let ts = field_mismatch(fields, "ts"@);
    let no_channel = field_missing(fields, "channel"@);
    let no_text = field_missing(fields, "text"@);
    let no_ts = field_missing(fields, "ts"@);
    if verb == "post_message"@ {
        first_of(channel, first_of(text, first_of(no_channel, no_text)))
    } else if verb == "edit_message"@ {
        first_of(
            channel,
            first_of(text, first_of(ts, first_of(no_channel, first_of(no_ts, no_text)))),
        )
    } else if verb == "delete_message"@ {
        first_of(channel, first_of(ts, first_of(no_channel, no_ts)))
    } else {
        Some(unknown_text(verb))
    }
}

/// What is wrong with the `i`th item behind the name, where `shape` is the
/// operation as a diagnostic names it.
pub open spec fn item_problem(items: Seq<json::JsonTree>, i: nat, shape: Seq<char>) -> Option<
    Seq<char>,
> {
    if i >= items.len() {
        Some(length_text((i - 1) as nat, shape))
    } else if items[i as int] is Text {
        None
    } else {
        Some(mismatch_text(items[i as int], "a string"@))
    }
}

/// What is wrong where items are left over behind the name and `n` items.
pub open spec fn excess_problem(items: Seq<json::JsonTree>, n: nat) -> Option<Seq<char>> {
    if items.len() > n + 1 {
        Some(length_text((items.len() - 1) as nat, text::decimal(n) + " elements in sequence"@))
    } else {
        None
    }
}

/// What is wrong with the items of an operation, in order.
pub open spec fn items_problem(verb: Seq<char>, items: Seq<json::JsonTree>) -> Option<Seq<char>> {
    if verb == "post_message"@ {
        let shape = "struct variant SlackOp::PostMessage with 2 elements"@;
        first_of(
            item_problem(items, 1, shape),
            first_of(item_problem(items, 2, shape), excess_problem(items, 2)),
        )
    } else if verb == "edit_message"@ {
        let shape = "struct variant SlackOp::EditMessage with 3 elements"@;
        first_of(
            item_problem(items, 1, shape),
            first_of(
                item_problem(items, 2, shape),
                first_of(item_problem(items, 3, shape), excess_problem(items, 3)),
            ),
        )
    } else if verb == "delete_message"@ {
        let shape = "struct variant SlackOp::DeleteMessage with 2 elements"@;
        first_of(
            item_problem(items, 1, shape),
            first_of(item_problem(items, 2, shape), excess_problem(items, 2)),
        )
    } else {
        Some(unknown_text(verb))
    }
}

/// Why a value is no operation, where it is none.
pub open spec fn problem_of(j: json::JsonTree) -> Option<Seq<char>> {
    match j {
        json::JsonTree::Object(fields) => if !fields.dom().contains("action"@) {
            Some(missing_text("action"@))
        } else {
            match fields["action"@] {
                json::JsonTree::Text(verb) => fields_problem(verb, fields),
                other => Some(mismatch_text(other, "variant identifier"@)),
            }
        },
        json::JsonTree::List(items) => if items.len() == 0 {
            Some(missing_text("action"@))
        } else {
            match items[0] {
                json::JsonTree::Text(verb) => items_problem(verb, items),
                other => Some(mismatch_text(other, "variant identifier"@)),
            }
        },
        _ => Some(mismatch_text(j, "internally tagged enum SlackOp"@)),
    }
}

/// What an optional text holds.
pub open spec fn text_in(s: Option<String>) -> Option<Seq<char>> {
    match s {
        Some(s) => Some(s@),
        None => None,
    }
}

fn found(v: &serde_json::Value) -> (s: String)
    ensures
        s@ == found_text(json::json_tree(*v)),
{
    if v.is_null() {
        return String::from_str("null");
    }
    if let Some(b) = v.as_bool() {
        return if b {
            String::from_str("boolean `true`")
        } else {
            String::from_str("boolean `false`")
        };
    }
    if let Some(s) = v.as_str() {
        return String::from_str("string ").concat(quoted(s).as_str());
    }
    if v.as_array().is_some() {
        return String::from_str("sequence");
    }
    if v.is_object() {
        return String::from_str("map");
    }
    let start = if v.is_f64() {
        "floating point `"
    } else {
        "integer `"
    };
    String::from_str(start).concat(json::number_text(v).as_str()).concat("`")
}

fn or_else(a: Option<String>, b: Option<String>) -> (r: Option<String>)
    ensures
        text_in(r) == first_of(text_in(a), text_in(b)),
{
    match a {
        Some(s) => Some(s),
        None => b,
    }
}

fn mismatch(v: &serde_json::Value, wanted: &str) -> (s: String)
    ensures
        s@ == mismatch_text(json::json_tree(*v), wanted@),
{
    String::from_str("invalid type: ").concat(found(v).as_str()).concat(", expected ").concat(
        wanted,
    )
}

fn missing(key: &str) -> (s: String)
    ensures
        s@ == missing_text(key@),
{
    String::from_str("missing field `").concat(key).concat("`")
}

fn unknown(verb: &str) -> (s: String)
    ensures
        s@ == unknown_text(verb@),
{
    String::from_str("unknown variant `").concat(verb).concat(
        "`, expected one of `post_message`, `edit_message`, `delete_message`",
    )
}

fn wrong_length(len: usize, wanted: &str) -> (s: String)
    ensures
        s@ == length_text(len as nat, wanted@),
{
    String::from_str("invalid length ").concat(decimal_string(len as u64).as_str()).concat(
        ", expected ",
    ).concat(wanted)
}

fn check_field(v: &serde_json::Value, key: &str) -> (r: Option<String>)
    requires
        json::json_tree(*v) is Object,
    ensures
        text_in(r) == field_mismatch(json::json_tree(*v)->Object_0, key@),
{
    match json::field(v, key) {
        Some(f) => if f.as_str().is_some() {
            None
        } else {
            Some(mismatch(f, "a string"))
        },
        None => None,
    }
}

fn check_presence(v: &serde_json::Value, key: &str) -> (r: Option<String>)
    requires
        json::json_tree(*v) is Object,
    ensures
        text_in(r) == field_missing(json::json_tree(*v)->Object_0, key@),
{
    match json::field(v, key) {
        Some(_) => None,
        None => Some(missing(key)),
    }
}

fn check_fields(verb: &str, v: &serde_json::Value) -> (r: Option<String>)
    requires
        json::json_tree(*v) is Object,
    ensures
        text_in(r) == fields_problem(verb@, json::json_tree(*v)->Object_0),
{
    let channel = check_field(v, "channel");
    let text = check_field(v, "text");
    let ts = check_field(v, "ts");
    let no_channel = check_presence(v, "channel");
    let no_text = check_presence(v, "text");
    let no_ts = check_presence(v, "ts");
    if same_text(verb, "post_message") {
        or_else(channel, or_else(text, or_else(no_channel, no_text)))
    } else if same_text(verb, "edit_message") {
        or_else(channel, or_else(text, or_else(ts, or_else(no_channel, or_else(no_ts, no_text)))))
    } else if same_text(verb, "delete_message") {
        or_else(channel, or_else(ts, or_else(no_channel, no_ts)))
    } else {
        Some(unknown(verb))
    }
}

fn check_item(items: &Vec<serde_json::Value>, i: usize, shape: &str) -> (r: Option<String>)
    requires
        i > 0,
    ensures
        text_in(r) == item_problem(json::json_trees(items@), i as nat, shape@),
{
    if i >= items.len() {
        return Some(wrong_length(i - 1, shape));
    }
    assert(json::json_trees(items@)[i as int] == json::json_tree(items@[i as int]));
    if items[i].as_str().is_some() {
        None
    } else {
        Some(mismatch(&items[i], "a string"))
    }
}

fn check_excess(items: &Vec<serde_json::Value>, n: usize) -> (r: Option<String>)
    requires
        n < 10,
    ensures
        text_in(r) == excess_problem(json::json_trees(items@), n as nat),
{
    if items.len() > n + 1 {
        let wanted = decimal_string(n as u64).concat(" elements in sequence");
        Some(wrong_length(items.len() - 1, wanted.as_str()))
    } else {
        None
    }
}

fn check_items(verb: &str, items: &Vec<serde_json::Value>) -> (r: Option<String>)
    ensures
        text_in(r) == items_problem(verb@, json::json_trees(items@)),
{
    if same_text(verb, "post_message") {
        let shape = "struct variant SlackOp::PostMessage with 2 elements";
        or_else(
            check_item(items, 1, shape),
            or_else(check_item(items, 2, shape), check_excess(items, 2)),
        )
    } else if same_text(verb, "edit_message") {
        let shape = "struct variant SlackOp::EditMessage with 3 elements";
        or_else(
            check_item(items, 1, shape),
            or_else(
                check_item(items, 2, shape),
                or_else(check_item(items, 3, shape), check_excess(items, 3)),
            ),
        )
    } else if same_text(verb, "delete_message") {
        let shape = "struct variant SlackOp::DeleteMessage with 2 elements";
        or_else(
            check_item(items, 1, shape),
            or_else(check_item(items, 2, shape), check_excess(items, 2)),
        )
    } else {
        Some(unknown(verb))
    }
}

/// Finds out why a value is no operation, where it is none.
pub fn problem(v: &serde_json::Value) -> (r: Option<String>)
    ensures
        text_in(r) == problem_of(json::json_tree(*v)),
{
    if v.is_object() {
        return match json::field(v, "action") {
            Some(f) => match f.as_str() {
                Some(verb) => check_fields(verb, v),
                None => Some(mismatch(f, "variant identifier")),
            },
            None => Some(missing("action")),
        };
    }
    match v.as_array() {
        Some(items) => {
            if items.len() == 0 {
                return Some(missing("action"));
            }
            assert(json::json_trees(items@)[0] == json::json_tree(items@[0]));
            match items[0].as_str() {
                Some(verb) => check_items(verb, items),
                None => Some(mismatch(&items[0], "variant identifier")),
            }
        },
        None => Some(mismatch(v, "internally tagged enum SlackOp")),
    }
}

/// A value has a problem exactly where it is no operation.
pub proof fn law_every_refusal_has_a_reason(j: json::JsonTree)
    ensures
        problem_of(j) is Some <==> slack::action_of(j) is None,
{
}

} // verus!
