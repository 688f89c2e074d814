//! Unique identifiers, from the `uuid` crate.

use vstd::prelude::*;

use crate::text;

verus! {

/// The version field of a UUID: the top four bits of its seventh byte.
pub open spec fn uuid_version(bits: u128) -> u128 {
    (bits >> 76u128) & 0xf
}

/// The variant field of a UUID: the top two bits of its ninth byte.
pub open spec fn uuid_variant(bits: u128) -> u128 {
    (bits >> 62u128) & 0x3
}

/// The hexadecimal digit of a UUID that is `k` digits away from the last one.
pub open spec fn uuid_digit(bits: u128, k: int) -> char {
    text::hex_char(((bits >> ((4 * k) as u128)) & 0xf) as nat)
}

/// The usual text of a UUID: 32 lowercase hexadecimal digits, most significant
/// first, with hyphens after the eighth, twelfth, sixteenth and twentieth.
pub open spec fn uuid_text(bits: u128) -> Seq<char> {
    Seq::new(
        36,
        |i: int|
            if i < 8 {
                uuid_digit(bits, 31 - i)
            } else if i == 8 || i == 13 || i == 18 || i == 23 {
                '-'
            } else if i < 13 {
                uuid_digit(bits, 32 - i)
            } else if i < 18 {
                uuid_digit(bits, 33 - i)
            } else if i < 23 {
                uuid_digit(bits, 34 - i)
            } else {
                uuid_digit(bits, 35 - i)
            },
    )
}

/// `uuid::Uuid::now_v7` as a number: a fresh identifier from the clock and a
/// random source, marked as version 7 of the RFC 9562 variant. That two calls
/// differ is likely, not certain, and is left unsaid.
#[verifier::external_body]
pub(crate) fn fresh_uuid() -> (bits: u128)
    ensures
        uuid_version(bits) == 7,
        uuid_variant(bits) == 2,
{
    uuid::Uuid::now_v7().as_u128()
}

/// The `Display` formatting of `uuid::Uuid`: the usual hyphenated text.
#[verifier::external_body]
pub(crate) fn render_uuid(bits: u128) -> (s: String)
    ensures
        s@ == uuid_text(bits),
{
    uuid::Uuid::from_u128(bits).to_string()
}

} // verus!
