//! Identifiers: 128-bit numbers drawn and written out by the `uuid` crate.

use uuid::Uuid;
use vstd::prelude::*;

verus! {

/// The hexadecimal digits in order of their value.
pub open spec fn hex_digits() -> Seq<char> {
    seq!['0', '1', '2', '3', '4', '5', '6', '7', '8', '9', 'a', 'b', 'c', 'd', 'e', 'f']
}

/// Whether position `at` of the written form of an identifier holds a hyphen.
pub open spec fn is_hyphen(at: int) -> bool {
    at == 8 || at == 13 || at == 18 || at == 23
}

/// How many hyphens stand before position `at`.
pub open spec fn hyphens_before(at: int) -> int {
    (if at > 8 { 1int } else { 0 }) + (if at > 13 { 1int } else { 0 }) + (if at > 18 { 1int } else {
        0
    }) + (if at > 23 { 1int } else { 0 })
}

/// The `nth` of the 32 hexadecimal digits of `id`, the most significant first.
pub open spec fn nth_hex_digit(id: u128, nth: int) -> char {
    hex_digits()[(id as int / vstd::arithmetic::power::pow(16, (31 - nth) as nat)) % 16]
}

/// The written form of an identifier: 32 lower case hexadecimal digits in
/// groups of 8, 4, 4, 4 and 12, set apart by hyphens.
pub open spec fn id_text(id: u128) -> Seq<char> {
    Seq::new(
        36,
        |at: int|
            if is_hyphen(at) {
                '-'
            } else {
                nth_hex_digit(id, at - hyphens_before(at))
            },
    )
}

/// Whether `id` carries the marks of a random identifier: version 4 and the
/// variant bits `10`.
pub open spec fn is_random_id(id: u128) -> bool {
    id & 0xF000_C000_0000_0000_0000u128 == 0x4000_8000_0000_0000_0000u128
}

/// Draws an identifier with `uuid::Uuid::new_v4`. Which one comes back is a
/// matter of chance; every one carries the version and variant bits of a random
/// identifier.
#[verifier::external_body]
pub(crate) fn fresh_id() -> (id: u128)
    ensures
        is_random_id(id),
{
    Uuid::new_v4().as_u128()
}

/// Writes an identifier out with the `Display` of `uuid::Uuid`, which is the
/// hyphenated lower case form that [`id_text`] describes.
#[verifier::external_body]
pub(crate) fn write_id(id: u128) -> (text: String)
    ensures
        text@ == id_text(id),
{
    Uuid::from_u128(id).to_string()
}

} // verus!
