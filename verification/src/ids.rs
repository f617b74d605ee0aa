//! Random identifiers of persons and of client sessions.

use vstd::prelude::*;

verus! {

broadcast use vstd::string::group_string_axioms;

/// Whether the version of an identifier is 4, and its variant that of RFC 9562.
pub open spec fn is_random_id(id: u128) -> bool {
    (id >> 76u128) & 0xf == 4 && (id >> 62u128) & 3 == 2
}

/// The lower-case hexadecimal digit of a number below sixteen.
pub open spec fn hex_digit(d: u128) -> char {
    if d < 10 {
        ('0' as int + d) as char
    } else {
        ('a' as int + d - 10) as char
    }
}

/// The number of hyphens before a position of an identifier's text.
pub open spec fn hyphens_before(i: int) -> int {
    if i <= 8 {
        0
    } else if i <= 13 {
        1
    } else if i <= 18 {
        2
    } else if i <= 23 {
        3
    } else {
        4
    }
}

/// The text of an identifier: its 32 hexadecimal digits, with a hyphen after the
/// 8th, 12th, 16th and 20th.
pub open spec fn id_text(id: u128) -> Seq<char> {
    Seq::new(
        36,
        |i: int|
            if i == 8 || i == 13 || i == 18 || i == 23 {
                '-'
            } else {
                hex_digit((id >> ((4 * (31 - (i - hyphens_before(i)))) as u128)) & 0xf)
            },
    )
}

/// `uuid::Uuid::new_v4`, as a number: an identifier of version 4 whose other bits
/// are random. That it differs from earlier ones is only likely.
#[verifier::external_body]
pub(crate) fn random_id() -> (r: u128)
    ensures
        is_random_id(r),
{
    uuid::Uuid::new_v4().as_u128()
}

/// `uuid::Uuid`'s `Display` writes the identifier with hyphens, in lower case.
#[verifier::external_body]
pub(crate) fn text_of_id(id: u128) -> (r: String)
    ensures
        r@ == id_text(id),
{
    uuid::Uuid::from_u128(id).to_string()
}

} // verus!
