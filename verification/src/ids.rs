//! Invoice and record identifiers: UUIDs, held as the 128-bit number that
//! `uuid::Uuid::as_u128` gives (big-endian packing of the 16 bytes).

use vstd::prelude::*;

verus! {

/// Whether `u` carries the version and variant bits of an RFC 9562 version 7
/// UUID: version nibble 7 (bits 76..80) and variant `0b10` (bits 62..64).
pub open spec fn is_version7(u: u128) -> bool {
    &&& (u >> 76u128) & 0xf == 7
    &&& (u >> 62u128) & 0x3 == 2
}

/// A fresh version 7 UUID from the current time.
///
/// Trusted: `uuid::Uuid::now_v7`, which the uuid crate documents as creating
/// a version 7 UUID from the current system time and random bits (its source
/// sets the version nibble to 7 and the RFC 4122 variant), and
/// `Uuid::as_u128`, which packs its bytes big-endian. Which UUID comes back
/// depends on the clock and on chance, so nothing more is stated.
#[verifier::external_body]
pub(crate) fn now_v7() -> (u: u128)
    ensures
        is_version7(u),
{
    uuid::Uuid::now_v7().as_u128()
}

/// What `uuid::Uuid`'s `FromStr` gives for a text, as a number: `None` where
/// the text is not a UUID in one of the forms the crate accepts.
pub uninterp spec fn uuid_from_text(s: Seq<char>) -> Option<u128>;

/// Parses a UUID in any of the textual forms the uuid crate accepts.
///
/// Trusted: `<uuid::Uuid as FromStr>::from_str` (the crate's `parse_str`),
/// whose result depends on the text alone; it is named by `uuid_from_text`.
#[verifier::external_body]
pub(crate) fn parse_uuid(s: &str) -> (r: Option<u128>)
    ensures
        r == uuid_from_text(s@),
{
    match s.parse::<uuid::Uuid>() {
        Ok(u) => Some(u.as_u128()),
        Err(_) => None,
    }
}

/// The lower-case hexadecimal digit for `v` (0..16).
pub open spec fn hex_digit(v: int) -> char {
    if v < 10 {
        (48 + v) as char
    } else {
        (87 + v) as char
    }
}

/// The `i`-th hexadecimal digit of `u`, most significant first (0..32).
pub open spec fn nibble(u: u128, i: int) -> int {
    ((u >> ((124 - 4 * i) as u128)) & 0xf) as int
}

/// The hyphenated lower-case form `xxxxxxxx-xxxx-xxxx-xxxx-xxxxxxxxxxxx`.
pub open spec fn hyphenated(u: u128) -> Seq<char> {
    let simple = Seq::new(32, |i: int| hex_digit(nibble(u, i)));
    simple.subrange(0, 8) + seq!['-'] + simple.subrange(8, 12) + seq!['-'] + simple.subrange(
        12,
        16,
    ) + seq!['-'] + simple.subrange(16, 20) + seq!['-'] + simple.subrange(20, 32)
}

/// The text `{}` prints for a UUID.
///
/// Trusted: `uuid::Uuid::from_u128` and the crate's `Display`, which its
/// source writes as the hyphenated lower-case form.
#[verifier::external_body]
pub(crate) fn uuid_text(u: u128) -> (s: String)
    ensures
        s@ == hyphenated(u),
{
    uuid::Uuid::from_u128(u).to_string()
}

} // verus!
