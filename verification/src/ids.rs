//! Random identifiers and their text form (the `uuid` crate).
use vstd::prelude::*;

verus! {

/// A fresh random identifier (`uuid::Uuid::new_v4`), as its 128-bit value.
/// Nothing is promised of the value: it comes from the system's random source.
#[verifier::external_body]
pub(crate) fn new_id() -> u128 {
    uuid::Uuid::new_v4().as_u128()
}

/// The hyphenated text form of an identifier (`uuid::Uuid`'s `Display`).
pub uninterp spec fn id_text(id: u128) -> Seq<char>;

/// The identifier written by a text (`uuid::Uuid::parse_str`), if it is one.
pub uninterp spec fn id_from_text(text: Seq<char>) -> Option<u128>;

/// The text form of `id` (`uuid::Uuid::from_u128(id).to_string()`). The
/// contract claims that the result is `id_text(id)`, and that `parse_str`,
/// which the crate documents as reading every format it writes, reads it
/// back as `id`.
#[verifier::external_body]
pub(crate) fn id_to_string(id: u128) -> (r: String)
    ensures
        r@ == id_text(id),
        id_from_text(r@) == Some(id),
{
    uuid::Uuid::from_u128(id).to_string()
}

/// Reads an identifier from its text (`uuid::Uuid::parse_str`). The contract
/// claims only that the result is `id_from_text(s@)`.
#[verifier::external_body]
pub(crate) fn parse_id(s: &str) -> (r: Option<u128>)
    ensures
        r == id_from_text(s@),
{
    match uuid::Uuid::parse_str(s) {
        Ok(u) => Some(u.as_u128()),
        Err(_) => None,
    }
}

} // verus!
