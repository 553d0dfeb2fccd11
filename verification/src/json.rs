//! The few JSON texts the library writes itself, around strings escaped by
//! `serde_json`.
use vstd::prelude::*;
use vstd::utf8::{decode_utf8, valid_utf8};

use crate::text::push_str;

verus! {

/// The JSON string literal for `s` (quoted and escaped by `serde_json`).
pub uninterp spec fn json_quoted(s: Seq<char>) -> Seq<char>;

/// Writes `s` as a JSON string literal (`serde_json::to_string` on a `&str`).
/// The contract claims only that the result is `json_quoted(s@)`.
#[verifier::external_body]
pub(crate) fn json_string_literal(s: &str) -> (r: String)
    ensures
        r@ == json_quoted(s@),
{
    match serde_json::to_string(s) {
        Ok(t) => t,
        Err(_) => String::new(),
    }
}

/// The text of `bytes` with invalid UTF-8 sequences replaced (`String::from_utf8_lossy`).
pub uninterp spec fn utf8_lossy(bytes: Seq<u8>) -> Seq<char>;

/// `String::from_utf8_lossy(bytes)`, owned. The contract claims that the
/// result is `utf8_lossy(bytes@)`, and, as the documentation states, that
/// valid UTF-8 comes back as its own text.
#[verifier::external_body]
pub(crate) fn string_from_utf8_lossy(bytes: &[u8]) -> (r: String)
    ensures
        r@ == utf8_lossy(bytes@),
        valid_utf8(bytes@) ==> r@ == decode_utf8(bytes@),
{
    String::from_utf8_lossy(bytes).into_owned()
}

/// The JSON object `{"response": <text>}`.
pub open spec fn response_json(text: Seq<char>) -> Seq<char> {
    "{\"response\":"@ + json_quoted(text) + "}"@
}

/// Writes `{"response": <text>}` as JSON.
pub fn response_json_text(text: &str) -> (r: String)
    ensures
        r@ == response_json(text@),
{
    let mut out = String::new();
    push_str(&mut out, "{\"response\":");
    let q = json_string_literal(text);
    push_str(&mut out, q.as_str());
    push_str(&mut out, "}");
    out
}

} // verus!
