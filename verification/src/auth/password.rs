//! Password hashing: a keyed hash (HMAC-SHA256) under a random per-user
//! salt, deliberately fast rather than deliberately slow.
use vstd::prelude::*;
use vstd::utf8::encode_utf8;

use crate::auth::jwt::{bytes_eq, hmac_sha256, sign};

verus! {

/// The hash stored for `password` under `salt`: the HMAC-SHA256 of the
/// password's UTF-8 bytes, keyed by the salt.
pub open spec fn password_hash(password: Seq<char>, salt: Seq<u8>) -> Seq<u8> {
    hmac_sha256(salt, encode_utf8(password))
}

/// A fresh random salt (`rand::rng()` filling 16 bytes). Nothing is
/// promised of the bytes: they come from the system's random source.
#[verifier::external_body]
pub fn generate_salt() -> [u8; 16] {
    let mut salt = [0u8; 16];
    rand::RngCore::fill_bytes(&mut rand::rng(), &mut salt);
    salt
}

/// The hash of `password` under `salt`.
pub fn hash_password(password: &str, salt: &[u8; 16]) -> (r: [u8; 32])
    ensures
        r@ == password_hash(password@, salt@),
{
    let h = sign(password.as_bytes(), salt.as_slice());
    let mut out = [0u8; 32];
    let mut i: usize = 0;
    while i < 32
        invariant
            i <= 32,
            h@.len() == 32,
            forall|j: int| 0 <= j < i ==> out@[j] == h@[j],
        decreases 32 - i,
    {
        out[i] = h[i];
        i += 1;
    }
    assert(out@ =~= h@);
    out
}

/// Whether `password` hashes to `expected` under `salt`.
pub fn verify_password(password: &str, salt: &[u8; 16], expected: &[u8; 32]) -> (r: bool)
    ensures
        r == (password_hash(password@, salt@) == expected@),
{
    let h = hash_password(password, salt);
    bytes_eq(h.as_slice(), expected.as_slice())
}

} // verus!
