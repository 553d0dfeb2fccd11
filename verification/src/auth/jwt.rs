//! Access tokens: HS256-signed JWTs, `header.claims.signature`, each part
//! base64url-encoded without padding.
use vstd::prelude::*;
use vstd::utf8::encode_utf8;

use crate::text::{chars_of, find_char, first_index, push_str, split_spec, string_from_chars};

verus! {

/// The claims a token carries: the user, when it was issued and when it
/// expires, in seconds since the Unix epoch.
pub struct Claims {
    pub sub: String,
    pub iat: u64,
    pub exp: u64,
}

/// Why a token was refused.
#[derive(Debug, Clone, Copy, PartialEq, Eq, Structural)]
pub enum JwtError {
    Malformed,
    BadSignature,
    Expired,
}

/// The JOSE header of every token: `{"alg":"HS256","typ":"JWT"}`.
pub const HEADER_JSON: &'static str = "{\"alg\":\"HS256\",\"typ\":\"JWT\"}";

/// The base64url text (URL-safe alphabet, no padding) of `bytes`.
pub uninterp spec fn b64url_encode(bytes: Seq<u8>) -> Seq<char>;

/// The bytes a base64url text (URL-safe alphabet, no padding) stands for,
/// if it is one.
pub uninterp spec fn b64url_decode(text: Seq<char>) -> Option<Seq<u8>>;

/// The HMAC-SHA256 of `data` under `key`.
pub uninterp spec fn hmac_sha256(key: Seq<u8>, data: Seq<u8>) -> Seq<u8>;

/// A character of the URL-safe base64 alphabet.
pub open spec fn url_safe_char(c: char) -> bool {
    ('A' <= c && c <= 'Z') || ('a' <= c && c <= 'z') || ('0' <= c && c <= '9') || c == '-' || c
        == '_'
}

/// `base64::engine::general_purpose::URL_SAFE_NO_PAD.encode(bytes)`. The
/// contract claims that the result is `b64url_encode(bytes@)`, that it is
/// made of the URL-safe alphabet only (the engine's alphabet, and no
/// padding), and that the same engine's `decode` gives `bytes` back. The
/// engine panics when the encoded length overflows `usize`; `requires`
/// keeps the input well below that.
#[verifier::external_body]
fn b64_encode(bytes: &[u8]) -> (r: String)
    requires
        bytes@.len() <= usize::MAX / 2,
    ensures
        r@ == b64url_encode(bytes@),
        forall|i: int| 0 <= i < r@.len() ==> url_safe_char(#[trigger] r@[i]),
        b64url_decode(r@) == Some(bytes@),
{
    base64::Engine::encode(&base64::engine::general_purpose::URL_SAFE_NO_PAD, bytes)
}

/// `base64::engine::general_purpose::URL_SAFE_NO_PAD.decode(text)`, its
/// error dropped. The contract claims only that the result is
/// `b64url_decode(text@)`.
#[verifier::external_body]
fn b64_decode(text: &str) -> (r: Option<Vec<u8>>)
    ensures
        match r {
            Some(v) => b64url_decode(text@) == Some(v@),
            None => b64url_decode(text@) is None,
        },
{
    match base64::Engine::decode(&base64::engine::general_purpose::URL_SAFE_NO_PAD, text) {
        Ok(v) => Some(v),
        Err(_) => None,
    }
}

/// The HMAC-SHA256 signature of `data` under `secret` (`hmac::Hmac<sha2::Sha256>`:
/// `new_from_slice`, which accepts keys of any length, `update`, `finalize`).
/// The contract claims that the result is `hmac_sha256(secret@, data@)`
/// and, SHA-256's output size, that it is 32 bytes long.
#[verifier::external_body]
pub(crate) fn sign(data: &[u8], secret: &[u8]) -> (r: Vec<u8>)
    ensures
        r@ == hmac_sha256(secret@, data@),
        r@.len() == 32,
{
    let mut mac = <hmac::Hmac<sha2::Sha256> as hmac::Mac>::new_from_slice(secret).expect(
        "hmac accepts any key length",
    );
    hmac::Mac::update(&mut mac, data);
    hmac::Mac::finalize(mac).into_bytes().to_vec()
}

/// The text that is signed: the encoded header and claims, joined by a dot.
pub open spec fn signing_input(claims_json: Seq<u8>) -> Seq<char> {
    b64url_encode(encode_utf8(HEADER_JSON@)) + "."@ + b64url_encode(claims_json)
}

/// The token for the claims `claims_json` (their JSON text), signed with `secret`.
pub open spec fn token_spec(claims_json: Seq<u8>, secret: Seq<u8>) -> Seq<char> {
    let input = signing_input(claims_json);
    input + "."@ + b64url_encode(hmac_sha256(secret, encode_utf8(input)))
}

/// What checking `token` against `secret` gives: the claims' JSON text when
/// the token has exactly three dot-separated parts, the third being the
/// base64url signature of the first two, and the second being base64url;
/// `Malformed` or `BadSignature` otherwise.
pub open spec fn decode_spec(token: Seq<char>, secret: Seq<u8>) -> Result<Seq<u8>, JwtError> {
    let parts = split_spec(token, '.');
    if parts.len() != 3 {
        Err(JwtError::Malformed)
    } else {
        let expected = hmac_sha256(secret, encode_utf8(parts[0] + "."@ + parts[1]));
        match b64url_decode(parts[2]) {
            None => Err(JwtError::Malformed),
            Some(given) => if given != expected {
                Err(JwtError::BadSignature)
            } else {
                match b64url_decode(parts[1]) {
                    None => Err(JwtError::Malformed),
                    Some(claims) => Ok(claims),
                }
            },
        }
    }
}

/// Signs the claims `claims_json` (their JSON text) with `secret`:
/// `header.claims.signature`.
pub fn encode(claims_json: &[u8], secret: &[u8]) -> (r: String)
    requires
        claims_json@.len() <= usize::MAX / 4,
    ensures
        r@ == token_spec(claims_json@, secret@),
        split_spec(r@, '.') == seq![
            b64url_encode(encode_utf8(HEADER_JSON@)),
            b64url_encode(claims_json@),
            b64url_encode(hmac_sha256(secret@, encode_utf8(signing_input(claims_json@)))),
        ],
        decode_spec(r@, secret@) == Ok::<Seq<u8>, JwtError>(claims_json@),
        forall|other: Seq<u8>|
            #[trigger] decode_spec(r@, other) == if hmac_sha256(
                other,
                encode_utf8(signing_input(claims_json@)),
            ) == hmac_sha256(secret@, encode_utf8(signing_input(claims_json@))) {
                Ok::<Seq<u8>, JwtError>(claims_json@)
            } else {
                Err::<Seq<u8>, JwtError>(JwtError::BadSignature)
            },
{
    proof {
        reveal_strlit("{\"alg\":\"HS256\",\"typ\":\"JWT\"}");
        crate::text::lemma_encode_utf8_len(HEADER_JSON@);
    }
    let header = b64_encode(HEADER_JSON.as_bytes());
    let claims = b64_encode(claims_json);
    let mut input = header;
    push_str(&mut input, ".");
    push_str(&mut input, claims.as_str());
    let sig = sign(input.as_str().as_bytes(), secret);
    let sig_text = b64_encode(sig.as_slice());
    let mut token = input;
    push_str(&mut token, ".");
    push_str(&mut token, sig_text.as_str());
    proof {
        reveal_strlit(".");
        assert(input@ == header@ + seq!['.'] + claims@);
        assert(token@ == header@ + seq!['.'] + claims@ + seq!['.'] + sig_text@);
        lemma_split_three(header@, claims@, sig_text@);
        assert(input@ == signing_input(claims_json@));
        assert forall|other: Seq<u8>|
            #[trigger] decode_spec(token@, other) == if hmac_sha256(
                other,
                encode_utf8(signing_input(claims_json@)),
            ) == hmac_sha256(secret@, encode_utf8(signing_input(claims_json@))) {
                Ok::<Seq<u8>, JwtError>(claims_json@)
            } else {
                Err::<Seq<u8>, JwtError>(JwtError::BadSignature)
            } by {
            let parts = split_spec(token@, '.');
            assert(parts[0] + "."@ + parts[1] == input@);
        }
    }
    token
}

/// No character of the URL-safe alphabet is a dot.
proof fn lemma_no_dot(s: Seq<char>)
    requires
        forall|i: int| 0 <= i < s.len() ==> url_safe_char(#[trigger] s[i]),
    ensures
        first_index(s, '.') is None,
{
    crate::text::lemma_first_index(s, '.');
    if first_index(s, '.') is Some {
        let i = first_index(s, '.').unwrap();
        assert(url_safe_char(s[i]));
    }
}

/// Three dot-free texts joined by dots split back into themselves.
proof fn lemma_split_three(a: Seq<char>, b: Seq<char>, c: Seq<char>)
    requires
        forall|i: int| 0 <= i < a.len() ==> url_safe_char(#[trigger] a[i]),
        forall|i: int| 0 <= i < b.len() ==> url_safe_char(#[trigger] b[i]),
        forall|i: int| 0 <= i < c.len() ==> url_safe_char(#[trigger] c[i]),
    ensures
        split_spec(a + seq!['.'] + b + seq!['.'] + c, '.') == seq![a, b, c],
{
    let t = a + seq!['.'] + b + seq!['.'] + c;
    let t1 = b + seq!['.'] + c;
    lemma_no_dot(a);
    lemma_no_dot(b);
    lemma_no_dot(c);
    crate::text::lemma_first_index(a, '.');
    crate::text::lemma_first_index(b, '.');
    crate::text::lemma_first_index_at(t, '.', a.len() as int);
    assert(t.take(a.len() as int) =~= a);
    assert(t.skip(a.len() as int + 1) =~= t1);
    crate::text::lemma_first_index_at(t1, '.', b.len() as int);
    assert(t1.take(b.len() as int) =~= b);
    assert(t1.skip(b.len() as int + 1) =~= c);
    assert(split_spec(c, '.') == seq![c]);
    assert(split_spec(t1, '.') =~= seq![b] + seq![c]);
    assert(split_spec(t, '.') =~= seq![a] + (seq![b] + seq![c]));
}

/// Whether two byte strings are equal.
pub(crate) fn bytes_eq(a: &[u8], b: &[u8]) -> (r: bool)
    ensures
        r == (a@ == b@),
{
    if a.len() != b.len() {
        return false;
    }
    let mut i: usize = 0;
    while i < a.len()
        invariant
            i <= a@.len(),
            a@.len() == b@.len(),
            forall|j: int| 0 <= j < i ==> a@[j] == b@[j],
        decreases a.len() - i,
    {
        if a[i] != b[i] {
            return false;
        }
        i += 1;
    }
    assert(a@ =~= b@);
    true
}

/// Checks `token` against `secret` and gives the JSON text of its claims:
/// `Malformed` unless it has exactly three dot-separated parts with a
/// base64url signature and claims, `BadSignature` unless the signature is
/// that of the first two parts under `secret`.
pub fn decode(token: &str, secret: &[u8]) -> (r: Result<Vec<u8>, JwtError>)
    ensures
        match r {
            Ok(v) => decode_spec(token@, secret@) == Ok::<Seq<u8>, JwtError>(v@),
            Err(e) => decode_spec(token@, secret@) == Err::<Seq<u8>, JwtError>(e),
        },
{
    let cs = chars_of(token);
    let n = cs.len();
    let ghost t = token@;
    assert(cs@.subrange(0, n as int) =~= t);
    proof {
        crate::text::lemma_first_index(t, '.');
    }
    let i1 = match find_char(&cs, 0, n, '.') {
        Some(i) => i,
        None => {
            return Err(JwtError::Malformed);
        },
    };
    let ghost t1 = t.skip(i1 + 1);
    assert(cs@.subrange(i1 + 1, n as int) =~= t1);
    assert(split_spec(t, '.') == seq![t.take(i1 as int)] + split_spec(t1, '.'));
    proof {
        crate::text::lemma_first_index(t1, '.');
    }
    let i2 = match find_char(&cs, i1 + 1, n, '.') {
        Some(i) => i1 + 1 + i,
        None => {
            assert(split_spec(t1, '.') == seq![t1]);
            return Err(JwtError::Malformed);
        },
    };
    let ghost t2 = t.skip(i2 + 1);
    assert(t1.skip(i2 - i1) =~= t2);
    assert(cs@.subrange(i2 + 1, n as int) =~= t2);
    assert(split_spec(t1, '.') == seq![t1.take(i2 - i1 - 1)] + split_spec(t2, '.'));
    proof {
        crate::text::lemma_first_index(t2, '.');
    }
    match find_char(&cs, i2 + 1, n, '.') {
        Some(i) => {
            let ghost t3 = t2.skip(i + 1);
            assert(split_spec(t2, '.') == seq![t2.take(i as int)] + split_spec(t3, '.'));
            assert(split_spec(t, '.').len() >= 4);
            return Err(JwtError::Malformed);
        },
        None => {
            assert(split_spec(t2, '.') == seq![t2]);
        },
    }
    let h = string_from_chars(&cs, 0, i1);
    let p = string_from_chars(&cs, i1 + 1, i2);
    let sig = string_from_chars(&cs, i2 + 1, n);
    assert(h@ =~= t.take(i1 as int));
    assert(p@ =~= t1.take(i2 - i1 - 1));
    assert(sig@ =~= t2);
    assert(split_spec(t, '.') =~= seq![h@, p@, sig@]);
    let mut input = h;
    push_str(&mut input, ".");
    push_str(&mut input, p.as_str());
    let expected = sign(input.as_str().as_bytes(), secret);
    let given = match b64_decode(sig.as_str()) {
        Some(g) => g,
        None => {
            return Err(JwtError::Malformed);
        },
    };
    if !bytes_eq(given.as_slice(), expected.as_slice()) {
        return Err(JwtError::BadSignature);
    }
    match b64_decode(p.as_str()) {
        Some(c) => Ok(c),
        None => Err(JwtError::Malformed),
    }
}

/// The claims, unless they expired before `now`.
pub fn check_expiry(claims: Claims, now: u64) -> (r: Result<Claims, JwtError>)
    ensures
        match r {
            Ok(c) => claims.exp >= now && c == claims,
            Err(e) => claims.exp < now && e == JwtError::Expired,
        },
{
    if claims.exp < now {
        Err(JwtError::Expired)
    } else {
        Ok(claims)
    }
}

/// `a + b`, or `u64::MAX` when that does not fit.
pub open spec fn sat_add(a: u64, b: u64) -> u64 {
    if a + b <= u64::MAX {
        (a + b) as u64
    } else {
        u64::MAX
    }
}

/// The claims of an access token for `username` issued at `now`, valid
/// for `ttl_secs` seconds (an expiry past the end of `u64` time stays at
/// its end).
pub fn access_claims(username: &str, now: u64, ttl_secs: u64) -> (r: Claims)
    ensures
        r.sub@ == username@,
        r.iat == now,
        r.exp == sat_add(now, ttl_secs),
{
    Claims { sub: username.to_owned(), iat: now, exp: now.saturating_add(ttl_secs) }
}

/// The claims of an access token for `username` issued now, valid for
/// `ttl_secs` seconds.
pub fn claims_for(username: &str, ttl_secs: u64) -> (r: Claims)
    ensures
        r.sub@ == username@,
        r.exp == sat_add(r.iat, ttl_secs),
{
    access_claims(username, now(), ttl_secs)
}

/// Claims expiring at `exp` have expired at time `now`.
pub open spec fn expired_at(exp: u64, now: u64) -> bool {
    exp < now
}

/// The claims, unless they expired before the current time: the outcome is
/// `check_expiry`'s at the time the clock read.
pub fn check_expiry_now(claims: Claims) -> (r: Result<Claims, JwtError>)
    ensures
        match r {
            Ok(c) => c == claims,
            Err(e) => e == JwtError::Expired,
        },
        exists|t: u64| #[trigger] expired_at(claims.exp, t) == (r is Err),
{
    let t = now();
    let ghost exp = claims.exp;
    let r = check_expiry(claims, t);
    assert(expired_at(exp, t) == (r is Err));
    r
}

/// The current time in whole seconds since the Unix epoch
/// (`std::time::SystemTime::now`). Nothing is promised of the value; a
/// clock set before the epoch reads as 0.
#[verifier::external_body]
pub(crate) fn now() -> u64 {
    match std::time::SystemTime::now().duration_since(std::time::UNIX_EPOCH) {
        Ok(d) => d.as_secs(),
        Err(_) => 0,
    }
}

} // verus!
