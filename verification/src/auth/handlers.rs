//! What the authentication endpoints decide: registration, login, refresh
//! token rotation and logout, and the token pair handed out.
use vstd::prelude::*;

use crate::auth::jwt::{encode, sat_add, token_spec};
use crate::auth::password::{generate_salt, hash_password, password_hash};
use crate::auth::refresh::{rotation, RefreshRegistry};
use crate::auth::user_store::{Credential, User, UserStore};
use crate::ids::{id_from_text, id_text, id_to_string, parse_id};
use crate::response::AppError;
use crate::text::chars_of;

verus! {

/// How long an access token is valid, in seconds (15 minutes).
pub const ACCESS_TTL_SECS: u64 = 900;

/// How long a refresh token is valid, in seconds (7 days).
pub const REFRESH_TTL_SECS: u64 = 604_800;

/// A username and password, as a client sent them.
pub struct Credentials {
    pub username: String,
    pub password: String,
}

/// A refresh token, as a client sent it.
pub struct RefreshRequest {
    pub refresh_token: String,
}

/// What a successful login or refresh hands out.
pub struct TokenGrant {
    pub access_token: String,
    pub refresh_token: String,
    pub token_type: &'static str,
    pub expires_in: u64,
}

/// `e` is the error with this HTTP status (also its business code) and message.
pub open spec fn is_error(e: AppError, status: u16, message: Seq<char>) -> bool {
    &&& e.status == status
    &&& e.code == status as i32
    &&& e.message@ == message
}

/// The grant of access token `access_token` and refresh token `refresh_id`.
pub open spec fn grant_spec(g: TokenGrant, access_token: Seq<char>, refresh_id: u128) -> bool {
    &&& g.access_token@ == access_token
    &&& g.refresh_token@ == id_text(refresh_id)
    &&& g.token_type@ == "Bearer"@
    &&& g.expires_in == ACCESS_TTL_SECS
}

/// The grant of `access_token` and refresh token `refresh_id`.
pub fn grant(access_token: String, refresh_id: u128) -> (r: TokenGrant)
    ensures
        grant_spec(r, access_token@, refresh_id),
{
    TokenGrant {
        access_token,
        refresh_token: id_to_string(refresh_id),
        token_type: "Bearer",
        expires_in: ACCESS_TTL_SECS,
    }
}

/// What registering `creds` with `salt` does, from store `s0` to `s1` with
/// result `r`: refused when either field is empty or the name is taken,
/// the store unchanged; otherwise the user is stored with the hash of the
/// password under `salt`, and the name is returned.
pub open spec fn registration(
    s0: UserStore,
    s1: UserStore,
    creds: Credentials,
    salt: Seq<u8>,
    r: Result<String, AppError>,
) -> bool {
    if creds.username@.len() == 0 || creds.password@.len() == 0 {
        &&& r matches Err(e) && is_error(e, 400, "username and password are required"@)
        &&& forall|n: Seq<char>| #[trigger] s1.user(n) == s0.user(n)
    } else if s0.user(creds.username@) is Some {
        &&& r matches Err(e) && is_error(e, 409, "username already registered"@)
        &&& forall|n: Seq<char>| #[trigger] s1.user(n) == s0.user(n)
    } else {
        &&& r matches Ok(name) && name@ == creds.username@
        &&& forall|n: Seq<char>|
            #[trigger] s1.user(n) == if n == creds.username@ {
                Some(Credential { salt, password_hash: password_hash(creds.password@, salt) })
            } else {
                s0.user(n)
            }
    }
}

/// Registers `creds` with `salt` (see `registration`).
pub fn register_with_salt(store: &mut UserStore, creds: &Credentials, salt: [u8; 16]) -> (r: Result<
    String,
    AppError,
>)
    ensures
        registration(*old(store), *final(store), *creds, salt@, r),
{
    if chars_of(creds.username.as_str()).len() == 0 || chars_of(creds.password.as_str()).len() == 0 {
        return Err(AppError::bad_request("username and password are required"));
    }
    if store.contains(creds.username.as_str()) {
        return Err(AppError::conflict("username already registered"));
    }
    let password_hash = hash_password(creds.password.as_str(), &salt);
    store.insert(User { username: creds.username.as_str().to_owned(), salt, password_hash });
    Ok(creds.username.as_str().to_owned())
}

/// Registers `creds` with a fresh random 16-byte salt (see `registration`).
pub fn register(store: &mut UserStore, creds: &Credentials) -> (r: Result<String, AppError>)
    ensures
        exists|salt: Seq<u8>| salt.len() == 16 && registration(*old(store), *final(store), *creds, salt, r),
{
    let salt = generate_salt();
    let r = register_with_salt(store, creds, salt);
    assert(salt@.len() == 16);
    r
}

/// Checks `creds`: the registered name, when the password hashes to the
/// stored hash under the stored salt; 401 otherwise.
pub fn login(store: &UserStore, creds: &Credentials) -> (r: Result<String, AppError>)
    ensures
        match store.user(creds.username@) {
            Some(c) if password_hash(creds.password@, c.salt) == c.password_hash => r matches Ok(
                name,
            ) && name@ == creds.username@,
            _ => r matches Err(e) && is_error(e, 401, "invalid username or password"@),
        },
{
    match store.find(creds.username.as_str()) {
        Some(user) => {
            if crate::auth::password::verify_password(
                creds.password.as_str(),
                &user.salt,
                &user.password_hash,
            ) {
                Ok(user.username.as_str().to_owned())
            } else {
                Err(AppError::unauthorized("invalid username or password"))
            }
        },
        None => Err(AppError::unauthorized("invalid username or password")),
    }
}

/// Rotates the refresh token `req` names at `now`, issuing `new_id`: the
/// new id and the user; 401 when the text is not a token id, or the token
/// is not live or expired.
pub fn refresh_at(registry: &mut RefreshRegistry, req: &RefreshRequest, now: u64, new_id: u128) -> (r:
    Result<(u128, String), AppError>)
    ensures
        match id_from_text(req.refresh_token@) {
            None => r matches Err(e) && is_error(e, 401, "invalid refresh token"@) && final(registry).tokens() == old(registry).tokens(),
            Some(old_id) => {
                let (tokens, out) = rotation(old(registry).tokens(), old_id, REFRESH_TTL_SECS, now, new_id);
                &&& final(registry).tokens() == tokens
                &&& match out {
                    Some((id, user)) => r matches Ok((i, u)) && i == id && u@ == user,
                    None => r matches Err(e) && is_error(
                        e,
                        401,
                        "refresh token invalid, expired, or already used"@,
                    ),
                }
            },
        },
{
    let old_id = match parse_id(req.refresh_token.as_str()) {
        Some(id) => id,
        None => {
            return Err(AppError::unauthorized("invalid refresh token"));
        },
    };
    match registry.rotate_at(old_id, REFRESH_TTL_SECS, now, new_id) {
        Some((id, user)) => Ok((id, user)),
        None => Err(AppError::unauthorized("refresh token invalid, expired, or already used")),
    }
}

/// Rotates the refresh token `req` names, now, issuing a fresh random id
/// (see `refresh_at`). The submitted token is spent either way, and the new
/// one is never the submitted one.
pub fn refresh(registry: &mut RefreshRegistry, req: &RefreshRequest) -> (r: Result<(u128, String), AppError>)
    ensures
        match id_from_text(req.refresh_token@) {
            None => r matches Err(e) && is_error(e, 401, "invalid refresh token"@) && final(registry).tokens() == old(registry).tokens(),
            Some(old_id) => exists|t: u64, n: u128|
                {
                    let (tokens, out) = #[trigger] rotation(
                        old(registry).tokens(),
                        old_id,
                        REFRESH_TTL_SECS,
                        t,
                        n,
                    );
                    &&& n != old_id
                    &&& final(registry).tokens() == tokens
                    &&& match out {
                        Some((id, user)) => r matches Ok((i, u)) && i == id && u@ == user,
                        None => r matches Err(e) && is_error(
                            e,
                            401,
                            "refresh token invalid, expired, or already used"@,
                        ),
                    }
                },
        },
        match id_from_text(req.refresh_token@) {
            Some(old_id) => {
                &&& !final(registry).tokens().contains_key(old_id)
                &&& r matches Ok((id, _)) ==> id != old_id && final(registry).tokens().contains_key(id)
            },
            None => true,
        },
{
    let t = crate::auth::jwt::now();
    let n = match parse_id(req.refresh_token.as_str()) {
        Some(old_id) => crate::auth::refresh::fresh_id_other_than(old_id),
        None => crate::ids::new_id(),
    };
    refresh_at(registry, req, t, n)
}

/// Revokes the refresh token `req` names, if its text is a token id.
pub fn logout(registry: &mut RefreshRegistry, req: &RefreshRequest)
    ensures
        final(registry).tokens() == match id_from_text(req.refresh_token@) {
            Some(id) => old(registry).tokens().remove(id),
            None => old(registry).tokens(),
        },
{
    match parse_id(req.refresh_token.as_str()) {
        Some(id) => registry.revoke(id),
        None => {},
    }
}

/// Hands out the tokens of a login: the access token signing
/// `claims_json` (the JSON text of the user's claims) with `secret`, and a
/// fresh refresh token for `username`.
pub fn issue_tokens(registry: &mut RefreshRegistry, secret: &[u8], username: &str, claims_json: &[u8]) -> (r:
    TokenGrant)
    requires
        claims_json@.len() <= usize::MAX / 4,
    ensures
        exists|t: u64, id: u128|
            {
                &&& grant_spec(r, token_spec(claims_json@, secret@), id)
                &&& final(registry).tokens() == old(registry).tokens().insert(
                    id,
                    (username@, sat_add(t, REFRESH_TTL_SECS)),
                )
            },
{
    let access_token = encode(claims_json, secret);
    let id = registry.issue(username, REFRESH_TTL_SECS);
    grant(access_token, id)
}

/// A user who registered can log in with the same name and password: the
/// store then holds a credential whose hash is the password's under its salt.
pub proof fn lemma_registered_user_can_log_in(
    s0: UserStore,
    s1: UserStore,
    creds: Credentials,
    salt: Seq<u8>,
    r: Result<String, AppError>,
)
    requires
        registration(s0, s1, creds, salt, r),
        r is Ok,
    ensures
        s1.user(creds.username@) matches Some(c) && password_hash(creds.password@, c.salt)
            == c.password_hash,
{
}

} // verus!
