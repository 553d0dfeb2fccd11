//! Refresh tokens: opaque random ids, each naming a user until it expires,
//! is rotated or is revoked.
use std::collections::HashMap;

use vstd::prelude::*;

use crate::auth::jwt::{now, sat_add};
use crate::ids::new_id;

verus! {

broadcast use vstd::std_specs::hash::group_hash_axioms;

/// A live refresh token: whose it is and when it expires, in seconds since
/// the Unix epoch.
pub struct RefreshRecord {
    pub username: String,
    pub expires_at: u64,
}

/// The live refresh tokens, by id.
pub struct RefreshRegistry {
    tokens: HashMap<u128, RefreshRecord>,
}

/// The live tokens, each with its user and expiry.
pub type TokenMap = Map<u128, (Seq<char>, u64)>;

/// What rotating `old_id` at `now` does: a token that is not live is
/// refused; a live one is spent either way, and unless it expired before
/// `now` it is replaced by `new_id`, for the same user, valid for
/// `ttl_secs` more seconds.
pub open spec fn rotation(tokens: TokenMap, old_id: u128, ttl_secs: u64, now: u64, new_id: u128) -> (
    TokenMap,
    Option<(u128, Seq<char>)>,
) {
    if !tokens.contains_key(old_id) {
        (tokens, None)
    } else {
        let user = tokens[old_id].0;
        let rest = tokens.remove(old_id);
        if tokens[old_id].1 < now {
            (rest, None)
        } else {
            (rest.insert(new_id, (user, sat_add(now, ttl_secs))), Some((new_id, user)))
        }
    }
}

/// A fresh random id that is not `old_id`: the one drawn, or, should the
/// draw hit `old_id` itself, that id with its lowest bit flipped.
pub fn fresh_id_other_than(old_id: u128) -> (r: u128)
    ensures
        r != old_id,
{
    let n = new_id();
    if n == old_id {
        assert(n ^ 1u128 != n) by (bit_vector);
        n ^ 1u128
    } else {
        n
    }
}

/// After a rotation of `old_id` with a different new id, `old_id` is not
/// live, whatever the outcome, and a successful rotation hands out the
/// new id, which is live.
pub proof fn lemma_rotation_spends_old_id(tokens: TokenMap, old_id: u128, ttl_secs: u64, now: u64, new_id: u128)
    requires
        new_id != old_id,
    ensures
        !rotation(tokens, old_id, ttl_secs, now, new_id).0.contains_key(old_id),
        rotation(tokens, old_id, ttl_secs, now, new_id).1 matches Some((id, _)) ==> id == new_id
            && rotation(tokens, old_id, ttl_secs, now, new_id).0.contains_key(id),
{
}

impl RefreshRegistry {
    /// The live tokens.
    pub closed spec fn tokens(&self) -> TokenMap {
        self.tokens@.map_values(|r: RefreshRecord| (r.username@, r.expires_at))
    }

    /// An empty registry.
    pub fn new() -> (r: Self)
        ensures
            r.tokens() == Map::<u128, (Seq<char>, u64)>::empty(),
    {
        let r = RefreshRegistry { tokens: HashMap::new() };
        assert(r.tokens() =~= Map::<u128, (Seq<char>, u64)>::empty());
        r
    }

    /// Issues token `id` for `username` at `now`, valid for `ttl_secs` seconds.
    pub fn issue_at(&mut self, username: &str, ttl_secs: u64, now: u64, id: u128) -> (r: u128)
        ensures
            r == id,
            final(self).tokens() == old(self).tokens().insert(id, (username@, sat_add(now, ttl_secs))),
    {
        let expires_at = now.saturating_add(ttl_secs);
        self.tokens.insert(id, RefreshRecord { username: username.to_owned(), expires_at });
        assert(self.tokens() =~= old(self).tokens().insert(id, (username@, sat_add(now, ttl_secs))));
        id
    }

    /// Issues a fresh random token for `username`, valid for `ttl_secs`
    /// seconds from now.
    pub fn issue(&mut self, username: &str, ttl_secs: u64) -> (r: u128)
        ensures
            exists|t: u64|
                final(self).tokens() == old(self).tokens().insert(r, (username@, sat_add(t, ttl_secs))),
    {
        let t = now();
        self.issue_at(username, ttl_secs, t, new_id())
    }

    /// Spends token `old_id` at `now` and, when it was live and unexpired,
    /// issues `new_id` in its place: gives the new id and the user.
    pub fn rotate_at(&mut self, old_id: u128, ttl_secs: u64, now: u64, new_id: u128) -> (r: Option<
        (u128, String),
    >)
        ensures
            final(self).tokens() == rotation(old(self).tokens(), old_id, ttl_secs, now, new_id).0,
            match r {
                Some((id, user)) => rotation(old(self).tokens(), old_id, ttl_secs, now, new_id).1
                    == Some((id, user@)),
                None => rotation(old(self).tokens(), old_id, ttl_secs, now, new_id).1 is None,
            },
    {
        let record = match self.tokens.remove(&old_id) {
            Some(rec) => rec,
            None => {
                assert(self.tokens() =~= old(self).tokens());
                return None;
            },
        };
        assert(self.tokens() =~= old(self).tokens().remove(old_id));
        if record.expires_at < now {
            return None;
        }
        let username = record.username.as_str().to_owned();
        let ghost before = self.tokens();
        self.tokens.insert(
            new_id,
            RefreshRecord { username: record.username, expires_at: now.saturating_add(ttl_secs) },
        );
        assert(self.tokens() =~= before.insert(new_id, (username@, sat_add(now, ttl_secs))));
        Some((new_id, username))
    }

    /// Spends token `old_id` now and, when it was live and unexpired,
    /// issues a fresh random token in its place: gives the new id and the
    /// user. Afterwards `old_id` is never live, and the new id is never it.
    pub fn rotate(&mut self, old_id: u128, ttl_secs: u64) -> (r: Option<(u128, String)>)
        ensures
            exists|t: u64, n: u128|
                {
                    &&& n != old_id
                    &&& final(self).tokens() == rotation(old(self).tokens(), old_id, ttl_secs, t, n).0
                    &&& match r {
                        Some((id, user)) => rotation(old(self).tokens(), old_id, ttl_secs, t, n).1
                            == Some((id, user@)),
                        None => rotation(old(self).tokens(), old_id, ttl_secs, t, n).1 is None,
                    }
                },
            !final(self).tokens().contains_key(old_id),
            r matches Some((id, _)) ==> id != old_id && final(self).tokens().contains_key(id),
    {
        let t = now();
        let n = fresh_id_other_than(old_id);
        self.rotate_at(old_id, ttl_secs, t, n)
    }

    /// Revokes token `id`, if it is live.
    pub fn revoke(&mut self, id: u128)
        ensures
            final(self).tokens() == old(self).tokens().remove(id),
    {
        let _ = self.tokens.remove(&id);
        assert(self.tokens() =~= old(self).tokens().remove(id));
    }
}

/// A rotated token is spent: rotating it again is refused (unless the
/// replacement happened to get the very same id).
pub proof fn lemma_rotated_token_is_spent(
    tokens: TokenMap,
    old_id: u128,
    ttl_secs: u64,
    now: u64,
    new_id: u128,
    ttl2: u64,
    now2: u64,
    new_id2: u128,
)
    requires
        new_id != old_id,
    ensures
        rotation(rotation(tokens, old_id, ttl_secs, now, new_id).0, old_id, ttl2, now2, new_id2).1 is None,
{
}

/// A revoked token is refused.
pub proof fn lemma_revoked_token_is_refused(tokens: TokenMap, id: u128, ttl_secs: u64, now: u64, new_id: u128)
    ensures
        rotation(tokens.remove(id), id, ttl_secs, now, new_id).1 is None,
{
}

/// A token issued at `issued` for `ttl_secs` seconds rotates, for its user,
/// exactly while `now` has not passed its expiry.
pub proof fn lemma_issued_token_rotates_until_expiry(
    tokens: TokenMap,
    id: u128,
    user: Seq<char>,
    issued: u64,
    ttl_secs: u64,
    ttl2: u64,
    now: u64,
    new_id: u128,
)
    ensures
        rotation(tokens.insert(id, (user, sat_add(issued, ttl_secs))), id, ttl2, now, new_id).1 == if now
            <= sat_add(issued, ttl_secs) {
            Some((new_id, user))
        } else {
            None
        },
{
}

} // verus!
