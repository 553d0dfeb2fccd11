//! The registered users, held in memory: each name once, with its salt and
//! password hash.
use vstd::prelude::*;

use crate::assoc::{
    distinct_keys, lemma_lookup, lemma_lookup_at, lemma_lookup_push, lemma_lookup_update, lookup,
};
use crate::text::str_eq;

verus! {

/// A registered user.
pub struct User {
    pub username: String,
    pub salt: [u8; 16],
    pub password_hash: [u8; 32],
}

/// What is stored of a user: salt and password hash.
pub struct Credential {
    pub salt: Seq<u8>,
    pub password_hash: Seq<u8>,
}

pub open spec fn credential(u: User) -> Credential {
    Credential { salt: u.salt@, password_hash: u.password_hash@ }
}

pub open spec fn user_entries(us: Seq<User>) -> Seq<(Seq<char>, Credential)> {
    us.map_values(|u: User| (u.username@, credential(u)))
}

/// The registered users, in registration order, each name once. They are
/// held as a list rather than a hash map keyed by name: with `String` keys
/// the map's specifications in vstd give nothing to prove lookups from,
/// while the list's lookups are proved here.
pub struct UserStore {
    users: Vec<User>,
}

impl UserStore {
    #[verifier::type_invariant]
    spec fn wf(self) -> bool {
        distinct_keys(user_entries(self.users@))
    }

    /// The stored credential of `username`, if registered.
    pub closed spec fn user(&self, username: Seq<char>) -> Option<Credential> {
        lookup(user_entries(self.users@), username)
    }

    /// No users.
    pub fn new() -> (r: Self)
        ensures
            forall|n: Seq<char>| r.user(n) is None,
    {
        let r = UserStore { users: Vec::new() };
        assert(user_entries(r.users@) =~= Seq::empty());
        r
    }

    /// The user registered as `username`, if any.
    pub fn find(&self, username: &str) -> (r: Option<&User>)
        ensures
            match self.user(username@) {
                Some(c) => r matches Some(u) && u.username@ == username@ && credential(*u) == c,
                None => r is None,
            },
    {
        proof {
            use_type_invariant(self);
        }
        let ghost e = user_entries(self.users@);
        let mut i: usize = 0;
        while i < self.users.len()
            invariant
                i <= self.users@.len(),
                e == user_entries(self.users@),
                distinct_keys(e),
                forall|j: int| 0 <= j < i ==> e[j].0 != username@,
            decreases self.users.len() - i,
        {
            if str_eq(self.users[i].username.as_str(), username) {
                proof {
                    lemma_lookup_at(e, i as int);
                }
                return Some(&self.users[i]);
            }
            i += 1;
        }
        proof {
            lemma_lookup(e, username@);
        }
        None
    }

    /// Whether `username` is registered.
    pub fn contains(&self, username: &str) -> (r: bool)
        ensures
            r == self.user(username@) is Some,
    {
        self.find(username).is_some()
    }

    /// Where `username` is stored, if it is.
    fn position(&self, username: &str) -> (r: Option<usize>)
        ensures
            match r {
                Some(i) => i < self.users@.len() && user_entries(self.users@)[i as int].0 == username@,
                None => self.user(username@) is None,
            },
    {
        let ghost e = user_entries(self.users@);
        let mut i: usize = 0;
        while i < self.users.len()
            invariant
                i <= self.users@.len(),
                e == user_entries(self.users@),
                forall|j: int| 0 <= j < i ==> e[j].0 != username@,
            decreases self.users.len() - i,
        {
            if str_eq(self.users[i].username.as_str(), username) {
                return Some(i);
            }
            i += 1;
        }
        proof {
            lemma_lookup(e, username@);
        }
        None
    }

    /// Stores `user` under its name, replacing any user stored under it.
    pub fn insert(&mut self, user: User)
        ensures
            forall|n: Seq<char>|
                #[trigger] final(self).user(n) == if n == user.username@ {
                    Some(credential(user))
                } else {
                    old(self).user(n)
                },
    {
        proof {
            use_type_invariant(&*self);
        }
        let ghost e = user_entries(self.users@);
        let ghost k = user.username@;
        let ghost c = credential(user);
        proof {
            lemma_lookup(e, k);
        }
        let pos = self.position(user.username.as_str());
        let mut users: Vec<User> = Vec::new();
        std::mem::swap(&mut users, &mut self.users);
        match pos {
            Some(i) => {
                users.set(i, user);
                assert(user_entries(users@) =~= e.update(i as int, (e[i as int].0, c)));
                proof {
                    lemma_lookup_update(e, i as int, c, k);
                }
                assert forall|n: Seq<char>| #[trigger] lookup(user_entries(users@), n) == if n == k {
                    Some(c)
                } else {
                    lookup(e, n)
                } by {
                    lemma_lookup_update(e, i as int, c, n);
                }
            },
            None => {
                users.push(user);
                assert(user_entries(users@) =~= e.push((k, c)));
                assert forall|a: int, b: int| 0 <= a < b < user_entries(users@).len() implies user_entries(
                    users@,
                )[a].0 != user_entries(users@)[b].0 by {
                    if b == e.len() {
                        assert(user_entries(users@)[a] == e[a]);
                    }
                }
                assert forall|n: Seq<char>| #[trigger] lookup(user_entries(users@), n) == if n == k {
                    Some(c)
                } else {
                    lookup(e, n)
                } by {
                    lemma_lookup_push(e, k, c, n);
                }
            },
        }
        self.users = users;
    }
}

} // verus!
