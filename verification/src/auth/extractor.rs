//! Who a request is: the bearer token it carries, and the user a checked
//! token names.
use vstd::prelude::*;

use crate::auth::jwt::{Claims, JwtError};
use crate::response::AppError;
use crate::text::{has_prefix, strip_prefix};

verus! {

/// A request's authenticated user.
#[derive(Debug)]
pub struct AuthUser {
    pub username: String,
}

/// The token of an Authorization header of the form `Bearer <token>`.
pub open spec fn bearer_token(header: Seq<char>) -> Option<Seq<char>> {
    if has_prefix(header, "Bearer "@) {
        Some(header.skip(7))
    } else {
        None
    }
}

/// The bearer token of an `Authorization` header value, if it has one.
pub fn extract_bearer(authorization: Option<&str>) -> (r: Option<String>)
    ensures
        match authorization {
            Some(h) => match bearer_token(h@) {
                Some(t) => r matches Some(s) && s@ == t,
                None => r is None,
            },
            None => r is None,
        },
{
    match authorization {
        Some(h) => {
            proof {
                reveal_strlit("Bearer ");
            }
            strip_prefix(h, "Bearer ")
        },
        None => None,
    }
}

/// The bearer token a request must carry: 401 without one.
pub fn require_bearer(authorization: Option<&str>) -> (r: Result<String, AppError>)
    ensures
        match authorization {
            Some(h) if bearer_token(h@) is Some => r matches Ok(s) && Some(s@) == bearer_token(h@),
            _ => r matches Err(e) && e.status == 401 && e.code == 401 && e.message@
                == "missing bearer token"@,
        },
{
    match extract_bearer(authorization) {
        Some(t) => Ok(t),
        None => Err(AppError::unauthorized("missing bearer token")),
    }
}

/// The user named by a checked token: 401 when the token was refused.
pub fn user_from_claims(checked: Result<Claims, JwtError>) -> (r: Result<AuthUser, AppError>)
    ensures
        match checked {
            Ok(c) => r matches Ok(u) && u.username@ == c.sub@,
            Err(_) => r matches Err(e) && e.status == 401 && e.code == 401 && e.message@
                == "invalid or expired token"@,
        },
{
    match checked {
        Ok(c) => Ok(AuthUser { username: c.sub }),
        Err(_) => Err(AppError::unauthorized("invalid or expired token")),
    }
}

} // verus!
