//! The authenticated echo WebSocket: the token its upgrade request carries.
use vstd::prelude::*;

use crate::response::AppError;

verus! {

/// The query of a `/ws/secure` upgrade request.
pub struct WsSecureQuery {
    pub token: Option<String>,
}

/// The token a secure upgrade must carry in its query: 401 without one.
pub fn require_query_token(q: WsSecureQuery) -> (r: Result<String, AppError>)
    ensures
        match q.token {
            Some(t) => r matches Ok(s) && s@ == t@,
            None => r matches Err(e) && e.status == 401 && e.code == 401 && e.message@
                == "missing token query parameter"@,
        },
{
    match q.token {
        Some(t) => Ok(t),
        None => Err(AppError::unauthorized("missing token query parameter")),
    }
}

} // verus!
