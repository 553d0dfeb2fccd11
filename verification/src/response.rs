//! The uniform JSON envelope of the REST API, `{code, data, message}`, and
//! the errors that become it.
use vstd::prelude::*;

verus! {

/// A response body: business code `0` for success, the data, and a
/// human-readable message.
#[derive(Debug)]
pub struct ApiResponse<T> {
    pub code: i32,
    pub data: T,
    pub message: String,
}

impl<T> ApiResponse<T> {
    /// A successful response carrying `data`.
    pub fn ok(data: T) -> (r: Self)
        ensures
            r.code == 0,
            r.data == data,
            r.message@ == "ok"@,
    {
        ApiResponse { code: 0, data, message: "ok".to_owned() }
    }
}

/// A failed request: the HTTP status, the business code and the message
/// of its response.
#[derive(Debug)]
pub struct AppError {
    pub status: u16,
    pub code: i32,
    pub message: String,
}

/// The message of the error returned while the server is overloaded.
pub const OVERLOADED_MESSAGE: &'static str = "server under high load, please retry";

impl AppError {
    /// An error with the given status, business code and message.
    pub fn new(status: u16, code: i32, message: &str) -> (r: Self)
        ensures
            r.status == status,
            r.code == code,
            r.message@ == message@,
    {
        AppError { status, code, message: message.to_owned() }
    }

    /// 401: the request is not authenticated.
    pub fn unauthorized(message: &str) -> (r: Self)
        ensures
            r.status == 401,
            r.code == 401,
            r.message@ == message@,
    {
        Self::new(401, 401, message)
    }

    /// 400: the request is invalid.
    pub fn bad_request(message: &str) -> (r: Self)
        ensures
            r.status == 400,
            r.code == 400,
            r.message@ == message@,
    {
        Self::new(400, 400, message)
    }

    /// 409: the request conflicts with what exists.
    pub fn conflict(message: &str) -> (r: Self)
        ensures
            r.status == 409,
            r.code == 409,
            r.message@ == message@,
    {
        Self::new(409, 409, message)
    }

    /// 503: the server is overloaded.
    pub fn service_unavailable() -> (r: Self)
        ensures
            r.status == 503,
            r.code == 503,
            r.message@ == OVERLOADED_MESSAGE@,
    {
        Self::new(503, 503, OVERLOADED_MESSAGE)
    }
}

} // verus!
