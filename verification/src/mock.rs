//! `/api/mock`: a response shaped entirely by the request's parameters.
use vstd::prelude::*;

use crate::response::{ApiResponse, AppError};
use crate::text::{decimal, push_str, u64_to_string};

verus! {

/// The longest delay a mock response may be asked to wait, in milliseconds.
pub const MAX_DELAY_MS: u64 = 10_000;

/// The parameters of `GET /api/mock` (the query string carries `data` as text).
pub struct MockQuery {
    pub delay_ms: Option<u64>,
    pub status: Option<u16>,
    pub code: Option<i32>,
    pub message: Option<String>,
    pub data: Option<String>,
}

/// The parameters of `POST /api/mock` (the JSON body carries any `data`).
pub struct MockBody<T> {
    pub delay_ms: Option<u64>,
    pub status: Option<u16>,
    pub code: Option<i32>,
    pub message: Option<String>,
    pub data: Option<T>,
}

/// What a mock request gets: wait `delay_ms`, then answer with `outcome`,
/// either an HTTP status and a body, or an error.
pub struct MockPlan<T> {
    pub delay_ms: u64,
    pub outcome: Result<(u16, ApiResponse<Option<T>>), AppError>,
}

/// The delay asked for, capped at `MAX_DELAY_MS`; none means none.
pub open spec fn mock_delay(delay_ms: Option<u64>) -> u64 {
    match delay_ms {
        Some(d) => if d <= MAX_DELAY_MS {
            d
        } else {
            MAX_DELAY_MS
        },
        None => 0,
    }
}

/// An HTTP status code, 100 to 599.
pub open spec fn valid_status(s: u16) -> bool {
    100 <= s && s <= 599
}

/// The plan for a mock request: the capped delay; then, when the status
/// (200 if none) is a valid HTTP status, that status and a body of the given
/// business code (0 if none), data and message ("mock response" if none);
/// otherwise a 400 naming the status.
pub open spec fn mock_plan<T>(
    delay_ms: Option<u64>,
    status: Option<u16>,
    code: Option<i32>,
    message: Option<Seq<char>>,
    data: Option<T>,
    r: MockPlan<T>,
) -> bool {
    let s = match status {
        Some(s) => s,
        None => 200u16,
    };
    &&& r.delay_ms == mock_delay(delay_ms)
    &&& if valid_status(s) {
        &&& r.outcome matches Ok((st, body))
        &&& st == s
        &&& body.code == match code {
            Some(c) => c,
            None => 0i32,
        }
        &&& body.data == data
        &&& body.message@ == match message {
            Some(m) => m,
            None => "mock response"@,
        }
    } else {
        &&& r.outcome matches Err(e)
        &&& e.status == 400 && e.code == 400
        &&& e.message@ == "invalid status code: "@ + decimal(s as nat)
    }
}

pub open spec fn opt_string_view(o: Option<String>) -> Option<Seq<char>> {
    match o {
        Some(s) => Some(s@),
        None => None,
    }
}

/// Plans the response to a mock request (see `mock_plan`).
pub fn build_mock_response<T>(
    delay_ms: Option<u64>,
    status: Option<u16>,
    code: Option<i32>,
    message: Option<String>,
    data: Option<T>,
) -> (r: MockPlan<T>)
    ensures
        mock_plan(delay_ms, status, code, opt_string_view(message), data, r),
{
    let delay = match delay_ms {
        Some(d) => if d <= MAX_DELAY_MS {
            d
        } else {
            MAX_DELAY_MS
        },
        None => 0,
    };
    let s: u16 = match status {
        Some(s) => s,
        None => 200,
    };
    if s < 100 || s > 599 {
        let mut msg = String::new();
        push_str(&mut msg, "invalid status code: ");
        let digits = u64_to_string(s as u64);
        push_str(&mut msg, digits.as_str());
        return MockPlan { delay_ms: delay, outcome: Err(AppError::bad_request(msg.as_str())) };
    }
    let body = ApiResponse {
        code: match code {
            Some(c) => c,
            None => 0,
        },
        data,
        message: match message {
            Some(m) => m,
            None => "mock response".to_owned(),
        },
    };
    MockPlan { delay_ms: delay, outcome: Ok((s, body)) }
}

/// Plans the response to `GET /api/mock`.
pub fn mock_get(q: MockQuery) -> (r: MockPlan<String>)
    ensures
        mock_plan(q.delay_ms, q.status, q.code, opt_string_view(q.message), q.data, r),
{
    build_mock_response(q.delay_ms, q.status, q.code, q.message, q.data)
}

/// Plans the response to `POST /api/mock`.
pub fn mock_post<T>(b: MockBody<T>) -> (r: MockPlan<T>)
    ensures
        mock_plan(b.delay_ms, b.status, b.code, opt_string_view(b.message), b.data, r),
{
    build_mock_response(b.delay_ms, b.status, b.code, b.message, b.data)
}

} // verus!
