//! The refusals that the management interface answers a request with.
use vstd::prelude::*;

verus! {

pub const BAD_REQUEST: u16 = 400;
pub const UNAUTHORIZED: u16 = 401;
pub const FORBIDDEN: u16 = 403;
pub const NOT_FOUND: u16 = 404;
pub const CONFLICT: u16 = 409;
pub const TOO_MANY_REQUESTS: u16 = 429;
pub const INTERNAL_SERVER_ERROR: u16 = 500;
pub const BAD_GATEWAY: u16 = 502;
pub const SERVICE_UNAVAILABLE: u16 = 503;

/// A refusal: the HTTP status, the message for the user, and a code where a program acts on it.
#[derive(Debug, Clone)]
pub struct ApiError {
    pub status: u16,
    pub message: String,
    pub code: Option<&'static str>,
}

/// What a refusal tells: the user, and a program that acts on it.
pub ghost struct Refusal {
    pub status: u16,
    pub message: Seq<char>,
    pub code: Option<Seq<char>>,
}

/// A refusal with a message that carries no code.
pub open spec fn refusal_of(status: u16, message: Seq<char>) -> Option<Refusal> {
    Some(Refusal { status, message, code: None })
}

/// A refusal with a fixed message that carries no code.
pub open spec fn refusal(status: u16, message: &str) -> Option<Refusal> {
    refusal_of(status, message@)
}

/// The refusal for a request without a valid session.
pub open spec fn no_session() -> Option<Refusal> {
    Some(
        Refusal {
            status: UNAUTHORIZED,
            message: "登录已过期，请重新登录"@,
            code: Some("session_expired"@),
        },
    )
}

/// What a refusal tells.
pub open spec fn told(e: ApiError) -> Option<Refusal> {
    Some(
        Refusal {
            status: e.status,
            message: e.message@,
            code: match e.code {
                Some(code) => Some(code@),
                None => None,
            },
        },
    )
}

impl ApiError {
    pub fn new(status: u16, message: &str) -> (r: ApiError)
        ensures
            told(r) == refusal(status, message),
    {
        ApiError { status, message: message.to_owned(), code: None }
    }

    /// The refusal for a request without a valid session.
    pub fn session_expired() -> (r: ApiError)
        ensures
            told(r) == no_session(),
    {
        ApiError {
            status: UNAUTHORIZED,
            message: "登录已过期，请重新登录".to_owned(),
            code: Some("session_expired"),
        }
    }
}

} // verus!
