//! Errors of the service's web front, and what a client is told of each.
//!
//! A client never sees an `Error` itself: it gets an HTTP status and one of the few
//! `ClientError` kinds, which give away nothing of what went on inside.
use vstd::prelude::*;

verus! {

/// What can go wrong while a request is served.
#[derive(Clone, Debug, PartialEq, Eq)]
pub enum Error {
    LoginFail,
    /// No ticket has the identifier that was to be deleted.
    TicketDeleteFailIdNotFound { id: u64 },
    AuthFailNoAuthTokenCookie,
    AuthFailTokenWrongFormat,
    AuthFailCtxNotInRequestExt,
}

/// What a client is told.
#[allow(non_camel_case_types)]
#[derive(Clone, Copy, Debug, PartialEq, Eq, Structural)]
pub enum ClientError {
    LOGIN_FAIL,
    NO_AUTH,
    INVALID_PARAMS,
    SERVICE_ERROR,
}

/// HTTP status 400, Bad Request.
pub const BAD_REQUEST: u16 = 400;

/// HTTP status 403, Forbidden.
pub const FORBIDDEN: u16 = 403;

/// The status and the kind that a client is shown for `error`.
pub open spec fn client_view(error: Error) -> (u16, ClientError) {
    match error {
        Error::LoginFail => (FORBIDDEN, ClientError::LOGIN_FAIL),
        Error::AuthFailNoAuthTokenCookie
        | Error::AuthFailTokenWrongFormat
        | Error::AuthFailCtxNotInRequestExt => (FORBIDDEN, ClientError::NO_AUTH),
        Error::TicketDeleteFailIdNotFound { .. } => (BAD_REQUEST, ClientError::INVALID_PARAMS),
    }
}

impl Error {
    /// The HTTP status and the kind that a client is shown for this error.
    pub fn client_status_and_error(&self) -> (r: (u16, ClientError))
        ensures
            r == client_view(*self),
    {
        match self {
            Error::LoginFail => (FORBIDDEN, ClientError::LOGIN_FAIL),
            Error::AuthFailNoAuthTokenCookie
            | Error::AuthFailTokenWrongFormat
            | Error::AuthFailCtxNotInRequestExt => (FORBIDDEN, ClientError::NO_AUTH),
            Error::TicketDeleteFailIdNotFound { .. } => (
                BAD_REQUEST,
                ClientError::INVALID_PARAMS,
            ),
        }
    }
}

impl ClientError {
    /// The kind's name, as it is written in the body of an error response.
    pub fn as_str(&self) -> (s: &'static str)
        ensures
            s@ == (match *self {
                ClientError::LOGIN_FAIL => "LOGIN_FAIL"@,
                ClientError::NO_AUTH => "NO_AUTH"@,
                ClientError::INVALID_PARAMS => "INVALID_PARAMS"@,
                ClientError::SERVICE_ERROR => "SERVICE_ERROR"@,
            }),
    {
        match self {
            ClientError::LOGIN_FAIL => "LOGIN_FAIL",
            ClientError::NO_AUTH => "NO_AUTH",
            ClientError::INVALID_PARAMS => "INVALID_PARAMS",
            ClientError::SERVICE_ERROR => "SERVICE_ERROR",
        }
    }
}

} // verus!
