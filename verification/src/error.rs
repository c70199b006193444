//! Errors of the service, and the HTTP status each one is answered with.

use vstd::prelude::*;

verus! {

/// What went wrong while answering a request.
#[derive(Clone, Debug, PartialEq, Eq)]
pub enum AppError {
    NotFound(String),
    BadRequest(String),
    Upstream(String),
}

/// The HTTP status code that answers an error: 404 for a missing repository
/// or branch, 400 for a bad request, 502 for a failure upstream.
pub open spec fn status_of(e: AppError) -> u16 {
    match e {
        AppError::NotFound(_) => 404,
        AppError::BadRequest(_) => 400,
        AppError::Upstream(_) => 502,
    }
}

/// The message an error carries.
pub open spec fn message_of(e: AppError) -> Seq<char> {
    match e {
        AppError::NotFound(m) => m@,
        AppError::BadRequest(m) => m@,
        AppError::Upstream(m) => m@,
    }
}

impl AppError {
    /// The HTTP status code of this error.
    pub fn status_code(&self) -> (code: u16)
        ensures
            code == status_of(*self),
    {
        match self {
            AppError::NotFound(_) => 404,
            AppError::BadRequest(_) => 400,
            AppError::Upstream(_) => 502,
        }
    }

    /// Splits the error into the status code and the message that answer it.
    pub fn into_parts(self) -> (parts: (u16, String))
        ensures
            parts.0 == status_of(self),
            parts.1@ == message_of(self),
    {
        match self {
            AppError::NotFound(m) => (404, m),
            AppError::BadRequest(m) => (400, m),
            AppError::Upstream(m) => (502, m),
        }
    }
}

/// Status codes 500 to 599 are server errors; the others answered here are
/// client errors.
pub open spec fn is_server_error_code(code: u16) -> bool {
    500 <= code < 600
}

/// A missing repository or a bad request is the client's fault; only an
/// upstream failure is answered as a server error.
pub proof fn lemma_only_upstream_is_server_error(e: AppError)
    ensures
        is_server_error_code(status_of(e)) <==> (e is Upstream),
{
}

} // verus!
