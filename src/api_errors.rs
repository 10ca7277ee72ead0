//! The closed set of errors the API reports to clients, and the HTTP status
//! that goes with each of them.

use vstd::prelude::*;

verus! {

/// Every error the API returns is one of these, so that clients can
/// translate each possible message.
#[derive(Debug, Clone, Copy, PartialEq, Eq, Structural)]
pub enum ApiError {
    // Internal server errors
    DbConnAcquire,
    DbError,
    DbTransactionBegin,
    DbTransactionCommit,
    // User-facing errors
    UsernameTooShort,
    PasswordTooShort,
    PasswordsDontMatch,
    InvalidCredentials,
    UsernameTaken,
    /// No or malformed session token.
    MissingSession,
    /// Very probably an expired session token, or just a spoofed one.
    InvalidSession,
    NoSuchSlug,
    NoSuchFile,
    SlugTaken,
}

/// The HTTP status code that an error is reported with.
pub open spec fn status_of(e: ApiError) -> u16 {
    match e {
        ApiError::DbConnAcquire => 503,
        ApiError::DbError | ApiError::DbTransactionBegin | ApiError::DbTransactionCommit => 500,
        ApiError::UsernameTooShort
        | ApiError::PasswordTooShort
        | ApiError::PasswordsDontMatch
        | ApiError::InvalidCredentials
        | ApiError::UsernameTaken
        | ApiError::SlugTaken => 400,
        ApiError::MissingSession | ApiError::InvalidSession => 403,
        ApiError::NoSuchSlug | ApiError::NoSuchFile => 404,
    }
}

impl ApiError {
    /// Status code of the response that carries this error: 400 for invalid
    /// input, 403 for a missing or invalid session, 404 for an unknown slug or
    /// file, 500 for database failures and 503 when no connection is free.
    pub fn status_code(&self) -> (r: u16)
        ensures
            r == status_of(*self),
    {
        match self {
            ApiError::DbConnAcquire => 503,
            ApiError::DbError | ApiError::DbTransactionBegin | ApiError::DbTransactionCommit => 500,
            ApiError::UsernameTooShort
            | ApiError::PasswordTooShort
            | ApiError::PasswordsDontMatch
            | ApiError::InvalidCredentials
            | ApiError::UsernameTaken
            | ApiError::SlugTaken => 400,
            ApiError::MissingSession | ApiError::InvalidSession => 403,
            ApiError::NoSuchSlug | ApiError::NoSuchFile => 404,
        }
    }
}

} // verus!
