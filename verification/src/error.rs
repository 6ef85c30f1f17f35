//! The error type that the library's operations return.
use vstd::prelude::*;

verus! {

/// Why an operation was refused or failed.
#[derive(Debug)]
pub enum AppError {
    /// The thing asked for does not exist.
    NotFound,
    /// No signed-in user, or wrong credentials.
    Unauthorized,
    /// The request is malformed; the text says how.
    BadRequest(String),
    /// The request clashes with existing state; the text says how.
    Conflict(String),
    /// Something failed on the server side.
    Internal(String),
    /// A file-system operation failed.
    Io(String),
    /// A multipart upload could not be read.
    Multipart(String),
}

/// `e` is a `BadRequest` whose text is `m`.
pub open spec fn is_bad_request(e: AppError, m: Seq<char>) -> bool {
    e matches AppError::BadRequest(t) && t@ == m
}

/// `e` is a `Conflict` whose text is `m`.
pub open spec fn is_conflict(e: AppError, m: Seq<char>) -> bool {
    e matches AppError::Conflict(t) && t@ == m
}

/// A `BadRequest` with the text `m`.
pub fn bad_request(m: &str) -> (e: AppError)
    ensures
        is_bad_request(e, m@),
{
    AppError::BadRequest(m.to_owned())
}

/// A `Conflict` with the text `m`.
pub fn conflict(m: &str) -> (e: AppError)
    ensures
        is_conflict(e, m@),
{
    AppError::Conflict(m.to_owned())
}


/// The text that describes an error to a user.
pub open spec fn error_text(e: AppError) -> Seq<char> {
    match e {
        AppError::NotFound => "not found"@,
        AppError::Unauthorized => "unauthorized"@,
        AppError::BadRequest(m) => m@,
        AppError::Conflict(m) => m@,
        AppError::Internal(m) => m@,
        AppError::Io(m) => "io error: "@ + m@,
        AppError::Multipart(m) => "multipart error: "@ + m@,
    }
}

/// The HTTP status that answers an error: 404 for what does not exist, 401 without a
/// valid sign-in, 400 for a malformed request or upload, 409 for a clash with existing
/// state, 500 for a failure on the server side.
pub open spec fn status_of(e: AppError) -> u16 {
    match e {
        AppError::NotFound => 404,
        AppError::Unauthorized => 401,
        AppError::BadRequest(_) => 400,
        AppError::Multipart(_) => 400,
        AppError::Conflict(_) => 409,
        AppError::Internal(_) => 500,
        AppError::Io(_) => 500,
    }
}

impl AppError {
    /// The HTTP status that answers the error.
    pub fn status(&self) -> (s: u16)
        ensures
            s == status_of(*self),
    {
        match self {
            AppError::NotFound => 404,
            AppError::Unauthorized => 401,
            AppError::BadRequest(_) => 400,
            AppError::Multipart(_) => 400,
            AppError::Conflict(_) => 409,
            AppError::Internal(_) => 500,
            AppError::Io(_) => 500,
        }
    }

    /// The text that describes the error to a user.
    pub fn describe(&self) -> (s: String)
        ensures
            s@ == error_text(*self),
    {
        match self {
            AppError::NotFound => "not found".to_owned(),
            AppError::Unauthorized => "unauthorized".to_owned(),
            AppError::BadRequest(m) => m.clone(),
            AppError::Conflict(m) => m.clone(),
            AppError::Internal(m) => m.clone(),
            AppError::Io(m) => {
                let mut s = "io error: ".to_owned();
                s.append(m.as_str());
                s
            },
            AppError::Multipart(m) => {
                let mut s = "multipart error: ".to_owned();
                s.append(m.as_str());
                s
            },
        }
    }
}

} // verus!
