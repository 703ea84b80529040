//! Errors that the request handlers answer with.
use vstd::prelude::*;

verus! {

/// An error answered to a client: a refused request, a missing resource, or
/// a failure inside the service.
#[derive(Debug, PartialEq, Eq)]
pub enum AppError {
    BadRequest(String),
    NotFound(String),
    Internal(String),
}

impl AppError {
    /// A refused request with the given message.
    pub fn bad_request(message: &str) -> (res: AppError)
        ensures
            res matches AppError::BadRequest(m) && m@ == message@,
    {
        AppError::BadRequest(message.to_owned())
    }

    /// A missing resource with the given message.
    pub fn not_found(message: &str) -> (res: AppError)
        ensures
            res matches AppError::NotFound(m) && m@ == message@,
    {
        AppError::NotFound(message.to_owned())
    }

    /// A failure inside the service with the given message.
    pub fn internal(message: &str) -> (res: AppError)
        ensures
            res matches AppError::Internal(m) && m@ == message@,
    {
        AppError::Internal(message.to_owned())
    }
}

} // verus!
