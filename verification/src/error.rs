//! The error taxonomy of the request router.
//!
//! Every failure a request can end in is one of four HTTP-level classes:
//! a forbidden path (403), a missing resource (404), an unrepresentable
//! request (400), or an internal failure (500). Each value carries a short
//! message and a longer description for the error page.

use vstd::prelude::*;

verus! {

/// One request-level failure, tagged with its HTTP class.
#[derive(Debug, Clone)]
pub enum HttpError {
    Forbidden { message: String, description: String },
    NotFound { message: String, description: String },
    BadRequest { message: String, description: String },
    InternalServerError { message: String, description: String },
}

impl HttpError {
    /// The HTTP status code this error class maps to.
    pub open spec fn spec_status_code(&self) -> u16 {
        match self {
            HttpError::Forbidden { .. } => 403,
            HttpError::NotFound { .. } => 404,
            HttpError::BadRequest { .. } => 400,
            HttpError::InternalServerError { .. } => 500,
        }
    }

    pub fn forbidden(message: &str, description: &str) -> (e: Self)
        ensures
            e matches HttpError::Forbidden { message: m, description: d } && m@ == message@ && d@
                == description@,
    {
        HttpError::Forbidden { message: message.to_owned(), description: description.to_owned() }
    }

    pub fn not_found(message: &str, description: &str) -> (e: Self)
        ensures
            e matches HttpError::NotFound { message: m, description: d } && m@ == message@ && d@
                == description@,
    {
        HttpError::NotFound { message: message.to_owned(), description: description.to_owned() }
    }

    pub fn bad_request(message: &str, description: &str) -> (e: Self)
        ensures
            e matches HttpError::BadRequest { message: m, description: d } && m@ == message@ && d@
                == description@,
    {
        HttpError::BadRequest { message: message.to_owned(), description: description.to_owned() }
    }

    pub fn internal_error(message: &str, description: &str) -> (e: Self)
        ensures
            e matches HttpError::InternalServerError { message: m, description: d } && m@
                == message@ && d@ == description@,
    {
        HttpError::InternalServerError {
            message: message.to_owned(),
            description: description.to_owned(),
        }
    }

    pub fn status_code(&self) -> (code: u16)
        ensures
            code == self.spec_status_code(),
    {
        match self {
            HttpError::Forbidden { .. } => 403,
            HttpError::NotFound { .. } => 404,
            HttpError::BadRequest { .. } => 400,
            HttpError::InternalServerError { .. } => 500,
        }
    }
}

} // verus!
