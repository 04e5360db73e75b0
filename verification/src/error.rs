//! The crate's error type, its message text and the HTTP answer each
//! error gets.
use vstd::prelude::*;

use crate::text::push_str;

verus! {

/// Errors of the application.
#[derive(Debug)]
pub enum Error {
    /// A database failure, with the driver's message.
    Database(String),
    NhlApi(String),
    NotFound(String),
    Validation(String),
    Internal(String),
    Unauthorized(String),
    Forbidden(String),
    Conflict(String),
}

/// Body of an error answer.
#[derive(Debug)]
pub struct ErrorResponse {
    pub success: bool,
    pub error: String,
}

/// Message prefix of each kind of error.
pub open spec fn error_prefix(e: Error) -> Seq<char> {
    match e {
        Error::Database(_) => "Database error: "@,
        Error::NhlApi(_) => "NHL API error: "@,
        Error::NotFound(_) => "Not found: "@,
        Error::Validation(_) => "Validation error: "@,
        Error::Internal(_) => "Internal error: "@,
        Error::Unauthorized(_) => "Unauthorized: "@,
        Error::Forbidden(_) => "Forbidden: "@,
        Error::Conflict(_) => "Conflict: "@,
    }
}

/// The detail an error carries.
pub open spec fn error_detail(e: Error) -> Seq<char> {
    match e {
        Error::Database(m) => m@,
        Error::NhlApi(m) => m@,
        Error::NotFound(m) => m@,
        Error::Validation(m) => m@,
        Error::Internal(m) => m@,
        Error::Unauthorized(m) => m@,
        Error::Forbidden(m) => m@,
        Error::Conflict(m) => m@,
    }
}

/// HTTP status of each kind of error.
pub open spec fn error_status(e: Error) -> u16 {
    match e {
        Error::Database(_) => 500,
        Error::NhlApi(_) => 502,
        Error::NotFound(_) => 404,
        Error::Validation(_) => 400,
        Error::Unauthorized(_) => 401,
        Error::Forbidden(_) => 403,
        Error::Conflict(_) => 409,
        Error::Internal(_) => 500,
    }
}

/// Message shown to the client: the detail for client errors, a fixed
/// text for server-side failures (whose detail is only logged).
pub open spec fn client_message(e: Error) -> Seq<char> {
    match e {
        Error::Database(_) => "Database error occurred"@,
        Error::NhlApi(_) => "External service error"@,
        Error::Internal(_) => "Internal server error"@,
        _ => error_detail(e),
    }
}

impl Error {
    /// The error's text: its kind's prefix followed by its detail.
    pub fn describe(&self) -> (r: String)
        ensures
            r@ == error_prefix(*self) + error_detail(*self),
    {
        let (prefix, detail) = match self {
            Error::Database(m) => ("Database error: ", m),
            Error::NhlApi(m) => ("NHL API error: ", m),
            Error::NotFound(m) => ("Not found: ", m),
            Error::Validation(m) => ("Validation error: ", m),
            Error::Internal(m) => ("Internal error: ", m),
            Error::Unauthorized(m) => ("Unauthorized: ", m),
            Error::Forbidden(m) => ("Forbidden: ", m),
            Error::Conflict(m) => ("Conflict: ", m),
        };
        let mut s = String::from_str(prefix);
        push_str(&mut s, detail.as_str());
        s
    }

    /// The HTTP status and body the error is answered with.
    pub fn to_response(&self) -> (r: (u16, ErrorResponse))
        ensures
            r.0 == error_status(*self),
            !r.1.success,
            r.1.error@ == client_message(*self),
    {
        let (status, message) = match self {
            Error::Database(_) => (500u16, String::from_str("Database error occurred")),
            Error::NhlApi(_) => (502u16, String::from_str("External service error")),
            Error::NotFound(m) => (404u16, m.clone()),
            Error::Validation(m) => (400u16, m.clone()),
            Error::Unauthorized(m) => (401u16, m.clone()),
            Error::Forbidden(m) => (403u16, m.clone()),
            Error::Conflict(m) => (409u16, m.clone()),
            Error::Internal(_) => (500u16, String::from_str("Internal server error")),
        };
        (status, ErrorResponse { success: false, error: message })
    }
}

/// Server-side failures answer 5xx and never leak their detail; client
/// errors answer 4xx with their own detail.
pub proof fn lemma_server_errors_hide_detail(e: Error)
    ensures
        (e is Database || e is NhlApi || e is Internal) ==> error_status(e) >= 500,
        !(e is Database || e is NhlApi || e is Internal) ==> 400 <= error_status(e) < 500
            && client_message(e) == error_detail(e),
{
}

} // verus!
