//! Errors of the server and the JSON response each one is answered with.

use vstd::prelude::*;
use crate::strings::string_from;

verus! {

pub const API_KEY_INVALID_ERR_MSG: &'static str = "API key invalid.";
pub const API_KEY_MISSING_ERR_MSG: &'static str = "API key missing.";
pub const INTERNAL_SERVER_ERR_MSG: &'static str = "Internal server error.";
pub const UNAUTHORIZED_ERR_MSG: &'static str = "Unauthorized.";
pub const TOO_MANY_REQUESTS_MSG: &'static str = "Too many requests";

/// HTTP status codes that the server answers with.
pub const STATUS_BAD_REQUEST: u16 = 400;
pub const STATUS_UNAUTHORIZED: u16 = 401;
pub const STATUS_PAYLOAD_TOO_LARGE: u16 = 413;
pub const STATUS_UNPROCESSABLE_ENTITY: u16 = 422;
pub const STATUS_TOO_MANY_REQUESTS: u16 = 429;
pub const STATUS_INTERNAL_SERVER_ERROR: u16 = 500;

/// Why an API key was not accepted.
#[derive(Debug, Clone, Copy, PartialEq, Eq, Structural)]
pub enum APIKeyError {
    Invalid,
    Missing,
}

/// An error of a request. The errors of the database, the connection pool and
/// the key-value store carry their message; statuses carry their HTTP code.
#[derive(Debug, PartialEq, Eq)]
pub enum Error {
    APIKey(APIKeyError),
    Custom(u16, String),
    Default,
    Diesel(String),
    R2D2(String),
    RateLimit,
    Redis(String),
    Status(u16),
    Unauthorized,
}

/// The body and status that answer a failed request.
#[derive(Debug, PartialEq, Eq)]
pub struct Response {
    pub message: String,
    pub status: u16,
}

/// The message and status that an error is answered with.
pub open spec fn spec_response(err: Error) -> (Seq<char>, u16) {
    match err {
        Error::APIKey(APIKeyError::Invalid) => (API_KEY_INVALID_ERR_MSG@, STATUS_UNAUTHORIZED),
        Error::APIKey(APIKeyError::Missing) => (API_KEY_MISSING_ERR_MSG@, STATUS_UNAUTHORIZED),
        Error::RateLimit => (TOO_MANY_REQUESTS_MSG@, STATUS_TOO_MANY_REQUESTS),
        Error::Status(status) => (Seq::<char>::empty(), status),
        Error::Unauthorized => (UNAUTHORIZED_ERR_MSG@, STATUS_UNAUTHORIZED),
        _ => (INTERNAL_SERVER_ERR_MSG@, STATUS_INTERNAL_SERVER_ERROR),
    }
}

impl APIKeyError {
    /// The text of the error.
    pub fn message(&self) -> (m: &'static str)
        ensures
            m@ == (match self {
                APIKeyError::Invalid => "Invalid API key."@,
                APIKeyError::Missing => "Missing API Key."@,
            }),
    {
        match self {
            APIKeyError::Invalid => "Invalid API key.",
            APIKeyError::Missing => "Missing API Key.",
        }
    }
}

impl Response {
    /// Answers an error: API-key, rate-limit, status and authorization errors
    /// keep their meaning; every other error is an internal server error.
    pub fn from(err: Error) -> (r: Response)
        ensures
            (r.message@, r.status) == spec_response(err),
    {
        match err {
            Error::APIKey(err) => match err {
                APIKeyError::Invalid => Response {
                    message: string_from(API_KEY_INVALID_ERR_MSG),
                    status: STATUS_UNAUTHORIZED,
                },
                APIKeyError::Missing => Response {
                    message: string_from(API_KEY_MISSING_ERR_MSG),
                    status: STATUS_UNAUTHORIZED,
                },
            },
            Error::RateLimit => Response {
                message: string_from(TOO_MANY_REQUESTS_MSG),
                status: STATUS_TOO_MANY_REQUESTS,
            },
            Error::Status(status) => Response { message: String::new(), status },
            Error::Unauthorized => Response {
                message: string_from(UNAUTHORIZED_ERR_MSG),
                status: STATUS_UNAUTHORIZED,
            },
            _ => Response {
                message: string_from(INTERNAL_SERVER_ERR_MSG),
                status: STATUS_INTERNAL_SERVER_ERROR,
            },
        }
    }
}

} // verus!
