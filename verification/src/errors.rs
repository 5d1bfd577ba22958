//! Error taxonomy for the payment client.

use vstd::prelude::*;

verus! {

/// Everything that can go wrong while creating a payment.
///
/// Transport failures, unexpected HTTP status codes and malformed
/// response bodies are kept apart so that a caller can branch on the
/// kind without inspecting message text.
#[derive(Debug)]
pub enum MollieError {
    /// A connection-level fault: no HTTP response was obtained.
    /// Carries a description of the underlying cause.
    NetworkError(String),
    /// A response was obtained, but its status code was not `201 Created`.
    /// Carries the status code.
    HttpError(u16),
    /// The status code indicated success, but the response body did not
    /// match the expected payment schema.
    DeserializeError,
    /// The required API credential was absent at configuration time.
    EnvError,
}

impl MollieError {
    /// True of transport failures only.
    pub fn is_network_error(&self) -> (r: bool)
        ensures
            r == self is NetworkError,
    {
        match self {
            MollieError::NetworkError(_) => true,
            _ => false,
        }
    }

    /// The status code of an `HttpError`, if this is one.
    pub fn http_status(&self) -> (r: Option<u16>)
        ensures
            match r {
                Some(s) => self matches MollieError::HttpError(c) && s == c,
                None => !(self is HttpError),
            },
    {
        match self {
            MollieError::HttpError(s) => Some(*s),
            _ => None,
        }
    }
}

} // verus!
