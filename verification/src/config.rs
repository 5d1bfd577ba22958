//! Configuration for accessing the Mollie API.

use vstd::prelude::*;
use crate::errors::MollieError;

verus! {

/// Holds the API credential used for bearer authentication.
pub struct Config {
    pub mollie_api_key: String,
}

impl Config {
    /// Builds a configuration from a credential that the caller read
    /// from its environment, or from wherever it keeps secrets.
    ///
    /// The credential is required: its absence is a configuration
    /// error, reported before any network activity can take place.
    pub fn new(mollie_api_key: Option<String>) -> (r: Result<Config, MollieError>)
        ensures
            match r {
                Ok(c) => mollie_api_key matches Some(k) && c.mollie_api_key == k,
                Err(e) => mollie_api_key is None && e is EnvError,
            },
    {
        match mollie_api_key {
            Some(k) => Ok(Config { mollie_api_key: k }),
            None => Err(MollieError::EnvError),
        }
    }

    /// The value of the `Authorization` header for this configuration:
    /// the bearer scheme with the configured credential.
    pub fn bearer_header_value(&self) -> (r: String)
        ensures
            r@ == "Bearer "@ + self.mollie_api_key@,
    {
        let mut out = String::from_str("Bearer ");
        out.append(self.mollie_api_key.as_str());
        out
    }
}

} // verus!
