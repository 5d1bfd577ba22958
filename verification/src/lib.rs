//! Client binding for the Mollie "create payment" endpoint.
//!
//! The library builds the JSON body for a payment-creation request,
//! parses the JSON body of a response, and classifies the outcome of
//! the HTTP exchange.  The network call itself is left to the caller:
//! the caller performs one POST and hands the status code and body (or
//! the transport failure) back to [`payments::create::complete_payment`].

pub mod config;
pub mod errors;
pub mod json;
pub mod payments;

pub use config::Config;
pub use errors::MollieError;
