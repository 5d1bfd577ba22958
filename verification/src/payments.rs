//! Operations related to payments.

pub mod create;
