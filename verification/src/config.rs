//! Configuration values and configuration errors.

pub mod cli_args;
pub mod error;
