//! Configuration sources: configuration files and environment variables.

pub mod env;
pub mod file;
