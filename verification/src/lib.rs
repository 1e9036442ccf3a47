//! A configuration watcher: configuration values read from JSON and TOML
//! files and from environment variables, merged into one map that is kept up
//! to date as the sources change.

pub mod sources;
pub mod state;
pub mod text;
pub mod value;
pub mod watcher;

pub use state::{ConfigState, ConfigUpdate};
pub use value::{ConfigMap, ConfigValue, Content};

use vstd::prelude::*;

verus! {

/// The declaration of `std::io::Error`, which `ConfigError::Io` carries.
#[verifier::external_type_specification]
#[verifier::external_body]
pub struct ExIoError(std::io::Error);

/// Errors that can occur during config watching operations.
#[derive(Debug)]
pub enum ConfigError {
    Io(std::io::Error),
    Parse(String),
    Watch(String),
    SourceNotFound(String),
    ChannelClosed,
}

} // verus!
