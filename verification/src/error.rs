//! Every failure of a run, and the words it is reported with.

use vstd::prelude::*;
use crate::cli::ArgumentError;
use crate::config::ConfigError;
use crate::invoker::{ExecError, SpawnError};
use crate::protocol::DecodeError;

verus! {

/// Why a run failed.
#[derive(Clone, Copy, Debug, PartialEq, Eq, Structural)]
pub enum Error {
    Argument(ArgumentError),
    Decode(DecodeError),
    Config(ConfigError),
    Exec(ExecError),
}

/// The words that an error is reported with.
pub open spec fn spec_message(e: Error) -> Seq<char> {
    match e {
        Error::Argument(ArgumentError::TooManyArgs) => "too many arguments"@,
        Error::Decode(DecodeError::InvalidScheme) => "the URL does not begin with handler://"@,
        Error::Decode(DecodeError::UnknownPlugin) => "the URL names no known plugin"@,
        Error::Decode(DecodeError::InvalidTarget) => "the URL holds no playable target"@,
        Error::Decode(DecodeError::DecodeFailure) => "the URL is not properly percent-encoded"@,
        Error::Config(ConfigError::Unreadable) => "the configuration cannot be read"@,
        Error::Config(ConfigError::Malformed) => "the configuration is malformed"@,
        Error::Config(ConfigError::MissingPlayer) => "the configuration names no player"@,
        Error::Exec(ExecError::Spawn(SpawnError::PlayerNotFound)) => "the player was not found"@,
        Error::Exec(ExecError::Spawn(SpawnError::SpawnFailed)) => "the player could not be started"@,
    }
}

impl Error {
    /// The words that this error is reported with.
    pub fn message(&self) -> (r: &'static str)
        ensures
            r@ == spec_message(*self),
    {
        match self {
            Error::Argument(ArgumentError::TooManyArgs) => "too many arguments",
            Error::Decode(DecodeError::InvalidScheme) => "the URL does not begin with handler://",
            Error::Decode(DecodeError::UnknownPlugin) => "the URL names no known plugin",
            Error::Decode(DecodeError::InvalidTarget) => "the URL holds no playable target",
            Error::Decode(DecodeError::DecodeFailure) => "the URL is not properly percent-encoded",
            Error::Config(ConfigError::Unreadable) => "the configuration cannot be read",
            Error::Config(ConfigError::Malformed) => "the configuration is malformed",
            Error::Config(ConfigError::MissingPlayer) => "the configuration names no player",
            Error::Exec(ExecError::Spawn(SpawnError::PlayerNotFound)) => "the player was not found",
            Error::Exec(ExecError::Spawn(SpawnError::SpawnFailed)) => "the player could not be started",
        }
    }
}

} // verus!
