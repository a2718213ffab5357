//! Error type shared by the library.

use vstd::prelude::*;

verus! {

/// Everything the library can report as a failure.
///
/// Transport failures (HTTP, JSON, I/O, header encoding) are raised around the library and
/// carried here as their rendered message.
#[derive(Debug, Clone, PartialEq, Eq)]
pub enum EspnError {
    Http { message: String },
    Json { message: String },
    Io { message: String },
    InvalidHeader { message: String },
    MissingLeagueId { env_var: String },
    InvalidLeagueId { message: String },
    Cache { message: String },
    NoData,
    InvalidPosition { position: String },
    PlayerNotFound { name: String },
    InvalidScoring,
}

/// Result type used throughout the library.
pub type Result<T> = std::result::Result<T, EspnError>;

} // verus!
