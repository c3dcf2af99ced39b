//! What can go wrong when a client is asked for.

use vstd::prelude::*;

verus! {

/// Why one attempt to launch a client failed.
#[derive(Clone, Debug, PartialEq, Eq)]
pub enum AttemptFailure {
    /// The server process could not be started.
    Spawn(String),
    /// The initialization handshake took longer than the configured timeout.
    InitializationTimeout,
    /// The initialization handshake was answered with an error.
    Initialization(String),
}

/// The errors that an acquisition reports.
#[derive(Clone, Debug, PartialEq, Eq)]
pub enum PoolError {
    /// No adapter is registered for the file's extension or for the
    /// language identifier. Never retried.
    UnsupportedLanguage,
    /// Every launch attempt failed; the failure of the last one is kept.
    /// Without any attempt there is none to keep.
    ClientCreationFailed(Option<AttemptFailure>),
}

} // verus!
