//! What can go wrong while watching and running the command.

use vstd::prelude::*;

verus! {

/// A failure that the operating system reported: its number, where it gave
/// one, and its message.
#[derive(Clone, Debug, PartialEq, Eq)]
pub struct IoError {
    pub code: Option<i32>,
    pub message: String,
}

#[derive(Clone, Debug, PartialEq, Eq)]
pub enum Error {
    /// A watched path could not be made absolute.
    Canonicalization(String, IoError),
    /// The watcher backend could not be started.
    BackendInit(IoError),
    /// The event channel closed: the backend has gone away.
    BackendReceive,
    /// The command could not be started.
    SpawnFailed(IoError),
    /// A signal could not be delivered to the command.
    SignalFailure(IoError),
    /// The lock on the child slot was poisoned.
    LockPoisoned,
    /// The terminal could not be cleared.
    ClearScreen(String),
}

} // verus!
