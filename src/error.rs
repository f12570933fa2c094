//! Failures of the store and of the engine.

use vstd::prelude::*;

verus! {

/// Failures of the conversation store.
#[derive(Debug, Clone, Copy, PartialEq, Eq, Structural)]
pub enum StorageError {
    /// No thread carries the given id.
    ThreadNotFound(i64),
    /// A stored role text is not one of the four role names.
    UnknownRole,
    /// The id or timestamp counters have reached their largest value.
    Exhausted,
    /// Persisted rows break the store's rules (duplicate or out-of-range
    /// ids, threads out of order, a message without its thread, a thread
    /// not opened by a system message).
    Inconsistent,
}

/// Failures surfaced by the conversation engine.
#[derive(Debug, Clone, Copy, PartialEq, Eq, Structural)]
pub enum Error {
    /// The backend could not be reached (connection refused, timeout).
    BackendUnreachable,
    /// The backend answered with a non-success status or an unexpected body.
    BackendProtocol,
    /// One streamed line could not be decoded.
    StreamDecode,
    /// A generation was asked for before any model was selected.
    ModelNotSelected,
    /// Two message parts of different roles were to be merged.
    RoleMismatch,
    /// The conversation store refused the operation.
    Storage(StorageError),
}

} // verus!
