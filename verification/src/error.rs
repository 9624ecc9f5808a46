//! The unified error taxonomy. Callers of a logical file operation see one
//! set of errors whichever execution path — ring or blocking fallback —
//! carried it out. A short transfer is not an error: it is reported as a
//! successful completion with the transferred count. An unavailable
//! capability is not an error either: it only selects the fallback path,
//! and never propagates to the caller of an operation.

use vstd::prelude::*;

verus! {

/// Why a logical file operation failed. Fatal to the operation, never to
/// the process.
#[derive(Clone, Copy, Debug, PartialEq, Eq, Structural)]
pub enum FsError {
    /// The target does not exist and creation was not requested.
    NotFound,
    /// The target's permissions forbid the requested access.
    PermissionDenied,
    /// Exclusive creation was requested and the target already exists.
    AlreadyExists,
    /// The submission queue is full; retryable once completions drain.
    RingSaturated,
    /// The device or kernel reported a failure.
    IoError,
    /// The operation was cancelled before it completed.
    Cancelled,
}

} // verus!
