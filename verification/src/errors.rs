//! The error taxonomy of the lifecycle manager.

use vstd::prelude::*;

verus! {

/// Why a lifecycle operation did not complete.
///
/// The first five are genuine failure kinds; the last two are not
/// failures but the sequential rendering of this layer's two suspension
/// points — waiting on the admission gate, and waiting for an asynchronous
/// close to finish — which a driver answers by completing closes and
/// retrying.
#[derive(Clone, Copy, PartialEq, Eq, Structural, Debug)]
pub enum SnapshotError {
    /// The prior snapshot cannot be located where one is required.
    SnapshotNotFound,
    /// A create or open-for-write collided with an existing directory or an
    /// existing cache entry for the same path.
    SnapshotAlreadyExists,
    /// The non-blocking admission path found the admission gate saturated.  Always
    /// recoverable by retrying or backing off.
    SemaphoreTryAcquireError,
    /// Copy-on-write duplication is unsupported or failed while the
    /// configuration mandates copy-on-write.  A configuration error.
    SnapshotCowCreation,
    /// The fallback bulk copy of the prior snapshot failed.  Fatal.
    SnapshotCopyFailure,
    /// A programming-contract violation, such as destroying a snapshot that
    /// is open exclusively for write.  A defect, not a recoverable state.
    InvariantViolation,
    /// A blocking admission would have to wait: the admission gate is full.  Retry
    /// once a close has completed.
    AdmissionWouldBlock,
    /// An asynchronous close is in flight for this directory.  Retry once it
    /// has been completed.
    CloseInProgress,
}

} // verus!
