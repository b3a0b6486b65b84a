//! The error taxonomy the mutating operations surface.

use vstd::prelude::*;

verus! {

/// The step of a duplication attempt at which the operation failed.
#[derive(Clone, Copy, Debug, PartialEq, Eq, Structural)]
pub enum Stage {
    /// A storage-level blob copy failed.
    CopyBlob,
    /// The transactional insert of the new project row failed.
    InsertRow,
}

/// Errors surfaced by the mutating operations on projects.
///
/// Authorization refusals (`Unauthenticated`, `Denied`) and `NotFound` are
/// reported before any work starts and never trigger cleanup;
/// `DuplicationFailed` carries the stage at which a duplication attempt was
/// abandoned after compensating cleanup; `StoreUnavailable` is a transient
/// store failure, distinguishable so a client may retry.
#[derive(Clone, Copy, Debug, PartialEq, Eq, Structural)]
pub enum Error {
    /// No authenticated principal accompanied the request.
    Unauthenticated,
    /// The principal is authenticated but does not own the project.
    Denied,
    /// The named project does not exist.
    NotFound,
    /// A mid-flight copy or insert failed; prior copies were cleaned up.
    DuplicationFailed(Stage),
    /// A transient failure of one of the stores.
    StoreUnavailable,
}

} // verus!
