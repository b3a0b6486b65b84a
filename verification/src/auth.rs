//! The authorization guard: a pure predicate over the principal, the
//! requested operation and the ownership metadata, decoupled from any
//! transport so it can be exercised and reasoned about on its own.

use vstd::prelude::*;

use crate::error::Error;
use crate::project::PrincipalId;
use crate::project::ProjectRow;

verus! {

/// The operations the guard rules on.  `Create` is allowed for any
/// authenticated principal; the others mutate an existing project and
/// require ownership of it.
#[derive(Clone, Copy, Debug, PartialEq, Eq, Structural)]
pub enum Operation {
    Create,
    Update,
    Duplicate,
    Delete,
}

/// Why the guard refused a request.
#[derive(Clone, Copy, Debug, PartialEq, Eq, Structural)]
pub enum DenyReason {
    /// No authenticated principal accompanied the request.
    Unauthenticated,
    /// The project does not exist.  Existence is reported rather than
    /// hidden, and every operation applies this policy uniformly.
    NotFound,
    /// The principal is authenticated but does not own the project.
    NotOwner,
}

/// The guard's verdict.
#[derive(Clone, Copy, Debug, PartialEq, Eq, Structural)]
pub enum Decision {
    Allowed,
    Denied(DenyReason),
}

/// What the guard decides, as a pure function of the principal, the owner of
/// the project under request (`None` when no such project exists), and the
/// operation.
pub open spec fn spec_authorize(
    principal: Option<PrincipalId>,
    owner: Option<PrincipalId>,
    op: Operation,
) -> Decision {
    match principal {
        None => Decision::Denied(DenyReason::Unauthenticated),
        Some(u) => match op {
            Operation::Create => Decision::Allowed,
            _ => match owner {
                None => Decision::Denied(DenyReason::NotFound),
                Some(o) => if o == u {
                    Decision::Allowed
                } else {
                    Decision::Denied(DenyReason::NotOwner)
                },
            },
        },
    }
}

/// The owner of the project under request, if the project exists.
pub open spec fn owner_of(project: Option<&ProjectRow>) -> Option<PrincipalId> {
    match project {
        None => None,
        Some(p) => Some(p.owner),
    }
}

/// The authorization guard: a pure read of ownership metadata, with no side
/// effects.  `project` is the row the request names, or `None` when no row
/// with the requested id exists.
pub fn authorize(
    principal: Option<PrincipalId>,
    project: Option<&ProjectRow>,
    op: Operation,
) -> (d: Decision)
    ensures
        d == spec_authorize(principal, owner_of(project), op),
{
    match principal {
        None => Decision::Denied(DenyReason::Unauthenticated),
        Some(u) => match op {
            Operation::Create => Decision::Allowed,
            _ => match project {
                None => Decision::Denied(DenyReason::NotFound),
                Some(p) => if p.owner == u {
                    Decision::Allowed
                } else {
                    Decision::Denied(DenyReason::NotOwner)
                },
            },
        },
    }
}

/// Maps a guard refusal to the error surfaced to the caller.  `NotFound` is
/// kept distinct from `Denied` so that absence and refusal stay
/// distinguishable, uniformly across operations.
pub fn deny_to_error(rz: DenyReason) -> (e: Error)
    ensures
        e == spec_deny_to_error(rz),
{
    match rz {
        DenyReason::Unauthenticated => Error::Unauthenticated,
        DenyReason::NotFound => Error::NotFound,
        DenyReason::NotOwner => Error::Denied,
    }
}

/// The error corresponding to each refusal reason.
pub open spec fn spec_deny_to_error(rz: DenyReason) -> Error {
    match rz {
        DenyReason::Unauthenticated => Error::Unauthenticated,
        DenyReason::NotFound => Error::NotFound,
        DenyReason::NotOwner => Error::Denied,
    }
}

} // verus!
