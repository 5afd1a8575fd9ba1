//! The error taxonomy shared by the guard, the expander, the materializer and
//! the roster queries, together with its mapping to HTTP status codes.

use vstd::prelude::*;

verus! {

/// The reasons a creation request is rejected before anything is written.
#[derive(Clone, Copy, Debug, PartialEq, Eq, Structural)]
pub enum ValidationFault {
    /// The recurrence rule string is syntactically invalid.
    BadRecurrenceRule,
    /// A requested staff identifier is not a member of the organization.
    UnknownStaff { staff_id: u128 },
    /// The template interval is empty: end <= start.
    EmptyInterval,
}

/// Every failure a request can surface, as a typed result.
#[derive(Clone, Copy, Debug, PartialEq, Eq, Structural)]
pub enum ApiError {
    /// Missing, malformed or expired credential; the sub-kind is never leaked.
    Unauthenticated,
    /// Authenticated, but not authorized for this organization or view.
    Forbidden,
    /// A malformed input, identified by its fault.
    Validation(ValidationFault),
    /// An overlapping assignment, naming the conflicting resource.
    Conflict { staff_id: u128, conflicting_shift_id: u64 },
    /// Storage unavailable or a transaction failure.
    Persistence,
}

/// The HTTP status code each error surfaces as at the request boundary.
pub open spec fn spec_status_code(e: ApiError) -> int {
    match e {
        ApiError::Unauthenticated => 401,
        ApiError::Forbidden => 403,
        ApiError::Validation(_) => 400,
        ApiError::Conflict { .. } => 409,
        ApiError::Persistence => 500,
    }
}

impl ApiError {
    /// The HTTP status code this error surfaces as.
    pub fn status_code(&self) -> (r: u16)
        ensures
            r == spec_status_code(*self),
    {
        match self {
            ApiError::Unauthenticated => 401,
            ApiError::Forbidden => 403,
            ApiError::Validation(_) => 400,
            ApiError::Conflict { .. } => 409,
            ApiError::Persistence => 500,
        }
    }
}

} // verus!
