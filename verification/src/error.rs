use vstd::prelude::*;

verus! {

/// The error taxonomy of the core: authorization and structural errors are
/// rejected synchronously, before any mutation takes place. Failures that are
/// discovered asynchronously (a malformed operation against the actual data
/// shape, a worker-side fault) are never raised as call errors; they are
/// recorded as a `Failed` status with a captured payload.
#[derive(Debug, Copy, Clone, PartialEq, Eq, Structural)]
pub enum Error {
    /// The caller has no valid session at all.
    NotAuthenticated,
    /// The caller has no role on the owning project.
    InvalidPermissions,
    /// The operation needs at least the Editor role.
    RequiresEditor,
    /// The operation needs the Admin role.
    RequiresAdmin,
    /// An identity token that is not validly encoded.
    InvalidToken,
    /// The entity is absent, or a decoded token references no row.
    NotFound,
    /// The mutation would break a structural invariant, such as removing the
    /// last Admin of a project or deleting a root dataview.
    InvariantViolation,
    /// A call into the physical-data store or the blob store failed.
    UpstreamFailure,
    /// Operation arguments rejected by the pipeline; normally recorded as a
    /// `Failed` status with a payload rather than surfaced synchronously.
    ValidationFailure,
}

pub open spec fn message_of(e: Error) -> Seq<char> {
    match e {
        Error::NotAuthenticated => "not authenticated"@,
        Error::InvalidPermissions => "invalid permissions"@,
        Error::RequiresEditor => "requires Editor privileges"@,
        Error::RequiresAdmin => "requires Admin privileges"@,
        Error::InvalidToken => "invalid token"@,
        Error::NotFound => "not found"@,
        Error::InvariantViolation => "invariant violation"@,
        Error::UpstreamFailure => "upstream failure"@,
        Error::ValidationFailure => "validation failure"@,
    }
}

impl Error {
    /// A short, fixed denial message for the caller.
    pub fn message(&self) -> (r: &'static str)
        ensures
            r@ == message_of(*self),
    {
        match self {
            Error::NotAuthenticated => "not authenticated",
            Error::InvalidPermissions => "invalid permissions",
            Error::RequiresEditor => "requires Editor privileges",
            Error::RequiresAdmin => "requires Admin privileges",
            Error::InvalidToken => "invalid token",
            Error::NotFound => "not found",
            Error::InvariantViolation => "invariant violation",
            Error::UpstreamFailure => "upstream failure",
            Error::ValidationFailure => "validation failure",
        }
    }
}

} // verus!
