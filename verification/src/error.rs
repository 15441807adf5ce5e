//! The result codes every backend reports.
use vstd::prelude::*;

verus! {

/// Why an operation did not succeed, from the mildest to the gravest.
#[derive(Clone, Copy, Debug, PartialEq, Eq, Structural)]
pub enum FsError {
    /// The target does not exist.
    NotFound,
    /// The target exists and the operation asked for a new one.
    Exists,
    /// The operation contradicts what the target is.
    Forbidden,
    /// The handle or backend does not offer the operation.
    NotImplemented,
    /// The transport failed, or the store answered what was not expected.
    GeneralFailure,
}

/// The HTTP status under which an error reaches the client.
pub open spec fn status_of(e: FsError) -> u16 {
    match e {
        FsError::NotFound => 404,
        FsError::Exists => 405,
        FsError::Forbidden => 403,
        FsError::NotImplemented => 501,
        FsError::GeneralFailure => 500,
    }
}

impl FsError {
    /// The HTTP status under which the error reaches the client.
    pub fn status(&self) -> (code: u16)
        ensures
            code == status_of(*self),
    {
        match self {
            FsError::NotFound => 404,
            FsError::Exists => 405,
            FsError::Forbidden => 403,
            FsError::NotImplemented => 501,
            FsError::GeneralFailure => 500,
        }
    }
}

/// The status a property patch reports on success.
pub const STATUS_OK: u16 = 200;

} // verus!
