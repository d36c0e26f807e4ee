use vstd::prelude::*;

verus! {

/// The failures that the workspace operations report.
#[derive(Debug, Clone, Copy, PartialEq, Eq, Structural)]
pub enum Error {
    /// The named workspace or directory is absent.
    NotFound,
    /// The directory is already a member of the workspace.
    AlreadyExists,
    /// The store could not hold the change (an exhausted id space, a missing owner row).
    StorageError,
    /// A workspace name that is already taken.
    ConstraintViolation,
}

} // verus!
