//! The error taxonomy of the library.

use vstd::prelude::*;

verus! {

/// What went wrong.
#[derive(Clone, Copy, Debug, PartialEq, Eq, Structural)]
pub enum HttmErrorKind {
    /// No mount in the index matches the requested path.
    NoDatasetFound,
    /// Neither a live copy nor a snapshot copy exists for any requested path.
    NoVersionsFound,
    /// A path does not fall under its expected root.
    PathOutsideRoot,
    /// The destroy operation lacks privilege.
    DestroyPermissionDenied,
    /// The external destroy tool failed for another reason.
    DestroyFailure,
    /// No alternate replicated mount exists; soft, disables enrichment only.
    AltMountNotFound,
    /// A precondition of the wipe workflow is violated.
    WipePrecondition,
}

/// An error of this library: a kind from the taxonomy and a human-readable
/// message.
#[derive(Clone, Debug)]
pub struct HttmError {
    pub kind: HttmErrorKind,
    pub details: String,
}

impl HttmError {
    pub fn new(kind: HttmErrorKind, details: String) -> (r: HttmError)
        ensures
            r.kind == kind,
            r.details == details,
    {
        HttmError { kind, details }
    }

    /// The message carried by this error.
    pub fn message(&self) -> (r: &str)
        ensures
            r@ == self.details@,
    {
        self.details.as_str()
    }
}

} // verus!
