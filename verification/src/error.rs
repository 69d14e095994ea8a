//! The errors the tree engine can surface.

use vstd::prelude::*;

verus! {

broadcast use vstd::string::group_string_axioms;

/// What can go wrong while operating on the tree. Store failures are
/// surfaced verbatim; a proof that fails to check is an ordinary
/// boolean outcome, not an error.
#[derive(Debug)]
pub enum SMTError {
    /// The backing key-value store reported a failure.
    KVStoreError(String),
    /// A proof was structurally unusable.
    InvalidProof,
    /// The backend does not support the requested operation.
    UnsupportedOperation,
}

impl SMTError {
    /// A human-readable description of the error.
    pub fn message(&self) -> (m: String)
        ensures
            self is KVStoreError ==> m@ == self->KVStoreError_0@,
            self is InvalidProof ==> m@ == "Invalid proof"@,
            self is UnsupportedOperation ==> m@ == "Unsupported operation"@,
    {
        match self {
            SMTError::KVStoreError(s) => s.clone(),
            SMTError::InvalidProof => "Invalid proof".to_string(),
            SMTError::UnsupportedOperation => "Unsupported operation".to_string(),
        }
    }
}

} // verus!
