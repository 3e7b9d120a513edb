//! The error taxonomy of the storage core.

use vstd::prelude::*;

verus! {

/// Failures a storage operation can report: a bucket name rejected before any
/// storage work, a missing bucket or object on a read path, and an underlying
/// storage failure carrying a human-readable cause.
#[derive(Debug, PartialEq)]
pub enum DomainError {
    ValidationError(String),
    BucketNotFound(String),
    ObjectNotFound(String),
    StorageError(String),
}

impl DomainError {
    /// A descriptive line for this error, suitable for reporting to a user.
    pub fn message(&self) -> (r: String)
        ensures
            (self matches DomainError::ValidationError(n) ==> r@ == "Invalid bucket name: "@
                + n@),
            (self matches DomainError::BucketNotFound(n) ==> r@ == "Bucket not found: "@ + n@),
            (self matches DomainError::ObjectNotFound(k) ==> r@ == "Object not found: "@ + k@),
            (self matches DomainError::StorageError(c) ==> r@ == "Storage error: "@ + c@),
    {
        match self {
            DomainError::ValidationError(n) => String::from_str("Invalid bucket name: ").concat(
                n.as_str(),
            ),
            DomainError::BucketNotFound(n) => String::from_str("Bucket not found: ").concat(
                n.as_str(),
            ),
            DomainError::ObjectNotFound(k) => String::from_str("Object not found: ").concat(
                k.as_str(),
            ),
            DomainError::StorageError(c) => String::from_str("Storage error: ").concat(c.as_str()),
        }
    }
}

} // verus!
