//! The failures that the library's operations report.

use vstd::prelude::*;
use crate::text::push_str;

verus! {

/// The closed set of failure kinds.
#[derive(Debug, Clone, PartialEq, Eq)]
pub enum StorageError {
    /// A verification found that a stored identifier does not match the
    /// content: `expected` is the stored value, `actual` the recomputed one.
    InvalidSaid { expected: String, actual: String },
    /// A record could not be turned into its serialized form or back.
    SerializationError(String),
    /// A digest could not be given its canonical encoding.
    CesrError(String),
    /// A backend reported a failure; the message is the backend's.
    StorageError(String),
    /// A lookup that had to find something found nothing.
    NotFound(String),
}

/// The message of an error.
pub open spec fn message_of(e: StorageError) -> Seq<char> {
    match e {
        StorageError::InvalidSaid { expected, actual } => "Invalid SAID: expected "@ + expected@
            + ", got "@ + actual@,
        StorageError::SerializationError(m) => "Serialization error: "@ + m@,
        StorageError::CesrError(m) => "CESR error: "@ + m@,
        StorageError::StorageError(m) => "Storage error: "@ + m@,
        StorageError::NotFound(m) => "Not found: "@ + m@,
    }
}

impl StorageError {
    /// A message that names the kind of failure and its details.
    pub fn message(&self) -> (r: String)
        ensures
            r@ == message_of(*self),
    {
        let mut out = String::new();
        match self {
            StorageError::InvalidSaid { expected, actual } => {
                push_str(&mut out, "Invalid SAID: expected ");
                push_str(&mut out, expected.as_str());
                push_str(&mut out, ", got ");
                push_str(&mut out, actual.as_str());
            },
            StorageError::SerializationError(m) => {
                push_str(&mut out, "Serialization error: ");
                push_str(&mut out, m.as_str());
            },
            StorageError::CesrError(m) => {
                push_str(&mut out, "CESR error: ");
                push_str(&mut out, m.as_str());
            },
            StorageError::StorageError(m) => {
                push_str(&mut out, "Storage error: ");
                push_str(&mut out, m.as_str());
            },
            StorageError::NotFound(m) => {
                push_str(&mut out, "Not found: ");
                push_str(&mut out, m.as_str());
            },
        }
        assert(out@ =~= message_of(*self));
        out
    }
}

} // verus!
