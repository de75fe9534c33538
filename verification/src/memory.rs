//! Errors of the memory adapter.

use vstd::prelude::*;

verus! {

/// What can go wrong while storing or retrieving memories.
#[derive(Debug)]
pub enum MemoryError {
    ConnectionError(String),
    SerializationError(String),
    NotFound(String),
    StorageError(String),
    ValidationError(String),
}

impl MemoryError {
    /// A short description of the error kind.
    pub fn kind(&self) -> (r: &'static str)
        ensures
            (self is NotFound) ==> r@ == "not found"@,
    {
        match self {
            MemoryError::ConnectionError(_) => "connection error",
            MemoryError::SerializationError(_) => "serialization error",
            MemoryError::NotFound(_) => "not found",
            MemoryError::StorageError(_) => "storage error",
            MemoryError::ValidationError(_) => "validation error",
        }
    }
}

} // verus!
