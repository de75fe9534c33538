//! Errors of metrics collection.

use vstd::prelude::*;

verus! {

/// What can go wrong while creating or encoding metrics.
#[derive(Debug)]
pub enum MetricsError {
    CreationError(String),
    EncodingError(String),
}

impl MetricsError {
    /// A short description of the error kind.
    pub fn kind(&self) -> (r: &'static str)
        ensures
            (self is CreationError) ==> r@ == "failed to create metric"@,
            (self is EncodingError) ==> r@ == "failed to encode metrics"@,
    {
        match self {
            MetricsError::CreationError(_) => "failed to create metric",
            MetricsError::EncodingError(_) => "failed to encode metrics",
        }
    }
}

} // verus!
