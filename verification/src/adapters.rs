//! Protocol adapter types and the adapter contract.

use vstd::prelude::*;

verus! {

/// A protocol-independent message.
#[derive(Clone, Debug)]
pub struct UniversalMessage {
    pub message_id: String,
}

/// A protocol-specific message envelope.
#[derive(Clone, Debug)]
pub struct ProtocolMessage {
    pub body: Vec<u8>,
}

/// Options of a message conversion.
#[derive(Clone, Copy, Debug, PartialEq, Eq, Structural)]
pub struct ConversionOptions {
    pub strict: bool,
}

impl Default for ConversionOptions {
    /// Lenient conversion.
    fn default() -> (r: Self)
        ensures
            !r.strict,
    {
        ConversionOptions { strict: false }
    }
}

/// One capability a protocol offers.
#[derive(Clone, Debug)]
pub struct ProtocolCapability {
    pub name: String,
}

/// Coarse health of an adapter.
#[derive(Clone, Copy, Debug, PartialEq, Eq, Structural)]
pub enum HealthStatus {
    Healthy,
    Degraded,
    Unhealthy,
}

/// Errors of protocol adapters.
#[derive(Debug)]
pub enum AdapterError {
    TranslationError(String),
    ValidationError(String),
    ProtocolError(String),
}

impl AdapterError {
    /// A short description of the error kind.
    pub fn kind(&self) -> (r: &'static str)
        ensures
            (self is TranslationError) ==> r@ == "translation failed"@,
    {
        match self {
            AdapterError::TranslationError(_) => "translation failed",
            AdapterError::ValidationError(_) => "validation failed",
            AdapterError::ProtocolError(_) => "protocol error",
        }
    }
}

/// The contract of a protocol-specific adapter.  Implementations live
/// with their protocols, outside this crate.
pub trait ProtocolAdapter {
    /// The protocol's identifier.
    fn protocol(&self) -> &str;

    /// The protocol's version.
    fn version(&self) -> &str;
}

} // verus!
