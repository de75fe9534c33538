//! The agent schema's top-level kinds and validation errors.

use vstd::prelude::*;
use crate::component_types::Protocols;
use crate::components::Identity;
use vstd::string::StringExecFns;

verus! {

/// The schema version agents are written against.
pub open spec fn schema_version_spec() -> Seq<char> {
    "2.0.0"@
}

/// The schema version agents are written against.
pub fn schema_version() -> (r: &'static str)
    ensures
        r@ == schema_version_spec(),
{
    "2.0.0"
}

/// How an agent is implemented.
#[derive(Clone, Copy, Debug, PartialEq, Eq, Structural)]
pub enum AgentImplementationType {
    Mcp,
    MultiAgent,
    Orchestrated,
}

/// Errors of agent schema validation.
#[derive(Debug)]
pub enum ValidationError {
    InvalidSchemaVersion(String),
    MissingField(String),
    InvalidValue { field: String, value: String },
}

impl ValidationError {
    /// A short description of the error kind.
    pub fn kind(&self) -> (r: &'static str)
        ensures
            (self is MissingField) ==> r@ == "missing required field"@,
    {
        match self {
            ValidationError::InvalidSchemaVersion(_) => "invalid schema version",
            ValidationError::MissingField(_) => "missing required field",
            ValidationError::InvalidValue { .. } => "invalid field value",
        }
    }
}


/// An agent definition, reduced to the fields schema validation reads:
/// its schema version, its identity, and its protocol configuration.
#[derive(Clone, Debug)]
pub struct SemanticAgent {
    pub schema_version: String,
    pub identity: Identity,
    pub protocols: Protocols,
}

impl SemanticAgent {
    /// A fresh agent at the current schema version, with no protocols
    /// configured.
    pub fn new(id: String, name: String, designation: String) -> (r: Self)
        ensures
            r.schema_version@ == schema_version_spec(),
            r.identity.id@ == id@,
            r.identity.name@ == name@,
            r.identity.designation@ == designation@,
            r.identity.fingerprint is None,
            r.protocols.mcp is None,
            r.protocols.a2a is None,
            r.protocols.agent_protocol is None,
    {
        SemanticAgent {
            schema_version: String::from_str(schema_version()),
            identity: Identity {
                id,
                name,
                designation,
                fingerprint: None,
                created: String::new(),
                version: String::from_str("1.0.0"),
            },
            protocols: Protocols { mcp: None, a2a: None, agent_protocol: None },
        }
    }

    /// Validates this agent definition.
    pub fn validate(&self) -> (r: crate::core_validation::ValidationReport)
        ensures
            r.valid == (self.schema_version@.len() > 0 && self.identity.id@.len() > 0),
    {
        crate::core_validation::validate_agent(self)
    }
}

impl Default for SemanticAgent {
    /// An unnamed agent under a fresh unique id: a valid definition.
    fn default() -> (r: Self)
        ensures
            r.schema_version@ == schema_version_spec(),
            r.identity.id@.len() == 36,
            r.protocols.mcp is None,
            r.protocols.a2a is None,
            r.protocols.agent_protocol is None,
    {
        SemanticAgent::new(
            crate::state::new_unique_id(),
            String::from_str("Unnamed Agent"),
            String::from_str("Generic Agent"),
        )
    }
}

/// The agent type under its earlier name.
pub type UniformSemanticAgentV2 = SemanticAgent;

} // verus!
