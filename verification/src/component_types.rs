//! Component types of the agent schema.

use vstd::prelude::*;
use crate::agent_types::{AgentCard, AuthType, McpServer, ProtocolRole};
use std::collections::HashMap;

verus! {

/// A biography: one paragraph or several.
#[derive(Clone, Debug)]
pub enum Bio {
    Single(String),
    Multiple(Vec<String>),
}

/// An agent's identity block.
#[derive(Clone, Debug)]
pub struct Identity {
    pub id: String,
    pub name: String,
    pub designation: String,
    pub bio: Bio,
    pub fingerprint: String,
    pub created: String,
    pub version: String,
}

/// Short-term memory settings.
#[derive(Clone, Debug)]
pub struct ShortTermMemoryConfig {
    pub retention: String,
    pub max_size: u32,
}

/// Long-term memory settings.
#[derive(Clone, Debug)]
pub struct LongTermMemoryConfig {
    pub storage: String,
    pub embedding_model: String,
}

/// How failed operations are retried.
#[derive(Clone, Debug)]
pub struct RetryPolicy {
    pub max_attempts: u32,
    pub backoff: String,
    pub initial_delay: u64,
}

/// Runtime bounds of an agent.
#[derive(Clone, Debug)]
pub struct RuntimeConfig {
    pub timeout: u64,
    pub max_iterations: u32,
    pub retry_policy: Option<RetryPolicy>,
    pub error_handling: String,
}

/// MCP protocol settings.
#[derive(Clone, Debug)]
pub struct McpProtocolConfig {
    pub enabled: bool,
    pub role: ProtocolRole,
    pub servers: Vec<McpServer>,
    pub tools: Vec<String>,
}

/// Task-protocol settings.
#[derive(Clone, Debug)]
pub struct AgentProtocolConfig {
    pub enabled: bool,
    pub endpoint: String,
    pub capabilities: Vec<String>,
    pub task_types: Vec<String>,
}

/// Authentication settings of a protocol endpoint.
#[derive(Clone, Debug)]
pub struct AuthConfig {
    pub auth_type: AuthType,
    pub config: HashMap<String, String>,
}

/// Which protocols an agent has configured.
#[derive(Clone, Debug)]
pub struct Protocols {
    pub mcp: Option<McpProtocolConfig>,
    pub a2a: Option<A2aProtocolConfig>,
    pub agent_protocol: Option<AgentProtocolConfig>,
}

/// Peer-protocol settings.
#[derive(Clone, Debug)]
pub struct A2aProtocolConfig {
    pub enabled: bool,
    pub role: ProtocolRole,
    pub endpoint: String,
    pub agent_card: AgentCard,
    pub authentication: AuthConfig,
    pub peers: Vec<String>,
}

} // verus!
