//! Supporting types of the agent schema.

use vstd::prelude::*;
use std::collections::HashMap;

verus! {

/// Synchronization protocols.
#[derive(Clone, Copy, Debug, PartialEq, Eq, Structural)]
pub enum SyncProtocol {
    Streaming,
    Lumped,
    CheckIn,
}

/// Experience transport kinds.
#[derive(Clone, Copy, Debug, PartialEq, Eq, Structural)]
pub enum ExperienceTransportType {
    Https,
    Websocket,
    Mcp,
}

/// Status of a running agent instance.
#[derive(Clone, Copy, Debug, PartialEq, Eq, Structural)]
pub enum InstanceStatus {
    Running,
    Idle,
    Syncing,
    Terminated,
}

/// The interrogative fields of an OODA step.
#[derive(Clone, Copy, Debug, PartialEq, Eq, Structural)]
pub enum OODAField {
    Who,
    What,
    When,
    Where,
    Why,
    How,
    Huh,
}

/// Kinds of interactions.
#[derive(Clone, Copy, Debug, PartialEq, Eq, Structural)]
pub enum InteractionType {
    Conversation,
    ToolUse,
    Decision,
    Collaboration,
}

/// Tool invocation protocols.
#[derive(Clone, Copy, Debug, PartialEq, Eq, Structural)]
pub enum ToolProtocol {
    Mcp,
    Native,
    Api,
}

/// Visibility of a belief.
#[derive(Clone, Copy, Debug, PartialEq, Eq, Structural)]
pub enum BeliefPrivacy {
    Public,
    Private,
}

/// How conflicting updates are resolved.
#[derive(Clone, Copy, Debug, PartialEq, Eq, Structural)]
pub enum ConflictResolution {
    LatestWins,
    WeightedMerge,
    ManualReview,
}

/// How skill levels are aggregated across instances.
#[derive(Clone, Copy, Debug, PartialEq, Eq, Structural)]
pub enum SkillAggregation {
    Max,
    Average,
    Weighted,
}

/// Coarse health of a component.
#[derive(Clone, Copy, Debug, PartialEq, Eq, Structural)]
pub enum HealthStatus {
    Healthy,
    Degraded,
    Unhealthy,
}

/// The role an agent plays in a protocol.
#[derive(Clone, Copy, Debug, PartialEq, Eq, Structural)]
pub enum ProtocolRole {
    Client,
    Server,
    Both,
}

/// Authentication schemes.
#[derive(Clone, Copy, Debug, PartialEq, Eq, Structural)]
pub enum AuthType {
    Oauth2,
    Jwt,
    Apikey,
}

/// Kinds of recorded events.
#[derive(Clone, Copy, Debug, PartialEq, Eq, Structural)]
pub enum EventType {
    Memory,
    Skill,
    Knowledge,
    Characteristic,
    Interaction,
}

/// One OODA step: entries per interrogative field.
pub type OODAStep = Vec<(OODAField, Vec<String>)>;

/// The four OODA steps of an agent's loop.
#[derive(Clone, Debug)]
pub struct OODAInterrogatives {
    pub observe: OODAStep,
    pub orient: OODAStep,
    pub decide: OODAStep,
    pub act: OODAStep,
}

/// Counters describing one instance's contribution.
#[derive(Clone, Copy, Debug, PartialEq, Eq, Structural)]
pub struct InstanceStatistics {
    pub total_syncs: u32,
    pub memories_contributed: u32,
    pub skills_learned: u32,
    pub knowledge_acquired: u32,
    pub conversations_handled: u32,
}

/// How experience leaves the instance.
#[derive(Clone, Debug)]
pub struct ExperienceTransportConfig {
    pub transport_type: ExperienceTransportType,
    pub https: Option<HttpsTransportConfig>,
    pub websocket: Option<WebSocketTransportConfig>,
    pub mcp: Option<McpTransportConfig>,
}

/// Settings of the HTTPS transport.
#[derive(Clone, Debug)]
pub struct HttpsTransportConfig {
    pub endpoint: String,
    pub auth_token: Option<String>,
    pub headers: Option<Vec<(String, String)>>,
    pub verify_tls: Option<bool>,
}

/// Settings of the WebSocket transport.
#[derive(Clone, Debug)]
pub struct WebSocketTransportConfig {
    pub url: String,
    pub protocols: Option<Vec<String>>,
}

/// Settings of the MCP transport.
#[derive(Clone, Debug)]
pub struct McpTransportConfig {
    pub server: Option<String>,
    pub tool_name: Option<String>,
}

/// Batched synchronization settings.
#[derive(Clone, Debug)]
pub struct LumpedSyncConfig {
    pub enabled: bool,
    pub batch_interval: String,
    pub max_batch_size: u32,
    pub compression: bool,
}

/// Scheduled check-in synchronization settings.
#[derive(Clone, Debug)]
pub struct CheckInSyncConfig {
    pub enabled: bool,
    pub schedule: String,
    pub include_full_state: bool,
}

/// One MCP server an agent can reach.
#[derive(Clone, Debug)]
pub struct McpServer {
    pub name: String,
    pub command: String,
    pub args: Vec<String>,
    pub env: HashMap<String, String>,
}

/// The agent card advertised over the peer protocol.
#[derive(Clone, Debug)]
pub struct AgentCard {
    pub name: String,
    pub version: String,
    pub protocol_version: String,
    pub capabilities: Vec<String>,
    pub skills: Vec<AgentCardSkill>,
    pub endpoint: String,
}

/// One skill named on an agent card.
#[derive(Clone, Debug)]
pub struct AgentCardSkill {
    pub name: String,
    pub description: String,
}

/// The outcome of one synchronization pass.
#[derive(Clone, Debug)]
pub struct SyncResult {
    pub instance_id: String,
    pub sync_timestamp: String,
    pub events_synced: u32,
    pub memories_added: u32,
    pub skills_updated: u32,
    pub knowledge_acquired: u32,
    pub characteristics_refined: u32,
    pub conflicts_detected: u32,
    pub conflicts_resolved: u32,
    pub conflicts_queued: u32,
    pub next_sync: String,
    pub backlog_size: u32,
}

} // verus!
