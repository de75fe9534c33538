//! Data models of the system-agents service.

use vstd::prelude::*;

verus! {

/// A system agent definition.
#[derive(Clone, Debug)]
pub struct SystemAgent {
    pub id: String,
    pub name: String,
    pub role: String,
    pub description: String,
    pub is_active: bool,
    pub supported_models: Option<Vec<String>>,
    pub capabilities: Option<Vec<String>>,
}

/// One routing step between agents.
#[derive(Clone, Debug)]
pub struct RoutingEvent {
    pub from_agent: String,
    pub to_agent: String,
    pub reason: String,
    pub timestamp: String,
}

/// One archived conversation entry.
#[derive(Clone, Debug)]
pub struct ConversationHistoryEntry {
    pub thread_id: String,
    pub message: String,
    pub agent_id: String,
    pub timestamp: String,
    pub response_time_ms: u64,
}

/// Counters of the arbitration process.
#[derive(Clone, Debug)]
pub struct ArbiterMetrics {
    pub total_arbitrations: u64,
    pub agents_selected: Vec<(String, u64)>,
    pub pile_on_prevented: u64,
    pub diversity_bonus_applied: u64,
    pub budget_enforcements: u64,
    pub last_arbitration_ms: u64,
}

} // verus!
