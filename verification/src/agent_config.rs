//! Per-agent configuration blocks.

use vstd::prelude::*;
use vstd::string::StrSliceExecFns;
use vstd::string::StringExecFns;

verus! {

/// One model provider an agent can use.
#[derive(Clone, Debug)]
pub struct ModelProvider {
    pub provider: String,
    pub model: String,
    pub use_cases: Vec<String>,
}

/// Short-lived item store settings.
#[derive(Clone, Copy, Debug, PartialEq, Eq, Structural)]
pub struct BeadsServiceConfig {
    pub max_items: u32,
    pub ttl_seconds: u32,
    pub promotion_enabled: bool,
}

/// Durable document store settings.
#[derive(Clone, Debug)]
pub struct FireproofServiceConfig {
    pub db_name: String,
    pub promotion_enabled: bool,
    pub local_vector_cache: bool,
    pub sync_enabled: Option<bool>,
    pub sync_gateway: Option<String>,
}

/// Conversation-memory hook settings.
#[derive(Clone, Copy, Debug, PartialEq, Eq, Structural)]
pub struct ZepHooksConfig {
    pub enabled: bool,
    pub sync_interval: u32,
}

/// Which memory services an agent integrates.
#[derive(Clone, Debug)]
pub struct MemoryIntegration {
    pub beads_service: Option<BeadsServiceConfig>,
    pub fireproof_service: Option<FireproofServiceConfig>,
    pub zep_hooks: Option<ZepHooksConfig>,
}

/// One named interaction state of an agent.
#[derive(Clone, Debug)]
pub struct InteractionState {
    pub description: String,
    pub timeout: Option<u32>,
    pub triggers: Option<Vec<String>>,
    pub dnd_enabled: Option<bool>,
    pub dnd_expiry_hours: Option<u32>,
}

/// How an agent relates to a collaborator.
#[derive(Clone, Debug)]
pub struct Collaborator {
    pub relationship: String,
    pub handoff: String,
}

/// When a scheduled job runs.
#[derive(Clone, Debug)]
pub struct JobSchedule {
    pub schedule_type: String,
    pub value: String,
}

/// One scheduled job of an agent.
#[derive(Clone, Debug)]
pub struct ScheduledJob {
    pub job_id: String,
    pub description: String,
    pub schedule: JobSchedule,
    pub priority: String,
    pub timeout_seconds: u32,
    pub enabled: bool,
}

/// When an agent may act on its own initiative.
#[derive(Clone, Debug)]
pub struct InitiativePolicy {
    pub mode: String,
    pub cooldown_ms: u32,
    pub proactive_triggers: Vec<String>,
    pub max_messages_10min: u32,
}

/// How agents coordinate in one turn.
#[derive(Clone, Debug)]
pub struct CoordinationPolicy {
    pub complement_tags: Vec<String>,
    pub conflict_resolution: String,
    pub max_agents_per_turn: u32,
}

/// The uppercase mapping of one character, as the character sequence it
/// expands to.
pub uninterp spec fn upper_of(c: char) -> Seq<char>;

/// Relies on `char::to_uppercase`: the full Unicode uppercase mapping
/// of one character, a function of the character alone.
#[verifier::external_body]
fn char_upper(c: char) -> (r: String)
    ensures
        r@ == upper_of(c),
{
    c.to_uppercase().collect::<String>()
}

/// `s` with its first character uppercased; empty input stays empty.
pub fn capitalize(s: &str) -> (r: String)
    ensures
        s@.len() == 0 ==> r@.len() == 0,
        s@.len() > 0 ==> r@ == upper_of(s@[0]) + s@.skip(1),
{
    let n = s.unicode_len();
    if n == 0 {
        return String::new();
    }
    let first = s.get_char(0);
    let mut out = char_upper(first);
    let rest = s.substring_char(1, n);
    out.append(rest);
    out
}

} // verus!
