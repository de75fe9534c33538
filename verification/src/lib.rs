//! Causal, conflict-free state replication for a dynamic set of agent
//! instances.
//!
//! The crate is built from a small number of layers, leaf to root: causal
//! clocks, an append-only deduplicated event log, a last-writer-wins keyed
//! register map, the replica state of one instance, the epidemic gossip
//! engine over those states, message transport, and instance lifecycle.
//! Every merge operation is commutative, associative and idempotent, so
//! replicas converge without coordination; the proofs of those laws live
//! beside the operations they describe.
//!
//! Around that core stand the data-validation layers of the wider
//! system: agent schemas and their validation reports, extension
//! contracts with their fairness rules, and the configuration types of
//! the services that consume the replicated state.

pub mod adapters;
pub mod agent_config;
pub mod agent_schema;
pub mod agent_types;
pub mod agents;
pub mod assoc;
pub mod canvas;
pub mod clock;
pub mod component_types;
pub mod components;
pub mod contract_validation;
pub mod core_validation;
pub mod crdt;
pub mod crypto;
pub mod cursor;
pub mod evolution;
pub mod exact;
pub mod extension;
pub mod fairness;
pub mod gateway;
pub mod gossip;
pub mod instance;
pub mod knowledge;
pub mod log;
pub mod lww;
pub mod memory;
pub mod metrics;
pub mod models;
pub mod quality;
pub mod runtime;
pub mod state;
pub mod text;
pub mod transport;
pub mod wallet;
