//! The validation gate, the evolution machine, the replicated
//! primitives and the reasoning graphs, exercised on concrete values.

use chrysalis::agent_schema::SemanticAgent;
use chrysalis::contract_validation::{ContractValidator, ValidationResult};
use chrysalis::crdt::{GCounter, GSet, ORSet};
use chrysalis::evolution::{
    ChangeInitiator, ContractChange, EvolutionPath, MigrationStatus,
};
use chrysalis::extension::{ContractDraft, ExtensionCategory, ExtensionUrn, ProviderInfo};
use chrysalis::fairness::{Obligation, ObligationKind, Party, Reciprocity};
use chrysalis::knowledge::{KnowledgeEdge, KnowledgeGraph, KnowledgeNode, ReasoningEngine};

fn obligation(from: Party, to: Party, what: &str, kind: ObligationKind) -> Obligation {
    Obligation { obligor: from, obligee: to, description: what.to_string(), kind }
}

fn balanced_reciprocity() -> Reciprocity {
    Reciprocity {
        platform_to_provider: vec![obligation(
            Party::Platform,
            Party::Provider("Test Provider".to_string()),
            "Provide API access and documentation",
            ObligationKind::Service,
        )],
        provider_to_platform: vec![obligation(
            Party::Provider("Test Provider".to_string()),
            Party::Platform,
            "Maintain compatibility with platform APIs",
            ObligationKind::Constraint,
        )],
        provider_to_user: vec![obligation(
            Party::Provider("Test Provider".to_string()),
            Party::User,
            "Provide reliable memory storage services",
            ObligationKind::Service,
        )],
        user_to_provider: vec![],
    }
}

fn valid_draft() -> ContractDraft {
    let urn = ExtensionUrn::new(ExtensionCategory::Memory, "testorg", "test-extension", 1, 0, 0);
    let provider = ProviderInfo {
        name: "Test Provider".to_string(),
        contact: "test@example.com".to_string(),
        website: None,
        support_url: None,
    };
    ContractDraft::new(
        urn,
        provider,
        "A test extension that provides memory services".to_string(),
    )
    .with_license("MIT")
    .with_reciprocity(balanced_reciprocity())
}

#[test]
fn valid_draft_passes_validation() {
    let validator = ContractValidator::new();
    let draft = valid_draft();

    match validator.validate(draft) {
        ValidationResult::Valid(contract) => {
            assert_eq!(contract.license, "MIT");
            assert!(contract.reciprocity.is_balanced());
            assert_eq!(contract.contract_version, 1);
            assert_eq!(contract.id.len(), 36);
        },
        ValidationResult::Invalid { violations, .. } => {
            panic!("expected valid, got {} violations", violations.len());
        },
    }
}

#[test]
fn empty_reciprocity_fails_validation() {
    let validator = ContractValidator::new();
    let urn = ExtensionUrn::new(ExtensionCategory::Memory, "testorg", "unfair-extension", 1, 0, 0);
    let provider = ProviderInfo {
        name: "Unfair Provider".to_string(),
        contact: "unfair@example.com".to_string(),
        website: None,
        support_url: None,
    };
    let draft =
        ContractDraft::new(urn, provider, "An unfair extension".to_string()).with_license("MIT");

    match validator.validate(draft) {
        ValidationResult::Valid(_) => panic!("expected invalid due to empty reciprocity"),
        ValidationResult::Invalid { violations, suggestions } => {
            assert!(!violations.is_empty());
            assert_eq!(violations.len(), suggestions.len());
        },
    }
}

#[test]
fn urn_renders_category_names_and_version() {
    let urn = ExtensionUrn::new(ExtensionCategory::Ledger, "community", "hedera", 2, 10, 3);
    assert_eq!(urn.to_urn(), "urn:chrysalis:ext:ledger:community:hedera:2.10.3");
}

#[test]
fn metadata_changes_auto_apply() {
    let mut path = EvolutionPath {
        contract_id: "contract-1".to_string(),
        versions: vec![],
        pending_migrations: vec![],
    };
    let result = path.propose_migration(
        vec![ContractChange::MetadataUpdated { field: "description".to_string() }],
        ChangeInitiator::Provider("test".to_string()),
        10,
    );

    assert!(result.is_ok());
    assert_eq!(path.current_version(), 1);
    assert!(path.pending_migrations.is_empty());
}

#[test]
fn material_changes_require_approval() {
    let mut path = EvolutionPath {
        contract_id: "contract-1".to_string(),
        versions: vec![],
        pending_migrations: vec![],
    };
    let result = path.propose_migration(
        vec![ContractChange::ObligationModified {
            description: "Changed obligation".to_string(),
        }],
        ChangeInitiator::Provider("test".to_string()),
        10,
    );

    assert!(result.is_ok());
    assert_eq!(path.current_version(), 0);
    assert_eq!(path.pending_migrations.len(), 1);
    assert_eq!(path.pending_migrations[0].status, MigrationStatus::AwaitingPlatformApproval);

    // Approval applies the pending migration.
    let id = path.pending_migrations[0].id.clone();
    assert!(path.approve_migration(&id, 20).is_ok());
    assert_eq!(path.current_version(), 1);
    assert!(path.pending_migrations.is_empty());

    // An unknown id is an error.
    assert!(path.approve_migration("missing", 30).is_err());
}

#[test]
fn rejected_migrations_stay_pending_as_rejected() {
    let mut path = EvolutionPath {
        contract_id: "contract-1".to_string(),
        versions: vec![],
        pending_migrations: vec![],
    };
    path.propose_migration(
        vec![ContractChange::CapabilityAdded { capability_urn: "cap".to_string() }],
        ChangeInitiator::Platform,
        10,
    )
    .unwrap();
    assert_eq!(path.pending_migrations[0].status, MigrationStatus::AwaitingProviderApproval);

    let id = path.pending_migrations[0].id.clone();
    assert!(path.reject_migration(&id).is_ok());
    assert_eq!(path.pending_migrations[0].status, MigrationStatus::Rejected);
    assert_eq!(path.current_version(), 0);
}

#[test]
fn test_gset_commutative() {
    let mut a = GSet::new();
    a.add("m1".to_string());
    a.add("m2".to_string());

    let mut b = GSet::new();
    b.add("m2".to_string());
    b.add("m3".to_string());

    let ab = a.merge(&b);
    let ba = b.merge(&a);

    assert_eq!(ab.len(), ba.len());
    assert_eq!(ab.elements().len(), 3);
}

#[test]
fn test_gset_associative() {
    let mut a = GSet::new();
    a.add("m1".to_string());

    let mut b = GSet::new();
    b.add("m2".to_string());

    let mut c = GSet::new();
    c.add("m3".to_string());

    let ab_c = a.merge(&b).merge(&c);
    let a_bc = a.merge(&b.merge(&c));

    assert_eq!(ab_c.len(), a_bc.len());
}

#[test]
fn test_gset_idempotent() {
    let mut a = GSet::new();
    a.add("m1".to_string());
    a.add("m2".to_string());

    let aa = a.merge(&a);
    assert_eq!(aa.len(), a.len());
}

#[test]
fn orset_concurrent_add_survives_remove() {
    let mut a = ORSet::new(Some("a".to_string()));
    let tag1 = a.add("doc".to_string());

    // b observes a's state, then a adds again concurrently.
    let observed = vec![tag1.clone()];
    let tag2 = a.add("doc".to_string());
    assert_ne!(tag1, tag2);

    // Removing only the observed tag keeps the element alive.
    a.remove("doc", observed);
    assert!(a.contains("doc"));
    assert_eq!(a.get_tags("doc"), vec![tag2.clone()]);

    // Removing the remaining tag deletes it.
    a.remove("doc", vec![tag2]);
    assert!(!a.contains("doc"));
}

#[test]
fn orset_merge_unions_tags() {
    let mut a = ORSet::new(Some("a".to_string()));
    let t1 = a.add("x".to_string());
    let mut b = ORSet::new(Some("b".to_string()));
    let t2 = b.add("x".to_string());
    b.add("y".to_string());

    let merged = a.merge(&b);
    assert!(merged.contains("x"));
    assert!(merged.contains("y"));
    let mut tags = merged.get_tags("x");
    tags.sort();
    let mut expected = vec![t1, t2];
    expected.sort();
    assert_eq!(tags, expected);
    assert_eq!(merged.len(), 2);
}

#[test]
fn gcounter_totals_and_merges() {
    let mut a = GCounter::new();
    a.increment("a");
    a.increment("a");
    a.increment_by("b", 5);
    assert_eq!(a.value(), 7);
    assert_eq!(a.get_instance_count("a"), 2);

    let mut b = GCounter::new();
    b.increment_by("a", 1);
    b.increment_by("c", 3);

    let merged = a.merge(&b);
    assert_eq!(merged.get_instance_count("a"), 2);
    assert_eq!(merged.get_instance_count("b"), 5);
    assert_eq!(merged.get_instance_count("c"), 3);
    assert_eq!(merged.value(), 10);
}

fn stage(id: &str) -> KnowledgeNode {
    KnowledgeNode {
        id: id.to_string(),
        label: id.to_string(),
        node_type: "workflow_stage".to_string(),
        description: String::new(),
    }
}

fn test_graph() -> KnowledgeGraph {
    let mut graph = KnowledgeGraph::new("test".to_string());
    graph.add_node(stage("stage1"));
    graph.add_node(stage("stage2"));
    graph.add_node(KnowledgeNode {
        id: "m1".to_string(),
        label: "method one".to_string(),
        node_type: "method".to_string(),
        description: String::new(),
    });
    graph.add_node(KnowledgeNode {
        id: "r1".to_string(),
        label: "rigor one".to_string(),
        node_type: "rigor".to_string(),
        description: String::new(),
    });
    graph.add_edge(KnowledgeEdge {
        from: "m1".to_string(),
        to: "stage1".to_string(),
        relation: "sequences".to_string(),
    });
    graph.add_edge(KnowledgeEdge {
        from: "stage1".to_string(),
        to: "stage2".to_string(),
        relation: "precedes".to_string(),
    });
    graph
}

#[test]
fn test_workflow_sequence() {
    let graph = test_graph();
    assert!(graph.validate().is_empty());
    let workflow = graph.get_workflow_sequence();
    assert_eq!(workflow.len(), 2);
    assert_eq!(workflow[0].id, "stage1");
    assert_eq!(workflow[1].id, "stage2");
}

#[test]
fn test_reasoning_engine() {
    let mut engine = ReasoningEngine::new();
    engine.load_graph(test_graph());

    let context = engine.get_reasoning_context().unwrap();
    assert_eq!(context.graph_name, "test");
    assert_eq!(context.workflow.len(), 2);
    assert_eq!(context.methods.len(), 1);
    assert_eq!(context.total_nodes, 4);
    assert_eq!(context.total_edges, 2);
}

#[test]
fn next_action_walks_the_workflow() {
    let mut engine = ReasoningEngine::new();
    engine.load_graph(test_graph());

    let first = engine.suggest_next_action(Some("stage1"));
    assert!(first.error.is_none());
    assert_eq!(first.next_stage.unwrap().id, "stage2");
    assert!(!first.workflow_complete);

    let done = engine.suggest_next_action(Some("stage2"));
    assert!(done.next_stage.is_none());
    assert!(done.workflow_complete);

    let no_graph = ReasoningEngine::new().suggest_next_action(None);
    assert!(no_graph.error.is_some());
}

#[test]
fn graph_validation_flags_orphan_edges() {
    let mut graph = KnowledgeGraph::new("broken".to_string());
    graph.add_node(stage("stage1"));
    graph.add_edge(KnowledgeEdge {
        from: "stage1".to_string(),
        to: "missing".to_string(),
        relation: "precedes".to_string(),
    });
    assert!(!graph.validate().is_empty());
}

#[test]
fn test_valid_agent_passes() {
    let agent = SemanticAgent::default();
    let report = agent.validate();
    assert!(report.valid);
    assert_eq!(report.errors.len(), 0);
}

#[test]
fn test_schema_version_warning() {
    let mut agent = SemanticAgent::default();
    agent.schema_version = "1.0.0".to_string();

    let report = agent.validate();
    assert!(report.valid);
    assert!(report.warnings.iter().any(|w| w.contains("Schema version")));
}

#[test]
fn test_missing_identity_id() {
    let mut agent = SemanticAgent::default();
    agent.identity.id = String::new();

    let report = agent.validate();
    assert!(!report.valid);
    assert_eq!(report.errors.len(), 1);
    assert!(report.errors[0].contains("identity.id"));
}

#[test]
fn test_no_protocols_enabled_warning() {
    let agent = SemanticAgent::default();
    let report = agent.validate();

    assert_eq!(report.warnings.len(), 1);
    assert!(report.warnings[0].contains("No protocols enabled"));
}

#[test]
fn test_new_agent() {
    let agent = SemanticAgent::new(
        "test-001".to_string(),
        "Test Agent".to_string(),
        "Testing".to_string(),
    );
    assert_eq!(agent.schema_version, "2.0.0");
    assert_eq!(agent.identity.id, "test-001");
}
