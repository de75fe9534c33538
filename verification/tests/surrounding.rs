//! The data-validation layers around the replication core.

use chrysalis::agent_config::capitalize;
use chrysalis::agents::AgentManager;
use chrysalis::core_validation::ValidationReport;
use chrysalis::cursor::CursorAdapterConfig;
use chrysalis::fairness::{Obligation, ObligationKind, Party, Reciprocity};
use chrysalis::quality::{CodeReviewIssue, CodeReviewer, IssueCategory, IssueSeverity};
use chrysalis::runtime::validate_extension_id;

fn obligation(from: Party, to: Party, what: &str, kind: ObligationKind) -> Obligation {
    Obligation { obligor: from, obligee: to, description: what.to_string(), kind }
}

#[test]
fn empty_reciprocity_is_unbalanced() {
    let empty = Reciprocity {
        platform_to_provider: vec![],
        provider_to_platform: vec![],
        provider_to_user: vec![],
        user_to_provider: vec![],
    };

    assert!(!empty.is_balanced());
    assert!(!empty.find_imbalances().is_empty());
}

#[test]
fn mutual_obligations_are_balanced() {
    let balanced = Reciprocity {
        platform_to_provider: vec![obligation(
            Party::Platform,
            Party::Provider("test".to_string()),
            "Provide API access",
            ObligationKind::Service,
        )],
        provider_to_platform: vec![obligation(
            Party::Provider("test".to_string()),
            Party::Platform,
            "Maintain compatibility",
            ObligationKind::Constraint,
        )],
        provider_to_user: vec![obligation(
            Party::Provider("test".to_string()),
            Party::User,
            "Provide documented functionality",
            ObligationKind::Service,
        )],
        user_to_provider: vec![],
    };

    assert!(balanced.is_balanced());
    assert!(balanced.find_imbalances().is_empty());
}

#[test]
fn valid_extension_ids() {
    assert!(validate_extension_id("chrysalis:memory:fireproof"));
    assert!(validate_extension_id("community:ledger:hedera"));
    assert!(validate_extension_id("myorg:ide:cursor"));
}

#[test]
fn invalid_extension_ids() {
    assert!(!validate_extension_id("invalid"));
    assert!(!validate_extension_id("too:many:parts:here"));
    assert!(!validate_extension_id("Invalid:Case:Here"));
    assert!(!validate_extension_id("123:starts:number"));
}

#[test]
fn test_validation_report() {
    let mut report = ValidationReport::new();
    assert!(report.valid);

    report.add_error("Test error".to_string());
    assert!(!report.valid);
    assert_eq!(report.errors.len(), 1);
}

#[test]
fn test_capitalize() {
    assert_eq!(capitalize("milton"), "Milton");
    assert_eq!(capitalize("ada"), "Ada");
    assert_eq!(capitalize(""), "");
}

#[test]
fn test_config_default() {
    let config = CursorAdapterConfig::default();
    assert_eq!(config.base_url, "http://localhost:3001");
    assert_eq!(config.port, 3001);
    assert_eq!(config.persona, "Cursor Agent");
}

#[test]
fn agent_manager_holds_the_system_agents() {
    let manager = AgentManager::new();
    assert_eq!(manager.list_agents().len(), 4);
    let ada = manager.get_agent("ada").unwrap();
    assert_eq!(ada.name, "Ada");
    assert!(ada.is_active);
    assert!(manager.get_agent("nobody").is_none());
    assert!(manager.get_conversation_history("thread-1").is_none());
    assert_eq!(manager.get_metrics().total_arbitrations, 0);
}

#[test]
fn code_review_counts_and_approves() {
    let reviewer = CodeReviewer::new("rev-1".to_string());
    let issue = |severity| CodeReviewIssue {
        id: "i".to_string(),
        severity,
        category: IssueCategory::Style,
        file_path: None,
        line_number: None,
        message: "m".to_string(),
        suggestion: None,
    };

    let clean = reviewer.review("lib.rs", vec![issue(IssueSeverity::Hint)]);
    assert!(clean.approved);
    assert_eq!(clean.summary.total_issues, 1);
    assert_eq!(clean.summary.hints, 1);
    assert_eq!(clean.summary.errors, 0);

    let broken = reviewer.review(
        "lib.rs",
        vec![issue(IssueSeverity::Error), issue(IssueSeverity::Warning)],
    );
    assert!(!broken.approved);
    assert_eq!(broken.summary.errors, 1);
    assert_eq!(broken.summary.warnings, 1);
}
