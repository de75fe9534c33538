//! Instance registration, status transitions and the coordinator.

use chrysalis::gossip::{GossipConfig, GossipProtocol};
use chrysalis::instance::{
    InstanceConfig, InstanceCoordinator, InstanceManager, InstanceMetadata, InstanceStatus,
};
use chrysalis::log::ExperienceEventType;
use chrysalis::state::SyncState;

fn config(id: &str) -> InstanceConfig {
    InstanceConfig { instance_id: id.to_string(), ..Default::default() }
}

#[test]
fn it_works() {
    assert_eq!(2 + 2, 4);
}

#[test]
fn lib_it_works() {
    assert_eq!(2 + 2, 4);
}

#[test]
fn test_crdt_basic() {
    let mut state = SyncState::new("test-instance".to_string());
    state.record_event(
        ExperienceEventType::MemoryCreated,
        "{\"content\":\"test\"}".to_string(),
        1,
    );
    assert_eq!(state.log.len(), 1);
}

#[test]
fn test_gossip_basic() {
    let protocol = GossipProtocol::new("test".to_string(), GossipConfig::default());
    let stats = protocol.get_stats();
    assert_eq!(stats.total_peers, 0);
}

#[test]
fn test_instance_manager_register() {
    let mut manager = InstanceManager::new();

    let id = manager.register(config("test-1"), Some("localhost:8080".to_string()), 0);
    assert_eq!(id, "test-1");

    let instance = manager.get("test-1").unwrap();
    assert_eq!(instance.status, InstanceStatus::Starting);
}

#[test]
fn test_instance_manager_local() {
    let mut manager = InstanceManager::new();

    manager.register_local(config("local-1"), 0);
    assert_eq!(manager.local_instance_id(), Some("local-1"));
}

#[test]
fn test_instance_heartbeat() {
    let mut manager = InstanceManager::new();

    manager.register(config("test-1"), None, 0);
    manager.heartbeat("test-1", 10);

    let instance = manager.get("test-1").unwrap();
    assert!(instance.health.last_heartbeat > 0);
}

#[test]
fn test_instance_status_update() {
    let mut manager = InstanceManager::new();

    let id = manager.register(InstanceConfig::default(), None, 0);

    manager.update_status(&id, InstanceStatus::Running);
    let instance = manager.get(&id).unwrap();
    assert_eq!(instance.status, InstanceStatus::Running);
}

#[test]
fn test_remote_instances() {
    let mut manager = InstanceManager::new();

    manager.register_local(config("local"), 0);
    manager.register(config("remote-1"), Some("addr-1".to_string()), 0);
    manager.register(config("remote-2"), Some("addr-2".to_string()), 0);

    let remotes = manager.remote_instances();
    assert_eq!(remotes.len(), 2);
}

#[test]
fn test_coordinator() {
    let mut coordinator = InstanceCoordinator::new("coordinator-test".to_string(), 0);

    coordinator.start();

    let stats = coordinator.manager().get_stats();
    assert_eq!(stats.running_instances, 1);
    assert!(stats.has_local);

    coordinator.stop();

    let instance = coordinator.manager().get("coordinator-test").unwrap();
    assert_eq!(instance.status, InstanceStatus::Stopped);
}

#[test]
fn cleanup_spares_the_local_instance() {
    let mut manager = InstanceManager::new();
    manager.register_local(config("local"), 0);
    manager.register(config("old-remote"), Some("addr".to_string()), 0);
    manager.register(config("fresh-remote"), Some("addr".to_string()), 9000);

    // Timeout 5 s at t=10 s: the local record and the fresh remote stay.
    let evicted = manager.cleanup_stale(5000, 10000);
    assert_eq!(evicted, vec!["old-remote".to_string()]);
    assert!(manager.get("local").is_some());
    assert!(manager.get("fresh-remote").is_some());
}

#[test]
fn unregister_clears_local_designation() {
    let mut manager = InstanceManager::new();
    manager.register_local(config("local"), 0);

    let removed = manager.unregister("local");
    assert!(removed.is_some());
    assert_eq!(manager.local_instance_id(), None);
    assert!(manager.get("local").is_none());
}

#[test]
fn stats_count_statuses() {
    let mut manager = InstanceManager::new();
    manager.register(config("r1"), None, 0);
    manager.register(config("r2"), None, 0);
    manager.register(config("s1"), None, 0);
    manager.register(config("f1"), None, 0);
    manager.update_status("r1", InstanceStatus::Running);
    manager.update_status("r2", InstanceStatus::Running);
    manager.update_status("s1", InstanceStatus::Syncing);
    manager.update_status("f1", InstanceStatus::Failed);

    let stats = manager.get_stats();
    assert_eq!(stats.total_instances, 4);
    assert_eq!(stats.running_instances, 2);
    assert_eq!(stats.syncing_instances, 1);
    assert_eq!(stats.failed_instances, 1);
    assert!(!stats.has_local);

    assert_eq!(manager.running_instances().len(), 2);
    assert_eq!(manager.all_instances().len(), 4);
}

#[test]
fn default_config_has_a_unique_id() {
    let a = InstanceConfig::default();
    let b = InstanceConfig::default();
    assert_eq!(a.instance_id.len(), 36);
    assert_ne!(a.instance_id, b.instance_id);
    assert!(a.sync_enabled);
    assert_eq!(a.heartbeat_interval_ms, 10000);

    let meta = InstanceMetadata::default();
    assert_eq!(meta.version, "1.0.0");
    assert!(meta.capabilities.is_empty());
}
