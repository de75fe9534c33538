//! Clocks, logs, registers and replica state, exercised on concrete
//! values.

use chrysalis::clock::VectorClock;
use chrysalis::log::{ExperienceEvent, ExperienceEventType, ExperienceLog};
use chrysalis::lww::LWWMap;
use chrysalis::state::{DeltaState, SyncState};

fn clock_of(entries: &[(&str, u64)]) -> VectorClock {
    let mut c = VectorClock::new();
    for (id, v) in entries {
        c.set_value(id.to_string(), *v);
    }
    c
}

fn event(id: &str, origin: &str, clock: &[(&str, u64)]) -> ExperienceEvent {
    ExperienceEvent {
        id: id.to_string(),
        instance_id: origin.to_string(),
        event_type: ExperienceEventType::MemoryCreated,
        timestamp: 1,
        payload: String::new(),
        vector_clock: clock_of(clock),
    }
}

#[test]
fn test_vector_clock_happened_before() {
    let mut vc1 = VectorClock::new();
    vc1.set_value("a".to_string(), 1);
    vc1.set_value("b".to_string(), 2);

    let mut vc2 = VectorClock::new();
    vc2.set_value("a".to_string(), 2);
    vc2.set_value("b".to_string(), 3);

    assert!(vc1.happened_before(&vc2));
    assert!(!vc2.happened_before(&vc1));
}

#[test]
fn crdt_test_vector_clock_happened_before() {
    let vc1 = clock_of(&[("a", 1), ("b", 2)]);
    let vc2 = clock_of(&[("a", 2), ("b", 3)]);

    assert!(vc1.happened_before(&vc2));
    assert!(!vc2.happened_before(&vc1));

    // The merged clock takes the entrywise maximum: {a:2, b:3}.
    let merged = vc1.merged(&vc2);
    assert_eq!(merged.get("a"), 2);
    assert_eq!(merged.get("b"), 3);
}

#[test]
fn test_vector_clock_concurrent() {
    let mut vc1 = VectorClock::new();
    vc1.set_value("a".to_string(), 2);
    vc1.set_value("b".to_string(), 1);

    let mut vc2 = VectorClock::new();
    vc2.set_value("a".to_string(), 1);
    vc2.set_value("b".to_string(), 2);

    assert!(vc1.concurrent(&vc2));
}

#[test]
fn clock_merge_commutative_associative_idempotent() {
    let a = clock_of(&[("x", 3), ("y", 1)]);
    let b = clock_of(&[("y", 4), ("z", 2)]);
    let c = clock_of(&[("x", 1), ("z", 9)]);

    let ab = a.merged(&b);
    let ba = b.merged(&a);
    for id in ["x", "y", "z"] {
        assert_eq!(ab.get(id), ba.get(id));
    }

    let ab_c = a.merged(&b).merged(&c);
    let a_bc = a.merged(&b.merged(&c));
    for id in ["x", "y", "z"] {
        assert_eq!(ab_c.get(id), a_bc.get(id));
    }

    let aa = a.merged(&a);
    for id in ["x", "y", "z"] {
        assert_eq!(aa.get(id), a.get(id));
    }
}

#[test]
fn test_experience_log_dedup() {
    let mut log = ExperienceLog::new();

    let event = ExperienceEvent {
        id: "event-1".to_string(),
        instance_id: "instance-a".to_string(),
        event_type: ExperienceEventType::MemoryCreated,
        timestamp: 1,
        payload: String::new(),
        vector_clock: VectorClock::new(),
    };

    assert!(log.append(event.clone()));
    assert!(!log.append(event));
    assert_eq!(log.len(), 1);
}

#[test]
fn log_merge_order_is_deterministic() {
    // L1 holds {e1, e2} from instance a; L2 holds {e2, e3} from
    // instance b, with e2 identical on both sides.
    let e1 = event("e1", "a", &[("a", 1)]);
    let e2 = event("e2", "a", &[("a", 2)]);
    let e3 = event("e3", "b", &[("a", 2), ("b", 1)]);

    let mut l1 = ExperienceLog::new();
    assert!(l1.append(e1.clone()));
    assert!(l1.append(e2.clone()));

    let mut l2 = ExperienceLog::new();
    assert!(l2.append(e2.clone()));
    assert!(l2.append(e3.clone()));

    let mut m1 = l1.clone();
    m1.merge(&l2);
    let mut m2 = l2.clone();
    m2.merge(&l1);

    let ids1: Vec<&str> = m1.all_events().iter().map(|e| e.id.as_str()).collect();
    let ids2: Vec<&str> = m2.all_events().iter().map(|e| e.id.as_str()).collect();
    assert_eq!(ids1, vec!["e1", "e2", "e3"]);
    assert_eq!(ids1, ids2);
}

#[test]
fn events_since_returns_whats_missing() {
    let mut log = ExperienceLog::new();
    assert!(log.append(event("e1", "a", &[("a", 1)])));
    assert!(log.append(event("e2", "a", &[("a", 2)])));

    let behind = clock_of(&[("a", 1)]);
    let missing = log.events_since(&behind);
    assert_eq!(missing.len(), 1);
    assert_eq!(missing[0].id, "e2");

    let ahead = clock_of(&[("a", 2)]);
    assert!(log.events_since(&ahead).is_empty());
}

#[test]
fn test_lww_map_merge() {
    let mut map1: LWWMap<String> = LWWMap::new();
    map1.set("key".to_string(), "old".to_string(), 1, "w1".to_string());

    let mut map2: LWWMap<String> = LWWMap::new();
    map2.set("key".to_string(), "new".to_string(), 2, "w2".to_string());

    map1.merge(&map2);
    assert_eq!(map1.get("key"), Some(&"new".to_string()));
}

#[test]
fn lww_equal_timestamps_break_ties_by_writer() {
    let mut map: LWWMap<String> = LWWMap::new();
    map.set("k".to_string(), "from-w2".to_string(), 5, "w2".to_string());
    // A lexicographically smaller writer at the same instant loses.
    map.set("k".to_string(), "from-w1".to_string(), 5, "w1".to_string());
    assert_eq!(map.get("k"), Some(&"from-w2".to_string()));
    // A greater writer at the same instant wins.
    map.set("k".to_string(), "from-w3".to_string(), 5, "w3".to_string());
    assert_eq!(map.get("k"), Some(&"from-w3".to_string()));
    // An older write never overwrites.
    map.set("k".to_string(), "stale".to_string(), 4, "w9".to_string());
    assert_eq!(map.get("k"), Some(&"from-w3".to_string()));
}

#[test]
fn lww_merge_is_symmetric_for_distinct_stamps() {
    let mut left: LWWMap<String> = LWWMap::new();
    left.set("k".to_string(), "from-a".to_string(), 3, "a".to_string());
    left.set("only-left".to_string(), "l".to_string(), 1, "a".to_string());

    let mut right: LWWMap<String> = LWWMap::new();
    right.set("k".to_string(), "from-b".to_string(), 3, "b".to_string());
    right.set("only-right".to_string(), "r".to_string(), 1, "b".to_string());

    let mut lr = left.clone();
    lr.merge(&right);
    let mut rl = right.clone();
    rl.merge(&left);

    for key in ["k", "only-left", "only-right"] {
        assert_eq!(lr.get(key), rl.get(key));
    }
    assert_eq!(lr.get("k"), Some(&"from-b".to_string()));
}

#[test]
fn lww_remove_deletes_outright() {
    let mut map: LWWMap<i64> = LWWMap::new();
    map.set("gone".to_string(), 1, 1, "w".to_string());
    map.remove("gone", 2);
    assert!(map.get("gone").is_none());
    assert_eq!(map.len(), 0);
}

#[test]
fn test_sync_state_record_event() {
    let mut state = SyncState::new("test-instance".to_string());

    let event = state.record_event(
        ExperienceEventType::PatternDiscovered,
        "{\"pattern\":\"test\"}".to_string(),
        1,
    );

    assert_eq!(event.instance_id, "test-instance");
    assert_eq!(event.id.len(), 36);
    assert_eq!(state.log.len(), 1);
}

#[test]
fn delta_round_trip_is_idempotent() {
    let mut a = SyncState::new("a".to_string());
    a.record_event(ExperienceEventType::SkillLearned, String::new(), 1);
    a.record_event(ExperienceEventType::MetricUpdated, String::new(), 2);

    let mut b = SyncState::new("b".to_string());
    let delta = a.delta_since(&VectorClock::new());
    assert_eq!(delta.events.len(), 2);
    assert!(!delta.is_empty());

    b.apply_delta(delta);
    assert_eq!(b.log.len(), 2);

    // Applying the same delta again changes nothing.
    let again = a.delta_since(&VectorClock::new());
    b.apply_delta(again);
    assert_eq!(b.log.len(), 2);
}

#[test]
fn empty_delta_is_empty() {
    let d = DeltaState::empty();
    assert!(d.is_empty());
    assert!(d.check_wf());
}

#[test]
fn update_metric_uses_lww_rule() {
    let mut s = SyncState::new("i".to_string());
    s.update_metric("score", 10, 1);
    s.update_metric("score", 20, 2);
    // An older write loses.
    s.update_metric("score", 5, 1);
    assert_eq!(s.metrics.get("score"), Some(&20));
    let entry = s.metrics.get_entry("score").unwrap();
    assert_eq!(entry.timestamp, 2);
    assert_eq!(entry.writer, "i");
}

#[test]
fn state_merge_joins_logs_and_maps() {
    let mut a = SyncState::new("a".to_string());
    let mut b = SyncState::new("b".to_string());
    a.record_event(ExperienceEventType::MemoryCreated, String::new(), 1);
    b.record_event(ExperienceEventType::MemoryUpdated, String::new(), 1);
    a.update_metric("m", 1, 1);
    b.update_metric("m", 2, 2);

    a.merge(&b);
    assert_eq!(a.log.len(), 2);
    assert_eq!(a.metrics.get("m"), Some(&2));
}
