//! The gossip engine and the in-memory transport, exercised round by
//! round.

use chrysalis::clock::VectorClock;
use chrysalis::gossip::{GossipConfig, GossipMessage, GossipProtocol, PeerState};
use chrysalis::log::ExperienceEventType;
use chrysalis::transport::InMemoryTransport;

#[test]
fn test_gossip_protocol_add_peer() {
    let mut protocol = GossipProtocol::new("instance-a".to_string(), GossipConfig::default());
    protocol.add_peer("instance-b".to_string(), "localhost:8001".to_string(), 0);
    protocol.add_peer("instance-c".to_string(), "localhost:8002".to_string(), 0);

    assert_eq!(protocol.peers.len(), 2);
    assert!(protocol.has_peer("instance-b"));
}

#[test]
fn test_gossip_protocol_self_peer_ignored() {
    let mut protocol = GossipProtocol::new("instance-a".to_string(), GossipConfig::default());
    protocol.add_peer("instance-a".to_string(), "localhost:8000".to_string(), 0);

    assert_eq!(protocol.peers.len(), 0);
}

#[test]
fn test_gossip_message_handling() {
    let mut protocol_a = GossipProtocol::new("instance-a".to_string(), GossipConfig::default());
    let mut protocol_b = GossipProtocol::new("instance-b".to_string(), GossipConfig::default());

    protocol_a.add_peer("instance-b".to_string(), "localhost:8001".to_string(), 0);

    protocol_a.state.record_event(
        ExperienceEventType::PatternDiscovered,
        "{\"pattern\":\"test\"}".to_string(),
        1,
    );

    let delta = protocol_a.state.delta_since(&VectorClock::new());
    let message = GossipMessage::Push { sender_id: "instance-a".to_string(), delta };

    protocol_b.handle_message("localhost:8000", message, 1);

    assert_eq!(protocol_b.state.log.len(), 1);
}

#[test]
fn test_peer_state_failure_tracking() {
    let mut peer = PeerState::new("test-peer".to_string(), "localhost:8000".to_string(), 0);

    assert!(peer.is_reachable);

    peer.mark_failed();
    assert!(peer.is_reachable);

    peer.mark_failed();
    peer.mark_failed();
    assert!(!peer.is_reachable);

    peer.mark_seen(1);
    assert!(peer.is_reachable);
    assert_eq!(peer.failed_attempts, 0);
}

#[test]
fn three_failures_then_contact_through_engine() {
    let mut g = GossipProtocol::new("a".to_string(), GossipConfig::default());
    g.add_peer("b".to_string(), "addr-b".to_string(), 0);

    g.mark_peer_failed("b");
    g.mark_peer_failed("b");
    assert!(g.peers[0].1.is_reachable);
    g.mark_peer_failed("b");
    assert!(!g.peers[0].1.is_reachable);
    assert_eq!(g.peers[0].1.failed_attempts, 3);

    // One heartbeat from the peer restores it.
    let hb = GossipMessage::Heartbeat {
        sender_id: "b".to_string(),
        clock: VectorClock::new(),
        peer_count: 1,
    };
    g.handle_message("addr-b", hb, 9);
    assert!(g.peers[0].1.is_reachable);
    assert_eq!(g.peers[0].1.failed_attempts, 0);
    assert_eq!(g.peers[0].1.last_seen_ms, 9);
}

#[test]
fn covered_peer_receives_no_push() {
    let mut g = GossipProtocol::new("a".to_string(), GossipConfig::default());
    g.add_peer("b".to_string(), "addr-b".to_string(), 0);
    g.state.record_event(ExperienceEventType::MemoryCreated, String::new(), 1);

    // Tell the engine that b already knows the full aggregate clock.
    let covering = g.state.log.clock().duplicate();
    let hb = GossipMessage::Heartbeat { sender_id: "b".to_string(), clock: covering, peer_count: 1 };
    g.handle_message("addr-b", hb, 2);

    let msgs = g.initiate_gossip(3);
    for (_, m) in &msgs {
        assert!(!matches!(m, GossipMessage::Push { .. }));
    }
    // Heartbeats still flow to keep membership alive.
    assert!(msgs.iter().any(|(_, m)| matches!(m, GossipMessage::Heartbeat { .. })));
}

#[test]
fn behind_peer_receives_push() {
    let mut g = GossipProtocol::new("a".to_string(), GossipConfig::default());
    g.add_peer("b".to_string(), "addr-b".to_string(), 0);
    g.state.record_event(ExperienceEventType::MemoryCreated, String::new(), 1);

    let msgs = g.initiate_gossip(2);
    let push = msgs
        .iter()
        .find(|(addr, m)| addr == "addr-b" && matches!(m, GossipMessage::Push { .. }));
    assert!(push.is_some());
    if let Some((_, GossipMessage::Push { sender_id, delta })) = push {
        assert_eq!(sender_id, "a");
        assert_eq!(delta.events.len(), 1);
    }
}

#[test]
fn pull_is_answered_with_a_response() {
    let mut g = GossipProtocol::new("a".to_string(), GossipConfig::default());
    g.state.record_event(ExperienceEventType::SkillLearned, String::new(), 1);

    let pull = GossipMessage::Pull {
        sender_id: "b".to_string(),
        since_clock: VectorClock::new(),
    };
    let reply = g.handle_message("addr-b", pull, 2);
    match reply {
        Some(GossipMessage::PullResponse { sender_id, delta }) => {
            assert_eq!(sender_id, "a");
            assert_eq!(delta.events.len(), 1);
        },
        other => panic!("expected a pull response, got {:?}", other.is_some()),
    }
}

#[test]
fn malformed_delta_is_dropped() {
    let mut g = GossipProtocol::new("a".to_string(), GossipConfig::default());
    let mut a = chrysalis::state::SyncState::new("x".to_string());
    let e = a.record_event(ExperienceEventType::MemoryCreated, String::new(), 1);

    // A delta repeating one event id is malformed and must not apply.
    let mut delta = a.delta_since(&VectorClock::new());
    delta.events.push(e);
    assert!(!delta.check_wf());

    let push = GossipMessage::Push { sender_id: "x".to_string(), delta };
    let reply = g.handle_message("addr-x", push, 2);
    assert!(reply.is_none());
    assert_eq!(g.state.log.len(), 0);
}

#[test]
fn membership_update_adds_and_removes() {
    let mut g = GossipProtocol::new("a".to_string(), GossipConfig::default());
    g.add_peer("b".to_string(), "addr-b".to_string(), 0);
    g.add_peer("c".to_string(), "addr-c".to_string(), 0);

    let update = GossipMessage::MembershipUpdate {
        sender_id: "b".to_string(),
        joined: vec![chrysalis::gossip::PeerInfo {
            peer_id: "d".to_string(),
            address: "addr-d".to_string(),
        }],
        left: vec!["c".to_string()],
    };
    g.handle_message("addr-b", update, 5);

    assert!(g.has_peer("b"));
    assert!(g.has_peer("d"));
    assert!(!g.has_peer("c"));
}

#[test]
fn stale_peers_are_evicted() {
    let mut g = GossipProtocol::new("a".to_string(), GossipConfig::default());
    g.add_peer("b".to_string(), "addr-b".to_string(), 0);
    g.add_peer("c".to_string(), "addr-c".to_string(), 25000);

    // The timeout is 30 s; at t=40 s only b has been silent that long.
    g.cleanup_stale_peers(40000);
    assert!(!g.has_peer("b"));
    assert!(g.has_peer("c"));
}

#[test]
fn should_gossip_after_interval() {
    let mut g = GossipProtocol::new("a".to_string(), GossipConfig::default());
    assert!(g.should_gossip(1000));
    g.initiate_gossip(1000);
    assert!(!g.should_gossip(1500));
    assert!(g.should_gossip(2000));
}

#[test]
fn stats_count_reachable_peers_and_events() {
    let mut g = GossipProtocol::new("a".to_string(), GossipConfig::default());
    g.add_peer("b".to_string(), "addr-b".to_string(), 0);
    g.add_peer("c".to_string(), "addr-c".to_string(), 0);
    g.mark_peer_failed("c");
    g.mark_peer_failed("c");
    g.mark_peer_failed("c");
    g.state.record_event(ExperienceEventType::MemoryCreated, String::new(), 1);

    let stats = g.get_stats();
    assert_eq!(stats.total_peers, 2);
    assert_eq!(stats.reachable_peers, 1);
    assert_eq!(stats.event_count, 1);
}

#[test]
fn full_sync_request_pulls_from_the_beginning() {
    let g = GossipProtocol::new("a".to_string(), GossipConfig::default());
    let (addr, msg) = g.request_full_sync("addr-b");
    assert_eq!(addr, "addr-b");
    match msg {
        GossipMessage::Pull { sender_id, since_clock } => {
            assert_eq!(sender_id, "a");
            assert_eq!(since_clock.get("anything"), 0);
        },
        _ => panic!("expected a pull"),
    }
}

/// Delivers every outbound message of `from` that is addressed to a
/// protocol in `world`, honouring a partition list.
fn deliver_round(
    world: &mut Vec<GossipProtocol>,
    from: usize,
    cut_off: &[usize],
    now: u64,
) {
    let msgs = world[from].initiate_gossip(now);
    let sender_addr = format!("addr-{}", world[from].instance_id);
    for (addr, msg) in msgs {
        let target = world
            .iter()
            .position(|g| format!("addr-{}", g.instance_id) == addr);
        if let Some(t) = target {
            if cut_off.contains(&t) || cut_off.contains(&from) {
                continue;
            }
            let reply = world[t].handle_message(&sender_addr, msg, now);
            if let Some(r) = reply {
                if !cut_off.contains(&from) {
                    world[from].handle_message(&addr, r, now);
                }
            }
        }
    }
}

#[test]
fn partitioned_instances_converge_after_healing() {
    let mut world: Vec<GossipProtocol> = ["a", "b", "c"]
        .iter()
        .map(|id| GossipProtocol::new(id.to_string(), GossipConfig::default()))
        .collect();
    for i in 0..3 {
        for j in 0..3 {
            if i != j {
                let id = world[j].instance_id.clone();
                let addr = format!("addr-{}", id);
                world[i].add_peer(id, addr, 0);
            }
        }
    }

    // Everyone records local experience while c is cut off.
    world[0].state.record_event(ExperienceEventType::MemoryCreated, String::new(), 1);
    world[1].state.record_event(ExperienceEventType::SkillLearned, String::new(), 1);
    world[2].state.record_event(ExperienceEventType::MetricUpdated, String::new(), 1);

    let mut now = 1000;
    for _ in 0..3 {
        deliver_round(&mut world, 0, &[2], now);
        now += 1000;
        deliver_round(&mut world, 1, &[2], now);
        now += 1000;
    }
    // a and b agree; c still only knows itself.
    assert_eq!(world[0].state.log.len(), 2);
    assert_eq!(world[1].state.log.len(), 2);
    assert_eq!(world[2].state.log.len(), 1);

    // The partition heals: a few rounds in every direction converge all
    // three replicas.
    for _ in 0..3 {
        for i in 0..3 {
            deliver_round(&mut world, i, &[], now);
            now += 1000;
        }
    }

    let mut contents: Vec<Vec<String>> = world
        .iter()
        .map(|g| g.state.log.all_events().iter().map(|e| e.id.clone()).collect())
        .collect();
    for c in contents.iter_mut() {
        c.sort();
    }
    assert_eq!(contents[0].len(), 3);
    assert_eq!(contents[0], contents[1]);
    assert_eq!(contents[1], contents[2]);
    for instance in ["a", "b", "c"] {
        let expect = world[0].state.log.clock().get(instance);
        assert_eq!(world[1].state.log.clock().get(instance), expect);
        assert_eq!(world[2].state.log.clock().get(instance), expect);
    }

    // A full resynchronization sorts every replica into the one
    // deterministic order, whichever replica initiates the merges.
    let l0 = world[0].state.log.clone();
    let l1 = world[1].state.log.clone();
    let l2 = world[2].state.log.clone();
    let mut m_a = l0.clone();
    m_a.merge(&l1);
    m_a.merge(&l2);
    let mut m_b = l1.clone();
    m_b.merge(&l2);
    m_b.merge(&l0);
    let mut m_c = l2.clone();
    m_c.merge(&l0);
    m_c.merge(&l1);
    let order_a: Vec<String> = m_a.all_events().iter().map(|e| e.id.clone()).collect();
    let order_b: Vec<String> = m_b.all_events().iter().map(|e| e.id.clone()).collect();
    let order_c: Vec<String> = m_c.all_events().iter().map(|e| e.id.clone()).collect();
    assert_eq!(order_a.len(), 3);
    assert_eq!(order_a, order_b);
    assert_eq!(order_b, order_c);
}

#[test]
fn in_memory_transport_delivers_in_order() {
    let mut hub = InMemoryTransport::new("b".to_string());
    hub.connect("b").unwrap();
    assert!(hub.is_connected("b"));
    assert_eq!(hub.connected_peers(), vec!["b".to_string()]);

    hub.send(
        "b",
        GossipMessage::Heartbeat {
            sender_id: "a".to_string(),
            clock: VectorClock::new(),
            peer_count: 1,
        },
    )
    .unwrap();
    hub.send(
        "b",
        GossipMessage::Pull { sender_id: "a".to_string(), since_clock: VectorClock::new() },
    )
    .unwrap();

    let received = hub.receive().unwrap();
    assert_eq!(received.len(), 2);
    assert!(matches!(received[0].1, GossipMessage::Heartbeat { .. }));
    assert!(matches!(received[1].1, GossipMessage::Pull { .. }));

    // Drained: nothing left.
    assert!(hub.receive().unwrap().is_empty());

    hub.disconnect("b").unwrap();
    assert!(!hub.is_connected("b"));
}
