//! The epidemic gossip engine.
//!
//! A [`GossipProtocol`] drives anti-entropy for one instance: it keeps a
//! record of every known peer, periodically selects a deterministic
//! prefix of the reachable ones, sends each the delta it is missing, and
//! folds inbound messages back into the replica state.  A peer becomes
//! unreachable after three consecutive failures and reachable again on
//! any successful contact; records silent beyond the configured timeout
//! are evicted.

use vstd::prelude::*;
use crate::assoc::{assoc_find, distinct_keys};
use crate::assoc::{
    lemma_assoc_find_at, lemma_assoc_find_push, lemma_assoc_find_remove, lemma_assoc_find_skip,
    lemma_assoc_has_index,
};
use crate::clock::{cv_get, cv_le, ClockView, VectorClock};
use crate::log::{views_of, EventView};
use crate::state::{DeltaState, SyncState};
use crate::text::str_eq;
use vstd::pervasive::VecAdditionalExecFns;
use vstd::string::StringExecFns;

verus! {

/// Tuning knobs of the gossip protocol, all in milliseconds and counts.
#[derive(Clone, Debug)]
pub struct GossipConfig {
    /// How often a gossip round is due.
    pub gossip_interval_ms: u64,
    /// How many peers one round pushes to.
    pub fanout: usize,
    /// The most events one message should carry.
    pub max_events_per_message: usize,
    /// Silence after which a peer record is evicted.
    pub peer_timeout_ms: u64,
    /// Delay before a failed peer is retried.
    pub retry_interval_ms: u64,
}

impl Default for GossipConfig {
    /// One round a second, fanout three, eviction after thirty seconds.
    fn default() -> (r: Self)
        ensures
            r.gossip_interval_ms == 1000,
            r.fanout == 3,
            r.max_events_per_message == 100,
            r.peer_timeout_ms == 30000,
            r.retry_interval_ms == 10000,
    {
        GossipConfig {
            gossip_interval_ms: 1000,
            fanout: 3,
            max_events_per_message: 100,
            peer_timeout_ms: 30000,
            retry_interval_ms: 10000,
        }
    }
}

/// The abstract content of one peer record.
pub struct PeerView {
    pub peer_id: Seq<char>,
    pub address: Seq<char>,
    pub last_seen_ms: u64,
    pub last_clock: ClockView,
    pub failed_attempts: u32,
    pub is_reachable: bool,
}

/// What one instance knows of one remote peer.
#[derive(Debug)]
pub struct PeerState {
    pub peer_id: String,
    pub address: String,
    pub last_seen_ms: u64,
    pub last_clock: VectorClock,
    pub failed_attempts: u32,
    pub is_reachable: bool,
}

impl View for PeerState {
    type V = PeerView;

    open spec fn view(&self) -> PeerView {
        PeerView {
            peer_id: self.peer_id@,
            address: self.address@,
            last_seen_ms: self.last_seen_ms,
            last_clock: self.last_clock@,
            failed_attempts: self.failed_attempts,
            is_reachable: self.is_reachable,
        }
    }
}

/// How many consecutive failures flip a peer to unreachable.
pub open spec fn failure_threshold() -> u32 {
    3
}

/// A just-created peer record: reachable, empty clock, no failures.
pub open spec fn fresh_peer(id: Seq<char>, address: Seq<char>, now_ms: u64) -> PeerView {
    PeerView {
        peer_id: id,
        address: address,
        last_seen_ms: now_ms,
        last_clock: Seq::<(Seq<char>, u64)>::empty(),
        failed_attempts: 0,
        is_reachable: true,
    }
}

/// A peer record after a successful contact.
pub open spec fn seen_peer(p: PeerView, now_ms: u64) -> PeerView {
    PeerView {
        peer_id: p.peer_id,
        address: p.address,
        last_seen_ms: now_ms,
        last_clock: p.last_clock,
        failed_attempts: 0,
        is_reachable: true,
    }
}

/// A peer record after a successful contact that also reported a clock.
pub open spec fn seen_peer_with_clock(p: PeerView, now_ms: u64, c: ClockView) -> PeerView {
    PeerView {
        peer_id: p.peer_id,
        address: p.address,
        last_seen_ms: now_ms,
        last_clock: c,
        failed_attempts: 0,
        is_reachable: true,
    }
}

/// A peer record after one more failed contact.
pub open spec fn failed_peer(p: PeerView) -> PeerView {
    let attempts: u32 = if p.failed_attempts == u32::MAX {
        u32::MAX
    } else {
        (p.failed_attempts + 1) as u32
    };
    PeerView {
        peer_id: p.peer_id,
        address: p.address,
        last_seen_ms: p.last_seen_ms,
        last_clock: p.last_clock,
        failed_attempts: attempts,
        is_reachable: if attempts >= failure_threshold() {
            false
        } else {
            p.is_reachable
        },
    }
}

/// Failure counting is unforgiving and recovery immediate: a fresh peer
/// survives two consecutive failures, flips unreachable at the third,
/// and one successful contact restores it with a clean count.
pub proof fn lemma_failure_discipline(p: PeerView, now_ms: u64)
    requires
        p.failed_attempts == 0,
        p.is_reachable,
    ensures
        failed_peer(p).is_reachable,
        failed_peer(failed_peer(p)).is_reachable,
        !failed_peer(failed_peer(failed_peer(p))).is_reachable,
        failed_peer(failed_peer(failed_peer(p))).failed_attempts == 3,
        seen_peer(failed_peer(failed_peer(failed_peer(p))), now_ms).is_reachable,
        seen_peer(failed_peer(failed_peer(failed_peer(p))), now_ms).failed_attempts == 0,
{
}

impl PeerState {
    /// A freshly contacted peer: reachable, no failures.
    pub fn new(peer_id: String, address: String, now_ms: u64) -> (r: Self)
        ensures
            r@ == fresh_peer(peer_id@, address@, now_ms),
            distinct_keys(r@.last_clock),
            forall|id: Seq<char>| cv_get(r@.last_clock, id) == 0,
    {
        let r = PeerState {
            peer_id,
            address,
            last_seen_ms: now_ms,
            last_clock: VectorClock::new(),
            failed_attempts: 0,
            is_reachable: true,
        };
        proof {
            assert(r.last_clock@ =~= Seq::<(Seq<char>, u64)>::empty());
        }
        r
    }

    /// A successful contact: refreshes liveness, clears the failure
    /// count, and restores reachability.
    pub fn mark_seen(&mut self, now_ms: u64)
        ensures
            final(self)@ == seen_peer(old(self)@, now_ms),
    {
        self.last_seen_ms = now_ms;
        self.failed_attempts = 0;
        self.is_reachable = true;
    }

    /// A failed contact: counts it, and flips the peer unreachable at
    /// the third consecutive failure.
    pub fn mark_failed(&mut self)
        ensures
            final(self)@ == failed_peer(old(self)@),
    {
        if self.failed_attempts < u32::MAX {
            self.failed_attempts = self.failed_attempts + 1;
        }
        if self.failed_attempts >= 3 {
            self.is_reachable = false;
        }
    }

    /// Whether the peer has been silent longer than `timeout_ms`.
    pub fn is_stale(&self, now_ms: u64, timeout_ms: u64) -> (r: bool)
        ensures
            r == (self@.last_seen_ms + timeout_ms < now_ms),
    {
        if now_ms <= timeout_ms {
            false
        } else {
            self.last_seen_ms < now_ms - timeout_ms
        }
    }
}

/// Advertisement of one peer inside a membership update.
#[derive(Debug, Clone)]
pub struct PeerInfo {
    pub peer_id: String,
    pub address: String,
}

/// The wire messages gossip exchanges.  The concrete encoding is the
/// transport's concern; the engine sees only these shapes.
#[derive(Debug)]
pub enum GossipMessage {
    /// Unsolicited delivery of a delta.
    Push { sender_id: String, delta: DeltaState },
    /// Request for everything after `since_clock`.
    Pull { sender_id: String, since_clock: VectorClock },
    /// The answer to a pull.
    PullResponse { sender_id: String, delta: DeltaState },
    /// Liveness beacon carrying the sender's clock.
    Heartbeat { sender_id: String, clock: VectorClock, peer_count: usize },
    /// Peers that joined or left the membership.
    MembershipUpdate { sender_id: String, joined: Vec<PeerInfo>, left: Vec<String> },
}

/// Counters describing the engine's current horizon.
#[derive(Debug)]
pub struct GossipStats {
    pub total_peers: usize,
    pub reachable_peers: usize,
    pub event_count: usize,
    pub current_clock: VectorClock,
}

/// The gossip engine of one instance.
#[derive(Debug)]
pub struct GossipProtocol {
    pub instance_id: String,
    pub config: GossipConfig,
    pub state: SyncState,
    pub peers: Vec<(String, PeerState)>,
    pub pending_messages: Vec<(String, GossipMessage)>,
    pub last_gossip_ms: u64,
}

impl GossipProtocol {
    /// The abstract peer table: ids mapped to peer records.
    pub open spec fn peers_view(self) -> Seq<(Seq<char>, PeerView)> {
        Seq::new(self.peers@.len(), |i: int| (self.peers@[i].0@, self.peers@[i].1@))
    }

    /// The record held for one peer id.
    pub open spec fn spec_peer(self, id: Seq<char>) -> Option<PeerView> {
        assoc_find(self.peers_view(), id)
    }

    /// When the last round ran.
    pub open spec fn spec_last_gossip(self) -> u64 {
        self.last_gossip_ms
    }

    /// The engine invariant: the peer table is keyed by the peer ids it
    /// stores, holds no duplicate and never the own id, every recorded
    /// clock is well formed, and the replica state is well formed.
    pub open spec fn wf(self) -> bool {
        &&& distinct_keys(self.peers_view())
        &&& forall|i: int|
            0 <= i < self.peers_view().len() ==> (#[trigger] self.peers_view()[i]).0
                == self.peers_view()[i].1.peer_id
        &&& forall|i: int|
            0 <= i < self.peers_view().len() ==> (#[trigger] self.peers_view()[i]).0
                != self.instance_id@
        &&& forall|i: int|
            0 <= i < self.peers_view().len() ==> distinct_keys(
                (#[trigger] self.peers_view()[i]).1.last_clock,
            )
        &&& self.state.wf()
        &&& self.state.instance_id@ == self.instance_id@
    }

    /// A fresh engine: empty state, no peers, a round due immediately.
    pub fn new(instance_id: String, config: GossipConfig) -> (r: Self)
        ensures
            r.wf(),
            r.instance_id@ == instance_id@,
            r.peers_view().len() == 0,
            r.pending_messages@.len() == 0,
            r.state.instance_id@ == instance_id@,
            r.state.log.spec_events().len() == 0,
            r.spec_last_gossip() == 0,
            r.config == config,
    {
        let state = SyncState::new(instance_id.clone());
        let r = GossipProtocol {
            instance_id,
            config,
            state,
            peers: Vec::new(),
            pending_messages: Vec::new(),
            last_gossip_ms: 0,
        };
        proof {
            assert(r.peers_view() =~= Seq::<(Seq<char>, PeerView)>::empty());
        }
        r
    }

    /// The index of the record for `peer_id`, if one exists.
    fn find_peer(&self, peer_id: &str) -> (r: Option<usize>)
        ensures
            match r {
                Some(i) => {
                    &&& i < self.peers_view().len()
                    &&& self.peers_view()[i as int].0 == peer_id@
                    &&& forall|j: int| 0 <= j < i ==> self.peers_view()[j].0 != peer_id@
                    &&& self.spec_peer(peer_id@) == Some(self.peers_view()[i as int].1)
                },
                None => self.spec_peer(peer_id@) is None,
            },
    {
        let n = self.peers.len();
        let mut i: usize = 0;
        while i < n
            invariant
                0 <= i <= n,
                n == self.peers@.len(),
                self.peers_view().len() == n,
                forall|j: int| 0 <= j < i ==> self.peers_view()[j].0 != peer_id@,
            decreases n - i,
        {
            if str_eq(self.peers[i].0.as_str(), peer_id) {
                proof {
                    lemma_assoc_find_at(self.peers_view(), peer_id@, i as int);
                }
                return Some(i);
            }
            i = i + 1;
        }
        proof {
            lemma_assoc_find_skip(self.peers_view(), peer_id@, n as int);
        }
        None
    }

    /// Whether a record for `peer_id` exists.
    pub fn has_peer(&self, peer_id: &str) -> (r: bool)
        ensures
            r == (self.spec_peer(peer_id@) is Some),
    {
        self.find_peer(peer_id).is_some()
    }

    /// Adds a peer record, unless the id is the engine's own or already
    /// known.
    pub fn add_peer(&mut self, peer_id: String, address: String, now_ms: u64)
        requires
            old(self).wf(),
        ensures
            final(self).wf(),
            final(self).instance_id == old(self).instance_id,
            final(self).pending_messages == old(self).pending_messages,
            final(self).config == old(self).config,
            final(self).state == old(self).state,
            final(self).spec_last_gossip() == old(self).spec_last_gossip(),
            (peer_id@ == old(self).instance_id@ || old(self).spec_peer(peer_id@) is Some)
                ==> final(self).peers_view() == old(self).peers_view(),
            (peer_id@ != old(self).instance_id@ && old(self).spec_peer(peer_id@) is None) ==> {
                &&& final(self).spec_peer(peer_id@) == Some(fresh_peer(peer_id@, address@, now_ms))
                &&& forall|id: Seq<char>|
                    id != peer_id@ ==> final(self).spec_peer(id) == old(self).spec_peer(id)
            },
    {
        if str_eq(peer_id.as_str(), self.instance_id.as_str()) {
            return ;
        }
        if self.has_peer(peer_id.as_str()) {
            return ;
        }
        let ghost v0 = self.peers_view();
        let record = PeerState::new(peer_id.clone(), address, now_ms);
        let ghost pv = record@;
        self.peers.push((peer_id, record));
        proof {
            assert(self.peers_view() =~= v0.push((pv.peer_id, pv)));
            lemma_assoc_has_index(v0, pv.peer_id);
            assert forall|id: Seq<char>|
                assoc_find(self.peers_view(), id) == (if id == pv.peer_id {
                    Some(pv)
                } else {
                    assoc_find(v0, id)
                }) by {
                lemma_assoc_find_push(v0, (pv.peer_id, pv), id);
            }
            assert(distinct_keys(self.peers_view())) by {
                assert(forall|j: int| 0 <= j < v0.len() ==> self.peers_view()[j] == v0[j]);
                assert(self.peers_view()[v0.len() as int] == (pv.peer_id, pv));
            }
        }
    }

    /// Drops the record for `peer_id`, if any.
    pub fn remove_peer(&mut self, peer_id: &str)
        requires
            old(self).wf(),
        ensures
            final(self).wf(),
            final(self).instance_id == old(self).instance_id,
            final(self).pending_messages == old(self).pending_messages,
            final(self).config == old(self).config,
            final(self).state == old(self).state,
            final(self).spec_last_gossip() == old(self).spec_last_gossip(),
            final(self).spec_peer(peer_id@) is None,
            forall|id: Seq<char>|
                id != peer_id@ ==> final(self).spec_peer(id) == old(self).spec_peer(id),
    {
        let ghost v0 = self.peers_view();
        match self.find_peer(peer_id) {
            Some(i) => {
                self.peers.remove(i);
                proof {
                    assert(self.peers_view() =~= v0.remove(i as int));
                    assert forall|id: Seq<char>|
                        assoc_find(self.peers_view(), id) == (if id == peer_id@ {
                            None::<PeerView>
                        } else {
                            assoc_find(v0, id)
                        }) by {
                        lemma_assoc_find_remove(v0, i as int, id);
                    }
                    lemma_assoc_find_remove(v0, i as int, peer_id@);
                }
            },
            None => {},
        }
    }

    /// The current replica state.
    pub fn get_state(&self) -> (r: &SyncState)
        ensures
            r == self.state,
    {
        &self.state
    }

    /// Whether the inter-round interval has elapsed since the last
    /// round.
    pub fn should_gossip(&self, now_ms: u64) -> (r: bool)
        ensures
            r == (self.spec_last_gossip() + self.config.gossip_interval_ms <= now_ms),
    {
        if now_ms < self.config.gossip_interval_ms {
            false
        } else {
            self.last_gossip_ms <= now_ms - self.config.gossip_interval_ms
        }
    }

    /// Counts a failed exchange against a peer; at the third consecutive
    /// failure the peer flips to unreachable.
    pub fn mark_peer_failed(&mut self, peer_id: &str)
        requires
            old(self).wf(),
        ensures
            final(self).wf(),
            final(self).instance_id == old(self).instance_id,
            final(self).pending_messages == old(self).pending_messages,
            final(self).config == old(self).config,
            final(self).state == old(self).state,
            final(self).spec_last_gossip() == old(self).spec_last_gossip(),
            old(self).spec_peer(peer_id@) is None ==> final(self).peers_view() == old(
                self,
            ).peers_view(),
            old(self).spec_peer(peer_id@) matches Some(p) ==> {
                &&& final(self).spec_peer(peer_id@) == Some(failed_peer(p))
                &&& forall|id: Seq<char>|
                    id != peer_id@ ==> final(self).spec_peer(id) == old(self).spec_peer(id)
            },
    {
        let ghost v0 = self.peers_view();
        match self.find_peer(peer_id) {
            Some(i) => {
                let ghost old_pair = v0[i as int];
                let mut entry = self.peers.remove(i);
                entry.1.mark_failed();
                self.peers.insert(i, entry);
                proof {
                    let pair = (old_pair.0, self.peers_view()[i as int].1);
                    assert(self.peers_view() =~= v0.update(i as int, pair));
                    assert forall|id: Seq<char>|
                        assoc_find(self.peers_view(), id) == (if id == peer_id@ {
                            Some(pair.1)
                        } else {
                            assoc_find(v0, id)
                        }) by {
                        crate::assoc::lemma_assoc_find_update(v0, i as int, pair, id);
                    }
                    crate::assoc::lemma_assoc_find_update(v0, i as int, pair, peer_id@);
                }
            },
            None => {},
        }
    }

    /// Evicts every peer silent beyond the configured timeout.
    pub fn cleanup_stale_peers(&mut self, now_ms: u64)
        requires
            old(self).wf(),
        ensures
            final(self).wf(),
            final(self).instance_id == old(self).instance_id,
            final(self).pending_messages == old(self).pending_messages,
            final(self).config == old(self).config,
            final(self).state == old(self).state,
            final(self).spec_last_gossip() == old(self).spec_last_gossip(),
            final(self).peers_view() == old(self).peers_view().filter(
                |p: (Seq<char>, PeerView)|
                    !(p.1.last_seen_ms + old(self).config.peer_timeout_ms < now_ms),
            ),
    {
        let ghost v0 = self.peers_view();
        let ghost pred = |p: (Seq<char>, PeerView)|
            !(p.1.last_seen_ms + old(self).config.peer_timeout_ms < now_ms);
        let timeout = self.config.peer_timeout_ms;
        let mut kept: Vec<(String, PeerState)> = Vec::new();
        let ghost mut processed: int = 0;
        proof {
            assert(v0.take(0) =~= Seq::<(Seq<char>, PeerView)>::empty());
            reveal(Seq::filter);
        }
        while self.peers.len() > 0
            invariant
                0 <= processed <= v0.len(),
                v0 == old(self).peers_view(),
                self.instance_id == old(self).instance_id,
                self.config == old(self).config,
                self.state == old(self).state,
                self.pending_messages == old(self).pending_messages,
                self.last_gossip_ms == old(self).last_gossip_ms,
                pred == (|p: (Seq<char>, PeerView)|
                    !(p.1.last_seen_ms + old(self).config.peer_timeout_ms < now_ms)),
                timeout == old(self).config.peer_timeout_ms,
                self.peers@.len() == v0.len() - processed,
                forall|j: int|
                    0 <= j < self.peers@.len() ==> (self.peers@[j].0@, self.peers@[j].1@) == v0[j
                        + processed],
                Seq::new(kept@.len(), |i: int| (kept@[i].0@, kept@[i].1@)) == v0.take(
                    processed,
                ).filter(pred),
            decreases self.peers@.len(),
        {
            let entry = self.peers.remove(0);
            proof {
                assert((entry.0@, entry.1@) == v0[processed]);
                assert(v0.take(processed + 1) =~= v0.take(processed).push(v0[processed]));
                crate::log::lemma_filter_push(v0.take(processed), v0[processed], pred);
            }
            let stale = entry.1.is_stale(now_ms, timeout);
            if !stale {
                kept.push(entry);
            }
            proof {
                processed = processed + 1;
                assert(Seq::new(kept@.len(), |i: int| (kept@[i].0@, kept@[i].1@)) =~= v0.take(
                    processed,
                ).filter(pred));
                assert(forall|j: int|
                    0 <= j < self.peers@.len() ==> (self.peers@[j].0@, self.peers@[j].1@) == v0[j
                        + processed]);
            }
        }
        self.peers = kept;
        proof {
            assert(v0.take(v0.len() as int) =~= v0);
            assert(self.peers_view() =~= v0.filter(pred));
            let f = v0.filter(pred);
            crate::log::lemma_filter_subset(v0, pred);
            assert forall|i: int, j: int| 0 <= i < j < f.len() implies f[i].0 != f[j].0 by {
                lemma_filter_distinct_pairs(v0, pred, i, j);
            }
            assert forall|i: int|
                0 <= i < f.len() implies (#[trigger] f[i]).0 == f[i].1.peer_id && f[i].0
                != old(self).instance_id@ && distinct_keys(f[i].1.last_clock) by {
                assert(v0.contains(f[i]));
                let w = choose|w: int| 0 <= w < v0.len() && v0[w] == f[i];
            }
        }
    }

    /// Gathers the engine's headline numbers.
    pub fn get_stats(&self) -> (r: GossipStats)
        requires
            self.wf(),
        ensures
            r.total_peers == self.peers_view().len(),
            r.reachable_peers == self.peers_view().filter(
                |p: (Seq<char>, PeerView)| p.1.is_reachable,
            ).len(),
            r.event_count == self.state.log.spec_events().len(),
            r.current_clock@ == self.state.log.spec_clock(),
    {
        let ghost pred = |p: (Seq<char>, PeerView)| p.1.is_reachable;
        let n = self.peers.len();
        let mut reachable: usize = 0;
        let mut i: usize = 0;
        proof {
            assert(self.peers_view().take(0) =~= Seq::<(Seq<char>, PeerView)>::empty());
            reveal(Seq::filter);
        }
        while i < n
            invariant
                0 <= i <= n,
                n == self.peers@.len(),
                self.peers_view().len() == n,
                pred == (|p: (Seq<char>, PeerView)| p.1.is_reachable),
                reachable == self.peers_view().take(i as int).filter(pred).len(),
                reachable <= i,
            decreases n - i,
        {
            proof {
                assert(self.peers_view().take(i + 1) =~= self.peers_view().take(i as int).push(
                    self.peers_view()[i as int],
                ));
                crate::log::lemma_filter_push(
                    self.peers_view().take(i as int),
                    self.peers_view()[i as int],
                    pred,
                );
            }
            if self.peers[i].1.is_reachable {
                reachable = reachable + 1;
            }
            i = i + 1;
        }
        proof {
            assert(self.peers_view().take(n as int) =~= self.peers_view());
        }
        GossipStats {
            total_peers: n,
            reachable_peers: reachable,
            event_count: self.state.log.len(),
            current_clock: self.state.log.clock().duplicate(),
        }
    }

    /// A full-catch-up request: a pull from the very beginning.
    pub fn request_full_sync(&self, peer_address: &str) -> (r: (String, GossipMessage))
        ensures
            r.0@ == peer_address@,
            r.1 matches GossipMessage::Pull { sender_id, since_clock } && sender_id@
                == self.instance_id@ && forall|id: Seq<char>| cv_get(since_clock@, id) == 0,
    {
        (
            String::from_str(peer_address),
            GossipMessage::Pull {
                sender_id: self.instance_id.clone(),
                since_clock: VectorClock::new(),
            },
        )
    }
}

impl GossipProtocol {
    /// The reachable peers, in table order.
    pub open spec fn spec_reachable(self) -> Seq<(Seq<char>, PeerView)> {
        self.peers_view().filter(|p: (Seq<char>, PeerView)| p.1.is_reachable)
    }

    /// The peers one round addresses: the first `fanout` reachable ones.
    /// The prefix is deterministic on purpose, so rounds are repeatable
    /// under test; an unbiased random sample would spread rumours faster.
    pub open spec fn spec_selected(self) -> Seq<(Seq<char>, PeerView)> {
        if self.spec_reachable().len() <= self.config.fanout {
            self.spec_reachable()
        } else {
            self.spec_reachable().take(self.config.fanout as int)
        }
    }

    /// The events a peer whose knowledge is `since` is missing.
    pub open spec fn delta_events_for(self, since: ClockView) -> Seq<EventView> {
        self.state.log.spec_events().filter(|e: EventView| !cv_le(e.clock, since))
    }

    /// The selected peers that are actually missing something: exactly
    /// those a round pushes to.
    pub open spec fn spec_push_targets(self) -> Seq<(Seq<char>, PeerView)> {
        self.spec_selected().filter(
            |p: (Seq<char>, PeerView)| self.delta_events_for(p.1.last_clock).len() > 0,
        )
    }

    /// How many peers receive a heartbeat in one round.
    pub open spec fn spec_heartbeat_count(self) -> int {
        if self.peers_view().len() <= self.config.fanout {
            self.peers_view().len() as int
        } else {
            self.config.fanout as int
        }
    }

    /// The shape of a push emitted to peer `p`: addressed to it, sent
    /// under the own id, carrying exactly the events `p` is missing.
    pub open spec fn push_pair_ok(self, pair: (String, GossipMessage), p: PeerView) -> bool {
        &&& pair.0@ == p.address
        &&& (pair.1 matches GossipMessage::Push { sender_id, delta } && {
            &&& sender_id@ == self.instance_id@
            &&& delta.from_clock@ == p.last_clock
            &&& delta.to_clock@ == self.state.log.spec_clock()
            &&& views_of(delta.events@) == self.delta_events_for(p.last_clock)
            &&& delta.events@.len() > 0
            &&& delta.state_updates@.len() == 0
        })
    }

    /// The shape of a heartbeat emitted to peer `p`.
    pub open spec fn heartbeat_pair_ok(self, pair: (String, GossipMessage), p: PeerView) -> bool {
        &&& pair.0@ == p.address
        &&& (pair.1 matches GossipMessage::Heartbeat { sender_id, clock, peer_count } && {
            &&& sender_id@ == self.instance_id@
            &&& clock@ == self.state.log.spec_clock()
            &&& peer_count == self.peers_view().len()
        })
    }

    /// The first `fanout` reachable peers, in table order.
    pub fn select_gossip_targets(&self) -> (r: Vec<&PeerState>)
        ensures
            r@.len() == self.spec_selected().len(),
            forall|i: int| 0 <= i < r@.len() ==> r@[i]@ == self.spec_selected()[i].1,
            forall|i: int|
                0 <= i < r@.len() ==> (self.spec_selected()[i].0, r@[i]@) == self.spec_selected()[
                    i
                ],
    {
        let ghost pred = |p: (Seq<char>, PeerView)| p.1.is_reachable;
        let fanout = self.config.fanout;
        let n = self.peers.len();
        let mut out: Vec<&PeerState> = Vec::new();
        let mut i: usize = 0;
        proof {
            assert(self.peers_view().take(0) =~= Seq::<(Seq<char>, PeerView)>::empty());
            reveal(Seq::filter);
        }
        while i < n
            invariant
                0 <= i <= n,
                n == self.peers@.len(),
                self.peers_view().len() == n,
                fanout == self.config.fanout,
                pred == (|p: (Seq<char>, PeerView)| p.1.is_reachable),
                out@.len() == cap_len(self.peers_view().take(i as int).filter(pred).len() as int, fanout as int),
                forall|j: int|
                    0 <= j < out@.len() ==> (#[trigger] out@[j])@ == self.peers_view().take(
                        i as int,
                    ).filter(pred)[j].1,
                forall|j: int|
                    0 <= j < out@.len() ==> (self.peers_view().take(i as int).filter(pred)[j].0,
                    out@[j]@) == self.peers_view().take(i as int).filter(pred)[j],
            decreases n - i,
        {
            proof {
                assert(self.peers_view().take(i + 1) =~= self.peers_view().take(i as int).push(
                    self.peers_view()[i as int],
                ));
                crate::log::lemma_filter_push(
                    self.peers_view().take(i as int),
                    self.peers_view()[i as int],
                    pred,
                );
            }
            if self.peers[i].1.is_reachable {
                if out.len() < fanout {
                    out.push(&self.peers[i].1);
                } else {
                    proof {
                        let f = self.peers_view().take(i as int).filter(pred);
                        assert(f.push(self.peers_view()[i as int]).take(fanout as int) =~= f.take(
                            fanout as int,
                        ));
                    }
                }
            }
            i = i + 1;
        }
        proof {
            assert(self.peers_view().take(n as int) =~= self.peers_view());
            let f = self.spec_reachable();
            if f.len() <= fanout {
                assert(self.spec_selected() == f);
            } else {
                assert(self.spec_selected() == f.take(fanout as int));
                assert(forall|j: int|
                    0 <= j < fanout ==> f.take(fanout as int)[j] == f[j]);
            }
        }
        out
    }

    /// One gossip round: pushes to every selected peer that is missing
    /// something, heartbeats to the first `fanout` peers, and stamps the
    /// round time.  A selected peer whose recorded clock already covers
    /// the local aggregate receives no push, for its delta is empty.
    pub fn initiate_gossip(&mut self, now_ms: u64) -> (r: Vec<(String, GossipMessage)>)
        requires
            old(self).wf(),
        ensures
            final(self).wf(),
            final(self).instance_id == old(self).instance_id,
            final(self).config == old(self).config,
            final(self).state == old(self).state,
            final(self).peers == old(self).peers,
            final(self).spec_last_gossip() == now_ms,
            r@.len() == old(self).spec_push_targets().len() + old(self).spec_heartbeat_count(),
            forall|i: int|
                0 <= i < old(self).spec_push_targets().len() ==> old(self).push_pair_ok(
                    #[trigger] r@[i],
                    old(self).spec_push_targets()[i].1,
                ),
            forall|i: int|
                0 <= i < old(self).spec_heartbeat_count() ==> old(self).heartbeat_pair_ok(
                    #[trigger] r@[old(self).spec_push_targets().len() + i],
                    old(self).peers_view()[i].1,
                ),
    {
        let ghost sel = self.spec_selected();
        let ghost pred = |p: (Seq<char>, PeerView)| self.delta_events_for(p.1.last_clock).len()
            > 0;
        let targets = self.select_gossip_targets();
        let mut msgs: Vec<(String, GossipMessage)> = Vec::new();
        let tn = targets.len();
        let mut i: usize = 0;
        proof {
            assert(sel.take(0) =~= Seq::<(Seq<char>, PeerView)>::empty());
            reveal(Seq::filter);
        }
        while i < tn
            invariant
                0 <= i <= tn,
                tn == targets@.len(),
                sel == self.spec_selected(),
                pred == (|p: (Seq<char>, PeerView)| self.delta_events_for(p.1.last_clock).len()
                    > 0),
                self == old(self),
                self.wf(),
                tn == sel.len(),
                forall|j: int| 0 <= j < tn ==> (sel[j].0, (#[trigger] targets@[j])@) == sel[j],
                msgs@.len() == sel.take(i as int).filter(pred).len(),
                forall|j: int|
                    0 <= j < msgs@.len() ==> self.push_pair_ok(
                        #[trigger] msgs@[j],
                        sel.take(i as int).filter(pred)[j].1,
                    ),
            decreases tn - i,
        {
            proof {
                assert(sel.take(i + 1) =~= sel.take(i as int).push(sel[i as int]));
                crate::log::lemma_filter_push(sel.take(i as int), sel[i as int], pred);
                assert(targets@[i as int]@ == sel[i as int].1);
            }
            let target: &PeerState = targets[i];
            proof {
                let reach_pred = |p: (Seq<char>, PeerView)| p.1.is_reachable;
                crate::log::lemma_filter_subset(self.peers_view(), reach_pred);
                let f = self.spec_reachable();
                assert(f.contains(sel[i as int])) by {
                    if f.len() <= self.config.fanout {
                        assert(sel[i as int] == f[i as int]);
                    } else {
                        assert(sel[i as int] == f.take(self.config.fanout as int)[i as int]);
                        assert(sel[i as int] == f[i as int]);
                    }
                }
                let w = choose|w: int|
                    0 <= w < self.peers_view().len() && self.peers_view()[w] == sel[i as int];
                assert(distinct_keys(self.peers_view()[w].1.last_clock));
                assert(target@ == sel[i as int].1);
                assert(target.last_clock.wf());
            }
            let delta = self.state.delta_since(&target.last_clock);
            proof {
                assert(views_of(delta.events@) == self.delta_events_for(
                    sel[i as int].1.last_clock,
                ));
            }
            if !delta.is_empty() {
                let pair = (target.address.clone(), GossipMessage::Push {
                    sender_id: self.instance_id.clone(),
                    delta,
                });
                msgs.push(pair);
                proof {
                    assert(pred(sel[i as int]));
                    assert(self.push_pair_ok(msgs@[msgs@.len() - 1], sel[i as int].1));
                }
            } else {
                proof {
                    assert(!pred(sel[i as int]));
                }
            }
            i = i + 1;
        }
        proof {
            assert(sel.take(tn as int) =~= sel);
        }
        let ghost push_count = msgs@.len() as int;
        let hb = if self.peers.len() <= self.config.fanout {
            self.peers.len()
        } else {
            self.config.fanout
        };
        let mut k: usize = 0;
        while k < hb
            invariant
                0 <= k <= hb,
                hb <= self.peers@.len(),
                self == old(self),
                self.wf(),
                hb as int == self.spec_heartbeat_count(),
                self.peers_view().len() == self.peers@.len(),
                push_count == self.spec_push_targets().len(),
                msgs@.len() == push_count + k,
                forall|j: int|
                    0 <= j < push_count ==> self.push_pair_ok(
                        #[trigger] msgs@[j],
                        self.spec_push_targets()[j].1,
                    ),
                forall|j: int|
                    0 <= j < k ==> self.heartbeat_pair_ok(
                        #[trigger] msgs@[push_count + j],
                        self.peers_view()[j].1,
                    ),
            decreases hb - k,
        {
            let pair = (self.peers[k].1.address.clone(), GossipMessage::Heartbeat {
                sender_id: self.instance_id.clone(),
                clock: self.state.log.clock().duplicate(),
                peer_count: self.peers.len(),
            });
            msgs.push(pair);
            proof {
                assert(self.heartbeat_pair_ok(msgs@[msgs@.len() - 1], self.peers_view()[k as int].1));
            }
            k = k + 1;
        }
        self.last_gossip_ms = now_ms;
        msgs
    }
}

impl GossipProtocol {
    /// Whether a received delta may be applied: its events are well
    /// formed and the clock it advertises is too.
    pub open spec fn delta_acceptable(delta: DeltaState) -> bool {
        delta.wf() && distinct_keys(delta.to_clock@)
    }

    /// Checks [`Self::delta_acceptable`] on a received delta.
    fn check_delta(delta: &DeltaState) -> (r: bool)
        ensures
            r == Self::delta_acceptable(*delta),
    {
        delta.check_wf() && delta.to_clock.check_wf()
    }

    /// Marks a known peer seen, recording `new_clock` as its position
    /// when one came with the contact; an unknown id changes nothing.
    fn refresh_peer(&mut self, peer_id: &str, now_ms: u64, new_clock: Option<&VectorClock>)
        requires
            old(self).wf(),
            new_clock matches Some(c) ==> distinct_keys(c@),
        ensures
            final(self).wf(),
            final(self).instance_id == old(self).instance_id,
            final(self).config == old(self).config,
            final(self).state == old(self).state,
            final(self).pending_messages == old(self).pending_messages,
            final(self).spec_last_gossip() == old(self).spec_last_gossip(),
            old(self).spec_peer(peer_id@) is None ==> final(self).peers_view() == old(
                self,
            ).peers_view(),
            old(self).spec_peer(peer_id@) matches Some(p) ==> {
                &&& final(self).spec_peer(peer_id@) == Some(
                    match new_clock {
                        Some(c) => seen_peer_with_clock(p, now_ms, c@),
                        None => seen_peer(p, now_ms),
                    },
                )
                &&& forall|id: Seq<char>|
                    id != peer_id@ ==> final(self).spec_peer(id) == old(self).spec_peer(id)
            },
    {
        let ghost v0 = self.peers_view();
        match self.find_peer(peer_id) {
            Some(i) => {
                let ghost old_pair = v0[i as int];
                let mut entry = self.peers.remove(i);
                entry.1.mark_seen(now_ms);
                match new_clock {
                    Some(c) => {
                        entry.1.last_clock = c.duplicate();
                    },
                    None => {},
                }
                self.peers.insert(i, entry);
                proof {
                    let pair = (old_pair.0, self.peers_view()[i as int].1);
                    assert(self.peers_view() =~= v0.update(i as int, pair));
                    assert forall|id: Seq<char>|
                        assoc_find(self.peers_view(), id) == (if id == peer_id@ {
                            Some(pair.1)
                        } else {
                            assoc_find(v0, id)
                        }) by {
                        crate::assoc::lemma_assoc_find_update(v0, i as int, pair, id);
                    }
                    crate::assoc::lemma_assoc_find_update(v0, i as int, pair, peer_id@);
                }
            },
            None => {},
        }
    }

    /// The peer ids advertised as joined, each with its address; a
    /// repeated id keeps its first advertised address.
    pub open spec fn joined_pairs(joined: Seq<PeerInfo>) -> Seq<(Seq<char>, Seq<char>)> {
        Seq::new(joined.len(), |i: int| (joined[i].peer_id@, joined[i].address@))
    }

    /// Whether the departure list names `id`.
    pub open spec fn left_has(left: Seq<String>, id: Seq<char>) -> bool {
        exists|k: int| 0 <= k < left.len() && left[k]@ == id
    }

    /// What one peer record reads after a membership update: departures
    /// win over everything, a known record survives (the sender's marked
    /// seen), and an unknown advertised id is adopted under its first
    /// advertised address.
    pub open spec fn membership_result(
        self,
        sender: Seq<char>,
        joined: Seq<PeerInfo>,
        left: Seq<String>,
        id: Seq<char>,
        now_ms: u64,
    ) -> Option<PeerView> {
        if Self::left_has(left, id) {
            None
        } else {
            let base = if id == sender && self.spec_peer(id) is Some {
                Some(seen_peer(self.spec_peer(id).unwrap(), now_ms))
            } else {
                self.spec_peer(id)
            };
            if base is Some {
                base
            } else if id != self.instance_id@ && assoc_find(Self::joined_pairs(joined), id)
                is Some {
                Some(fresh_peer(id, assoc_find(Self::joined_pairs(joined), id).unwrap(), now_ms))
            } else {
                None
            }
        }
    }

    /// Folds one inbound message into the engine.  Deltas and clocks
    /// that fail their structural check are dropped without effect: a
    /// malformed message from one peer must not disturb the rest.
    pub fn handle_message(
        &mut self,
        from_address: &str,
        message: GossipMessage,
        now_ms: u64,
    ) -> (r: Option<GossipMessage>)
        requires
            old(self).wf(),
        ensures
            final(self).wf(),
            final(self).instance_id == old(self).instance_id,
            final(self).config == old(self).config,
            final(self).spec_last_gossip() == old(self).spec_last_gossip(),
            message matches GossipMessage::Push { sender_id, delta } ==> {
                &&& r is None
                &&& if Self::delta_acceptable(delta) {
                    &&& final(self).state.log.spec_events() == old(
                        self,
                    ).state.log.spec_events() + crate::state::fresh_events(
                        old(self).state.log.spec_events(),
                        views_of(delta.events@),
                    )
                    &&& final(self).state.metrics == old(self).state.metrics
                    &&& final(self).state.metadata == old(self).state.metadata
                    &&& (old(self).spec_peer(sender_id@) matches Some(p) ==> {
                        &&& final(self).spec_peer(sender_id@) == Some(
                            seen_peer_with_clock(p, now_ms, delta.to_clock@),
                        )
                        &&& forall|id: Seq<char>|
                            id != sender_id@ ==> final(self).spec_peer(id) == old(
                                self,
                            ).spec_peer(id)
                    })
                    &&& (old(self).spec_peer(sender_id@) is None ==> final(self).peers_view()
                        == old(self).peers_view())
                } else {
                    &&& final(self).state == old(self).state
                    &&& final(self).peers_view() == old(self).peers_view()
                }
            },
            message matches GossipMessage::PullResponse { sender_id, delta } ==> {
                &&& r is None
                &&& if Self::delta_acceptable(delta) {
                    &&& final(self).state.log.spec_events() == old(
                        self,
                    ).state.log.spec_events() + crate::state::fresh_events(
                        old(self).state.log.spec_events(),
                        views_of(delta.events@),
                    )
                    &&& final(self).state.metrics == old(self).state.metrics
                    &&& final(self).state.metadata == old(self).state.metadata
                    &&& (old(self).spec_peer(sender_id@) matches Some(p) ==> {
                        &&& final(self).spec_peer(sender_id@) == Some(
                            seen_peer_with_clock(p, now_ms, delta.to_clock@),
                        )
                        &&& forall|id: Seq<char>|
                            id != sender_id@ ==> final(self).spec_peer(id) == old(
                                self,
                            ).spec_peer(id)
                    })
                    &&& (old(self).spec_peer(sender_id@) is None ==> final(self).peers_view()
                        == old(self).peers_view())
                } else {
                    &&& final(self).state == old(self).state
                    &&& final(self).peers_view() == old(self).peers_view()
                }
            },
            message matches GossipMessage::Pull { sender_id, since_clock } ==> {
                &&& final(self).state == old(self).state
                &&& if distinct_keys(since_clock@) {
                    &&& (old(self).spec_peer(sender_id@) matches Some(p) ==> {
                        &&& final(self).spec_peer(sender_id@) == Some(seen_peer(p, now_ms))
                        &&& forall|id: Seq<char>|
                            id != sender_id@ ==> final(self).spec_peer(id) == old(
                                self,
                            ).spec_peer(id)
                    })
                    &&& (old(self).spec_peer(sender_id@) is None ==> final(self).peers_view()
                        == old(self).peers_view())
                    &&& (r matches Some(reply) && (reply
                        matches GossipMessage::PullResponse { sender_id: responder, delta } && {
                        &&& responder@ == old(self).instance_id@
                        &&& delta.from_clock@ == since_clock@
                        &&& delta.to_clock@ == old(self).state.log.spec_clock()
                        &&& views_of(delta.events@) == old(self).delta_events_for(since_clock@)
                        &&& delta.state_updates@.len() == 0
                    }))
                } else {
                    &&& r is None
                    &&& final(self).peers_view() == old(self).peers_view()
                }
            },
            message matches GossipMessage::Heartbeat { sender_id, clock, peer_count } ==> {
                &&& r is None
                &&& final(self).state == old(self).state
                &&& if distinct_keys(clock@) {
                    &&& (old(self).spec_peer(sender_id@) matches Some(p) ==> {
                        &&& final(self).spec_peer(sender_id@) == Some(
                            seen_peer_with_clock(p, now_ms, clock@),
                        )
                        &&& forall|id: Seq<char>|
                            id != sender_id@ ==> final(self).spec_peer(id) == old(
                                self,
                            ).spec_peer(id)
                    })
                    &&& ((old(self).spec_peer(sender_id@) is None && sender_id@ != old(
                        self,
                    ).instance_id@) ==> {
                        &&& final(self).spec_peer(sender_id@) == Some(
                            fresh_peer(sender_id@, from_address@, now_ms),
                        )
                        &&& forall|id: Seq<char>|
                            id != sender_id@ ==> final(self).spec_peer(id) == old(
                                self,
                            ).spec_peer(id)
                    })
                    &&& ((old(self).spec_peer(sender_id@) is None && sender_id@ == old(
                        self,
                    ).instance_id@) ==> final(self).peers_view() == old(self).peers_view())
                } else {
                    final(self).peers_view() == old(self).peers_view()
                }
            },
            message matches GossipMessage::MembershipUpdate { sender_id, joined, left } ==> {
                &&& r is None
                &&& final(self).state == old(self).state
                &&& forall|id: Seq<char>|
                    final(self).spec_peer(id) == old(self).membership_result(
                        sender_id@,
                        joined@,
                        left@,
                        id,
                        now_ms,
                    )
            },
    {
        match message {
            GossipMessage::Push { sender_id, delta } => {
                if !Self::check_delta(&delta) {
                    return None;
                }
                self.refresh_peer(sender_id.as_str(), now_ms, Some(&delta.to_clock));
                self.state.apply_delta(delta);
                None
            },
            GossipMessage::PullResponse { sender_id, delta } => {
                if !Self::check_delta(&delta) {
                    return None;
                }
                self.refresh_peer(sender_id.as_str(), now_ms, Some(&delta.to_clock));
                self.state.apply_delta(delta);
                None
            },
            GossipMessage::Pull { sender_id, since_clock } => {
                if !since_clock.check_wf() {
                    return None;
                }
                self.refresh_peer(sender_id.as_str(), now_ms, None);
                let delta = self.state.delta_since(&since_clock);
                Some(
                    GossipMessage::PullResponse {
                        sender_id: self.instance_id.clone(),
                        delta,
                    },
                )
            },
            GossipMessage::Heartbeat { sender_id, clock, peer_count: _ } => {
                if !clock.check_wf() {
                    return None;
                }
                if self.has_peer(sender_id.as_str()) {
                    self.refresh_peer(sender_id.as_str(), now_ms, Some(&clock));
                } else {
                    self.add_peer(sender_id, String::from_str(from_address), now_ms);
                }
                None
            },
            GossipMessage::MembershipUpdate { sender_id, joined, left } => {
                let ghost g0 = *self;
                self.refresh_peer(sender_id.as_str(), now_ms, None);
                let ghost g1 = *self;
                let jn = joined.len();
                let mut j: usize = 0;
                while j < jn
                    invariant
                        0 <= j <= jn,
                        jn == joined@.len(),
                        self.wf(),
                        self.instance_id == g1.instance_id,
                        self.config == g1.config,
                        self.state == g1.state,
                        self.pending_messages == g1.pending_messages,
                        self.spec_last_gossip() == g1.spec_last_gossip(),
                        forall|id: Seq<char>|
                            self.spec_peer(id) == (if g1.spec_peer(id) is Some {
                                g1.spec_peer(id)
                            } else if id != g1.instance_id@ && assoc_find(
                                Self::joined_pairs(joined@).take(j as int),
                                id,
                            ) is Some {
                                Some(
                                    fresh_peer(
                                        id,
                                        assoc_find(
                                            Self::joined_pairs(joined@).take(j as int),
                                            id,
                                        ).unwrap(),
                                        now_ms,
                                    ),
                                )
                            } else {
                                None
                            }),
                    decreases jn - j,
                {
                    let ghost jp = Self::joined_pairs(joined@);
                    proof {
                        assert(jp.take(j + 1) =~= jp.take(j as int).push(jp[j as int]));
                    }
                    let info = &joined[j];
                    let ghost pre = *self;
                    self.add_peer(info.peer_id.clone(), info.address.clone(), now_ms);
                    proof {
                        let key = jp[j as int].0;
                        let addr = jp[j as int].1;
                        assert(jp[j as int] == (joined@[j as int].peer_id@, joined@[
                            j as int
                        ].address@));
                        assert(pre.instance_id@ == g1.instance_id@);
                        assert forall|id: Seq<char>|
                            self.spec_peer(id) == (if g1.spec_peer(id) is Some {
                                g1.spec_peer(id)
                            } else if id != g1.instance_id@ && assoc_find(
                                jp.take(j + 1),
                                id,
                            ) is Some {
                                Some(
                                    fresh_peer(id, assoc_find(jp.take(j + 1), id).unwrap(), now_ms),
                                )
                            } else {
                                None
                            }) by {
                            lemma_assoc_find_push(jp.take(j as int), jp[j as int], id);
                            let noop = key == pre.instance_id@ || pre.spec_peer(key) is Some;
                            if noop {
                                assert(self.peers_view() == pre.peers_view());
                                assert(self.spec_peer(id) == pre.spec_peer(id));
                                if id == key {
                                    if pre.spec_peer(key) is Some {
                                        if g1.spec_peer(key) is Some {
                                        } else {
                                            assert(assoc_find(jp.take(j as int), key) is Some);
                                            assert(assoc_find(jp.take(j + 1), key) == assoc_find(
                                                jp.take(j as int),
                                                key,
                                            ));
                                        }
                                    } else {
                                        assert(key == g1.instance_id@);
                                    }
                                }
                            } else {
                                assert(self.spec_peer(key) == Some(
                                    fresh_peer(key, addr, now_ms),
                                ));
                                if id == key {
                                    assert(g1.spec_peer(key) is None);
                                    assert(assoc_find(jp.take(j as int), key) is None);
                                    assert(assoc_find(jp.take(j + 1), key) == Some(addr));
                                } else {
                                    assert(self.spec_peer(id) == pre.spec_peer(id));
                                }
                            }
                        }
                    }
                    j = j + 1;
                }
                proof {
                    assert(Self::joined_pairs(joined@).take(jn as int) =~= Self::joined_pairs(
                        joined@,
                    ));
                }
                let ghost g2 = *self;
                let ln = left.len();
                let mut k: usize = 0;
                while k < ln
                    invariant
                        0 <= k <= ln,
                        ln == left@.len(),
                        self.wf(),
                        self.instance_id == g2.instance_id,
                        self.config == g2.config,
                        self.state == g2.state,
                        self.pending_messages == g2.pending_messages,
                        self.spec_last_gossip() == g2.spec_last_gossip(),
                        forall|id: Seq<char>|
                            self.spec_peer(id) == (if exists|q: int|
                                0 <= q < k && left@[q]@ == id {
                                None::<PeerView>
                            } else {
                                g2.spec_peer(id)
                            }),
                    decreases ln - k,
                {
                    self.remove_peer(left[k].as_str());
                    proof {
                        assert forall|id: Seq<char>|
                            self.spec_peer(id) == (if exists|q: int|
                                0 <= q < k + 1 && left@[q]@ == id {
                                None::<PeerView>
                            } else {
                                g2.spec_peer(id)
                            }) by {
                            if id == left@[k as int]@ {
                                assert(left@[k as int]@ == id);
                            }
                        }
                    }
                    k = k + 1;
                }
                None
            },
        }
    }
}

/// A quiescent peer receives no push: when a selected peer's recorded
/// clock already covers the local aggregate clock, the delta computed
/// for it is empty, so it is not among the round's push targets.
pub proof fn lemma_covered_peer_gets_no_push(g: GossipProtocol, j: int)
    requires
        g.wf(),
        0 <= j < g.spec_selected().len(),
        cv_le(g.state.log.spec_clock(), g.spec_selected()[j].1.last_clock),
    ensures
        g.delta_events_for(g.spec_selected()[j].1.last_clock).len() == 0,
        !g.spec_push_targets().contains(g.spec_selected()[j]),
{
    let since = g.spec_selected()[j].1.last_clock;
    let evs = g.state.log.spec_events();
    let pred = |e: EventView| !cv_le(e.clock, since);
    let f = evs.filter(pred);
    if f.len() > 0 {
        crate::log::lemma_filter_subset(evs, pred);
        broadcast use vstd::prelude::Seq::lemma_filter_pred;

        assert(evs.contains(f[0]));
        let w = choose|w: int| 0 <= w < evs.len() && evs[w] == f[0];
        assert(cv_le(evs[w].clock, g.state.log.spec_clock()));
        assert forall|id: Seq<char>| cv_get(evs[w].clock, id) <= cv_get(since, id) by {
            assert(cv_get(evs[w].clock, id) <= cv_get(g.state.log.spec_clock(), id));
            assert(cv_get(g.state.log.spec_clock(), id) <= cv_get(since, id));
        }
        assert(cv_le(evs[w].clock, since));
        assert(!pred(evs[w]));
        assert(false);
    }
    let ne = |p: (Seq<char>, PeerView)| g.delta_events_for(p.1.last_clock).len() > 0;
    if g.spec_push_targets().contains(g.spec_selected()[j]) {
        let i = choose|i: int|
            0 <= i < g.spec_push_targets().len() && g.spec_push_targets()[i] == g.spec_selected()[
                j
            ];
        broadcast use vstd::prelude::Seq::lemma_filter_pred;

        assert(ne(g.spec_push_targets()[i]));
        assert(false);
    }
}

/// The smaller of a length and a cap.
pub open spec fn cap_len(len: int, cap: int) -> int {
    if len <= cap {
        len
    } else {
        cap
    }
}

/// Filtering a pairwise-distinct-keyed table keeps its keys distinct.
proof fn lemma_filter_distinct_pairs(
    s: Seq<(Seq<char>, PeerView)>,
    pred: spec_fn((Seq<char>, PeerView)) -> bool,
    i: int,
    j: int,
)
    requires
        distinct_keys(s),
        0 <= i < j < s.filter(pred).len(),
    ensures
        s.filter(pred)[i].0 != s.filter(pred)[j].0,
    decreases s.len(),
{
    reveal(Seq::filter);
    let f = s.filter(pred);
    if s.len() > 0 {
        let sub = s.drop_last();
        assert(distinct_keys(sub)) by {
            assert(forall|p: int| 0 <= p < sub.len() ==> sub[p] == s[p]);
        }
        if pred(s.last()) {
            assert(f == sub.filter(pred).push(s.last()));
            if j < f.len() - 1 {
                lemma_filter_distinct_pairs(sub, pred, i, j);
            } else {
                assert(f[j] == s.last());
                crate::log::lemma_filter_subset(sub, pred);
                assert(sub.contains(sub.filter(pred)[i]));
                let w = choose|w: int| 0 <= w < sub.len() && sub[w] == sub.filter(pred)[i];
                assert(s[w] == f[i]);
                assert(s[w].0 != s[s.len() - 1].0);
            }
        } else {
            assert(f == sub.filter(pred));
            lemma_filter_distinct_pairs(sub, pred, i, j);
        }
    }
}

} // verus!
