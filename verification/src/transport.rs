//! Message carriage between instances.
//!
//! The gossip engine hands `(address, message)` pairs to a transport and
//! drains received messages from it.  The concrete wire encoding and the
//! network itself live outside this crate; here lives the in-memory
//! transport: a table of per-address inboxes with exact delivery
//! contracts, used wherever instances exchange messages within one
//! process.

use vstd::prelude::*;
use crate::assoc::{assoc_find, distinct_keys};
use crate::assoc::{
    lemma_assoc_find_at, lemma_assoc_find_push, lemma_assoc_find_remove, lemma_assoc_find_skip,
    lemma_assoc_find_update, lemma_assoc_has_index,
};
use crate::gossip::GossipMessage;
use crate::text::str_eq;
use vstd::pervasive::VecAdditionalExecFns;
use vstd::string::StringExecFns;

verus! {

/// What can go wrong while carrying messages.  Every variant is
/// recoverable: the gossip loop records the failure against the peer
/// and retries on a later round.
#[derive(Debug)]
pub enum TransportError {
    ConnectionFailed(String),
    SendFailed(String),
    ReceiveFailed(String),
    SerializationError(String),
    Timeout(String),
    NotConnected,
}

impl TransportError {
    /// A short description of the failure kind.
    pub fn kind(&self) -> (r: &'static str)
        ensures
            (self is NotConnected) ==> r@ == "not connected"@,
    {
        match self {
            TransportError::ConnectionFailed(_) => "connection failed",
            TransportError::SendFailed(_) => "send failed",
            TransportError::ReceiveFailed(_) => "receive failed",
            TransportError::SerializationError(_) => "serialization error",
            TransportError::Timeout(_) => "timeout",
            TransportError::NotConnected => "not connected",
        }
    }
}

/// The usual result of a transport operation.
pub type TransportResult<T> = Result<T, TransportError>;

/// Bounds every transport operation must respect.
#[derive(Clone, Debug)]
pub struct TransportConfig {
    pub timeout_ms: u64,
    pub max_message_size: usize,
    pub retry_count: u32,
    pub retry_delay_ms: u64,
}

impl Default for TransportConfig {
    /// Five-second timeout, one-megabyte messages, three retries.
    fn default() -> (r: Self)
        ensures
            r.timeout_ms == 5000,
            r.max_message_size == 1048576,
            r.retry_count == 3,
            r.retry_delay_ms == 1000,
    {
        TransportConfig {
            timeout_ms: 5000,
            max_message_size: 1048576,
            retry_count: 3,
            retry_delay_ms: 1000,
        }
    }
}

/// Which transport a deployment selects.
#[derive(Clone, Copy, Debug, PartialEq, Eq, Structural)]
pub enum TransportType {
    Http,
    WebSocket,
    InMemory,
}

/// An in-process message carrier: one owned inbox per address.  Every
/// endpoint of a test network sends into and receives out of the same
/// carrier value, so delivery is exact and loss-free by construction.
#[derive(Debug)]
pub struct InMemoryTransport {
    pub instance_id: String,
    pub inboxes: Vec<(String, Vec<GossipMessage>)>,
    pub connected: Vec<String>,
}

impl InMemoryTransport {
    /// The abstract inbox table.
    pub open spec fn inboxes_view(self) -> Seq<(Seq<char>, Seq<GossipMessage>)> {
        Seq::new(self.inboxes@.len(), |i: int| (self.inboxes@[i].0@, self.inboxes@[i].1@))
    }

    /// The messages queued for `address`.
    pub open spec fn spec_inbox(self, address: Seq<char>) -> Seq<GossipMessage> {
        match assoc_find(self.inboxes_view(), address) {
            Some(msgs) => msgs,
            None => Seq::<GossipMessage>::empty(),
        }
    }

    /// The addresses marked connected.
    pub open spec fn connected_view(self) -> Seq<Seq<char>> {
        Seq::new(self.connected@.len(), |i: int| self.connected@[i]@)
    }

    /// Whether `address` is marked connected.
    pub open spec fn spec_connected(self, address: Seq<char>) -> bool {
        self.connected_view().contains(address)
    }

    /// No address owns two inboxes.
    pub open spec fn wf(self) -> bool {
        distinct_keys(self.inboxes_view())
    }

    /// A carrier for the endpoint named `instance_id`, with every inbox
    /// empty.
    pub fn new(instance_id: String) -> (r: Self)
        ensures
            r.wf(),
            r.instance_id@ == instance_id@,
            forall|addr: Seq<char>| r.spec_inbox(addr).len() == 0,
            forall|addr: Seq<char>| !r.spec_connected(addr),
    {
        let r = InMemoryTransport { instance_id, inboxes: Vec::new(), connected: Vec::new() };
        proof {
            assert(r.inboxes_view() =~= Seq::<(Seq<char>, Seq<GossipMessage>)>::empty());
            assert(r.connected_view() =~= Seq::<Seq<char>>::empty());
        }
        r
    }

    /// Marks `address` connected.
    pub fn connect(&mut self, address: &str) -> (r: TransportResult<()>)
        requires
            old(self).wf(),
        ensures
            final(self).wf(),
            r is Ok,
            final(self).instance_id == old(self).instance_id,
            final(self).inboxes_view() == old(self).inboxes_view(),
            final(self).spec_connected(address@),
            forall|a: Seq<char>|
                a != address@ ==> final(self).spec_connected(a) == old(self).spec_connected(a),
    {
        let n = self.connected.len();
        let mut i: usize = 0;
        while i < n
            invariant
                0 <= i <= n,
                n == self.connected@.len(),
                self.connected_view().len() == n,
                self == old(self),
                self.wf(),
            decreases n - i,
        {
            if str_eq(self.connected[i].as_str(), address) {
                proof {
                    assert(self.connected_view()[i as int] == address@);
                }
                return Ok(());
            }
            i = i + 1;
        }
        let ghost c0 = self.connected_view();
        self.connected.push(String::from_str(address));
        proof {
            assert(self.connected_view() =~= c0.push(address@));
            assert(self.connected_view()[c0.len() as int] == address@);
            assert forall|a: Seq<char>|
                a != address@ implies (self.spec_connected(a) == old(self).spec_connected(
                a,
            )) by {
                if c0.push(address@).contains(a) {
                    let w = choose|w: int|
                        0 <= w < c0.push(address@).len() && c0.push(address@)[w] == a;
                    assert(w < c0.len());
                    assert(c0[w] == a);
                }
                if c0.contains(a) {
                    let w = choose|w: int| 0 <= w < c0.len() && c0[w] == a;
                    assert(c0.push(address@)[w] == a);
                }
            }
        }
        Ok(())
    }

    /// Removes the connected mark of `address`.
    pub fn disconnect(&mut self, address: &str) -> (r: TransportResult<()>)
        requires
            old(self).wf(),
        ensures
            final(self).wf(),
            r is Ok,
            final(self).instance_id == old(self).instance_id,
            final(self).inboxes_view() == old(self).inboxes_view(),
            !final(self).spec_connected(address@),
    {
        let mut kept: Vec<String> = Vec::new();
        let mut i: usize = 0;
        let n = self.connected.len();
        while i < n
            invariant
                0 <= i <= n,
                n == self.connected@.len(),
                self == old(self),
                forall|j: int| 0 <= j < kept@.len() ==> (#[trigger] kept@[j])@ != address@,
            decreases n - i,
        {
            if !str_eq(self.connected[i].as_str(), address) {
                kept.push(self.connected[i].clone());
            }
            i = i + 1;
        }
        self.connected = kept;
        proof {
            if self.spec_connected(address@) {
                let w = choose|w: int|
                    0 <= w < self.connected_view().len() && self.connected_view()[w] == address@;
                assert(self.connected@[w]@ == address@);
            }
        }
        Ok(())
    }

    /// Whether `address` is marked connected.
    pub fn is_connected(&self, address: &str) -> (r: bool)
        ensures
            r == self.spec_connected(address@),
    {
        let n = self.connected.len();
        let mut i: usize = 0;
        while i < n
            invariant
                0 <= i <= n,
                n == self.connected@.len(),
                self.connected_view().len() == n,
                forall|j: int| 0 <= j < i ==> self.connected_view()[j] != address@,
            decreases n - i,
        {
            if str_eq(self.connected[i].as_str(), address) {
                proof {
                    assert(self.connected_view()[i as int] == address@);
                }
                return true;
            }
            i = i + 1;
        }
        proof {
            if self.spec_connected(address@) {
                let w = choose|w: int|
                    0 <= w < self.connected_view().len() && self.connected_view()[w] == address@;
            }
        }
        false
    }

    /// The addresses currently marked connected.
    pub fn connected_peers(&self) -> (r: Vec<String>)
        ensures
            r@.len() == self.connected_view().len(),
            forall|i: int| 0 <= i < r@.len() ==> r@[i]@ == self.connected_view()[i],
    {
        let n = self.connected.len();
        let mut out: Vec<String> = Vec::new();
        let mut i: usize = 0;
        while i < n
            invariant
                0 <= i <= n,
                n == self.connected@.len(),
                self.connected_view().len() == n,
                out@.len() == i,
                forall|j: int| 0 <= j < i ==> out@[j]@ == self.connected_view()[j],
            decreases n - i,
        {
            out.push(self.connected[i].clone());
            i = i + 1;
        }
        out
    }

    /// Queues `message` for `address`.  Delivery into the owned table
    /// always succeeds.
    pub fn send(&mut self, address: &str, message: GossipMessage) -> (r: TransportResult<()>)
        requires
            old(self).wf(),
        ensures
            final(self).wf(),
            r is Ok,
            final(self).instance_id == old(self).instance_id,
            final(self).connected_view() == old(self).connected_view(),
            final(self).spec_inbox(address@) == old(self).spec_inbox(address@).push(message),
            forall|a: Seq<char>|
                a != address@ ==> final(self).spec_inbox(a) == old(self).spec_inbox(a),
    {
        let ghost v0 = self.inboxes_view();
        let n = self.inboxes.len();
        let mut i: usize = 0;
        while i < n
            invariant
                0 <= i <= n,
                n == self.inboxes@.len(),
                self == old(self),
                v0 == self.inboxes_view(),
                v0.len() == n,
                distinct_keys(v0),
                forall|j: int| 0 <= j < i ==> v0[j].0 != address@,
            decreases n - i,
        {
            if str_eq(self.inboxes[i].0.as_str(), address) {
                proof {
                    lemma_assoc_find_at(v0, address@, i as int);
                }
                let mut entry = self.inboxes.remove(i);
                let ghost q0 = entry.1@;
                entry.1.push(message);
                self.inboxes.insert(i, entry);
                proof {
                    let pair = (address@, q0.push(message));
                    assert(self.inboxes_view() =~= v0.update(i as int, pair));
                    assert forall|a: Seq<char>|
                        assoc_find(self.inboxes_view(), a) == (if a == address@ {
                            Some(pair.1)
                        } else {
                            assoc_find(v0, a)
                        }) by {
                        lemma_assoc_find_update(v0, i as int, pair, a);
                    }
                    lemma_assoc_find_update(v0, i as int, pair, address@);
                }
                return Ok(());
            }
            i = i + 1;
        }
        let mut queue: Vec<GossipMessage> = Vec::new();
        queue.push(message);
        self.inboxes.push((String::from_str(address), queue));
        proof {
            let ghost pair = (address@, seq![message]);
            assert(self.inboxes_view() =~= v0.push(pair));
            lemma_assoc_has_index(v0, address@);
            assert forall|a: Seq<char>|
                assoc_find(self.inboxes_view(), a) == (if a == address@ {
                    Some(pair.1)
                } else {
                    assoc_find(v0, a)
                }) by {
                lemma_assoc_find_push(v0, pair, a);
            }
            assert(distinct_keys(self.inboxes_view())) by {
                assert(forall|j: int| 0 <= j < v0.len() ==> self.inboxes_view()[j] == v0[j]);
                assert(self.inboxes_view()[v0.len() as int] == pair);
            }
            assert(old(self).spec_inbox(address@).push(message) =~= seq![message]);
        }
        Ok(())
    }

    /// Drains this endpoint's own inbox, in arrival order.  The sender
    /// address is not recorded by the carrier; each drained message is
    /// tagged with a fixed origin marker.
    pub fn receive(&mut self) -> (r: TransportResult<Vec<(String, GossipMessage)>>)
        requires
            old(self).wf(),
        ensures
            final(self).wf(),
            r is Ok,
            final(self).instance_id == old(self).instance_id,
            final(self).connected_view() == old(self).connected_view(),
            final(self).spec_inbox(old(self).instance_id@).len() == 0,
            forall|a: Seq<char>|
                a != old(self).instance_id@ ==> final(self).spec_inbox(a) == old(self).spec_inbox(
                    a,
                ),
            r matches Ok(v) && v@.len() == old(self).spec_inbox(old(self).instance_id@).len()
                && forall|i: int|
                0 <= i < v@.len() ==> (#[trigger] v@[i]).1 == old(self).spec_inbox(
                    old(self).instance_id@,
                )[i],
    {
        let ghost v0 = self.inboxes_view();
        let ghost own = self.instance_id@;
        let mut out: Vec<(String, GossipMessage)> = Vec::new();
        let n = self.inboxes.len();
        let mut i: usize = 0;
        while i < n
            invariant
                0 <= i <= n,
                n == self.inboxes@.len(),
                self == old(self),
                v0 == self.inboxes_view(),
                own == self.instance_id@,
                v0.len() == n,
                distinct_keys(v0),
                out@.len() == 0,
                forall|j: int| 0 <= j < i ==> v0[j].0 != own,
            decreases n - i,
        {
            if str_eq(self.inboxes[i].0.as_str(), self.instance_id.as_str()) {
                proof {
                    lemma_assoc_find_at(v0, own, i as int);
                }
                let mut entry = self.inboxes.remove(i);
                let ghost q = entry.1@;
                proof {
                    assert(q == old(self).spec_inbox(own));
                }
                while entry.1.len() > 0
                    invariant
                        out@.len() + entry.1@.len() == q.len(),
                        forall|j: int| 0 <= j < out@.len() ==> (#[trigger] out@[j]).1 == q[j],
                        forall|j: int| 0 <= j < entry.1@.len() ==> entry.1@[j] == q[j + out@.len()],
                    decreases entry.1@.len(),
                {
                    let m = entry.1.remove(0);
                    out.push((String::from_str("sender"), m));
                }
                proof {
                    assert(self.inboxes_view() =~= v0.remove(i as int));
                    assert forall|a: Seq<char>|
                        assoc_find(self.inboxes_view(), a) == (if a == own {
                            None::<Seq<GossipMessage>>
                        } else {
                            assoc_find(v0, a)
                        }) by {
                        lemma_assoc_find_remove(v0, i as int, a);
                    }
                    lemma_assoc_find_remove(v0, i as int, own);
                }
                return Ok(out);
            }
            i = i + 1;
        }
        proof {
            lemma_assoc_find_skip(v0, own, n as int);
            assert(old(self).spec_inbox(own).len() == 0);
        }
        Ok(out)
    }
}

} // verus!
