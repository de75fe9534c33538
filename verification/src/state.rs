//! The replica state of one instance, and deltas between replicas.
//!
//! A [`SyncState`] aggregates the event log and two last-writer-wins
//! maps for one instance.  Local recording appends to the log under a
//! freshly ticked clock; [`SyncState::delta_since`] packages what a
//! requester at a given causal position is missing, and
//! [`SyncState::apply_delta`] absorbs such a package idempotently.

use vstd::prelude::*;
use crate::assoc::distinct_keys;
use crate::clock::{cv_get, max64, VectorClock};
use crate::log::{
    distinct_ids, events_clock_max, has_event_id, lemma_events_clock_max_push, lemma_filter_push,
    views_of, EventView, ExperienceEvent, ExperienceEventType, ExperienceLog,
};
use crate::lww::{lww_merged_entry, LWWMap};
use vstd::string::StringExecFns;

verus! {

/// Relies on `uuid::Uuid::new_v4` for globally unique event ids; its
/// hyphenated string form is 36 characters long.
#[verifier::external_body]
pub(crate) fn new_unique_id() -> (r: String)
    ensures
        r@.len() == 36,
{
    uuid::Uuid::new_v4().to_string()
}

/// A computed diff between two causal positions: the events the
/// requester may be missing, bracketed by the clocks it was computed
/// from and to.
#[derive(Debug, Clone)]
pub struct DeltaState {
    pub from_clock: VectorClock,
    pub to_clock: VectorClock,
    pub events: Vec<ExperienceEvent>,
    pub state_updates: Vec<(String, String)>,
}

impl DeltaState {
    /// Every event clock is well formed and no id repeats: what a delta
    /// computed by [`SyncState::delta_since`] always satisfies, and what
    /// applying a delta relies on.
    pub open spec fn wf(self) -> bool {
        &&& distinct_ids(views_of(self.events@))
        &&& forall|j: int|
            0 <= j < self.events@.len() ==> distinct_keys(#[trigger] views_of(self.events@)[j].clock)
    }

    /// Checks the structural invariant of a received delta: no event id
    /// occurs twice and every carried clock is well formed.  A delta
    /// failing this check is malformed and is dropped by its receiver.
    pub fn check_wf(&self) -> (r: bool)
        ensures
            r == self.wf(),
    {
        let ghost b = views_of(self.events@);
        let n = self.events.len();
        let mut i: usize = 0;
        while i < n
            invariant
                0 <= i <= n,
                n == self.events@.len(),
                b == views_of(self.events@),
                b.len() == n,
                forall|p: int, q: int| 0 <= p < q < i ==> b[p].id != b[q].id,
                forall|p: int| 0 <= p < i ==> distinct_keys(#[trigger] b[p].clock),
            decreases n - i,
        {
            if !self.events[i].vector_clock.check_wf() {
                proof {
                    assert(!distinct_keys(b[i as int].clock));
                }
                return false;
            }
            let mut j: usize = 0;
            while j < i
                invariant
                    0 <= j <= i < n,
                    n == self.events@.len(),
                    b == views_of(self.events@),
                    b.len() == n,
                    forall|p: int, q: int| 0 <= p < q < i ==> b[p].id != b[q].id,
                    forall|q: int| 0 <= q < j ==> b[q].id != b[i as int].id,
                decreases i - j,
            {
                if crate::text::str_eq(self.events[j].id.as_str(), self.events[i].id.as_str()) {
                    proof {
                        assert(b[j as int].id == b[i as int].id);
                        assert(!distinct_ids(b));
                    }
                    return false;
                }
                j = j + 1;
            }
            i = i + 1;
        }
        true
    }

    /// A delta carrying nothing.
    pub fn empty() -> (r: Self)
        ensures
            r.wf(),
            r.events@.len() == 0,
            r.state_updates@.len() == 0,
            forall|id: Seq<char>| cv_get(r.from_clock@, id) == 0,
            forall|id: Seq<char>| cv_get(r.to_clock@, id) == 0,
    {
        let r = DeltaState {
            from_clock: VectorClock::new(),
            to_clock: VectorClock::new(),
            events: Vec::new(),
            state_updates: Vec::new(),
        };
        proof {
            assert(views_of(r.events@) =~= Seq::<EventView>::empty());
        }
        r
    }

    /// Whether the delta carries neither events nor state updates.
    pub fn is_empty(&self) -> (r: bool)
        ensures
            r == (self.events@.len() == 0 && self.state_updates@.len() == 0),
    {
        self.events.is_empty() && self.state_updates.is_empty()
    }
}

/// Of the incoming events, those whose ids the known sequence lacks:
/// what applying a delta actually adds to a log.
pub open spec fn fresh_events(known: Seq<EventView>, incoming: Seq<EventView>) -> Seq<EventView> {
    incoming.filter(|e: EventView| !has_event_id(known, e.id))
}

/// The complete replicated state of one instance.
#[derive(Debug)]
pub struct SyncState {
    pub instance_id: String,
    pub log: ExperienceLog,
    pub metrics: LWWMap<i64>,
    pub metadata: LWWMap<String>,
    pub last_sync: u64,
}

impl SyncState {
    /// Every constituent structure is well formed.
    pub open spec fn wf(self) -> bool {
        &&& self.log.wf()
        &&& self.metrics.wf()
        &&& self.metadata.wf()
    }

    /// A fresh state for `instance_id`: everything empty.
    pub fn new(instance_id: String) -> (r: Self)
        ensures
            r.wf(),
            r.instance_id@ == instance_id@,
            r.log.spec_events().len() == 0,
            forall|id: Seq<char>| cv_get(r.log.spec_clock(), id) == 0,
            forall|k: Seq<char>| r.metrics.spec_entry(k) is None,
            forall|k: Seq<char>| r.metadata.spec_entry(k) is None,
            r.last_sync == 0,
    {
        SyncState {
            instance_id,
            log: ExperienceLog::new(),
            metrics: LWWMap::new(),
            metadata: LWWMap::new(),
            last_sync: 0,
        }
    }

    /// Records a fresh experience event: ticks the local clock, builds
    /// the event under a new unique id, appends it, and returns it.
    /// The returned event carries exactly the ticked clock; whenever its
    /// id is indeed fresh, the log grows by exactly this event.
    pub fn record_event(
        &mut self,
        event_type: ExperienceEventType,
        payload: String,
        now_ms: u64,
    ) -> (r: ExperienceEvent)
        requires
            old(self).wf(),
            cv_get(old(self).log.spec_clock(), old(self).instance_id@) < u64::MAX,
        ensures
            final(self).wf(),
            final(self).instance_id@ == old(self).instance_id@,
            final(self).metrics == old(self).metrics,
            final(self).metadata == old(self).metadata,
            final(self).last_sync == old(self).last_sync,
            r@.instance_id == old(self).instance_id@,
            r@.event_type == event_type,
            r@.payload == payload@,
            r@.timestamp == now_ms,
            distinct_keys(r@.clock),
            cv_get(r@.clock, old(self).instance_id@) == cv_get(
                old(self).log.spec_clock(),
                old(self).instance_id@,
            ) + 1,
            forall|id: Seq<char>|
                id != old(self).instance_id@ ==> cv_get(r@.clock, id) == cv_get(
                    old(self).log.spec_clock(),
                    id,
                ),
            !old(self).log.seen(r@.id) ==> final(self).log.spec_events() == old(
                self,
            ).log.spec_events().push(r@),
            !old(self).log.seen(r@.id) ==> forall|id: Seq<char>|
                cv_get(final(self).log.spec_clock(), id) == max64(
                    cv_get(old(self).log.spec_clock(), id),
                    cv_get(r@.clock, id),
                ),
            old(self).log.seen(r@.id) ==> final(self).log.spec_events() == old(
                self,
            ).log.spec_events() && final(self).log.spec_clock() == old(self).log.spec_clock(),
    {
        let mut clock = self.log.clock().duplicate();
        clock.tick(self.instance_id.as_str());
        let event = ExperienceEvent {
            id: new_unique_id(),
            instance_id: self.instance_id.clone(),
            event_type,
            timestamp: now_ms,
            payload,
            vector_clock: clock,
        };
        let copy = event.duplicate();
        self.log.append(copy);
        event
    }

    /// Writes a metric under the local instance id at the given time.
    pub fn update_metric(&mut self, name: &str, value: i64, now_ms: u64)
        requires
            old(self).wf(),
        ensures
            final(self).wf(),
            final(self).instance_id@ == old(self).instance_id@,
            final(self).log == old(self).log,
            final(self).metadata == old(self).metadata,
            final(self).metrics.spec_entry(name@) == lww_merged_entry(
                old(self).metrics.spec_entry(name@),
                Some(
                    crate::lww::EntryView {
                        value: value,
                        timestamp: now_ms,
                        writer: old(self).instance_id@,
                    },
                ),
            ),
            forall|k: Seq<char>|
                k != name@ ==> final(self).metrics.spec_entry(k) == old(self).metrics.spec_entry(
                    k,
                ),
    {
        let key = String::from_str(name);
        let writer = self.instance_id.clone();
        self.metrics.set(key, value, now_ms, writer);
    }

    /// Packages everything a requester whose knowledge is `since` may be
    /// missing: the events not causally covered by `since`, bracketed by
    /// `since` and the current aggregate clock.
    pub fn delta_since(&self, since: &VectorClock) -> (r: DeltaState)
        requires
            self.wf(),
            since.wf(),
        ensures
            r.from_clock@ == since@,
            r.to_clock@ == self.log.spec_clock(),
            views_of(r.events@) == self.log.spec_events().filter(
                |e: EventView| !crate::clock::cv_le(e.clock, since@),
            ),
            r.state_updates@.len() == 0,
            r.wf(),
    {
        let events = self.log.events_since(since);
        let r = DeltaState {
            from_clock: since.duplicate(),
            to_clock: self.log.clock().duplicate(),
            events,
            state_updates: Vec::new(),
        };
        proof {
            let full = self.log.spec_events();
            let pred = |e: EventView| !crate::clock::cv_le(e.clock, since@);
            let f = full.filter(pred);
            crate::log::lemma_filter_subset(full, pred);
            crate::log::lemma_filter_distinct_ids(full, pred);
            assert forall|j: int|
                0 <= j < r.events@.len() implies distinct_keys(
                #[trigger] views_of(r.events@)[j].clock,
            ) by {
                assert(full.contains(f[j]));
                let w = choose|w: int| 0 <= w < full.len() && full[w] == f[j];
                assert(distinct_keys(full[w].clock));
            }
        }
        r
    }

    /// Applies a delta: offers every carried event to the log, which
    /// keeps exactly those whose ids it has not seen and absorbs their
    /// clocks.  Applying the same delta twice changes nothing the second
    /// time.
    pub fn apply_delta(&mut self, delta: DeltaState)
        requires
            old(self).wf(),
            delta.wf(),
        ensures
            final(self).wf(),
            final(self).instance_id@ == old(self).instance_id@,
            final(self).metrics == old(self).metrics,
            final(self).metadata == old(self).metadata,
            final(self).log.spec_events() == old(self).log.spec_events() + fresh_events(
                old(self).log.spec_events(),
                views_of(delta.events@),
            ),
            forall|id: Seq<char>|
                cv_get(final(self).log.spec_clock(), id) == max64(
                    cv_get(old(self).log.spec_clock(), id),
                    events_clock_max(
                        fresh_events(old(self).log.spec_events(), views_of(delta.events@)),
                        id,
                    ),
                ),
    {
        let ghost a = old(self).log.spec_events();
        let ghost a_clock = old(self).log.spec_clock();
        let ghost b = views_of(delta.events@);
        let ghost pred = |e: EventView| !has_event_id(a, e.id);
        proof {
            assert(b.take(0) =~= Seq::<EventView>::empty());
            reveal(Seq::filter);
            assert(fresh_events(a, b.take(0)) == b.take(0).filter(pred));
        }
        let n = delta.events.len();
        let mut k: usize = 0;
        while k < n
            invariant
                0 <= k <= n,
                n == delta.events@.len(),
                a == old(self).log.spec_events(),
                a_clock == old(self).log.spec_clock(),
                b == views_of(delta.events@),
                pred == (|e: EventView| !has_event_id(a, e.id)),
                delta.wf(),
                distinct_ids(a),
                self.instance_id@ == old(self).instance_id@,
                self.metrics == old(self).metrics,
                self.metadata == old(self).metadata,
                self.last_sync == old(self).last_sync,
                self.log.wf(),
                self.log.spec_events() == a + fresh_events(a, b.take(k as int)),
                forall|id: Seq<char>|
                    cv_get(self.log.spec_clock(), id) == max64(
                        cv_get(a_clock, id),
                        events_clock_max(fresh_events(a, b.take(k as int)), id),
                    ),
            decreases n - k,
        {
            proof {
                assert(b.take(k + 1) =~= b.take(k as int).push(b[k as int]));
                assert(fresh_events(a, b.take(k as int)) == b.take(k as int).filter(pred));
                assert(fresh_events(a, b.take(k + 1)) == b.take(k + 1).filter(pred));
                lemma_filter_push(b.take(k as int), b[k as int], pred);
                crate::log::lemma_filter_subset(b.take(k as int), pred);
            }
            let ghost cur = self.log.spec_events();
            let ghost ev = b[k as int];
            let copy = delta.events[k].duplicate();
            proof {
                assert(copy@ == ev);
                assert(distinct_keys(ev.clock));
                // Seen by the current log exactly when seen by the
                // original one: the delta repeats no id.
                if has_event_id(cur, ev.id) {
                    let j = choose|j: int| 0 <= j < cur.len() && cur[j].id == ev.id;
                    if j >= a.len() {
                        let f = b.take(k as int).filter(pred);
                        assert(f[j - a.len()].id == ev.id);
                        assert(b.take(k as int).contains(f[j - a.len()]));
                        let w = choose|w: int|
                            0 <= w < b.take(k as int).len() && b.take(k as int)[w] == f[j
                                - a.len()];
                        assert(b[w].id == ev.id);
                        assert(w < k);
                        assert(false);
                    }
                    assert(has_event_id(a, ev.id));
                } else {
                    if has_event_id(a, ev.id) {
                        let j = choose|j: int| 0 <= j < a.len() && a[j].id == ev.id;
                        assert(cur[j].id == ev.id);
                        assert(false);
                    }
                }
                assert(has_event_id(cur, ev.id) == has_event_id(a, ev.id));
                lemma_events_clock_max_push(b.take(k as int).filter(pred), ev, ev.id);
            }
            let applied = self.log.append(copy);
            proof {
                if applied {
                    assert(self.log.spec_events() =~= (a + b.take(k as int).filter(pred)).push(
                        ev,
                    ));
                    assert(b.take(k + 1).filter(pred) == b.take(k as int).filter(pred).push(ev));
                    assert(a + b.take(k + 1).filter(pred) =~= (a + b.take(k as int).filter(
                        pred,
                    )).push(ev));
                    assert(self.log.spec_events() == a + fresh_events(a, b.take(k + 1)));
                    assert forall|id: Seq<char>|
                        cv_get(self.log.spec_clock(), id) == max64(
                            cv_get(a_clock, id),
                            events_clock_max(fresh_events(a, b.take(k + 1)), id),
                        ) by {
                        lemma_events_clock_max_push(b.take(k as int).filter(pred), ev, id);
                    }
                } else {
                    assert(b.take(k + 1).filter(pred) == b.take(k as int).filter(pred));
                    assert(self.log.spec_events() == a + fresh_events(a, b.take(k + 1)));
                }
            }
            k = k + 1;
        }
        proof {
            assert(b.take(n as int) =~= b);
        }
    }

    /// Full resynchronization: merges the other replica's log and both
    /// maps wholesale.
    pub fn merge(&mut self, other: &SyncState)
        requires
            old(self).wf(),
            other.wf(),
        ensures
            final(self).wf(),
            final(self).instance_id@ == old(self).instance_id@,
            crate::log::sorted_events(final(self).log.spec_events()),
            final(self).log.spec_events().to_multiset() == crate::log::log_merge_events(
                old(self).log.spec_events(),
                other.log.spec_events(),
            ).to_multiset(),
            forall|id: Seq<char>|
                cv_get(final(self).log.spec_clock(), id) == max64(
                    cv_get(old(self).log.spec_clock(), id),
                    cv_get(other.log.spec_clock(), id),
                ),
            forall|k: Seq<char>|
                final(self).metrics.spec_entry(k) == lww_merged_entry(
                    old(self).metrics.spec_entry(k),
                    other.metrics.spec_entry(k),
                ),
            forall|k: Seq<char>|
                final(self).metadata.spec_entry(k) == lww_merged_entry(
                    old(self).metadata.spec_entry(k),
                    other.metadata.spec_entry(k),
                ),
    {
        self.log.merge(&other.log);
        self.metrics.merge(&other.metrics);
        self.metadata.merge(&other.metadata);
    }
}

} // verus!
