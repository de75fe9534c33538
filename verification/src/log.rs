//! The append-only replicated event log.
//!
//! An [`ExperienceLog`] holds every event an instance has seen, each at
//! most once (appends are deduplicated by event id), together with the
//! aggregate causal clock that dominates every event's clock.  Merging
//! two logs takes the union of their events and re-sorts the whole
//! sequence by a deterministic total order — causal weight first, then
//! lexicographic event id — so the merged sequence is a function of the
//! event set alone: both replicas of a pair end up with identical logs
//! no matter which of them initiated the merge.

use vstd::prelude::*;
use vstd::relations::sorted_by;
use crate::assoc::distinct_keys;
use crate::clock::{cv_get, cv_hb, cv_le, cv_weight, lemma_hb_weight, max64, ClockView, VectorClock};
use crate::text::{lex_le, lex_lt, lemma_lex_asymmetric, lemma_lex_connected, lemma_lex_transitive, str_eq, str_lt};

verus! {

/// The kinds of experience an instance can record.
#[derive(Clone, Copy, Debug, PartialEq, Eq, Structural)]
pub enum ExperienceEventType {
    MemoryCreated,
    MemoryUpdated,
    PatternDiscovered,
    SkillLearned,
    EvaluationCompleted,
    CollaborationEvent,
    StateTransition,
    MetricUpdated,
}

/// The abstract content of one event.
pub struct EventView {
    pub id: Seq<char>,
    pub instance_id: Seq<char>,
    pub event_type: ExperienceEventType,
    pub timestamp: u64,
    pub payload: Seq<char>,
    pub clock: ClockView,
}

/// One experience event: immutable once created, propagated by value.
/// The wall-clock `timestamp` is informational only; ordering decisions
/// rest solely on the causal clock snapshot and the id.
#[derive(Debug)]
pub struct ExperienceEvent {
    pub id: String,
    pub instance_id: String,
    pub event_type: ExperienceEventType,
    pub timestamp: u64,
    pub payload: String,
    pub vector_clock: VectorClock,
}

impl View for ExperienceEvent {
    type V = EventView;

    open spec fn view(&self) -> EventView {
        EventView {
            id: self.id@,
            instance_id: self.instance_id@,
            event_type: self.event_type,
            timestamp: self.timestamp,
            payload: self.payload@,
            clock: self.vector_clock@,
        }
    }
}

impl ExperienceEvent {
    /// An exact copy of this event.
    pub fn duplicate(&self) -> (r: Self)
        ensures
            r@ == self@,
    {
        ExperienceEvent {
            id: self.id.clone(),
            instance_id: self.instance_id.clone(),
            event_type: self.event_type,
            timestamp: self.timestamp,
            payload: self.payload.clone(),
            vector_clock: self.vector_clock.duplicate(),
        }
    }
}

impl Clone for ExperienceEvent {
    /// An exact copy: the clone reads equal to the original.
    fn clone(&self) -> (r: Self)
        ensures
            r@ == self@,
    {
        self.duplicate()
    }
}

/// The abstract contents of a vector of events.
pub open spec fn views_of(s: Seq<ExperienceEvent>) -> Seq<EventView> {
    s.map_values(|e: ExperienceEvent| e@)
}

/// Whether some event in the sequence carries the id.
pub open spec fn has_event_id(s: Seq<EventView>, id: Seq<char>) -> bool {
    exists|j: int| 0 <= j < s.len() && s[j].id == id
}

/// No two events share an id.
pub open spec fn distinct_ids(s: Seq<EventView>) -> bool {
    forall|i: int, j: int| 0 <= i < j < s.len() ==> s[i].id != s[j].id
}

/// The deterministic total order on events: lighter causal weight first,
/// ties broken by lexicographic id.  An event that causally precedes
/// another always weighs strictly less, so causally related events stand
/// in causal order.
pub open spec fn event_le(a: EventView, b: EventView) -> bool {
    cv_weight(a.clock) < cv_weight(b.clock) || (cv_weight(a.clock) == cv_weight(b.clock)
        && lex_le(a.id, b.id))
}

/// Of any two events, one comes at or before the other.
pub proof fn lemma_event_le_connected(a: EventView, b: EventView)
    ensures
        event_le(a, b) || event_le(b, a),
{
    if cv_weight(a.clock) == cv_weight(b.clock) {
        lemma_lex_connected(a.id, b.id);
    }
}

/// The order is transitive.
pub proof fn lemma_event_le_transitive(a: EventView, b: EventView, c: EventView)
    requires
        event_le(a, b),
        event_le(b, c),
    ensures
        event_le(a, c),
{
    if cv_weight(a.clock) == cv_weight(b.clock) && cv_weight(b.clock) == cv_weight(c.clock) {
        if lex_lt(a.id, b.id) && lex_lt(b.id, c.id) {
            lemma_lex_transitive(a.id, b.id, c.id);
        }
    }
}

/// Events ordered both ways carry the same id.
pub proof fn lemma_event_le_ids(a: EventView, b: EventView)
    requires
        event_le(a, b),
        event_le(b, a),
    ensures
        a.id == b.id,
{
    lemma_lex_asymmetric(a.id, b.id);
}

/// An event whose clock happened before another's comes strictly first.
pub proof fn lemma_causal_order(a: EventView, b: EventView)
    requires
        distinct_keys(a.clock),
        distinct_keys(b.clock),
        cv_hb(a.clock, b.clock),
    ensures
        event_le(a, b),
        !event_le(b, a),
{
    lemma_hb_weight(a.clock, b.clock);
}

/// Decides [`event_le`] on two events.
pub fn event_before(a: &ExperienceEvent, b: &ExperienceEvent) -> (r: bool)
    ensures
        r == event_le(a@, b@),
{
    let wa = a.vector_clock.weight();
    let wb = b.vector_clock.weight();
    if wa < wb {
        true
    } else if wa > wb {
        false
    } else {
        let lt = str_lt(a.id.as_str(), b.id.as_str());
        let eq = str_eq(a.id.as_str(), b.id.as_str());
        lt || eq
    }
}

/// Filtering one pushed element either keeps it at the end or not.
pub proof fn lemma_filter_push<A>(s: Seq<A>, e: A, pred: spec_fn(A) -> bool)
    ensures
        s.push(e).filter(pred) == (if pred(e) {
            s.filter(pred).push(e)
        } else {
            s.filter(pred)
        }),
{
    reveal(Seq::filter);
    assert(s.push(e).drop_last() =~= s);
    assert(s.push(e).last() == e);
}

/// The append-only, deduplicated, causally consistent event log.
#[derive(Debug)]
pub struct ExperienceLog {
    events: Vec<ExperienceEvent>,
    clock: VectorClock,
}

impl ExperienceLog {
    /// The abstract sequence of events held.
    pub closed spec fn spec_events(self) -> Seq<EventView> {
        views_of(self.events@)
    }

    /// The aggregate clock.
    pub closed spec fn spec_clock(self) -> ClockView {
        self.clock@
    }

    /// Whether an event with this id has been seen.
    pub open spec fn seen(self, id: Seq<char>) -> bool {
        has_event_id(self.spec_events(), id)
    }

    /// The log invariant: ids are unique, every clock is well formed,
    /// and the aggregate clock dominates every event's clock.
    pub open spec fn wf(self) -> bool {
        &&& distinct_ids(self.spec_events())
        &&& distinct_keys(self.spec_clock())
        &&& forall|j: int|
            0 <= j < self.spec_events().len() ==> distinct_keys(
                #[trigger] self.spec_events()[j].clock,
            )
        &&& forall|j: int|
            0 <= j < self.spec_events().len() ==> cv_le(
                #[trigger] self.spec_events()[j].clock,
                self.spec_clock(),
            )
    }

    /// An empty log.
    pub fn new() -> (r: Self)
        ensures
            r.wf(),
            r.spec_events() =~= Seq::<EventView>::empty(),
            forall|id: Seq<char>| cv_get(r.spec_clock(), id) == 0,
    {
        let r = ExperienceLog { events: Vec::new(), clock: VectorClock::new() };
        proof {
            assert(r.spec_events() =~= Seq::<EventView>::empty());
        }
        r
    }

    /// How many events the log holds.
    pub fn len(&self) -> (r: usize)
        ensures
            r == self.spec_events().len(),
    {
        self.events.len()
    }

    /// Whether the log holds no events.
    pub fn is_empty(&self) -> (r: bool)
        ensures
            r == (self.spec_events().len() == 0),
    {
        self.events.is_empty()
    }

    /// All events, in log order.
    pub fn all_events(&self) -> (r: &Vec<ExperienceEvent>)
        ensures
            views_of(r@) == self.spec_events(),
    {
        &self.events
    }

    /// The aggregate clock.
    pub fn clock(&self) -> (r: &VectorClock)
        ensures
            r@ == self.spec_clock(),
    {
        &self.clock
    }

    /// An exact copy of this log.
    pub fn duplicate(&self) -> (r: Self)
        ensures
            r.spec_events() == self.spec_events(),
            r.spec_clock() == self.spec_clock(),
    {
        let n = self.events.len();
        let mut out: Vec<ExperienceEvent> = Vec::new();
        let mut i: usize = 0;
        while i < n
            invariant
                0 <= i <= n,
                n == self.events@.len(),
                out@.len() == i,
                forall|j: int| 0 <= j < i ==> out@[j]@ == self.events@[j]@,
            decreases n - i,
        {
            let copy = self.events[i].duplicate();
            out.push(copy);
            i = i + 1;
        }
        let r = ExperienceLog { events: out, clock: self.clock.duplicate() };
        proof {
            assert(r.spec_events() =~= self.spec_events());
        }
        r
    }

    /// Whether an event with this id has been seen.
    fn contains_id(&self, id: &str) -> (r: bool)
        ensures
            r == self.seen(id@),
    {
        let n = self.events.len();
        let mut i: usize = 0;
        while i < n
            invariant
                0 <= i <= n,
                n == self.events@.len(),
                forall|j: int| 0 <= j < i ==> self.spec_events()[j].id != id@,
            decreases n - i,
        {
            if str_eq(self.events[i].id.as_str(), id) {
                proof {
                    assert(self.spec_events()[i as int].id == id@);
                }
                return true;
            }
            i = i + 1;
        }
        false
    }

    /// Appends an event.  A previously seen id is a no-op that returns
    /// false; a new id is appended and the aggregate clock absorbs the
    /// event's clock.
    pub fn append(&mut self, event: ExperienceEvent) -> (r: bool)
        requires
            old(self).wf(),
            distinct_keys(event@.clock),
        ensures
            final(self).wf(),
            r == !old(self).seen(event@.id),
            r ==> final(self).spec_events() == old(self).spec_events().push(event@),
            r ==> forall|id: Seq<char>|
                cv_get(final(self).spec_clock(), id) == max64(
                    cv_get(old(self).spec_clock(), id),
                    cv_get(event@.clock, id),
                ),
            !r ==> final(self).spec_events() == old(self).spec_events(),
            !r ==> final(self).spec_clock() == old(self).spec_clock(),
    {
        if self.contains_id(event.id.as_str()) {
            return false;
        }
        self.clock.merge(&event.vector_clock);
        self.events.push(event);
        proof {
            assert(self.spec_events() =~= old(self).spec_events().push(
                self.events@[self.events@.len() - 1]@,
            ));
            assert forall|j: int|
                0 <= j < self.spec_events().len() implies cv_le(
                #[trigger] self.spec_events()[j].clock,
                self.spec_clock(),
            ) by {
                if j < self.spec_events().len() - 1 {
                    assert(cv_le(old(self).spec_events()[j].clock, old(self).spec_clock()));
                    assert forall|id: Seq<char>|
                        cv_get(self.spec_events()[j].clock, id) <= cv_get(
                            self.spec_clock(),
                            id,
                        ) by {
                        assert(cv_get(old(self).spec_events()[j].clock, id) <= cv_get(
                            old(self).spec_clock(),
                            id,
                        ));
                    }
                }
            }
        }
        true
    }

    /// Every event whose clock is not causally covered by `since`: the
    /// events a requester at position `since` may still be missing,
    /// concurrent ones among them.
    pub fn events_since(&self, since: &VectorClock) -> (r: Vec<ExperienceEvent>)
        requires
            self.wf(),
            since.wf(),
        ensures
            views_of(r@) == self.spec_events().filter(|e: EventView| !cv_le(e.clock, since@)),
    {
        let ghost pred = |e: EventView| !cv_le(e.clock, since@);
        let n = self.events.len();
        let mut out: Vec<ExperienceEvent> = Vec::new();
        let mut i: usize = 0;
        proof {
            assert(self.spec_events().take(0) =~= Seq::<EventView>::empty());
            reveal(Seq::filter);
        }
        while i < n
            invariant
                0 <= i <= n,
                n == self.events@.len(),
                self.wf(),
                since.wf(),
                pred == (|e: EventView| !cv_le(e.clock, since@)),
                views_of(out@) == self.spec_events().take(i as int).filter(pred),
            decreases n - i,
        {
            proof {
                assert(self.spec_events().take(i + 1) =~= self.spec_events().take(
                    i as int,
                ).push(self.spec_events()[i as int]));
                lemma_filter_push(self.spec_events().take(i as int), self.spec_events()[i as int], pred);
            }
            proof {
                assert(distinct_keys(self.spec_events()[i as int].clock));
                assert(self.events@[i as int].vector_clock.wf());
            }
            if !since.covers(&self.events[i].vector_clock) {
                let copy = self.events[i].duplicate();
                out.push(copy);
                proof {
                    assert(views_of(out@) =~= self.spec_events().take(i + 1).filter(pred));
                }
            } else {
                proof {
                    assert(views_of(out@) =~= self.spec_events().take(i + 1).filter(pred));
                }
            }
            i = i + 1;
        }
        proof {
            assert(self.spec_events().take(n as int) =~= self.spec_events());
        }
        out
    }
}


impl Clone for ExperienceLog {
    /// An exact copy: same events, same clock.
    fn clone(&self) -> (r: Self)
        ensures
            r.spec_events() == self.spec_events(),
            r.spec_clock() == self.spec_clock(),
    {
        self.duplicate()
    }
}

/// The event order as a relation value, for stating sortedness.
pub open spec fn event_order() -> spec_fn(EventView, EventView) -> bool {
    |a: EventView, b: EventView| event_le(a, b)
}

/// The events are in the deterministic merge order.
pub open spec fn sorted_events(s: Seq<EventView>) -> bool {
    sorted_by(s, event_order())
}

/// The union a merge produces: everything of `a`, then everything of `b`
/// whose id `a` does not hold.
pub open spec fn log_merge_events(a: Seq<EventView>, b: Seq<EventView>) -> Seq<EventView> {
    a + b.filter(|e: EventView| !has_event_id(a, e.id))
}

/// Every element of a filtered sequence is an element of the original.
pub proof fn lemma_filter_subset<A>(s: Seq<A>, pred: spec_fn(A) -> bool)
    ensures
        forall|i: int| 0 <= i < s.filter(pred).len() ==> s.contains(#[trigger] s.filter(pred)[i]),
    decreases s.len(),
{
    reveal(Seq::filter);
    if s.len() > 0 {
        let sub = s.drop_last();
        lemma_filter_subset(sub, pred);
        assert forall|i: int|
            0 <= i < s.filter(pred).len() implies s.contains(#[trigger] s.filter(pred)[i]) by {
            if i < sub.filter(pred).len() {
                assert(sub.contains(sub.filter(pred)[i]));
                let j = choose|j: int| 0 <= j < sub.len() && sub[j] == sub.filter(pred)[i];
                assert(s[j] == s.filter(pred)[i]);
            } else {
                assert(s.filter(pred)[i] == s.last());
                assert(s[s.len() - 1] == s.last());
            }
        }
    }
}

/// A sequence without repeated ids keeps that property when filtered.
pub proof fn lemma_filter_distinct_ids(s: Seq<EventView>, pred: spec_fn(EventView) -> bool)
    requires
        distinct_ids(s),
    ensures
        distinct_ids(s.filter(pred)),
    decreases s.len(),
{
    reveal(Seq::filter);
    if s.len() > 0 {
        let sub = s.drop_last();
        assert(distinct_ids(sub)) by {
            assert(forall|j: int| 0 <= j < sub.len() ==> sub[j] == s[j]);
        }
        lemma_filter_distinct_ids(sub, pred);
        lemma_filter_subset(sub, pred);
        if pred(s.last()) {
            let f = sub.filter(pred).push(s.last());
            assert(s.filter(pred) == f);
            assert forall|i: int, j: int| 0 <= i < j < f.len() implies f[i].id != f[j].id by {
                if j == f.len() - 1 {
                    assert(f[j] == s.last());
                    assert(sub.contains(sub.filter(pred)[i]));
                    let k = choose|k: int| 0 <= k < sub.len() && sub[k] == sub.filter(pred)[i];
                    assert(s[k] == f[i]);
                    assert(s[k].id != s[s.len() - 1].id);
                }
            }
        }
    }
}

/// In a sequence without repeated ids, every event occurs at most once.
proof fn lemma_count_distinct(s: Seq<EventView>, x: EventView)
    requires
        distinct_ids(s),
    ensures
        s.to_multiset().count(x) == (if s.contains(x) {
            1nat
        } else {
            0nat
        }),
{
    broadcast use vstd::seq_lib::group_to_multiset_ensures;

    assert(s.no_duplicates());
    s.lemma_multiset_has_no_duplicates();
    if s.contains(x) {
        assert(s.to_multiset().count(x) > 0);
    } else {
        assert(s.to_multiset().count(x) == 0);
    }
}

/// Membership in a filtered sequence, spelled out.
proof fn lemma_filter_contains_iff<A>(s: Seq<A>, pred: spec_fn(A) -> bool, x: A)
    ensures
        s.filter(pred).contains(x) <==> (s.contains(x) && pred(x)),
{
    lemma_filter_subset(s, pred);
    broadcast use vstd::prelude::Seq::lemma_filter_pred;

    if s.filter(pred).contains(x) {
        let i = choose|i: int| 0 <= i < s.filter(pred).len() && s.filter(pred)[i] == x;
        assert(s.contains(s.filter(pred)[i]));
        assert(pred(s.filter(pred)[i]));
    }
    if s.contains(x) && pred(x) {
        let i = choose|i: int| 0 <= i < s.len() && s[i] == x;
        s.lemma_filter_contains(pred, i);
    }
}

/// The merge union holds no repeated ids.
proof fn lemma_union_distinct_ids(a: Seq<EventView>, b: Seq<EventView>)
    requires
        distinct_ids(a),
        distinct_ids(b),
    ensures
        distinct_ids(log_merge_events(a, b)),
{
    let pred = |e: EventView| !has_event_id(a, e.id);
    let fb = b.filter(pred);
    lemma_filter_distinct_ids(b, pred);
    broadcast use vstd::prelude::Seq::lemma_filter_pred;

    let u = log_merge_events(a, b);
    assert forall|i: int, j: int| 0 <= i < j < u.len() implies u[i].id != u[j].id by {
        if i < a.len() && j >= a.len() {
            assert(u[j] == fb[j - a.len()]);
            assert(pred(fb[j - a.len()]));
            assert(u[i] == a[i]);
            if a[i].id == fb[j - a.len()].id {
                assert(has_event_id(a, fb[j - a.len()].id));
                assert(false);
            }
        } else if i >= a.len() {
            assert(u[i] == fb[i - a.len()] && u[j] == fb[j - a.len()]);
        } else {
            assert(u[i] == a[i] && u[j] == a[j]);
        }
    }
}

/// Repeated-id freedom carries across multiset equality.
proof fn lemma_distinct_ids_across_multiset(s: Seq<EventView>, t: Seq<EventView>)
    requires
        distinct_ids(s),
        s.to_multiset() == t.to_multiset(),
    ensures
        distinct_ids(t),
{
    broadcast use vstd::seq_lib::group_to_multiset_ensures;

    assert forall|i: int, j: int| 0 <= i < j < t.len() implies t[i].id != t[j].id by {
        if t[i].id == t[j].id {
            if t[i] == t[j] {
                assert forall|x: EventView| t.to_multiset().contains(x) implies
                    t.to_multiset().count(x) == 1 by {
                    lemma_count_distinct(s, x);
                    assert(s.to_multiset().count(x) == t.to_multiset().count(x));
                }
                t.lemma_multiset_has_no_duplicates_conv();
                assert(t.no_duplicates());
                assert(false);
            } else {
                assert(t.to_multiset().contains(t[i]));
                assert(t.to_multiset().contains(t[j]));
                assert(s.to_multiset().contains(t[i]));
                assert(s.to_multiset().contains(t[j]));
                assert(s.contains(t[i]));
                assert(s.contains(t[j]));
                let p = choose|p: int| 0 <= p < s.len() && s[p] == t[i];
                let q = choose|q: int| 0 <= q < s.len() && s[q] == t[j];
                assert(p != q);
                assert(s[p].id != s[q].id);
                assert(false);
            }
        }
    }
}

/// The two merge unions of a compatible pair of logs hold the same
/// events: each side contributes what the other lacks, and shared ids
/// name identical events.
pub proof fn lemma_union_multiset_symmetric(a: Seq<EventView>, b: Seq<EventView>)
    requires
        distinct_ids(a),
        distinct_ids(b),
        forall|i: int, j: int|
            0 <= i < a.len() && 0 <= j < b.len() && a[i].id == b[j].id ==> a[i] == b[j],
    ensures
        log_merge_events(a, b).to_multiset() == log_merge_events(b, a).to_multiset(),
{
    broadcast use vstd::seq_lib::group_to_multiset_ensures;

    let pa = |e: EventView| !has_event_id(a, e.id);
    let pb = |e: EventView| !has_event_id(b, e.id);
    let fb = b.filter(pa);
    let fa = a.filter(pb);
    lemma_filter_distinct_ids(b, pa);
    lemma_filter_distinct_ids(a, pb);
    vstd::seq_lib::lemma_multiset_commutative(a, fb);
    vstd::seq_lib::lemma_multiset_commutative(b, fa);
    assert forall|x: EventView|
        log_merge_events(a, b).to_multiset().count(x) == log_merge_events(
            b,
            a,
        ).to_multiset().count(x) by {
        lemma_count_distinct(a, x);
        lemma_count_distinct(b, x);
        lemma_count_distinct(fb, x);
        lemma_count_distinct(fa, x);
        lemma_filter_contains_iff(b, pa, x);
        lemma_filter_contains_iff(a, pb, x);
        assert(log_merge_events(a, b).to_multiset().count(x) == a.to_multiset().count(x)
            + fb.to_multiset().count(x));
        assert(log_merge_events(b, a).to_multiset().count(x) == b.to_multiset().count(x)
            + fa.to_multiset().count(x));
        if a.contains(x) && b.contains(x) {
        } else if a.contains(x) {
            if has_event_id(b, x.id) {
                // The event of b with this id is x itself.
                let j = choose|j: int| 0 <= j < b.len() && b[j].id == x.id;
                let i = choose|i: int| 0 <= i < a.len() && a[i] == x;
                assert(a[i] == b[j]);
                assert(b.contains(x));
                assert(false);
            }
        } else if b.contains(x) {
            if has_event_id(a, x.id) {
                let j = choose|j: int| 0 <= j < a.len() && a[j].id == x.id;
                let i = choose|i: int| 0 <= i < b.len() && b[i] == x;
                assert(a[j] == b[i]);
                assert(a.contains(x));
                assert(false);
            }
        }
    }
    assert(log_merge_events(a, b).to_multiset() =~= log_merge_events(b, a).to_multiset());
}

/// Two sequences in merge order holding the same events are equal,
/// provided ids are not repeated.
pub proof fn lemma_sorted_distinct_unique(x: Seq<EventView>, y: Seq<EventView>)
    requires
        sorted_events(x),
        sorted_events(y),
        distinct_ids(x),
        x.to_multiset() == y.to_multiset(),
    ensures
        x == y,
    decreases x.len(),
{
    broadcast use vstd::seq_lib::group_to_multiset_ensures;

    if x.len() == 0 {
        assert(x.to_multiset().len() == 0);
        assert(y.to_multiset().len() == 0);
        assert(y.len() == 0);
        assert(x =~= y);
    } else {
        assert(x.to_multiset().len() == x.len());
        assert(y.len() == x.len());
        assert(x.to_multiset().contains(x[0]));
        assert(y.to_multiset().contains(y[0]));
        assert(x.contains(y[0]));
        assert(y.contains(x[0]));
        let i = choose|i: int| 0 <= i < x.len() && x[i] == y[0];
        let j = choose|j: int| 0 <= j < y.len() && y[j] == x[0];
        assert(event_le(x[0], x[i]) || i == 0) by {
            if i > 0 {
                assert(event_order()(x[0], x[i]));
            }
        }
        assert(event_le(y[0], y[j]) || j == 0) by {
            if j > 0 {
                assert(event_order()(y[0], y[j]));
            }
        }
        if i == 0 || j == 0 {
            assert(x[0] == y[0]);
        } else {
            assert(event_le(x[0], y[0]));
            assert(event_le(y[0], x[0]));
            lemma_event_le_ids(x[0], y[0]);
            assert(x[i].id == x[0].id);
            assert(i == 0);
            assert(x[0] == y[0]);
        }
        let xt = x.drop_first();
        let yt = y.drop_first();
        assert(xt =~= x.remove(0));
        assert(yt =~= y.remove(0));
        assert(xt.to_multiset() =~= x.to_multiset().remove(x[0]));
        assert(yt.to_multiset() =~= y.to_multiset().remove(y[0]));
        assert(xt.to_multiset() == yt.to_multiset());
        assert(sorted_events(xt)) by {
            assert(forall|k: int| 0 <= k < xt.len() ==> xt[k] == x[k + 1]);
            assert forall|p: int, q: int| 0 <= p < q < xt.len() implies event_order()(
                xt[p],
                xt[q],
            ) by {
                assert(event_order()(x[p + 1], x[q + 1]));
            }
        }
        assert(sorted_events(yt)) by {
            assert(forall|k: int| 0 <= k < yt.len() ==> yt[k] == y[k + 1]);
            assert forall|p: int, q: int| 0 <= p < q < yt.len() implies event_order()(
                yt[p],
                yt[q],
            ) by {
                assert(event_order()(y[p + 1], y[q + 1]));
            }
        }
        assert(distinct_ids(xt)) by {
            assert(forall|k: int| 0 <= k < xt.len() ==> xt[k] == x[k + 1]);
        }
        lemma_sorted_distinct_unique(xt, yt);
        assert(x =~= y) by {
            assert(forall|k: int| 1 <= k < x.len() ==> x[k] == xt[k - 1] && y[k] == yt[k - 1]);
        }
    }
}

/// The log merge is order independent: whichever of two compatible logs
/// absorbs the other, the resulting event sequence is the same.  Two
/// logs are compatible when neither repeats an id and any id they share
/// names the identical event on both sides.
pub proof fn lemma_log_merge_deterministic(
    m1: Seq<EventView>,
    m2: Seq<EventView>,
    a: Seq<EventView>,
    b: Seq<EventView>,
)
    requires
        distinct_ids(a),
        distinct_ids(b),
        forall|i: int, j: int|
            0 <= i < a.len() && 0 <= j < b.len() && a[i].id == b[j].id ==> a[i] == b[j],
        sorted_events(m1),
        sorted_events(m2),
        m1.to_multiset() == log_merge_events(a, b).to_multiset(),
        m2.to_multiset() == log_merge_events(b, a).to_multiset(),
    ensures
        m1 == m2,
{
    lemma_union_multiset_symmetric(a, b);
    lemma_union_distinct_ids(a, b);
    lemma_distinct_ids_across_multiset(log_merge_events(a, b), m1);
    lemma_sorted_distinct_unique(m1, m2);
}


/// Inserting an element anywhere adds exactly it to the multiset.
proof fn lemma_insert_multiset(s: Seq<EventView>, i: int, a: EventView)
    requires
        0 <= i <= s.len(),
    ensures
        s.insert(i, a).to_multiset() == s.to_multiset().insert(a),
{
    broadcast use vstd::seq_lib::group_to_multiset_ensures;

    assert(s.insert(i, a) =~= s.take(i).push(a) + s.skip(i));
    assert(s =~= s.take(i) + s.skip(i));
    vstd::seq_lib::lemma_multiset_commutative(s.take(i).push(a), s.skip(i));
    vstd::seq_lib::lemma_multiset_commutative(s.take(i), s.skip(i));
    assert(s.take(i).push(a).to_multiset() =~= s.take(i).to_multiset().insert(a));
    assert(s.insert(i, a).to_multiset() =~= s.to_multiset().insert(a));
}

/// Places one event into a vector kept in merge order.
fn insert_in_order(out: &mut Vec<ExperienceEvent>, e: ExperienceEvent)
    requires
        sorted_events(views_of(old(out)@)),
    ensures
        sorted_events(views_of(final(out)@)),
        views_of(final(out)@).to_multiset() == views_of(old(out)@).to_multiset().insert(e@),
{
    let ghost s = views_of(out@);
    let n = out.len();
    let mut pos: usize = 0;
    while pos < n && event_before(&out[pos], &e)
        invariant
            0 <= pos <= n,
            n == out@.len(),
            s == views_of(out@),
            sorted_events(s),
            forall|k: int| 0 <= k < pos ==> event_le(#[trigger] s[k], e@),
        decreases n - pos,
    {
        proof {
            assert(s[pos as int] == out@[pos as int]@);
        }
        pos = pos + 1;
    }
    proof {
        if pos < n {
            assert(!event_le(s[pos as int], e@));
            lemma_event_le_connected(s[pos as int], e@);
            assert(event_le(e@, s[pos as int]));
        }
    }
    out.insert(pos, e);
    proof {
        let t = views_of(out@);
        assert(t =~= s.insert(pos as int, e@));
        lemma_insert_multiset(s, pos as int, e@);
        assert forall|p: int, q: int| 0 <= p < q < t.len() implies event_order()(t[p], t[q]) by {
            let pi = pos as int;
            if q < pi {
                assert(t[p] == s[p] && t[q] == s[q]);
                assert(event_order()(s[p], s[q]));
            } else if p < pi && q == pi {
                assert(t[p] == s[p] && t[q] == e@);
            } else if p < pi && q > pi {
                assert(t[p] == s[p] && t[q] == s[q - 1]);
                assert(event_order()(s[p], s[q - 1]));
            } else if p == pi && q > pi {
                assert(t[p] == e@ && t[q] == s[q - 1]);
                if q - 1 > pi {
                    assert(event_order()(s[pi], s[q - 1]));
                    lemma_event_le_transitive(e@, s[pi], s[q - 1]);
                } else {
                    assert(q - 1 == pi);
                }
            } else {
                assert(t[p] == s[p - 1] && t[q] == s[q - 1]);
                assert(event_order()(s[p - 1], s[q - 1]));
            }
        }
    }
}

impl ExperienceLog {
    /// Merges another log in: imports every unseen event, absorbs the
    /// other aggregate clock, and re-sorts the whole sequence into the
    /// deterministic merge order.  Together with
    /// [`lemma_log_merge_deterministic`] this makes the merged sequence
    /// independent of which log absorbed which.
    pub fn merge(&mut self, other: &ExperienceLog)
        requires
            old(self).wf(),
            other.wf(),
        ensures
            final(self).wf(),
            sorted_events(final(self).spec_events()),
            final(self).spec_events().to_multiset() == log_merge_events(
                old(self).spec_events(),
                other.spec_events(),
            ).to_multiset(),
            forall|id: Seq<char>|
                cv_get(final(self).spec_clock(), id) == max64(
                    cv_get(old(self).spec_clock(), id),
                    cv_get(other.spec_clock(), id),
                ),
    {
        let ghost a = old(self).spec_events();
        let ghost b = other.spec_events();
        let ghost pred = |e: EventView| !has_event_id(a, e.id);
        let ghost a_clock = old(self).spec_clock();
        let ghost o_clock = other.spec_clock();
        proof {
            assert(b.take(0) =~= Seq::<EventView>::empty());
            reveal(Seq::filter);
        }
        let m = other.events.len();
        let mut k: usize = 0;
        while k < m
            invariant
                0 <= k <= m,
                m == other.events@.len(),
                a == old(self).spec_events(),
                b == other.spec_events(),
                pred == (|e: EventView| !has_event_id(a, e.id)),
                a_clock == old(self).spec_clock(),
                other.wf(),
                distinct_ids(a),
                forall|j: int| 0 <= j < a.len() ==> distinct_keys(#[trigger] a[j].clock),
                forall|j: int| 0 <= j < a.len() ==> cv_le(#[trigger] a[j].clock, a_clock),
                distinct_keys(a_clock),
                self.spec_clock() == a_clock,
                self.spec_events() == a + b.take(k as int).filter(pred),
                distinct_ids(self.spec_events()),
            decreases m - k,
        {
            proof {
                assert(b.take(k + 1) =~= b.take(k as int).push(b[k as int]));
                lemma_filter_push(b.take(k as int), b[k as int], pred);
                lemma_filter_subset(b.take(k as int), pred);
            }
            let seen_here = self.contains_id(other.events[k].id.as_str());
            proof {
                let cur = self.spec_events();
                let ev = b[k as int];
                assert(other.events@[k as int]@ == ev);
                // Seen here is the same as seen in the original events.
                if seen_here {
                    let j = choose|j: int| 0 <= j < cur.len() && cur[j].id == ev.id;
                    if j >= a.len() {
                        let f = b.take(k as int).filter(pred);
                        assert(f[j - a.len()].id == ev.id);
                        assert(b.take(k as int).contains(f[j - a.len()]));
                        let w = choose|w: int|
                            0 <= w < b.take(k as int).len() && b.take(k as int)[w] == f[j
                                - a.len()];
                        assert(b[w].id == ev.id);
                        assert(w < k);
                        assert(false);
                    }
                    assert(has_event_id(a, ev.id));
                } else {
                    if has_event_id(a, ev.id) {
                        let j = choose|j: int| 0 <= j < a.len() && a[j].id == ev.id;
                        assert(cur[j].id == ev.id);
                        assert(false);
                    }
                }
                assert(seen_here == has_event_id(a, ev.id));
                assert(pred(ev) == !seen_here);
            }
            if !seen_here {
                let ghost before = self.spec_events();
                let copy = other.events[k].duplicate();
                self.events.push(copy);
                proof {
                    assert(self.spec_events() =~= before.push(b[k as int]));
                    assert(b.take(k + 1).filter(pred) == b.take(k as int).filter(pred).push(
                        b[k as int],
                    ));
                    assert(a + b.take(k + 1).filter(pred) =~= (a + b.take(k as int).filter(
                        pred,
                    )).push(b[k as int]));
                    assert(self.spec_events() =~= a + b.take(k + 1).filter(pred));
                    assert(distinct_ids(self.spec_events())) by {
                        let cur = a + b.take(k as int).filter(pred);
                        let now = self.spec_events();
                        assert(forall|j: int| 0 <= j < cur.len() ==> now[j] == cur[j]);
                        assert(now[now.len() - 1] == b[k as int]);
                        assert forall|i2: int, j2: int|
                            0 <= i2 < j2 < now.len() implies now[i2].id != now[j2].id by {
                            if j2 == now.len() - 1 {
                                assert(!has_event_id(cur, b[k as int].id));
                            }
                        }
                    }
                }
            } else {
                proof {
                    assert(b.take(k + 1).filter(pred) == b.take(k as int).filter(pred));
                    assert(self.spec_events() =~= a + b.take(k + 1).filter(pred));
                }
            }
            k = k + 1;
        }
        proof {
            assert(b.take(m as int) =~= b);
        }
        self.clock.merge(&other.clock);
        let ghost union = log_merge_events(a, b);
        let mut in_order: Vec<ExperienceEvent> = Vec::new();
        proof {
            broadcast use vstd::seq_lib::group_to_multiset_ensures;
            broadcast use vstd::multiset::group_multiset_axioms;

            assert(views_of(in_order@) =~= Seq::<EventView>::empty());
            assert(views_of(in_order@).len() == 0);
            assert(forall|x: EventView| views_of(in_order@).to_multiset().count(x) == 0);
            assert(views_of(in_order@).to_multiset().add(
                views_of(self.events@).to_multiset(),
            ) =~= views_of(self.events@).to_multiset());
            assert(views_of(self.events@) == union);
        }
        while self.events.len() > 0
            invariant
                sorted_events(views_of(in_order@)),
                views_of(in_order@).to_multiset().add(views_of(self.events@).to_multiset())
                    == union.to_multiset(),
                a_clock == old(self).spec_clock(),
                o_clock == other.spec_clock(),
                distinct_keys(self.spec_clock()),
                forall|id: Seq<char>|
                    cv_get(self.spec_clock(), id) == max64(
                        cv_get(a_clock, id),
                        cv_get(o_clock, id),
                    ),
            decreases self.events@.len(),
        {
            let ghost rem = views_of(self.events@);
            let e = self.events.remove(0);
            proof {
                broadcast use vstd::seq_lib::group_to_multiset_ensures;

                assert(views_of(self.events@) =~= rem.remove(0));
                assert(rem.remove(0).to_multiset() =~= rem.to_multiset().remove(rem[0]));
                assert(e@ == rem[0]);
            }
            let ghost sorted_before = views_of(in_order@);
            insert_in_order(&mut in_order, e);
            proof {
                broadcast use vstd::multiset::group_multiset_axioms;

                assert(views_of(in_order@).to_multiset().add(
                    views_of(self.events@).to_multiset(),
                ) =~= union.to_multiset());
            }
        }
        self.events = in_order;
        proof {
            broadcast use vstd::multiset::group_multiset_axioms;
            broadcast use vstd::seq_lib::group_to_multiset_ensures;

            let ghost emptied = Seq::<EventView>::empty();
            assert(forall|x: EventView| emptied.to_multiset().count(x) == 0);
            assert(views_of(self.events@).to_multiset() =~= union.to_multiset());
            // The final events satisfy the log invariant: every property
            // holds of each union member, and each held event is one.
            lemma_union_distinct_ids(a, b);
            lemma_distinct_ids_across_multiset(union, self.spec_events());
            broadcast use vstd::seq_lib::group_to_multiset_ensures;

            lemma_filter_subset(b, pred);
            assert forall|j: int|
                0 <= j < self.spec_events().len() implies distinct_keys(
                #[trigger] self.spec_events()[j].clock,
            ) && cv_le(self.spec_events()[j].clock, self.spec_clock()) by {
                let x = self.spec_events()[j];
                assert(self.spec_events().to_multiset().contains(x));
                assert(union.to_multiset().contains(x));
                assert(union.contains(x));
                let u = choose|u: int| 0 <= u < union.len() && union[u] == x;
                if u < a.len() {
                    assert(x == a[u]);
                    assert(cv_le(x.clock, a_clock));
                } else {
                    let f = b.filter(pred);
                    assert(x == f[u - a.len()]);
                    assert(b.contains(x));
                    let w = choose|w: int| 0 <= w < b.len() && b[w] == x;
                    assert(cv_le(x.clock, o_clock));
                }
                assert forall|id: Seq<char>|
                    cv_get(x.clock, id) <= cv_get(self.spec_clock(), id) by {
                    assert(cv_get(self.spec_clock(), id) == max64(
                        cv_get(a_clock, id),
                        cv_get(o_clock, id),
                    ));
                }
            }
        }
    }
}


/// The entrywise maximum counter that a sequence of events records for
/// one id.
pub open spec fn events_clock_max(s: Seq<EventView>, id: Seq<char>) -> u64
    decreases s.len(),
{
    if s.len() == 0 {
        0
    } else {
        max64(cv_get(s[0].clock, id), events_clock_max(s.skip(1), id))
    }
}

/// Appending one event folds its clock into the maximum.
pub proof fn lemma_events_clock_max_push(s: Seq<EventView>, e: EventView, id: Seq<char>)
    ensures
        events_clock_max(s.push(e), id) == max64(events_clock_max(s, id), cv_get(e.clock, id)),
    decreases s.len(),
{
    if s.len() == 0 {
        assert(s.push(e)[0] == e);
        assert(s.push(e).skip(1) =~= Seq::<EventView>::empty());
        assert(events_clock_max(s.push(e).skip(1), id) == 0);
        assert(events_clock_max(s.push(e), id) == max64(
            cv_get(e.clock, id),
            events_clock_max(s.push(e).skip(1), id),
        ));
        assert(events_clock_max(s, id) == 0);
    } else {
        lemma_events_clock_max_push(s.skip(1), e, id);
        assert(s.push(e)[0] == s[0]);
        assert(s.push(e).skip(1) =~= s.skip(1).push(e));
        assert(events_clock_max(s.push(e), id) == max64(
            cv_get(s[0].clock, id),
            events_clock_max(s.skip(1).push(e), id),
        ));
        assert(events_clock_max(s, id) == max64(
            cv_get(s[0].clock, id),
            events_clock_max(s.skip(1), id),
        ));
    }
}

} // verus!
