//! Causal timestamps.
//!
//! A [`VectorClock`] maps instance ids to monotonically increasing
//! counters; an absent id counts as zero.  Clocks are compared by the
//! causal partial order ([`cv_hb`]) and merged by entrywise maximum,
//! which is commutative, associative and idempotent — the laws at the
//! bottom of this module — so every replica converges on the same clock
//! no matter in which order it sees the others.

use vstd::prelude::*;
use crate::assoc::{assoc_find, assoc_has, distinct_keys};
use crate::assoc::{
    lemma_assoc_find_at, lemma_assoc_find_push, lemma_assoc_find_remove, lemma_assoc_find_skip,
    lemma_assoc_find_update,
    lemma_assoc_has_index,
};
use crate::text::str_eq;
use vstd::pervasive::VecAdditionalExecFns;
use vstd::string::StringExecFns;

verus! {

/// The abstract content of a clock: its entry list.
pub type ClockView = Seq<(Seq<char>, u64)>;

/// The counter recorded for `id`; zero when absent.
pub open spec fn cv_get(v: ClockView, id: Seq<char>) -> u64 {
    match assoc_find(v, id) {
        Some(x) => x,
        None => 0,
    }
}

/// Every counter of `a` is at or below the corresponding counter of `b`.
pub open spec fn cv_le(a: ClockView, b: ClockView) -> bool {
    forall|id: Seq<char>| cv_get(a, id) <= cv_get(b, id)
}

/// `a` happened before `b`: no counter ahead, at least one behind.
pub open spec fn cv_hb(a: ClockView, b: ClockView) -> bool {
    cv_le(a, b) && exists|id: Seq<char>| cv_get(a, id) < cv_get(b, id)
}

/// Neither clock happened before the other.
pub open spec fn cv_concurrent(a: ClockView, b: ClockView) -> bool {
    !cv_hb(a, b) && !cv_hb(b, a)
}

/// The clock as a total mapping from ids to counters.
pub open spec fn cv_map(v: ClockView) -> Map<Seq<char>, u64> {
    Map::total(|id: Seq<char>| cv_get(v, id))
}

/// Entrywise maximum of two total clock mappings.
pub open spec fn m_merge(a: Map<Seq<char>, u64>, b: Map<Seq<char>, u64>) -> Map<Seq<char>, u64> {
    Map::total(
        |id: Seq<char>|
            if a[id] >= b[id] {
                a[id]
            } else {
                b[id]
            },
    )
}

/// A vector clock: one counter per known instance id.
#[derive(Debug)]
pub struct VectorClock {
    entries: Vec<(String, u64)>,
}

impl View for VectorClock {
    type V = ClockView;

    closed spec fn view(&self) -> ClockView {
        Seq::new(self.entries@.len(), |i: int| (self.entries@[i].0@, self.entries@[i].1))
    }
}

impl Clone for VectorClock {
    /// An exact copy: the clone has the same entries.
    fn clone(&self) -> (r: Self)
        ensures
            r@ == self@,
    {
        self.duplicate()
    }
}

impl VectorClock {
    /// The entries hold pairwise distinct ids.
    pub open spec fn wf(self) -> bool {
        distinct_keys(self@)
    }

    /// An empty clock: every id reads zero.
    pub fn new() -> (r: Self)
        ensures
            r.wf(),
            r@ =~= Seq::<(Seq<char>, u64)>::empty(),
            forall|id: Seq<char>| cv_get(r@, id) == 0,
    {
        let r = VectorClock { entries: Vec::new() };
        proof {
            assert(r@ =~= Seq::<(Seq<char>, u64)>::empty());
        }
        r
    }

    /// An exact copy of this clock.
    pub fn duplicate(&self) -> (r: Self)
        ensures
            r@ == self@,
    {
        let n = self.entries.len();
        let mut out: Vec<(String, u64)> = Vec::new();
        let mut i: usize = 0;
        while i < n
            invariant
                0 <= i <= n,
                n == self.entries@.len(),
                out@.len() == i,
                forall|j: int|
                    0 <= j < i ==> out@[j].0@ == self.entries@[j].0@ && out@[j].1
                        == self.entries@[j].1,
            decreases n - i,
        {
            let id = self.entries[i].0.clone();
            let value = self.entries[i].1;
            out.push((id, value));
            i = i + 1;
        }
        let r = VectorClock { entries: out };
        proof {
            assert(r@ =~= self@);
        }
        r
    }

    /// Increments this instance's own counter and returns the new value.
    pub fn tick(&mut self, instance_id: &str) -> (r: u64)
        requires
            old(self).wf(),
            cv_get(old(self)@, instance_id@) < u64::MAX,
        ensures
            final(self).wf(),
            r == cv_get(old(self)@, instance_id@) + 1,
            cv_get(final(self)@, instance_id@) == r,
            forall|id: Seq<char>|
                id != instance_id@ ==> cv_get(final(self)@, id) == cv_get(old(self)@, id),
    {
        let prior = self.get(instance_id);
        let next = prior + 1;
        self.set_value(String::from_str(instance_id), next);
        next
    }

    /// The counter recorded for `instance_id`; zero when unknown.
    pub fn get(&self, instance_id: &str) -> (r: u64)
        ensures
            r == cv_get(self@, instance_id@),
    {
        let n = self.entries.len();
        let mut i: usize = 0;
        loop
            invariant
                0 <= i <= n,
                n == self.entries@.len(),
                self@.len() == n,
                forall|j: int| 0 <= j < i ==> self@[j].0 != instance_id@,
            decreases n - i,
        {
            if i == n {
                proof {
                    lemma_assoc_find_skip(self@, instance_id@, i as int);
                }
                return 0;
            }
            if str_eq(self.entries[i].0.as_str(), instance_id) {
                proof {
                    lemma_assoc_find_at(self@, instance_id@, i as int);
                }
                return self.entries[i].1;
            }
            i = i + 1;
        }
    }

    /// Records `value` for `instance_id`, replacing any prior counter.
    pub fn set_value(&mut self, instance_id: String, value: u64)
        requires
            old(self).wf(),
        ensures
            final(self).wf(),
            cv_get(final(self)@, instance_id@) == value,
            forall|id: Seq<char>|
                id != instance_id@ ==> cv_get(final(self)@, id) == cv_get(old(self)@, id),
    {
        let ghost v0 = self@;
        let ghost pair = (instance_id@, value);
        let n = self.entries.len();
        let mut i: usize = 0;
        while i < n
            invariant
                0 <= i <= n,
                n == self.entries@.len(),
                self@ == v0,
                v0 == old(self)@,
                pair == (instance_id@, value),
                v0.len() == n,
                distinct_keys(v0),
                forall|j: int| 0 <= j < i ==> v0[j].0 != instance_id@,
            decreases n - i,
        {
            if str_eq(self.entries[i].0.as_str(), instance_id.as_str()) {
                proof {
                    assert(v0[i as int] == (self.entries@[i as int].0@, self.entries@[i as int].1));
                    assert(v0[i as int].0 == pair.0);
                }
                self.entries.set(i, (instance_id, value));
                proof {
                    assert(self@ =~= v0.update(i as int, pair));
                    assert forall|id: Seq<char>|
                        cv_get(self@, id) == (if id == pair.0 {
                            value
                        } else {
                            cv_get(v0, id)
                        }) by {
                        lemma_assoc_find_update(v0, i as int, pair, id);
                    }
                    lemma_assoc_find_update(v0, i as int, pair, pair.0);
                }
                return ;
            }
            i = i + 1;
        }
        self.entries.push((instance_id, value));
        proof {
            assert(self@ =~= v0.push(pair));
            lemma_assoc_has_index(v0, pair.0);
            assert(!assoc_has(v0, pair.0));
            assert forall|id: Seq<char>|
                cv_get(self@, id) == (if id == pair.0 {
                    value
                } else {
                    cv_get(v0, id)
                }) by {
                lemma_assoc_find_push(v0, pair, id);
            }
            assert(distinct_keys(self@)) by {
                assert(forall|j: int| 0 <= j < n ==> self@[j] == v0[j]);
                assert(self@[n as int] == pair);
            }
        }
    }

    /// The entries as plain pairs, in storage order.
    pub fn to_pairs(&self) -> (r: Vec<(String, u64)>)
        ensures
            r@.len() == self@.len(),
            forall|i: int|
                0 <= i < r@.len() ==> (#[trigger] r@[i]).0@ == self@[i].0 && r@[i].1 == self@[
                    i
                ].1,
    {
        let n = self.entries.len();
        let mut out: Vec<(String, u64)> = Vec::new();
        let mut i: usize = 0;
        while i < n
            invariant
                0 <= i <= n,
                n == self.entries@.len(),
                self@.len() == n,
                out@.len() == i,
                forall|j: int|
                    0 <= j < i ==> (#[trigger] out@[j]).0@ == self@[j].0 && out@[j].1 == self@[
                        j
                    ].1,
            decreases n - i,
        {
            out.push((self.entries[i].0.clone(), self.entries[i].1));
            i = i + 1;
        }
        out
    }

    /// Whether an entry for `instance_id` is present (even with counter 0).
    fn has_id(&self, instance_id: &str) -> (r: bool)
        ensures
            r == assoc_has(self@, instance_id@),
    {
        let n = self.entries.len();
        let mut i: usize = 0;
        while i < n
            invariant
                0 <= i <= n,
                n == self.entries@.len(),
                self@.len() == n,
                forall|j: int| 0 <= j < i ==> self@[j].0 != instance_id@,
            decreases n - i,
        {
            if str_eq(self.entries[i].0.as_str(), instance_id) {
                proof {
                    lemma_assoc_find_at(self@, instance_id@, i as int);
                }
                return true;
            }
            i = i + 1;
        }
        proof {
            lemma_assoc_find_skip(self@, instance_id@, n as int);
        }
        false
    }

    /// Whether this clock covers `other`: every counter of `other` is
    /// at or below this clock's.  An event whose clock is covered is
    /// causally before or equal to this position.
    pub fn covers(&self, other: &VectorClock) -> (r: bool)
        requires
            self.wf(),
            other.wf(),
        ensures
            r == cv_le(other@, self@),
    {
        let ghost s = other@;
        let ghost o = self@;
        let n = other.entries.len();
        let mut i: usize = 0;
        while i < n
            invariant
                0 <= i <= n,
                n == other.entries@.len(),
                s == other@,
                o == self@,
                s.len() == n,
                distinct_keys(s),
                distinct_keys(o),
                forall|j: int| 0 <= j < i ==> s[j].1 <= cv_get(o, s[j].0),
            decreases n - i,
        {
            proof {
                lemma_cv_get_entry(s, i as int);
            }
            let theirs = other.entries[i].1;
            let ours = self.get(other.entries[i].0.as_str());
            if theirs > ours {
                proof {
                    assert(cv_get(s, s[i as int].0) > cv_get(o, s[i as int].0));
                }
                return false;
            }
            i = i + 1;
        }
        proof {
            lemma_le_characterization(s, o);
        }
        true
    }

    /// Whether this clock happened before `other`: every counter at or
    /// below the other's, and at least one strictly below.
    pub fn happened_before(&self, other: &VectorClock) -> (r: bool)
        requires
            self.wf(),
            other.wf(),
        ensures
            r == cv_hb(self@, other@),
    {
        let ghost s = self@;
        let ghost o = other@;
        let n = self.entries.len();
        let mut i: usize = 0;
        let mut strictly = false;
        while i < n
            invariant
                0 <= i <= n,
                n == self.entries@.len(),
                s == self@,
                o == other@,
                s.len() == n,
                distinct_keys(s),
                distinct_keys(o),
                forall|j: int| 0 <= j < i ==> s[j].1 <= cv_get(o, s[j].0),
                strictly == exists|j: int| 0 <= j < i && s[j].1 < cv_get(o, s[j].0),
            decreases n - i,
        {
            proof {
                lemma_cv_get_entry(s, i as int);
            }
            let own = self.entries[i].1;
            let theirs = other.get(self.entries[i].0.as_str());
            if own > theirs {
                proof {
                    assert(cv_get(s, s[i as int].0) > cv_get(o, s[i as int].0));
                    assert(!cv_le(s, o));
                }
                return false;
            }
            if own < theirs {
                strictly = true;
                proof {
                    assert(s[i as int].1 < cv_get(o, s[i as int].0));
                }
            }
            i = i + 1;
        }
        if !strictly {
            let m = other.entries.len();
            let mut k: usize = 0;
            while k < m
                invariant
                    0 <= k <= m,
                    m == other.entries@.len(),
                    s == self@,
                    o == other@,
                    o.len() == m,
                    distinct_keys(s),
                    distinct_keys(o),
                    !strictly,
                    forall|j: int| 0 <= j < s.len() ==> s[j].1 <= cv_get(o, s[j].0),
                    !(exists|j: int| 0 <= j < s.len() && s[j].1 < cv_get(o, s[j].0)),
                    forall|j: int| 0 <= j < k ==> !(o[j].1 > 0 && !assoc_has(s, o[j].0)),
                decreases m - k,
            {
                proof {
                    lemma_cv_get_entry(o, k as int);
                }
                if other.entries[k].1 > 0 && !self.has_id(other.entries[k].0.as_str()) {
                    proof {
                        lemma_hb_characterization(s, o);
                        assert(o[k as int].1 > 0 && !assoc_has(s, o[k as int].0));
                    }
                    return true;
                }
                k = k + 1;
            }
        }
        proof {
            lemma_hb_characterization(s, o);
        }
        strictly
    }

    /// Whether the two clocks are concurrent: neither happened before the
    /// other.
    pub fn concurrent(&self, other: &VectorClock) -> (r: bool)
        requires
            self.wf(),
            other.wf(),
        ensures
            r == cv_concurrent(self@, other@),
    {
        let ab = self.happened_before(other);
        let ba = other.happened_before(self);
        !ab && !ba
    }

    /// Absorbs `other`: afterwards every counter is the maximum of the two.
    pub fn merge(&mut self, other: &VectorClock)
        requires
            old(self).wf(),
            other.wf(),
        ensures
            final(self).wf(),
            forall|id: Seq<char>|
                cv_get(final(self)@, id) == max64(cv_get(old(self)@, id), cv_get(other@, id)),
            cv_map(final(self)@) == m_merge(cv_map(old(self)@), cv_map(other@)),
    {
        let ghost v0 = self@;
        let ghost o = other@;
        let m = other.entries.len();
        let mut k: usize = 0;
        while k < m
            invariant
                0 <= k <= m,
                m == other.entries@.len(),
                o == other@,
                o.len() == m,
                v0 == old(self)@,
                distinct_keys(o),
                self.wf(),
                forall|id: Seq<char>|
                    cv_get(self@, id) == (if exists|j: int| 0 <= j < k && o[j].0 == id {
                        max64(cv_get(v0, id), cv_get(o, id))
                    } else {
                        cv_get(v0, id)
                    }),
            decreases m - k,
        {
            proof {
                lemma_cv_get_entry(o, k as int);
                assert(!(exists|j: int| 0 <= j < k && o[j].0 == o[k as int].0));
            }
            let key_match = other.entries[k].0.as_str();
            let theirs = other.entries[k].1;
            let cur = self.get(key_match);
            if theirs > cur {
                self.set_value(other.entries[k].0.clone(), theirs);
            }
            k = k + 1;
            proof {
                assert forall|id: Seq<char>|
                    cv_get(self@, id) == (if exists|j: int| 0 <= j < k && o[j].0 == id {
                        max64(cv_get(v0, id), cv_get(o, id))
                    } else {
                        cv_get(v0, id)
                    }) by {
                    if id == o[k - 1].0 {
                        assert(o[k - 1].0 == id);
                    }
                }
            }
        }
        proof {
            assert forall|id: Seq<char>|
                cv_get(self@, id) == max64(cv_get(v0, id), cv_get(o, id)) by {
                lemma_assoc_has_index(o, id);
                if !(exists|j: int| 0 <= j < m && o[j].0 == id) {
                    assert(cv_get(o, id) == 0);
                }
            }
            assert(cv_map(self@) =~= m_merge(cv_map(v0), cv_map(o)));
        }
    }

    /// A fresh clock holding the entrywise maximum of the two.
    pub fn merged(&self, other: &VectorClock) -> (r: VectorClock)
        requires
            self.wf(),
            other.wf(),
        ensures
            r.wf(),
            forall|id: Seq<char>|
                cv_get(r@, id) == max64(cv_get(self@, id), cv_get(other@, id)),
            cv_map(r@) == m_merge(cv_map(self@), cv_map(other@)),
    {
        let mut r = self.duplicate();
        r.merge(other);
        r
    }

    /// Checks the structural invariant: no id occurs twice.
    pub fn check_wf(&self) -> (r: bool)
        ensures
            r == self.wf(),
    {
        let n = self.entries.len();
        let mut i: usize = 0;
        while i < n
            invariant
                0 <= i <= n,
                n == self.entries@.len(),
                self@.len() == n,
                forall|p: int, q: int| 0 <= p < q < i ==> self@[p].0 != self@[q].0,
            decreases n - i,
        {
            let mut j: usize = 0;
            while j < i
                invariant
                    0 <= j <= i < n,
                    n == self.entries@.len(),
                    self@.len() == n,
                    forall|p: int, q: int| 0 <= p < q < i ==> self@[p].0 != self@[q].0,
                    forall|q: int| 0 <= q < j ==> self@[q].0 != self@[i as int].0,
                decreases i - j,
            {
                if str_eq(self.entries[j].0.as_str(), self.entries[i].0.as_str()) {
                    proof {
                        assert(self@[j as int].0 == self@[i as int].0);
                        assert(!distinct_keys(self@));
                    }
                    return false;
                }
                j = j + 1;
            }
            i = i + 1;
        }
        true
    }

    /// The total causal weight of this clock.
    pub fn weight(&self) -> (r: u128)
        ensures
            r == cv_weight(self@),
    {
        let ghost v = self@;
        let n = self.entries.len();
        let mut sum: u128 = 0;
        let mut i: usize = 0;
        proof {
            lemma_weight_partial_bound(v, 0);
            assert(v.skip(0) =~= v);
        }
        while i < n
            invariant
                0 <= i <= n,
                n == self.entries@.len(),
                v == self@,
                v.len() == n,
                sum + cv_weight(v.skip(i as int)) == cv_weight(v),
                sum <= i * (u64::MAX as int),
            decreases n - i,
        {
            proof {
                assert(v.skip(i as int)[0] == v[i as int]);
                assert(v.skip(i as int).skip(1) =~= v.skip(i as int + 1));
                assert(cv_weight(v.skip(i as int)) == v[i as int].1 + cv_weight(
                    v.skip(i as int + 1),
                ));
                assert(v[i as int].1 <= u64::MAX);
                assert(sum + v[i as int].1 <= (i + 1) * (u64::MAX as int)) by {
                    assert(i * (u64::MAX as int) + (u64::MAX as int) == (i + 1) * (
                    u64::MAX as int));
                }
                assert((i + 1) * (u64::MAX as int) < u128::MAX) by {
                    assert(i + 1 <= u64::MAX);
                    vstd::arithmetic::mul::lemma_mul_inequality(
                        i + 1,
                        u64::MAX as int,
                        u64::MAX as int,
                    );
                }
            }
            sum = sum + (self.entries[i].1 as u128);
            i = i + 1;
        }
        proof {
            assert(v.skip(n as int) =~= Seq::<(Seq<char>, u64)>::empty());
        }
        sum
    }
}

/// The weight never exceeds one maximal counter per entry.
proof fn lemma_weight_partial_bound(v: ClockView, i: int)
    requires
        0 <= i <= v.len(),
    ensures
        cv_weight(v.skip(i)) <= (v.len() - i) * (u64::MAX as int),
    decreases v.len() - i,
{
    if i < v.len() {
        lemma_weight_partial_bound(v, i + 1);
        assert(v.skip(i)[0] == v[i]);
        assert(v.skip(i).skip(1) =~= v.skip(i + 1));
        assert(cv_weight(v.skip(i)) == v[i].1 + cv_weight(v.skip(i + 1)));
        assert((v.len() - i - 1) * (u64::MAX as int) + (u64::MAX as int) == (v.len() - i) * (
        u64::MAX as int));
    } else {
        assert(v.skip(i) =~= Seq::<(Seq<char>, u64)>::empty());
    }
}

/// The larger of two counters.
pub open spec fn max64(a: u64, b: u64) -> u64 {
    if a >= b {
        a
    } else {
        b
    }
}

/// With distinct ids, the entry at `j` is exactly what the clock reads
/// for its id.
pub proof fn lemma_cv_get_entry(v: ClockView, j: int)
    requires
        distinct_keys(v),
        0 <= j < v.len(),
    ensures
        cv_get(v, v[j].0) == v[j].1,
        assoc_has(v, v[j].0),
{
    lemma_assoc_find_at(v, v[j].0, j);
}

/// Entrywise dominance reduces to a finite check over the entries of
/// the smaller clock.
pub proof fn lemma_le_characterization(s: ClockView, o: ClockView)
    requires
        distinct_keys(s),
    ensures
        cv_le(s, o) <==> (forall|j: int| 0 <= j < s.len() ==> s[j].1 <= cv_get(o, s[j].0)),
{
    if forall|j: int| 0 <= j < s.len() ==> s[j].1 <= cv_get(o, s[j].0) {
        assert forall|id: Seq<char>| cv_get(s, id) <= cv_get(o, id) by {
            lemma_assoc_has_index(s, id);
            if assoc_has(s, id) {
                let j = choose|j: int| 0 <= j < s.len() && s[j].0 == id;
                lemma_cv_get_entry(s, j);
            }
        }
    } else {
        let j = choose|j: int| 0 <= j < s.len() && !(s[j].1 <= cv_get(o, s[j].0));
        lemma_cv_get_entry(s, j);
        assert(cv_get(s, s[j].0) > cv_get(o, s[j].0));
    }
}

/// The happened-before test reduces to finite checks over the entries of
/// the two clocks.
pub proof fn lemma_hb_characterization(s: ClockView, o: ClockView)
    requires
        distinct_keys(s),
        distinct_keys(o),
    ensures
        cv_hb(s, o) <==> ((forall|j: int| 0 <= j < s.len() ==> s[j].1 <= cv_get(o, s[j].0)) && (
        (exists|j: int| 0 <= j < s.len() && s[j].1 < cv_get(o, s[j].0)) || (exists|k: int|
            0 <= k < o.len() && o[k].1 > 0 && !assoc_has(s, o[k].0)))),
{
    let entrywise_le = forall|j: int| 0 <= j < s.len() ==> s[j].1 <= cv_get(o, s[j].0);
    if entrywise_le {
        assert forall|id: Seq<char>| cv_get(s, id) <= cv_get(o, id) by {
            lemma_assoc_has_index(s, id);
            if assoc_has(s, id) {
                let j = choose|j: int| 0 <= j < s.len() && s[j].0 == id;
                lemma_cv_get_entry(s, j);
            }
        }
    } else {
        let j = choose|j: int| 0 <= j < s.len() && !(s[j].1 <= cv_get(o, s[j].0));
        lemma_cv_get_entry(s, j);
        assert(cv_get(s, s[j].0) > cv_get(o, s[j].0));
    }
    if cv_hb(s, o) {
        let id = choose|id: Seq<char>| cv_get(s, id) < cv_get(o, id);
        lemma_assoc_has_index(s, id);
        lemma_assoc_has_index(o, id);
        if assoc_has(s, id) {
            let j = choose|j: int| 0 <= j < s.len() && s[j].0 == id;
            lemma_cv_get_entry(s, j);
            assert(s[j].1 < cv_get(o, s[j].0));
        } else {
            assert(cv_get(s, id) == 0);
            assert(cv_get(o, id) > 0);
            assert(assoc_has(o, id));
            let k = choose|k: int| 0 <= k < o.len() && o[k].0 == id;
            lemma_cv_get_entry(o, k);
            assert(o[k].1 > 0 && !assoc_has(s, o[k].0));
        }
    }
    if entrywise_le {
        if exists|j: int| 0 <= j < s.len() && s[j].1 < cv_get(o, s[j].0) {
            let j = choose|j: int| 0 <= j < s.len() && s[j].1 < cv_get(o, s[j].0);
            lemma_cv_get_entry(s, j);
            assert(cv_get(s, s[j].0) < cv_get(o, s[j].0));
            assert(cv_hb(s, o));
        } else if exists|k: int| 0 <= k < o.len() && o[k].1 > 0 && !assoc_has(s, o[k].0) {
            let k = choose|k: int| 0 <= k < o.len() && o[k].1 > 0 && !assoc_has(s, o[k].0);
            lemma_cv_get_entry(o, k);
            assert(cv_get(s, o[k].0) == 0);
            assert(cv_get(s, o[k].0) < cv_get(o, o[k].0));
            assert(cv_hb(s, o));
        }
    }
}

/// The total causal weight of a clock: the sum of all its counters.
/// A clock that happened before another always weighs strictly less,
/// which makes the weight a causality-respecting sort key.
pub open spec fn cv_weight(v: ClockView) -> nat
    decreases v.len(),
{
    if v.len() == 0 {
        0
    } else {
        (v[0].1 + cv_weight(v.skip(1))) as nat
    }
}

/// Removing one entry takes exactly its counter out of the weight.
proof fn lemma_weight_remove(v: ClockView, j: int)
    requires
        0 <= j < v.len(),
    ensures
        cv_weight(v) == cv_weight(v.remove(j)) + v[j].1,
    decreases j,
{
    if j == 0 {
        assert(v.remove(0) =~= v.skip(1));
    } else {
        lemma_weight_remove(v.skip(1), j - 1);
        assert(v.skip(1)[j - 1] == v[j]);
        assert(v.remove(j)[0] == v[0]);
        assert(v.remove(j).skip(1) =~= v.skip(1).remove(j - 1));
        assert(cv_weight(v.remove(j)) == v[0].1 + cv_weight(v.skip(1).remove(j - 1)));
    }
}

/// A clock all of whose entries are zero weighs nothing.
proof fn lemma_weight_zero(v: ClockView)
    requires
        forall|j: int| 0 <= j < v.len() ==> v[j].1 == 0,
    ensures
        cv_weight(v) == 0,
    decreases v.len(),
{
    if v.len() > 0 {
        lemma_weight_zero(v.skip(1));
        assert(forall|j: int| 0 <= j < v.skip(1).len() ==> v.skip(1)[j] == v[j + 1]);
    }
}

/// Entrywise dominance carries over to the weights; strict dominance
/// anywhere makes the weight strictly larger.
pub proof fn lemma_weight_le(a: ClockView, b: ClockView)
    requires
        distinct_keys(a),
        distinct_keys(b),
        forall|id: Seq<char>| cv_get(a, id) <= cv_get(b, id),
    ensures
        cv_weight(a) <= cv_weight(b),
        (exists|id: Seq<char>| cv_get(a, id) < cv_get(b, id)) ==> cv_weight(a) < cv_weight(b),
    decreases b.len(),
{
    if b.len() == 0 {
        assert forall|j: int| 0 <= j < a.len() implies a[j].1 == 0 by {
            lemma_cv_get_entry(a, j);
            assert(cv_get(b, a[j].0) == 0);
        }
        lemma_weight_zero(a);
        assert forall|id: Seq<char>| !(cv_get(a, id) < cv_get(b, id)) by {
            assert(cv_get(b, id) == 0);
        }
    } else {
        let id0 = b[0].0;
        let v0 = b[0].1;
        lemma_cv_get_entry(b, 0);
        let bt = b.skip(1);
        assert(distinct_keys(bt)) by {
            assert(forall|j: int| 0 <= j < bt.len() ==> bt[j] == b[j + 1]);
        }
        // The tail of b no longer holds id0.
        assert(cv_get(bt, id0) == 0) by {
            lemma_assoc_has_index(bt, id0);
            if assoc_has(bt, id0) {
                let k = choose|k: int| 0 <= k < bt.len() && bt[k].0 == id0;
                assert(b[k + 1].0 == id0);
                assert(false);
            }
        }
        // Tail entries of b read the same as in b.
        assert forall|id: Seq<char>| id != id0 implies cv_get(bt, id) == cv_get(b, id) by {
            assert(assoc_find(b, id) == assoc_find(bt, id));
        }
        lemma_assoc_has_index(a, id0);
        if assoc_has(a, id0) {
            let j = choose|j: int| 0 <= j < a.len() && a[j].0 == id0;
            lemma_cv_get_entry(a, j);
            let at = a.remove(j);
            lemma_weight_remove(a, j);
            assert forall|id: Seq<char>| cv_get(at, id) == (if id == id0 {
                0u64
            } else {
                cv_get(a, id)
            }) by {
                lemma_assoc_find_remove(a, j, id);
            }
            lemma_assoc_find_remove(a, j, id0);
            lemma_weight_le(at, bt);
            assert(cv_weight(a) == cv_weight(at) + a[j].1);
            assert(a[j].1 == cv_get(a, id0));
            assert(cv_get(a, id0) <= v0);
            assert(cv_weight(b) == v0 + cv_weight(bt));
            if exists|id: Seq<char>| cv_get(a, id) < cv_get(b, id) {
                let idw = choose|id: Seq<char>| cv_get(a, id) < cv_get(b, id);
                if idw == id0 {
                    assert(cv_get(a, id0) < v0);
                } else {
                    assert(cv_get(at, idw) < cv_get(bt, idw));
                }
            }
        } else {
            assert(cv_get(a, id0) == 0);
            assert forall|id: Seq<char>| cv_get(a, id) <= cv_get(bt, id) by {
                if id == id0 {
                    assert(cv_get(a, id0) == 0);
                } else {
                    assert(cv_get(bt, id) == cv_get(b, id));
                }
            }
            lemma_weight_le(a, bt);
            assert(cv_weight(b) == v0 + cv_weight(bt));
            if exists|id: Seq<char>| cv_get(a, id) < cv_get(b, id) {
                let idw = choose|id: Seq<char>| cv_get(a, id) < cv_get(b, id);
                if idw == id0 {
                    if v0 > 0 {
                        assert(cv_weight(a) <= cv_weight(bt));
                        assert(cv_weight(bt) < cv_weight(b));
                    } else {
                        assert(cv_get(b, id0) == 0);
                        assert(false);
                    }
                } else {
                    assert(cv_get(a, idw) < cv_get(bt, idw));
                }
            }
        }
    }
}

/// A clock that happened before another weighs strictly less.
pub proof fn lemma_hb_weight(a: ClockView, b: ClockView)
    requires
        distinct_keys(a),
        distinct_keys(b),
        cv_hb(a, b),
    ensures
        cv_weight(a) < cv_weight(b),
{
    lemma_weight_le(a, b);
}

/// Merging clocks is commutative: the merged mapping reads the same
/// whichever clock absorbs the other.
pub proof fn lemma_clock_merge_commutative(a: VectorClock, b: VectorClock)
    ensures
        m_merge(cv_map(a@), cv_map(b@)) == m_merge(cv_map(b@), cv_map(a@)),
{
    assert(m_merge(cv_map(a@), cv_map(b@)) =~= m_merge(cv_map(b@), cv_map(a@)));
}

/// Merging clocks is associative.
pub proof fn lemma_clock_merge_associative(a: VectorClock, b: VectorClock, c: VectorClock)
    ensures
        m_merge(m_merge(cv_map(a@), cv_map(b@)), cv_map(c@)) == m_merge(
            cv_map(a@),
            m_merge(cv_map(b@), cv_map(c@)),
        ),
{
    assert(m_merge(m_merge(cv_map(a@), cv_map(b@)), cv_map(c@)) =~= m_merge(
        cv_map(a@),
        m_merge(cv_map(b@), cv_map(c@)),
    ));
}

/// Merging a clock with itself changes nothing.
pub proof fn lemma_clock_merge_idempotent(a: VectorClock)
    ensures
        m_merge(cv_map(a@), cv_map(a@)) == cv_map(a@),
{
    assert(m_merge(cv_map(a@), cv_map(a@)) =~= cv_map(a@));
}

} // verus!
