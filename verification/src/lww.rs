//! Last-writer-wins keyed registers.
//!
//! An [`LWWMap`] maps string keys to values stamped with an
//! authoritative timestamp and a writer id.  A write replaces an entry
//! only when it is strictly newer, or carries an equal timestamp with a
//! lexicographically greater writer id; the same rule decides every key
//! of a merge, so the direct write path and the merge path can never
//! disagree about which write wins.

use vstd::prelude::*;
use crate::assoc::{assoc_find, distinct_keys};
use crate::assoc::{
    lemma_assoc_find_at, lemma_assoc_find_push, lemma_assoc_find_remove, lemma_assoc_find_skip,
    lemma_assoc_find_update, lemma_assoc_has_index,
};
use crate::exact::ExactClone;
use crate::text::{lex_lt, str_eq, str_lt};

verus! {

/// The abstract content of one register entry.
pub struct EntryView<T> {
    pub value: T,
    pub timestamp: u64,
    pub writer: Seq<char>,
}

/// One stored register entry: a value, when it was written, and by whom.
#[derive(Debug, Clone)]
pub struct LWWEntry<T> {
    pub value: T,
    pub timestamp: u64,
    pub writer: String,
}

impl<T> View for LWWEntry<T> {
    type V = EntryView<T>;

    open spec fn view(&self) -> EntryView<T> {
        EntryView { value: self.value, timestamp: self.timestamp, writer: self.writer@ }
    }
}

impl<T> LWWEntry<T> {
    /// Packs a value with its timestamp and writer.
    pub fn new(value: T, timestamp: u64, writer: String) -> (r: Self)
        ensures
            r@.value == value,
            r@.timestamp == timestamp,
            r@.writer == writer@,
    {
        LWWEntry { value, timestamp, writer }
    }
}

/// Whether an incoming write beats the current entry: strictly newer,
/// or same instant with the greater writer id.
pub open spec fn lww_wins(
    new_ts: u64,
    new_writer: Seq<char>,
    cur_ts: u64,
    cur_writer: Seq<char>,
) -> bool {
    new_ts > cur_ts || (new_ts == cur_ts && lex_lt(cur_writer, new_writer))
}

/// What one key reads after a map absorbs another map's entry for it.
pub open spec fn lww_merged_entry<T>(
    cur: Option<EntryView<T>>,
    inc: Option<EntryView<T>>,
) -> Option<EntryView<T>> {
    match inc {
        None => cur,
        Some(o) => match cur {
            None => Some(o),
            Some(c) => if lww_wins(o.timestamp, o.writer, c.timestamp, c.writer) {
                Some(o)
            } else {
                Some(c)
            },
        },
    }
}

/// Merging register entries is commutative, provided a (timestamp,
/// writer) stamp names at most one write — which holds when every
/// writer stamps its own writes with fresh timestamps.
pub proof fn lemma_lww_merge_commutative<T>(a: Option<EntryView<T>>, b: Option<EntryView<T>>)
    requires
        (a matches Some(x) && b matches Some(y) && x.timestamp == y.timestamp && x.writer
            == y.writer) ==> a == b,
    ensures
        lww_merged_entry(a, b) == lww_merged_entry(b, a),
{
    if a is Some && b is Some {
        let x = a.unwrap();
        let y = b.unwrap();
        crate::text::lemma_lex_asymmetric(x.writer, y.writer);
        if x.timestamp == y.timestamp {
            crate::text::lemma_lex_connected(x.writer, y.writer);
        }
    }
}

/// Merging register entries is associative.
pub proof fn lemma_lww_merge_associative<T>(
    a: Option<EntryView<T>>,
    b: Option<EntryView<T>>,
    c: Option<EntryView<T>>,
)
    ensures
        lww_merged_entry(lww_merged_entry(a, b), c) == lww_merged_entry(a, lww_merged_entry(b, c)),
{
    if a is Some && b is Some && c is Some {
        let x = a.unwrap();
        let y = b.unwrap();
        let z = c.unwrap();
        if lex_lt(x.writer, y.writer) && lex_lt(y.writer, z.writer) {
            crate::text::lemma_lex_transitive(x.writer, y.writer, z.writer);
        }
        if lex_lt(z.writer, y.writer) && lex_lt(y.writer, x.writer) {
            crate::text::lemma_lex_transitive(z.writer, y.writer, x.writer);
        }
        crate::text::lemma_lex_asymmetric(x.writer, y.writer);
        crate::text::lemma_lex_asymmetric(y.writer, z.writer);
        crate::text::lemma_lex_asymmetric(x.writer, z.writer);
        crate::text::lemma_lex_connected(x.writer, y.writer);
        crate::text::lemma_lex_connected(y.writer, z.writer);
        crate::text::lemma_lex_connected(x.writer, z.writer);
        if lex_lt(y.writer, x.writer) && lex_lt(z.writer, y.writer) {
            crate::text::lemma_lex_transitive(z.writer, y.writer, x.writer);
        }
        if lex_lt(y.writer, z.writer) && lex_lt(x.writer, y.writer) {
            crate::text::lemma_lex_transitive(x.writer, y.writer, z.writer);
        }
    }
}

/// Merging an entry with itself changes nothing.
pub proof fn lemma_lww_merge_idempotent<T>(a: Option<EntryView<T>>)
    ensures
        lww_merged_entry(a, a) == a,
{
    if a is Some {
        crate::text::lemma_lex_asymmetric(a.unwrap().writer, a.unwrap().writer);
    }
}

/// A last-writer-wins map from string keys to stamped values.
#[derive(Debug)]
pub struct LWWMap<T> {
    entries: Vec<(String, LWWEntry<T>)>,
}

impl<T: ExactClone> Clone for LWWMap<T> {
    /// An exact copy: the clone reads equal under every key.
    fn clone(&self) -> (r: Self)
        ensures
            r@ == self@,
    {
        self.duplicate()
    }
}

impl<T> View for LWWMap<T> {
    type V = Seq<(Seq<char>, EntryView<T>)>;

    closed spec fn view(&self) -> Seq<(Seq<char>, EntryView<T>)> {
        Seq::new(self.entries@.len(), |i: int| (self.entries@[i].0@, self.entries@[i].1@))
    }
}

impl<T> LWWMap<T> {
    /// The keys are pairwise distinct.
    pub open spec fn wf(self) -> bool {
        distinct_keys(self@)
    }

    /// The entry stored under `key`, if any.
    pub open spec fn spec_entry(self, key: Seq<char>) -> Option<EntryView<T>> {
        assoc_find(self@, key)
    }

    /// An empty map.
    pub fn new() -> (r: Self)
        ensures
            r.wf(),
            forall|key: Seq<char>| r.spec_entry(key) is None,
    {
        let r = LWWMap { entries: Vec::new() };
        proof {
            assert(r@ =~= Seq::<(Seq<char>, EntryView<T>)>::empty());
        }
        r
    }

    /// The index holding `key`, scanning from the front.
    fn find(&self, key: &str) -> (r: Option<usize>)
        ensures
            match r {
                Some(i) => {
                    &&& i < self@.len()
                    &&& self@[i as int].0 == key@
                    &&& forall|j: int| 0 <= j < i ==> self@[j].0 != key@
                    &&& self.spec_entry(key@) == Some(self@[i as int].1)
                },
                None => self.spec_entry(key@) is None,
            },
    {
        let n = self.entries.len();
        let mut i: usize = 0;
        while i < n
            invariant
                0 <= i <= n,
                n == self.entries@.len(),
                self@.len() == n,
                forall|j: int| 0 <= j < i ==> self@[j].0 != key@,
            decreases n - i,
        {
            if str_eq(self.entries[i].0.as_str(), key) {
                proof {
                    lemma_assoc_find_at(self@, key@, i as int);
                }
                return Some(i);
            }
            i = i + 1;
        }
        proof {
            lemma_assoc_find_skip(self@, key@, n as int);
        }
        None
    }

    /// The value stored under `key`, if any.
    pub fn get(&self, key: &str) -> (r: Option<&T>)
        ensures
            match r {
                Some(v) => self.spec_entry(key@) is Some && *v == self.spec_entry(
                    key@,
                ).unwrap().value,
                None => self.spec_entry(key@) is None,
            },
    {
        match self.find(key) {
            Some(i) => Some(&self.entries[i].1.value),
            None => None,
        }
    }

    /// The full entry stored under `key`, if any.
    pub fn get_entry(&self, key: &str) -> (r: Option<&LWWEntry<T>>)
        ensures
            match r {
                Some(e) => self.spec_entry(key@) == Some(e@),
                None => self.spec_entry(key@) is None,
            },
    {
        match self.find(key) {
            Some(i) => Some(&self.entries[i].1),
            None => None,
        }
    }

    /// Writes `value` under `key` if the write wins against the current
    /// entry; an absent key always accepts the write.
    pub fn set(&mut self, key: String, value: T, timestamp: u64, writer: String)
        requires
            old(self).wf(),
        ensures
            final(self).wf(),
            final(self).spec_entry(key@) == lww_merged_entry(
                old(self).spec_entry(key@),
                Some(EntryView { value, timestamp, writer: writer@ }),
            ),
            forall|k: Seq<char>|
                k != key@ ==> final(self).spec_entry(k) == old(self).spec_entry(k),
    {
        let ghost v0 = self@;
        let ghost incoming = EntryView { value, timestamp, writer: writer@ };
        match self.find(key.as_str()) {
            Some(i) => {
                let overwrite = timestamp > self.entries[i].1.timestamp || (timestamp
                    == self.entries[i].1.timestamp && str_lt(
                    self.entries[i].1.writer.as_str(),
                    writer.as_str(),
                ));
                proof {
                    assert(v0[i as int].1 == self.entries@[i as int].1@);
                    assert(overwrite == lww_wins(
                        timestamp,
                        writer@,
                        v0[i as int].1.timestamp,
                        v0[i as int].1.writer,
                    ));
                }
                if overwrite {
                    let ghost pair = (key@, incoming);
                    self.entries.set(i, (key, LWWEntry { value, timestamp, writer }));
                    proof {
                        assert(self@ =~= v0.update(i as int, pair));
                        assert forall|k: Seq<char>|
                            assoc_find(self@, k) == (if k == pair.0 {
                                Some(pair.1)
                            } else {
                                assoc_find(v0, k)
                            }) by {
                            lemma_assoc_find_update(v0, i as int, pair, k);
                        }
                        lemma_assoc_find_update(v0, i as int, pair, pair.0);
                    }
                }
            },
            None => {
                let ghost pair = (key@, incoming);
                self.entries.push((key, LWWEntry { value, timestamp, writer }));
                proof {
                    assert(self@ =~= v0.push(pair));
                    lemma_assoc_has_index(v0, pair.0);
                    assert forall|k: Seq<char>|
                        assoc_find(self@, k) == (if k == pair.0 {
                            Some(pair.1)
                        } else {
                            assoc_find(v0, k)
                        }) by {
                        lemma_assoc_find_push(v0, pair, k);
                    }
                    assert(distinct_keys(self@)) by {
                        assert(forall|j: int| 0 <= j < v0.len() ==> self@[j] == v0[j]);
                        assert(self@[v0.len() as int] == pair);
                    }
                }
            },
        }
    }

    /// Deletes `key` outright.  There is no tombstone: a concurrent
    /// re-add elsewhere survives a later merge, so convergence holds
    /// only for keys not removed concurrently with a write.
    pub fn remove(&mut self, key: &str, _timestamp: u64)
        requires
            old(self).wf(),
        ensures
            final(self).wf(),
            final(self).spec_entry(key@) is None,
            forall|k: Seq<char>|
                k != key@ ==> final(self).spec_entry(k) == old(self).spec_entry(k),
    {
        let ghost v0 = self@;
        match self.find(key) {
            Some(i) => {
                self.entries.remove(i);
                proof {
                    assert(self@ =~= v0.remove(i as int));
                    assert forall|k: Seq<char>|
                        assoc_find(self@, k) == (if k == key@ {
                            None::<EntryView<T>>
                        } else {
                            assoc_find(v0, k)
                        }) by {
                        lemma_assoc_find_remove(v0, i as int, k);
                    }
                    lemma_assoc_find_remove(v0, i as int, key@);
                }
            },
            None => {},
        }
    }

    /// All keys currently present.
    pub fn keys(&self) -> (r: Vec<String>)
        ensures
            r@.len() == self@.len(),
            forall|i: int| 0 <= i < r@.len() ==> r@[i]@ == self@[i].0,
    {
        let n = self.entries.len();
        let mut out: Vec<String> = Vec::new();
        let mut i: usize = 0;
        while i < n
            invariant
                0 <= i <= n,
                n == self.entries@.len(),
                self@.len() == n,
                out@.len() == i,
                forall|j: int| 0 <= j < i ==> out@[j]@ == self@[j].0,
            decreases n - i,
        {
            out.push(self.entries[i].0.clone());
            i = i + 1;
        }
        out
    }

    /// How many keys are present.
    pub fn len(&self) -> (r: usize)
        ensures
            r == self@.len(),
    {
        self.entries.len()
    }
}

impl<T: ExactClone> LWWMap<T> {
    /// Absorbs another map: each of its entries is offered to [`Self::set`]'s
    /// rule, so for every key the winner is decided exactly as a direct
    /// write would have decided it.
    pub fn merge(&mut self, other: &LWWMap<T>)
        requires
            old(self).wf(),
            other.wf(),
        ensures
            final(self).wf(),
            forall|k: Seq<char>|
                final(self).spec_entry(k) == lww_merged_entry(
                    old(self).spec_entry(k),
                    other.spec_entry(k),
                ),
    {
        let ghost v0 = self@;
        let ghost o = other@;
        let m = other.entries.len();
        let mut i: usize = 0;
        while i < m
            invariant
                0 <= i <= m,
                m == other.entries@.len(),
                o == other@,
                o.len() == m,
                v0 == old(self)@,
                distinct_keys(o),
                self.wf(),
                forall|k: Seq<char>|
                    self.spec_entry(k) == (if exists|j: int| 0 <= j < i && o[j].0 == k {
                        lww_merged_entry(assoc_find(v0, k), assoc_find(o, k))
                    } else {
                        assoc_find(v0, k)
                    }),
            decreases m - i,
        {
            proof {
                lemma_assoc_find_at(o, o[i as int].0, i as int);
                assert(!(exists|j: int| 0 <= j < i && o[j].0 == o[i as int].0));
                assert(o[i as int] == (other.entries@[i as int].0@, other.entries@[i as int].1@));
            }
            let key = self.entries_key_of(other, i);
            let entry = &other.entries[i].1;
            self.set(key, entry.value.dup(), entry.timestamp, entry.writer.clone());
            i = i + 1;
            proof {
                assert forall|k: Seq<char>|
                    self.spec_entry(k) == (if exists|j: int| 0 <= j < i && o[j].0 == k {
                        lww_merged_entry(assoc_find(v0, k), assoc_find(o, k))
                    } else {
                        assoc_find(v0, k)
                    }) by {
                    if k == o[i - 1].0 {
                        assert(o[i - 1].0 == k);
                    }
                }
            }
        }
        proof {
            assert forall|k: Seq<char>|
                self.spec_entry(k) == lww_merged_entry(
                    assoc_find(v0, k),
                    assoc_find(o, k),
                ) by {
                lemma_assoc_has_index(o, k);
                if !(exists|j: int| 0 <= j < m && o[j].0 == k) {
                    assert(assoc_find(o, k) is None);
                }
            }
        }
    }

    /// An exact copy of this map.
    pub fn duplicate(&self) -> (r: Self)
        ensures
            r@ == self@,
    {
        let n = self.entries.len();
        let mut out: Vec<(String, LWWEntry<T>)> = Vec::new();
        let mut i: usize = 0;
        while i < n
            invariant
                0 <= i <= n,
                n == self.entries@.len(),
                out@.len() == i,
                forall|j: int|
                    0 <= j < i ==> out@[j].0@ == self.entries@[j].0@ && out@[j].1@
                        == self.entries@[j].1@,
            decreases n - i,
        {
            let entry = LWWEntry {
                value: self.entries[i].1.value.dup(),
                timestamp: self.entries[i].1.timestamp,
                writer: self.entries[i].1.writer.clone(),
            };
            out.push((self.entries[i].0.clone(), entry));
            i = i + 1;
        }
        let r = LWWMap { entries: out };
        proof {
            assert(r@ =~= self@);
        }
        r
    }

    /// A copy of the key stored at `i` in `other`.
    fn entries_key_of(&self, other: &LWWMap<T>, i: usize) -> (r: String)
        requires
            i < other@.len(),
        ensures
            r@ == other@[i as int].0,
    {
        other.entries[i].0.clone()
    }
}

} // verus!
