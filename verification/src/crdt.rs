//! Grow-only and observed-remove replicated primitives.
//!
//! The memory system replicates with three small conflict-free types: a
//! grow-only set, an observed-remove set whose removals delete only the
//! add-tags they have seen (so a concurrent add survives), and a
//! grow-only counter.  Each merge is a union or entrywise maximum, so
//! replicas converge in any merge order.

use vstd::prelude::*;
use crate::assoc::{assoc_find, distinct_keys};
use crate::assoc::{lemma_assoc_find_at, lemma_assoc_find_push, lemma_assoc_find_remove, lemma_assoc_find_skip, lemma_assoc_find_update, lemma_assoc_has_index};
use crate::clock::{cv_get, cv_weight, max64, ClockView, VectorClock};
use crate::text::{dec_digits, str_eq, u64_to_dec};
use vstd::string::StringExecFns;

verus! {

/// A grow-only set of strings: once added, an element stays.
#[derive(Debug)]
pub struct GSet {
    elements: Vec<String>,
}

impl GSet {
    /// The abstract contents, in insertion order.
    pub closed spec fn view_seq(self) -> Seq<Seq<char>> {
        Seq::new(self.elements@.len(), |i: int| self.elements@[i]@)
    }

    /// Whether the set holds `x`.
    pub open spec fn spec_contains(self, x: Seq<char>) -> bool {
        self.view_seq().contains(x)
    }

    /// No element is stored twice.
    pub open spec fn wf(self) -> bool {
        forall|i: int, j: int|
            0 <= i < j < self.view_seq().len() ==> self.view_seq()[i] != self.view_seq()[j]
    }

    /// An empty set.
    pub fn new() -> (r: Self)
        ensures
            r.wf(),
            forall|x: Seq<char>| !(#[trigger] r.spec_contains(x)),
            r.view_seq().len() == 0,
    {
        let r = GSet { elements: Vec::new() };
        proof {
            assert(r.view_seq() =~= Seq::<Seq<char>>::empty());
        }
        r
    }

    /// Adds an element; adding what is already held changes nothing.
    pub fn add(&mut self, element: String)
        requires
            old(self).wf(),
        ensures
            final(self).wf(),
            forall|x: Seq<char>|
                (#[trigger] final(self).spec_contains(x)) == (old(self).spec_contains(x) || x
                    == element@),
            final(self).view_seq().len() == old(self).view_seq().len() + (
            if old(self).spec_contains(element@) {
                0int
            } else {
                1int
            }),
    {
        let ghost v0 = self.view_seq();
        if self.contains(element.as_str()) {
            return ;
        }
        self.elements.push(element);
        proof {
            assert(self.view_seq() =~= v0.push(element@));
            assert forall|x: Seq<char>|
                self.spec_contains(x) == (v0.contains(x) || x == element@) by {
                if v0.push(element@).contains(x) {
                    let w = choose|w: int|
                        0 <= w < v0.push(element@).len() && v0.push(element@)[w] == x;
                    if w < v0.len() {
                        assert(v0[w] == x);
                    }
                }
                if v0.contains(x) {
                    let w = choose|w: int| 0 <= w < v0.len() && v0[w] == x;
                    assert(v0.push(element@)[w] == x);
                }
                if x == element@ {
                    assert(v0.push(element@)[v0.len() as int] == x);
                }
            }
            assert forall|i: int, j: int|
                0 <= i < j < self.view_seq().len() implies self.view_seq()[i]
                != self.view_seq()[j] by {
                if j == self.view_seq().len() - 1 {
                    assert(self.view_seq()[i] == v0[i]);
                    if v0[i] == element@ {
                        assert(v0.contains(element@));
                    }
                }
            }
        }
    }

    /// Whether the set holds `element`.
    pub fn contains(&self, element: &str) -> (r: bool)
        ensures
            r == self.spec_contains(element@),
    {
        let n = self.elements.len();
        let mut i: usize = 0;
        while i < n
            invariant
                0 <= i <= n,
                n == self.elements@.len(),
                self.view_seq().len() == n,
                forall|j: int| 0 <= j < i ==> self.view_seq()[j] != element@,
            decreases n - i,
        {
            if str_eq(self.elements[i].as_str(), element) {
                proof {
                    assert(self.view_seq()[i as int] == element@);
                }
                return true;
            }
            i = i + 1;
        }
        proof {
            if self.spec_contains(element@) {
                let w = choose|w: int|
                    0 <= w < self.view_seq().len() && self.view_seq()[w] == element@;
            }
        }
        false
    }

    /// The elements, in insertion order.
    pub fn elements(&self) -> (r: Vec<String>)
        ensures
            r@.len() == self.view_seq().len(),
            forall|i: int| 0 <= i < r@.len() ==> (#[trigger] r@[i])@ == self.view_seq()[i],
    {
        let n = self.elements.len();
        let mut out: Vec<String> = Vec::new();
        let mut i: usize = 0;
        while i < n
            invariant
                0 <= i <= n,
                n == self.elements@.len(),
                self.view_seq().len() == n,
                out@.len() == i,
                forall|j: int| 0 <= j < i ==> (#[trigger] out@[j])@ == self.view_seq()[j],
            decreases n - i,
        {
            out.push(self.elements[i].clone());
            i = i + 1;
        }
        out
    }

    /// How many elements are held.
    pub fn len(&self) -> (r: usize)
        ensures
            r == self.view_seq().len(),
    {
        self.elements.len()
    }

    /// Whether the set is empty.
    pub fn is_empty(&self) -> (r: bool)
        ensures
            r == (self.view_seq().len() == 0),
    {
        self.elements.is_empty()
    }

    /// An exact copy.
    pub fn duplicate(&self) -> (r: Self)
        ensures
            r.view_seq() == self.view_seq(),
    {
        let n = self.elements.len();
        let mut out: Vec<String> = Vec::new();
        let mut i: usize = 0;
        while i < n
            invariant
                0 <= i <= n,
                n == self.elements@.len(),
                out@.len() == i,
                forall|j: int| 0 <= j < i ==> out@[j]@ == self.elements@[j]@,
            decreases n - i,
        {
            out.push(self.elements[i].clone());
            i = i + 1;
        }
        let r = GSet { elements: out };
        proof {
            assert(r.view_seq() =~= self.view_seq());
        }
        r
    }

    /// The union of the two sets, as a fresh set.
    pub fn merge(&self, other: &GSet) -> (r: GSet)
        requires
            self.wf(),
            other.wf(),
        ensures
            r.wf(),
            forall|x: Seq<char>|
                (#[trigger] r.spec_contains(x)) == (self.spec_contains(x)
                    || other.spec_contains(x)),
    {
        let mut r = self.duplicate();
        r.merge_into(other);
        r
    }

    /// Absorbs the other set: afterwards this set is the union.
    pub fn merge_into(&mut self, other: &GSet)
        requires
            old(self).wf(),
            other.wf(),
        ensures
            final(self).wf(),
            forall|x: Seq<char>|
                (#[trigger] final(self).spec_contains(x)) == (old(self).spec_contains(x)
                    || other.spec_contains(x)),
    {
        let ghost v0 = self.view_seq();
        let ghost o = other.view_seq();
        let m = other.elements.len();
        let mut k: usize = 0;
        while k < m
            invariant
                0 <= k <= m,
                m == other.elements@.len(),
                o == other.view_seq(),
                o.len() == m,
                v0 == old(self).view_seq(),
                self.wf(),
                forall|x: Seq<char>|
                    (#[trigger] self.spec_contains(x)) == (v0.contains(x) || exists|j: int|
                        0 <= j < k && o[j] == x),
            decreases m - k,
        {
            let element = other.elements[k].clone();
            proof {
                assert(element@ == o[k as int]);
            }
            self.add(element);
            k = k + 1;
            proof {
                assert forall|x: Seq<char>|
                    self.spec_contains(x) == (v0.contains(x) || exists|j: int|
                        0 <= j < k && o[j] == x) by {
                    assert(self.spec_contains(x) == (v0.contains(x) || (exists|j: int|
                        0 <= j < k - 1 && o[j] == x) || x == o[k - 1]));
                    if x == o[k - 1] {
                        assert(0 <= k - 1 < k && o[k - 1] == x);
                    }
                    if exists|j: int| 0 <= j < k && o[j] == x {
                        let j = choose|j: int| 0 <= j < k && o[j] == x;
                        if j < k - 1 {
                            assert(exists|j2: int| 0 <= j2 < k - 1 && o[j2] == x);
                        } else {
                            assert(x == o[k - 1]);
                        }
                    }
                }
            }
        }
        proof {
            assert forall|x: Seq<char>|
                self.spec_contains(x) == (v0.contains(x) || o.contains(x)) by {
                if o.contains(x) {
                    let w = choose|w: int| 0 <= w < o.len() && o[w] == x;
                }
                if exists|j: int| 0 <= j < m && o[j] == x {
                    let j = choose|j: int| 0 <= j < m && o[j] == x;
                    assert(o.contains(x));
                }
            }
        }
    }
}

impl Default for GSet {
    /// The same set as [`GSet::new`].
    fn default() -> (r: Self)
        ensures
            r.wf(),
            r.view_seq().len() == 0,
    {
        GSet::new()
    }
}

/// An observed-remove set: each add attaches a fresh tag, and a remove
/// deletes only the tags it has observed, so an add concurrent with a
/// remove survives the merge.
#[derive(Debug)]
pub struct ORSet {
    entries: Vec<(String, GSet)>,
    tag_counter: u64,
    instance_id: String,
}

impl ORSet {
    /// The abstract table: each held element with its tag set.
    pub closed spec fn entries_view(self) -> Seq<(Seq<char>, GSet)> {
        Seq::new(self.entries@.len(), |i: int| (self.entries@[i].0@, self.entries@[i].1))
    }

    /// The tag counter.
    pub closed spec fn spec_counter(self) -> u64 {
        self.tag_counter
    }

    /// The owning instance's id.
    pub closed spec fn spec_instance_id(self) -> Seq<char> {
        self.instance_id@
    }

    /// The tag counter.
    pub fn counter(&self) -> (r: u64)
        ensures
            r == self.spec_counter(),
    {
        self.tag_counter
    }

    /// The tag set held for `element`, if the element is present.
    pub open spec fn spec_tags(self, element: Seq<char>) -> Option<GSet> {
        assoc_find(self.entries_view(), element)
    }

    /// Whether `element` carries `tag`.
    pub open spec fn has_tag(self, element: Seq<char>, tag: Seq<char>) -> bool {
        match assoc_find(self.entries_view(), element) {
            Some(tags) => tags.spec_contains(tag),
            None => false,
        }
    }

    /// Whether the set holds `element`.
    pub open spec fn spec_contains(self, element: Seq<char>) -> bool {
        assoc_find(self.entries_view(), element) is Some
    }

    /// Elements are unique, every tag set is well formed, and no held
    /// element has an empty tag set.
    pub open spec fn wf(self) -> bool {
        &&& distinct_keys(self.entries_view())
        &&& forall|i: int|
            0 <= i < self.entries_view().len() ==> (#[trigger] self.entries_view()[i]).1.wf()
        &&& forall|i: int|
            0 <= i < self.entries_view().len() ==> (#[trigger] self.entries_view()[
                i
            ]).1.view_seq().len() > 0
    }

    /// An empty set for the given instance; an absent id draws a fresh
    /// unique one.
    pub fn new(instance_id: Option<String>) -> (r: Self)
        ensures
            r.wf(),
            forall|el: Seq<char>| !(#[trigger] r.spec_contains(el)),
            r.spec_counter() == 0,
            instance_id matches Some(id) ==> r.spec_instance_id() == id@,
    {
        let id = match instance_id {
            Some(id) => id,
            None => crate::state::new_unique_id(),
        };
        let r = ORSet { entries: Vec::new(), tag_counter: 0, instance_id: id };
        proof {
            assert(r.entries_view() =~= Seq::<(Seq<char>, GSet)>::empty());
        }
        r
    }

    /// The index of the entry for `element`, if present.
    fn find_entry(&self, element: &str) -> (r: Option<usize>)
        ensures
            match r {
                Some(i) => {
                    &&& i < self.entries_view().len()
                    &&& self.entries_view()[i as int].0 == element@
                    &&& forall|j: int| 0 <= j < i ==> self.entries_view()[j].0 != element@
                    &&& self.spec_tags(element@) == Some(self.entries_view()[i as int].1)
                },
                None => self.spec_tags(element@) is None,
            },
    {
        let n = self.entries.len();
        let mut i: usize = 0;
        while i < n
            invariant
                0 <= i <= n,
                n == self.entries@.len(),
                self.entries_view().len() == n,
                forall|j: int| 0 <= j < i ==> self.entries_view()[j].0 != element@,
            decreases n - i,
        {
            if str_eq(self.entries[i].0.as_str(), element) {
                proof {
                    lemma_assoc_find_at(self.entries_view(), element@, i as int);
                }
                return Some(i);
            }
            i = i + 1;
        }
        proof {
            lemma_assoc_find_skip(self.entries_view(), element@, n as int);
        }
        None
    }

    /// Attaches `tag` to `element`, creating the element if needed.
    pub fn add_with_tag(&mut self, element: String, tag: String)
        requires
            old(self).wf(),
        ensures
            final(self).wf(),
            final(self).spec_counter() == old(self).spec_counter(),
            final(self).spec_instance_id() == old(self).spec_instance_id(),
            forall|el: Seq<char>, t: Seq<char>|
                (#[trigger] final(self).has_tag(el, t)) == (old(self).has_tag(el, t) || (el
                    == element@ && t == tag@)),
            forall|el: Seq<char>|
                (#[trigger] final(self).spec_contains(el)) == (old(self).spec_contains(el) || el
                    == element@),
    {
        let ghost v0 = self.entries_view();
        match self.find_entry(element.as_str()) {
            Some(i) => {
                let ghost old_pair = v0[i as int];
                let mut entry = self.entries.remove(i);
                entry.1.add(tag);
                self.entries.insert(i, entry);
                proof {
                    let pair = (old_pair.0, self.entries_view()[i as int].1);
                    assert(self.entries_view() =~= v0.update(i as int, pair));
                    assert forall|el: Seq<char>|
                        assoc_find(self.entries_view(), el) == (if el == element@ {
                            Some(pair.1)
                        } else {
                            assoc_find(v0, el)
                        }) by {
                        lemma_assoc_find_update(v0, i as int, pair, el);
                    }
                    lemma_assoc_find_update(v0, i as int, pair, element@);
                }
            },
            None => {
                let mut tags = GSet::new();
                tags.add(tag);
                let ghost pair = (element@, tags);
                self.entries.push((element, tags));
                proof {
                    assert(self.entries_view() =~= v0.push(pair));
                    lemma_assoc_has_index(v0, pair.0);
                    assert forall|el: Seq<char>|
                        assoc_find(self.entries_view(), el) == (if el == pair.0 {
                            Some(pair.1)
                        } else {
                            assoc_find(v0, el)
                        }) by {
                        lemma_assoc_find_push(v0, pair, el);
                    }
                    assert(distinct_keys(self.entries_view())) by {
                        assert(forall|j: int|
                            0 <= j < v0.len() ==> self.entries_view()[j] == v0[j]);
                        assert(self.entries_view()[v0.len() as int] == pair);
                    }
                }
            },
        }
    }

    /// Adds `element` under a fresh tag drawn from this instance's
    /// counter, and returns the tag.
    pub fn add(&mut self, element: String) -> (r: String)
        requires
            old(self).wf(),
            old(self).spec_counter() < u64::MAX,
        ensures
            final(self).wf(),
            final(self).spec_counter() == old(self).spec_counter() + 1,
            final(self).spec_instance_id() == old(self).spec_instance_id(),
            r@ == old(self).spec_instance_id() + ":"@ + dec_digits((old(self).spec_counter() + 1) as nat),
            forall|el: Seq<char>, t: Seq<char>|
                (#[trigger] final(self).has_tag(el, t)) == (old(self).has_tag(el, t) || (el
                    == element@ && t == r@)),
            forall|el: Seq<char>|
                (#[trigger] final(self).spec_contains(el)) == (old(self).spec_contains(el) || el
                    == element@),
    {
        self.tag_counter = self.tag_counter + 1;
        let mut tag = self.instance_id.clone();
        tag.append(":");
        let counter_text = u64_to_dec(self.tag_counter);
        tag.append(counter_text.as_str());
        let tag_copy = tag.clone();
        self.add_with_tag(element, tag_copy);
        tag
    }

    /// Removes only the observed tags of `element`; the element goes
    /// when no tag remains, and an unobserved (concurrent) tag keeps it
    /// alive.
    pub fn remove(&mut self, element: &str, observed_tags: Vec<String>)
        requires
            old(self).wf(),
        ensures
            final(self).wf(),
            final(self).spec_counter() == old(self).spec_counter(),
            final(self).spec_instance_id() == old(self).spec_instance_id(),
            forall|el: Seq<char>, t: Seq<char>|
                (#[trigger] final(self).has_tag(el, t)) == (old(self).has_tag(el, t) && !(el
                    == element@ && observed(observed_tags@, t))),
    {
        let ghost v0 = self.entries_view();
        match self.find_entry(element) {
            Some(i) => {
                let ghost old_pair = v0[i as int];
                let entry = self.entries.remove(i);
                proof {
                    assert(self.entries_view() =~= v0.remove(i as int));
                    assert forall|el: Seq<char>|
                        assoc_find(self.entries_view(), el) == (if el == element@ {
                            None::<GSet>
                        } else {
                            assoc_find(v0, el)
                        }) by {
                        lemma_assoc_find_remove(v0, i as int, el);
                    }
                    lemma_assoc_find_remove(v0, i as int, element@);
                }
                let ghost old_tags = old_pair.1;
                let kept = retain_unobserved(&entry.1, &observed_tags);
                if kept.len() > 0 {
                    let ghost v1 = self.entries_view();
                    let ghost pair = (element@, kept);
                    proof {
                        assert(distinct_keys(seq![pair] + v1)) by {
                            let t = seq![pair] + v1;
                            assert(forall|j: int| 1 <= j < t.len() ==> t[j] == v1[j - 1]);
                            lemma_assoc_has_index(v1, element@);
                        }
                    }
                    self.entries.insert(0, (entry.0, kept));
                    proof {
                        assert(self.entries_view() =~= seq![pair] + v1);
                        assert forall|el: Seq<char>|
                            assoc_find(self.entries_view(), el) == (if el == element@ {
                                Some(pair.1)
                            } else {
                                assoc_find(v1, el)
                            }) by {
                            lemma_prepend_find(v1, pair, el);
                        }
                        lemma_prepend_find(v1, pair, element@);
                        assert forall|el: Seq<char>, t: Seq<char>|
                            (#[trigger] self.has_tag(el, t)) == (old(self).has_tag(el, t) && !(el
                                == element@ && observed(observed_tags@, t))) by {
                            if el == element@ {
                                assert(old(self).spec_tags(element@) == Some(old_tags));
                                assert(kept.spec_contains(t) == (old_tags.spec_contains(t)
                                    && !observed(observed_tags@, t)));
                            }
                        }
                    }
                } else {
                    proof {
                        assert forall|el: Seq<char>, t: Seq<char>|
                            (#[trigger] self.has_tag(el, t)) == (old(self).has_tag(el, t) && !(el
                                == element@ && observed(observed_tags@, t))) by {
                            if el == element@ {
                                assert(old(self).spec_tags(element@) == Some(old_tags));
                                assert(!kept.spec_contains(t));
                                assert(!(old_tags.spec_contains(t) && !observed(
                                    observed_tags@,
                                    t,
                                )));
                            }
                        }
                    }
                }
            },
            None => {
                proof {
                    assert forall|el: Seq<char>, t: Seq<char>|
                        (#[trigger] self.has_tag(el, t)) == (old(self).has_tag(el, t) && !(el
                            == element@ && observed(observed_tags@, t))) by {
                        if el == element@ {
                            assert(old(self).spec_tags(element@) is None);
                        }
                    }
                }
            },
        }
    }

    /// Removes `element` outright and returns the tags it held.
    pub fn remove_all(&mut self, element: &str) -> (r: Vec<String>)
        requires
            old(self).wf(),
        ensures
            final(self).wf(),
            final(self).spec_counter() == old(self).spec_counter(),
            final(self).spec_instance_id() == old(self).spec_instance_id(),
            !final(self).spec_contains(element@),
            forall|el: Seq<char>|
                el != element@ ==> (#[trigger] final(self).spec_tags(el)) == old(self).spec_tags(
                    el,
                ),
            match old(self).spec_tags(element@) {
                Some(tags) => r@.len() == tags.view_seq().len() && forall|i: int|
                    0 <= i < r@.len() ==> (#[trigger] r@[i])@ == tags.view_seq()[i],
                None => r@.len() == 0,
            },
    {
        let ghost v0 = self.entries_view();
        match self.find_entry(element) {
            Some(i) => {
                let entry = self.entries.remove(i);
                proof {
                    assert(self.entries_view() =~= v0.remove(i as int));
                    assert forall|el: Seq<char>|
                        assoc_find(self.entries_view(), el) == (if el == element@ {
                            None::<GSet>
                        } else {
                            assoc_find(v0, el)
                        }) by {
                        lemma_assoc_find_remove(v0, i as int, el);
                    }
                    lemma_assoc_find_remove(v0, i as int, element@);
                }
                entry.1.elements()
            },
            None => Vec::new(),
        }
    }

    /// Whether the set holds `element`.
    pub fn contains(&self, element: &str) -> (r: bool)
        ensures
            r == self.spec_contains(element@),
    {
        self.find_entry(element).is_some()
    }

    /// The held elements, in table order.
    pub fn elements(&self) -> (r: Vec<String>)
        ensures
            r@.len() == self.entries_view().len(),
            forall|i: int|
                0 <= i < r@.len() ==> (#[trigger] r@[i])@ == self.entries_view()[i].0,
    {
        let n = self.entries.len();
        let mut out: Vec<String> = Vec::new();
        let mut i: usize = 0;
        while i < n
            invariant
                0 <= i <= n,
                n == self.entries@.len(),
                self.entries_view().len() == n,
                out@.len() == i,
                forall|j: int|
                    0 <= j < i ==> (#[trigger] out@[j])@ == self.entries_view()[j].0,
            decreases n - i,
        {
            out.push(self.entries[i].0.clone());
            i = i + 1;
        }
        out
    }

    /// The tags held for `element`; empty when absent.
    pub fn get_tags(&self, element: &str) -> (r: Vec<String>)
        ensures
            match self.spec_tags(element@) {
                Some(tags) => r@.len() == tags.view_seq().len() && forall|i: int|
                    0 <= i < r@.len() ==> (#[trigger] r@[i])@ == tags.view_seq()[i],
                None => r@.len() == 0,
            },
    {
        match self.find_entry(element) {
            Some(i) => self.entries[i].1.elements(),
            None => Vec::new(),
        }
    }

    /// How many elements are held.
    pub fn len(&self) -> (r: usize)
        ensures
            r == self.entries_view().len(),
    {
        self.entries.len()
    }

    /// Whether the set is empty.
    pub fn is_empty(&self) -> (r: bool)
        ensures
            r == (self.entries_view().len() == 0),
    {
        self.entries.is_empty()
    }

    /// The union of the two sets, tag for tag, as a fresh set; the tag
    /// counter takes the larger value.
    pub fn merge(&self, other: &ORSet) -> (r: ORSet)
        requires
            self.wf(),
            other.wf(),
        ensures
            r.wf(),
            forall|el: Seq<char>, t: Seq<char>|
                (#[trigger] r.has_tag(el, t)) == (self.has_tag(el, t) || other.has_tag(el, t)),
            r.spec_counter() == max64(self.spec_counter(), other.spec_counter()),
            r.spec_instance_id() == self.spec_instance_id(),
    {
        let mut r = ORSet {
            entries: Vec::new(),
            tag_counter: self.tag_counter,
            instance_id: self.instance_id.clone(),
        };
        proof {
            assert(r.entries_view() =~= Seq::<(Seq<char>, GSet)>::empty());
        }
        r.merge_into(self);
        r.merge_into(other);
        r
    }

    /// Absorbs the other set, tag for tag.
    pub fn merge_into(&mut self, other: &ORSet)
        requires
            old(self).wf(),
            other.wf(),
        ensures
            final(self).wf(),
            forall|el: Seq<char>, t: Seq<char>|
                (#[trigger] final(self).has_tag(el, t)) == (old(self).has_tag(el, t)
                    || other.has_tag(el, t)),
            final(self).spec_counter() == max64(old(self).spec_counter(), other.spec_counter()),
            final(self).spec_instance_id() == old(self).spec_instance_id(),
    {
        let ghost g0 = *self;
        let ghost o = other.entries_view();
        let m = other.entries.len();
        let mut k: usize = 0;
        while k < m
            invariant
                0 <= k <= m,
                m == other.entries@.len(),
                o == other.entries_view(),
                o.len() == m,
                g0 == *old(self),
                other.wf(),
                self.wf(),
                self.spec_counter() == g0.spec_counter(),
                self.spec_instance_id() == g0.spec_instance_id(),
                forall|el: Seq<char>, t: Seq<char>|
                    (#[trigger] self.has_tag(el, t)) == (g0.has_tag(el, t) || exists|j: int|
                        0 <= j < k && o[j].0 == el && (#[trigger] o[j].1.spec_contains(t))),
            decreases m - k,
        {
            let ghost before_inner = *self;
            let tag_count = other.entries[k].1.len();
            let tag_list = other.entries[k].1.elements();
            let mut t: usize = 0;
            while t < tag_count
                invariant
                    0 <= t <= tag_count,
                    0 <= k < m,
                    m == other.entries@.len(),
                    o == other.entries_view(),
                    o.len() == m,
                    other.wf(),
                    tag_count == o[k as int].1.view_seq().len(),
                    tag_list@.len() == tag_count,
                    forall|j: int|
                        0 <= j < tag_count ==> (#[trigger] tag_list@[j])@ == o[
                            k as int
                        ].1.view_seq()[j],
                    self.wf(),
                    self.spec_counter() == before_inner.spec_counter(),
                    self.spec_instance_id() == before_inner.spec_instance_id(),
                    forall|el: Seq<char>, tg: Seq<char>|
                        (#[trigger] self.has_tag(el, tg)) == (before_inner.has_tag(el, tg) || (el
                            == o[k as int].0 && exists|j: int|
                            0 <= j < t && o[k as int].1.view_seq()[j] == tg)),
                decreases tag_count - t,
            {
                let element_copy = other.entries[k].0.clone();
                let tag_copy = tag_list[t].clone();
                proof {
                    assert(element_copy@ == o[k as int].0);
                    assert(tag_copy@ == o[k as int].1.view_seq()[t as int]);
                }
                self.add_with_tag(element_copy, tag_copy);
                t = t + 1;
                proof {
                    assert forall|el: Seq<char>, tg: Seq<char>|
                        (#[trigger] self.has_tag(el, tg)) == (before_inner.has_tag(el, tg) || (el
                            == o[k as int].0 && exists|j: int|
                            0 <= j < t && o[k as int].1.view_seq()[j] == tg)) by {
                        if el == o[k as int].0 && tg == o[k as int].1.view_seq()[t - 1] {
                            assert(o[k as int].1.view_seq()[t - 1] == tg);
                        }
                        if el == o[k as int].0 && exists|j: int|
                            0 <= j < t && o[k as int].1.view_seq()[j] == tg {
                            let j = choose|j: int|
                                0 <= j < t && o[k as int].1.view_seq()[j] == tg;
                            if j < t - 1 {
                                assert(exists|j2: int|
                                    0 <= j2 < t - 1 && o[k as int].1.view_seq()[j2] == tg);
                            }
                        }
                    }
                }
            }
            k = k + 1;
            proof {
                assert forall|el: Seq<char>, tg: Seq<char>|
                    (#[trigger] self.has_tag(el, tg)) == (g0.has_tag(el, tg) || exists|j: int|
                        0 <= j < k && o[j].0 == el && (#[trigger] o[j].1.spec_contains(tg))) by {
                    if el == o[k - 1].0 {
                        if exists|j: int|
                            0 <= j < tag_count && (#[trigger] o[k - 1].1.view_seq()[j]) == tg {
                            let j = choose|j: int|
                                0 <= j < tag_count && (#[trigger] o[k - 1].1.view_seq()[j]) == tg;
                            assert(o[k - 1].1.view_seq().contains(tg));
                            assert(o[k - 1].1.spec_contains(tg));
                        }
                        if o[k - 1].1.spec_contains(tg) {
                            let j = choose|j: int|
                                0 <= j < o[k - 1].1.view_seq().len() && (#[trigger] o[
                                    k - 1
                                ].1.view_seq()[j]) == tg;
                            assert(exists|j2: int|
                                0 <= j2 < tag_count && (#[trigger] o[k - 1].1.view_seq()[j2])
                                    == tg);
                        }
                    }
                    if exists|j: int|
                        0 <= j < k && o[j].0 == el && o[j].1.spec_contains(tg) {
                        let j = choose|j: int|
                            0 <= j < k && o[j].0 == el && o[j].1.spec_contains(tg);
                        if j < k - 1 {
                            assert(exists|j2: int|
                                0 <= j2 < k - 1 && o[j2].0 == el && o[j2].1.spec_contains(tg));
                        }
                    }
                }
            }
        }
        proof {
            assert forall|el: Seq<char>, t: Seq<char>|
                (#[trigger] self.has_tag(el, t)) == (g0.has_tag(el, t) || other.has_tag(
                    el,
                    t,
                )) by {
                lemma_assoc_has_index(o, el);
                if other.has_tag(el, t) {
                    assert(assoc_find(o, el) is Some);
                    let fm = first_match(o, el);
                    assert(0 <= fm < o.len() && o[fm].0 == el);
                    assert forall|j: int| 0 <= j < fm implies o[j].0 != el by {
                        assert(distinct_keys(o));
                    }
                    lemma_assoc_find_at(o, el, fm);
                    assert(o[fm].1.spec_contains(t));
                    assert(exists|j: int|
                        0 <= j < m && o[j].0 == el && (#[trigger] o[j].1.spec_contains(t)));
                }
                if exists|j: int|
                    0 <= j < m && o[j].0 == el && (#[trigger] o[j].1.spec_contains(t)) {
                    let j = choose|j: int|
                        0 <= j < m && o[j].0 == el && (#[trigger] o[j].1.spec_contains(t));
                    let fm = first_match(o, el);
                    assert(0 <= fm < o.len() && o[fm].0 == el);
                    assert forall|q: int| 0 <= q < fm implies o[q].0 != el by {
                        assert(distinct_keys(o));
                    }
                    lemma_assoc_find_at(o, el, fm);
                    assert(j == fm) by {
                        assert(distinct_keys(o));
                    }
                    assert(other.has_tag(el, t));
                }
            }
        }
        let ghost settled = *self;
        if other.tag_counter > self.tag_counter {
            self.tag_counter = other.tag_counter;
        }
        proof {
            assert(self.entries_view() =~= settled.entries_view());
            assert forall|el: Seq<char>, t: Seq<char>|
                (#[trigger] self.has_tag(el, t)) == (g0.has_tag(el, t) || other.has_tag(
                    el,
                    t,
                )) by {
                assert(self.has_tag(el, t) == settled.has_tag(el, t));
            }
        }
    }
}

/// Two tag sets with the same abstract contents.
pub open spec fn gset_eq(a: GSet, b: GSet) -> bool {
    a.view_seq() == b.view_seq()
}

/// Whether `t` occurs among the observed tags.
pub open spec fn observed(tags: Seq<String>, t: Seq<char>) -> bool {
    exists|k: int| 0 <= k < tags.len() && tags[k]@ == t
}

/// The first index carrying `el` in a distinct-keyed table.
pub open spec fn first_match(s: Seq<(Seq<char>, GSet)>, el: Seq<char>) -> int {
    choose|i: int| 0 <= i < s.len() && s[i].0 == el
}

/// Keeps only the tags of `tags` that are not listed in `observed_tags`.
fn retain_unobserved(tags: &GSet, observed_tags: &Vec<String>) -> (r: GSet)
    requires
        tags.wf(),
    ensures
        r.wf(),
        forall|t: Seq<char>|
            (#[trigger] r.spec_contains(t)) == (tags.spec_contains(t) && !observed(
                observed_tags@,
                t,
            )),
        r.view_seq().len() > 0 ==> exists|t: Seq<char>| r.spec_contains(t),
{
    let all = tags.elements();
    let n = all.len();
    let mut r = GSet::new();
    let mut i: usize = 0;
    while i < n
        invariant
            0 <= i <= n,
            n == all@.len(),
            tags.wf(),
            all@.len() == tags.view_seq().len(),
            forall|j: int| 0 <= j < n ==> (#[trigger] all@[j])@ == tags.view_seq()[j],
            r.wf(),
            forall|t: Seq<char>|
                (#[trigger] r.spec_contains(t)) == ((exists|j: int|
                    0 <= j < i && tags.view_seq()[j] == t) && !observed(observed_tags@, t)),
        decreases n - i,
    {
        let tag = all[i].clone();
        let mut seen = false;
        let m = observed_tags.len();
        let mut j: usize = 0;
        while j < m
            invariant
                0 <= j <= m,
                m == observed_tags@.len(),
                tag@ == all@[i as int]@,
                seen == exists|q: int| 0 <= q < j && observed_tags@[q]@ == tag@,
            decreases m - j,
        {
            if str_eq(observed_tags[j].as_str(), tag.as_str()) {
                proof {
                    assert(observed_tags@[j as int]@ == tag@);
                }
                seen = true;
            }
            j = j + 1;
            proof {
                if observed_tags@[j - 1]@ == tag@ {
                    assert(exists|q: int| 0 <= q < j && observed_tags@[q]@ == tag@);
                }
            }
        }
        proof {
            assert(seen == observed(observed_tags@, tag@));
        }
        if !seen {
            r.add(tag);
        }
        i = i + 1;
        proof {
            assert forall|t: Seq<char>|
                (#[trigger] r.spec_contains(t)) == ((exists|j2: int|
                    0 <= j2 < i && tags.view_seq()[j2] == t) && !observed(
                    observed_tags@,
                    t,
                )) by {
                if t == tags.view_seq()[i - 1] {
                    assert(tags.view_seq()[i - 1] == t);
                }
                if (exists|j2: int| 0 <= j2 < i && tags.view_seq()[j2] == t) && !observed(
                    observed_tags@,
                    t,
                ) {
                    let j2 = choose|j2: int| 0 <= j2 < i && tags.view_seq()[j2] == t;
                    if j2 < i - 1 {
                        assert(exists|j3: int| 0 <= j3 < i - 1 && tags.view_seq()[j3] == t);
                    }
                }
            }
        }
    }
    proof {
        assert forall|t: Seq<char>|
            (#[trigger] r.spec_contains(t)) == (tags.spec_contains(t) && !observed(
                observed_tags@,
                t,
            )) by {
            if tags.spec_contains(t) {
                let w = choose|w: int|
                    0 <= w < tags.view_seq().len() && tags.view_seq()[w] == t;
            }
            if exists|j: int| 0 <= j < n && tags.view_seq()[j] == t {
                let j = choose|j: int| 0 <= j < n && tags.view_seq()[j] == t;
                assert(tags.view_seq().contains(t));
            }
        }
        if r.view_seq().len() > 0 {
            assert(r.spec_contains(r.view_seq()[0]));
        }
    }
    r
}

/// Lookup in a table with one pair put in front.
proof fn lemma_prepend_find(s: Seq<(Seq<char>, GSet)>, p: (Seq<char>, GSet), el: Seq<char>)
    ensures
        assoc_find(seq![p] + s, el) == (if p.0 == el {
            Some(p.1)
        } else {
            assoc_find(s, el)
        }),
{
    let t = seq![p] + s;
    assert(t[0] == p);
    assert(t.skip(1) =~= s);
}

/// A grow-only counter: one monotone count per instance, totalled over
/// all of them.  The counts form a vector clock, and merge is the
/// clock's entrywise maximum.
#[derive(Debug)]
pub struct GCounter {
    counts: VectorClock,
}

impl GCounter {
    /// The abstract counts per instance.
    pub closed spec fn view_counts(self) -> ClockView {
        self.counts@
    }

    /// The counts are well formed.
    pub open spec fn wf(self) -> bool {
        distinct_keys(self.view_counts())
    }

    /// A counter at zero everywhere.
    pub fn new() -> (r: Self)
        ensures
            r.wf(),
            forall|id: Seq<char>| cv_get(r.view_counts(), id) == 0,
            cv_weight(r.view_counts()) == 0,
    {
        GCounter { counts: VectorClock::new() }
    }

    /// Counts one for `instance_id`.
    pub fn increment(&mut self, instance_id: &str)
        requires
            old(self).wf(),
            cv_get(old(self).view_counts(), instance_id@) < u64::MAX,
        ensures
            final(self).wf(),
            cv_get(final(self).view_counts(), instance_id@) == cv_get(
                old(self).view_counts(),
                instance_id@,
            ) + 1,
            forall|id: Seq<char>|
                id != instance_id@ ==> cv_get(final(self).view_counts(), id) == cv_get(
                    old(self).view_counts(),
                    id,
                ),
    {
        self.counts.tick(instance_id);
    }

    /// Counts `amount` for `instance_id`.
    pub fn increment_by(&mut self, instance_id: &str, amount: u64)
        requires
            old(self).wf(),
            cv_get(old(self).view_counts(), instance_id@) + amount <= u64::MAX,
        ensures
            final(self).wf(),
            cv_get(final(self).view_counts(), instance_id@) == cv_get(
                old(self).view_counts(),
                instance_id@,
            ) + amount,
            forall|id: Seq<char>|
                id != instance_id@ ==> cv_get(final(self).view_counts(), id) == cv_get(
                    old(self).view_counts(),
                    id,
                ),
    {
        let current = self.counts.get(instance_id);
        self.counts.set_value(String::from_str(instance_id), current + amount);
    }

    /// The total over all instances.
    pub fn value(&self) -> (r: u128)
        ensures
            r == cv_weight(self.view_counts()),
    {
        self.counts.weight()
    }

    /// The count recorded for one instance.
    pub fn get_instance_count(&self, instance_id: &str) -> (r: u64)
        ensures
            r == cv_get(self.view_counts(), instance_id@),
    {
        self.counts.get(instance_id)
    }

    /// The entrywise maximum of the two counters, as a fresh counter.
    pub fn merge(&self, other: &GCounter) -> (r: GCounter)
        requires
            self.wf(),
            other.wf(),
        ensures
            r.wf(),
            forall|id: Seq<char>|
                cv_get(r.view_counts(), id) == max64(
                    cv_get(self.view_counts(), id),
                    cv_get(other.view_counts(), id),
                ),
    {
        GCounter { counts: self.counts.merged(&other.counts) }
    }

    /// Absorbs the other counter entrywise.
    pub fn merge_into(&mut self, other: &GCounter)
        requires
            old(self).wf(),
            other.wf(),
        ensures
            final(self).wf(),
            forall|id: Seq<char>|
                cv_get(final(self).view_counts(), id) == max64(
                    cv_get(old(self).view_counts(), id),
                    cv_get(other.view_counts(), id),
                ),
    {
        self.counts.merge(&other.counts);
    }
}

impl Default for GCounter {
    /// The same counter as [`GCounter::new`].
    fn default() -> (r: Self)
        ensures
            r.wf(),
            forall|id: Seq<char>| cv_get(r.view_counts(), id) == 0,
    {
        GCounter::new()
    }
}

} // verus!
