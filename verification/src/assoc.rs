//! Association lists keyed by identifiers.
//!
//! The replicated containers of this crate keep keyed entries in vectors,
//! and their contracts speak of the abstract list of `(key, value)` pairs
//! with pairwise distinct keys.  This module defines what such a list
//! holds under a key, and the lemmas that relate lookup to the sequence
//! operations used to maintain the lists.

use vstd::prelude::*;

verus! {

/// The value stored under `id`, taking the first matching entry.
pub open spec fn assoc_find<W>(s: Seq<(Seq<char>, W)>, id: Seq<char>) -> Option<W>
    decreases s.len(),
{
    if s.len() == 0 {
        None
    } else if s[0].0 == id {
        Some(s[0].1)
    } else {
        assoc_find(s.skip(1), id)
    }
}

/// Whether some entry carries the key `id`.
pub open spec fn assoc_has<W>(s: Seq<(Seq<char>, W)>, id: Seq<char>) -> bool {
    assoc_find(s, id) is Some
}

/// No two entries share a key.
pub open spec fn distinct_keys<W>(s: Seq<(Seq<char>, W)>) -> bool {
    forall|i: int, j: int| 0 <= i < j < s.len() ==> s[i].0 != s[j].0
}

/// Lookup is unchanged by dropping a prefix that holds no match.
pub proof fn lemma_assoc_find_skip<W>(s: Seq<(Seq<char>, W)>, id: Seq<char>, i: int)
    requires
        0 <= i <= s.len(),
        forall|j: int| 0 <= j < i ==> s[j].0 != id,
    ensures
        assoc_find(s, id) == assoc_find(s.skip(i), id),
    decreases i,
{
    if i == 0 {
        assert(s.skip(0) =~= s);
    } else {
        assert(s[0].0 != id);
        lemma_assoc_find_skip(s.skip(1), id, i - 1);
        assert(s.skip(1).skip(i - 1) =~= s.skip(i));
        assert(forall|j: int| 0 <= j < i - 1 ==> s.skip(1)[j] == s[j + 1]);
    }
}

/// An entry at `i` whose key has no earlier occurrence is what lookup finds.
pub proof fn lemma_assoc_find_at<W>(s: Seq<(Seq<char>, W)>, id: Seq<char>, i: int)
    requires
        0 <= i < s.len(),
        s[i].0 == id,
        forall|j: int| 0 <= j < i ==> s[j].0 != id,
    ensures
        assoc_find(s, id) == Some(s[i].1),
{
    lemma_assoc_find_skip(s, id, i);
    assert(s.skip(i)[0] == s[i]);
}

/// A key is found exactly when some entry carries it.
pub proof fn lemma_assoc_has_index<W>(s: Seq<(Seq<char>, W)>, id: Seq<char>)
    ensures
        assoc_has(s, id) <==> exists|i: int| 0 <= i < s.len() && s[i].0 == id,
    decreases s.len(),
{
    if s.len() > 0 {
        lemma_assoc_has_index(s.skip(1), id);
        if s[0].0 != id {
            if assoc_has(s.skip(1), id) {
                let i = choose|i: int| 0 <= i < s.skip(1).len() && s.skip(1)[i].0 == id;
                assert(s[i + 1].0 == id);
            }
            if exists|i: int| 0 <= i < s.len() && s[i].0 == id {
                let i = choose|i: int| 0 <= i < s.len() && s[i].0 == id;
                assert(i > 0);
                assert(s.skip(1)[i - 1].0 == id);
            }
        }
    }
}

/// How lookup reads a list with one entry appended.
pub proof fn lemma_assoc_find_push<W>(s: Seq<(Seq<char>, W)>, p: (Seq<char>, W), id: Seq<char>)
    ensures
        assoc_find(s.push(p), id) == (if assoc_has(s, id) {
            assoc_find(s, id)
        } else if p.0 == id {
            Some(p.1)
        } else {
            None::<W>
        }),
    decreases s.len(),
{
    if s.len() == 0 {
        assert(assoc_find(s, id) is None);
        assert(s.push(p)[0] == p);
        assert(s.push(p).skip(1) =~= Seq::<(Seq<char>, W)>::empty());
        assert(assoc_find(s.push(p).skip(1), id) is None);
    } else {
        lemma_assoc_find_push(s.skip(1), p, id);
        assert(s.push(p)[0] == s[0]);
        assert(s.push(p).skip(1) =~= s.skip(1).push(p));
        if s[0].0 == id {
            assert(assoc_find(s, id) == Some(s[0].1));
            assert(assoc_find(s.push(p), id) == Some(s[0].1));
        } else {
            assert(assoc_find(s, id) == assoc_find(s.skip(1), id));
            assert(assoc_find(s.push(p), id) == assoc_find(s.skip(1).push(p), id));
        }
    }
}

/// How lookup reads a list with the entry at `i` replaced, when the new
/// entry keeps the old key.
pub proof fn lemma_assoc_find_update<W>(
    s: Seq<(Seq<char>, W)>,
    i: int,
    p: (Seq<char>, W),
    id: Seq<char>,
)
    requires
        0 <= i < s.len(),
        s[i].0 == p.0,
        distinct_keys(s),
    ensures
        assoc_find(s.update(i, p), id) == (if p.0 == id {
            Some(p.1)
        } else {
            assoc_find(s, id)
        }),
        distinct_keys(s.update(i, p)),
    decreases i,
{
    let t = s.update(i, p);
    assert(forall|j: int| 0 <= j < s.len() && j != i ==> t[j] == s[j]);
    if i == 0 {
        assert(t[0] == p);
        assert(t.skip(1) =~= s.skip(1));
        if p.0 != id {
            if s[0].0 == id {
                assert(false);
            }
        }
    } else {
        assert(t[0] == s[0]);
        assert(t.skip(1) =~= s.skip(1).update(i - 1, p));
        assert(distinct_keys(s.skip(1))) by {
            assert(forall|j: int| 0 <= j < s.skip(1).len() ==> s.skip(1)[j] == s[j + 1]);
        }
        assert(s.skip(1)[i - 1] == s[i]);
        lemma_assoc_find_update(s.skip(1), i - 1, p, id);
        if s[0].0 == id {
            assert(s[0].0 != p.0);
        }
    }
}

/// How lookup reads a list with the entry at `i` removed.
pub proof fn lemma_assoc_find_remove<W>(s: Seq<(Seq<char>, W)>, i: int, id: Seq<char>)
    requires
        0 <= i < s.len(),
        distinct_keys(s),
    ensures
        assoc_find(s.remove(i), id) == (if s[i].0 == id {
            None::<W>
        } else {
            assoc_find(s, id)
        }),
        distinct_keys(s.remove(i)),
    decreases i,
{
    let t = s.remove(i);
    assert(forall|j: int| 0 <= j < i ==> t[j] == s[j]);
    assert(forall|j: int| i <= j < t.len() ==> t[j] == s[j + 1]);
    if i == 0 {
        assert(t =~= s.skip(1));
        if s[0].0 == id {
            lemma_assoc_has_index(s.skip(1), id);
            if assoc_has(s.skip(1), id) {
                let k = choose|k: int| 0 <= k < s.skip(1).len() && s.skip(1)[k].0 == id;
                assert(s[k + 1].0 == id);
                assert(false);
            }
        }
    } else {
        assert(distinct_keys(s.skip(1))) by {
            assert(forall|j: int| 0 <= j < s.skip(1).len() ==> s.skip(1)[j] == s[j + 1]);
        }
        lemma_assoc_find_remove(s.skip(1), i - 1, id);
        assert(t[0] == s[0]);
        assert(t.skip(1) =~= s.skip(1).remove(i - 1));
    }
}

} // verus!
