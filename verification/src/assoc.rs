//! Ordered association lists.
//!
//! The decoders accumulate their results in vectors of key/value entries
//! that keep insertion order, with at most one entry per key. This module
//! gives the shared lookup: the index of the first entry holding a key.

use crate::scan::str_eq;
use vstd::prelude::*;

verus! {

/// The index of the first entry of `m` at or after `i` whose key is `key`,
/// or `-1` when no such entry follows.
pub open spec fn assoc_find_from<V>(m: Seq<(Seq<char>, V)>, key: Seq<char>, i: int) -> int
    decreases m.len() - i,
{
    if i < 0 || i >= m.len() {
        -1
    } else if m[i].0 == key {
        i
    } else {
        assoc_find_from(m, key, i + 1)
    }
}

/// The index of the first entry of `m` whose key is `key`, or `-1`.
pub open spec fn assoc_find<V>(m: Seq<(Seq<char>, V)>, key: Seq<char>) -> int {
    assoc_find_from(m, key, 0)
}

/// A found index holds the key and no earlier searched entry does; `-1`
/// means the key is absent from the searched suffix.
pub proof fn lemma_assoc_find_from<V>(m: Seq<(Seq<char>, V)>, key: Seq<char>, i: int)
    requires
        0 <= i <= m.len(),
    ensures
        assoc_find_from(m, key, i) == -1 ==> forall|j: int| i <= j < m.len() ==> m[j].0 != key,
        assoc_find_from(m, key, i) != -1 ==> i <= assoc_find_from(m, key, i) < m.len()
            && m[assoc_find_from(m, key, i)].0 == key,
    decreases m.len() - i,
{
    if i < m.len() && m[i].0 != key {
        lemma_assoc_find_from(m, key, i + 1);
    }
}

/// Replacing the value of one entry, keeping its key, moves no lookup.
pub proof fn lemma_assoc_find_update<V>(
    m: Seq<(Seq<char>, V)>,
    j: int,
    w: V,
    key: Seq<char>,
    i: int,
)
    requires
        0 <= j < m.len(),
        0 <= i <= m.len(),
    ensures
        assoc_find_from(m.update(j, (m[j].0, w)), key, i) == assoc_find_from(m, key, i),
    decreases m.len() - i,
{
    if i < m.len() {
        if m.update(j, (m[j].0, w))[i].0 == key {
        } else {
            lemma_assoc_find_update(m, j, w, key, i + 1);
        }
    }
}

/// Appending an entry leaves every present key where it was, and makes the
/// appended key found at the end exactly when it was absent.
pub proof fn lemma_assoc_find_push<V>(
    m: Seq<(Seq<char>, V)>,
    k0: Seq<char>,
    w: V,
    key: Seq<char>,
    i: int,
)
    requires
        0 <= i <= m.len(),
    ensures
        assoc_find_from(m.push((k0, w)), key, i) == (if assoc_find_from(m, key, i) != -1 {
            assoc_find_from(m, key, i)
        } else if key == k0 {
            m.len() as int
        } else {
            -1
        }),
    decreases m.len() - i,
{
    let p = m.push((k0, w));
    if i < m.len() {
        assert(p[i] == m[i]);
        if m[i].0 == key {
        } else {
            lemma_assoc_find_push(m, k0, w, key, i + 1);
        }
    } else {
        assert(p[i] == (k0, w));
        if key == k0 {
            assert(assoc_find_from(p, key, i) == i);
        } else {
            assert(assoc_find_from(p, key, i) == assoc_find_from(p, key, i + 1));
            assert(assoc_find_from(p, key, i + 1) == -1);
        }
    }
}

/// Whether no two entries of an association list share a key: the
/// invariant of every ordered map the decoders build.
pub open spec fn distinct_keys<V>(m: Seq<(Seq<char>, V)>) -> bool {
    forall|i: int, j: int| 0 <= i < j < m.len() ==> m[i].0 != m[j].0
}

/// Finds the first entry of `entries` whose key spells `key`.
pub fn assoc_find_index<V: DeepView>(entries: &Vec<(String, V)>, key: &str) -> (r: Option<usize>)
    ensures
        match r {
            Some(j) => j < entries@.len() && j as int == assoc_find(entries.deep_view(), key@),
            None => assoc_find(entries.deep_view(), key@) == -1,
        },
{
    let ghost dv = entries.deep_view();
    let count = entries.len();
    let mut idx: usize = 0;
    while idx < count
        invariant
            idx <= count,
            count == entries@.len(),
            dv == entries.deep_view(),
            dv.len() == count,
            assoc_find(dv, key@) == assoc_find_from(dv, key@, idx as int),
        decreases count - idx,
    {
        proof {
            assert(dv[idx as int].0 == entries@[idx as int].0@);
        }
        if str_eq(entries[idx].0.as_str(), key) {
            return Some(idx);
        }
        idx = idx + 1;
    }
    None
}

} // verus!
