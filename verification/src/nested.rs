//! Nested attribute assembler.
//!
//! The flat key/value map of a block regroups into a two-level map for
//! fields like `PAGE.WIDTH`: a key splits on the first occurrence of a
//! delimiter character, or else on the first known prefix it starts with.
//! Entries that carry other than exactly one value are ambiguous and are
//! skipped, as are keys that match neither rule. A later occurrence of the
//! same main/sub pair overwrites an earlier one.

use crate::assoc::{assoc_find, assoc_find_index, distinct_keys, lemma_assoc_find_from};
use crate::scan::{find_char, first_index_of, lemma_first_index_of, spec_starts_with,
    str_starts_with, substring};
use crate::tags::TagMapView;
use vstd::prelude::*;

verus! {

/// The mathematical shape of an assembled two-level map: main keys in
/// first-encounter order, each with its sub-key/value entries.
pub type NestedView = Seq<(Seq<char>, Seq<(Seq<char>, Seq<char>)>)>;

/// One sub-entry written into an inner map: a present sub-key is
/// overwritten, a fresh one goes to the end.
pub open spec fn inner_set(
    inner: Seq<(Seq<char>, Seq<char>)>,
    sub: Seq<char>,
    value: Seq<char>,
) -> Seq<(Seq<char>, Seq<char>)> {
    let j = assoc_find(inner, sub);
    if j == -1 {
        inner.push((sub, value))
    } else {
        inner.update(j, (sub, value))
    }
}

/// One split entry written into the two-level map.
pub open spec fn nested_insert(
    m: NestedView,
    main: Seq<char>,
    sub: Seq<char>,
    value: Seq<char>,
) -> NestedView {
    let j = assoc_find(m, main);
    if j == -1 {
        m.push((main, seq![(sub, value)]))
    } else {
        m.update(j, (main, inner_set(m[j].1, sub, value)))
    }
}

/// The index of the first prefix at or after `i` that `key` starts with,
/// or `-1` when none matches.
pub open spec fn first_prefix_match(key: Seq<char>, prefixes: Seq<Seq<char>>, i: int) -> int
    decreases prefixes.len() - i,
{
    if i < 0 || i >= prefixes.len() {
        -1
    } else if spec_starts_with(key, prefixes[i]) {
        i
    } else {
        first_prefix_match(key, prefixes, i + 1)
    }
}

/// A found prefix index matches the key; `-1` means no prefix does.
pub proof fn lemma_first_prefix_match(key: Seq<char>, prefixes: Seq<Seq<char>>, i: int)
    requires
        0 <= i <= prefixes.len(),
    ensures
        first_prefix_match(key, prefixes, i) == -1 ==> forall|j: int|
            i <= j < prefixes.len() ==> !spec_starts_with(key, prefixes[j]),
        first_prefix_match(key, prefixes, i) != -1 ==> i <= first_prefix_match(key, prefixes, i)
            < prefixes.len() && spec_starts_with(key, prefixes[first_prefix_match(key, prefixes, i)]),
    decreases prefixes.len() - i,
{
    if i < prefixes.len() && !spec_starts_with(key, prefixes[i]) {
        lemma_first_prefix_match(key, prefixes, i + 1);
    }
}

/// How a flat key splits into a main key and a sub-key: at the first
/// occurrence of the delimiter, else after the first known prefix the key
/// starts with, else not at all.
pub open spec fn split_key(key: Seq<char>, delimiter: char, prefixes: Seq<Seq<char>>) -> Option<
    (Seq<char>, Seq<char>),
> {
    let d = first_index_of(key, delimiter, 0);
    if d != -1 {
        Some((key.subrange(0, d), key.subrange(d + 1, key.len() as int)))
    } else {
        let p = first_prefix_match(key, prefixes, 0);
        if p != -1 {
            Some((prefixes[p], key.subrange(prefixes[p].len() as int, key.len() as int)))
        } else {
            None
        }
    }
}

/// The two-level map assembled from the flat entries of `flat`, in order:
/// an entry with other than exactly one value is skipped, a key that splits
/// writes its value under its main and sub keys, and a later occurrence of
/// the same pair overwrites an earlier one.
pub open spec fn spec_nested(flat: TagMapView, delimiter: char, prefixes: Seq<Seq<char>>) -> NestedView
    decreases flat.len(),
{
    if flat.len() == 0 {
        Seq::empty()
    } else {
        let prev = spec_nested(flat.drop_last(), delimiter, prefixes);
        let e = flat.last();
        if e.1.len() != 1 {
            prev
        } else {
            match split_key(e.0, delimiter, prefixes) {
                Some(ms) => nested_insert(prev, ms.0, ms.1, e.1[0]),
                None => prev,
            }
        }
    }
}

/// Whether a two-level map is well formed: its main keys are distinct,
/// and so are the sub-keys of each inner map.
pub open spec fn nested_wf(m: NestedView) -> bool {
    &&& distinct_keys(m)
    &&& forall|i: int| 0 <= i < m.len() ==> distinct_keys(#[trigger] m[i].1)
}

/// Writing one sub-entry keeps an inner map's keys distinct.
proof fn lemma_inner_set_distinct(
    inner: Seq<(Seq<char>, Seq<char>)>,
    sub: Seq<char>,
    value: Seq<char>,
)
    requires
        distinct_keys(inner),
    ensures
        distinct_keys(inner_set(inner, sub, value)),
{
    lemma_assoc_find_from(inner, sub, 0);
    let j = assoc_find(inner, sub);
    if j == -1 {
        let p = inner.push((sub, value));
        assert forall|a: int, b: int| 0 <= a < b < p.len() implies p[a].0 != p[b].0 by {
            if b == inner.len() {
                assert(p[a] == inner[a]);
            } else {
                assert(p[a] == inner[a]);
                assert(p[b] == inner[b]);
            }
        }
    } else {
        let u = inner.update(j, (sub, value));
        assert forall|a: int, b: int| 0 <= a < b < u.len() implies u[a].0 != u[b].0 by {
            assert(u[a].0 == inner[a].0);
            assert(u[b].0 == inner[b].0);
        }
    }
}

/// One insertion keeps the two-level map well formed.
proof fn lemma_nested_insert_wf(m: NestedView, main: Seq<char>, sub: Seq<char>, value: Seq<char>)
    requires
        nested_wf(m),
    ensures
        nested_wf(nested_insert(m, main, sub, value)),
{
    lemma_assoc_find_from(m, main, 0);
    let j = assoc_find(m, main);
    if j == -1 {
        let p = m.push((main, seq![(sub, value)]));
        assert forall|a: int, b: int| 0 <= a < b < p.len() implies p[a].0 != p[b].0 by {
            if b == m.len() {
                assert(p[a] == m[a]);
            } else {
                assert(p[a] == m[a]);
                assert(p[b] == m[b]);
            }
        }
        assert forall|i: int| 0 <= i < p.len() implies distinct_keys(#[trigger] p[i].1) by {
            if i < m.len() {
                assert(p[i] == m[i]);
            } else {
                assert(p[i].1 =~= seq![(sub, value)]);
            }
        }
    } else {
        lemma_inner_set_distinct(m[j].1, sub, value);
        let u = m.update(j, (main, inner_set(m[j].1, sub, value)));
        assert forall|a: int, b: int| 0 <= a < b < u.len() implies u[a].0 != u[b].0 by {
            assert(u[a].0 == m[a].0);
            assert(u[b].0 == m[b].0);
        }
        assert forall|i: int| 0 <= i < u.len() implies distinct_keys(#[trigger] u[i].1) by {
            if i != j {
                assert(u[i] == m[i]);
            }
        }
    }
}

/// Law: an assembled two-level map holds at most one entry per main key,
/// and each inner map at most one entry per sub-key — the invariant the
/// nested shape guarantees whatever the flat input held.
pub proof fn lemma_nested_well_formed(flat: TagMapView, delimiter: char, prefixes: Seq<Seq<char>>)
    ensures
        nested_wf(spec_nested(flat, delimiter, prefixes)),
    decreases flat.len(),
{
    if flat.len() > 0 {
        lemma_nested_well_formed(flat.drop_last(), delimiter, prefixes);
        let prev = spec_nested(flat.drop_last(), delimiter, prefixes);
        let e = flat.last();
        if e.1.len() == 1 {
            match split_key(e.0, delimiter, prefixes) {
                Some(ms) => {
                    lemma_nested_insert_wf(prev, ms.0, ms.1, e.1[0]);
                },
                None => {
                },
            }
        }
    }
}

/// Finds the first prefix of `prefixes` that `key` starts with.
fn find_prefix(key: &str, prefixes: &Vec<String>) -> (r: Option<usize>)
    ensures
        match r {
            Some(p) => p < prefixes@.len() && p as int == first_prefix_match(
                key@,
                prefixes.deep_view(),
                0,
            ),
            None => first_prefix_match(key@, prefixes.deep_view(), 0) == -1,
        },
{
    let ghost pv = prefixes.deep_view();
    let count = prefixes.len();
    let mut idx: usize = 0;
    while idx < count
        invariant
            idx <= count,
            count == prefixes@.len(),
            pv == prefixes.deep_view(),
            pv.len() == count,
            first_prefix_match(key@, pv, 0) == first_prefix_match(key@, pv, idx as int),
        decreases count - idx,
    {
        proof {
            assert(pv[idx as int] == prefixes@[idx as int]@);
        }
        if str_starts_with(key, prefixes[idx].as_str()) {
            return Some(idx);
        }
        idx = idx + 1;
    }
    None
}

/// Writes one sub-entry into an inner map, overwriting a present sub-key.
fn inner_push(inner: &mut Vec<(String, String)>, sub: String, value: String)
    ensures
        final(inner).deep_view() == inner_set(old(inner).deep_view(), sub@, value@),
{
    let ghost old_dv = old(inner).deep_view();
    match assoc_find_index(inner, sub.as_str()) {
        Some(j) => {
            proof {
                lemma_assoc_find_from(old_dv, sub@, 0);
            }
            let mut entry = inner.remove(j);
            entry.1 = value;
            inner.insert(j, entry);
            proof {
                assert(inner@ =~= old(inner)@.update(
                    j as int,
                    (old(inner)@[j as int].0, entry.1),
                ));
                assert(inner.deep_view() =~~= inner_set(old_dv, sub@, value@));
            }
        },
        None => {
            inner.push((sub, value));
            proof {
                assert(inner.deep_view() =~~= inner_set(old_dv, sub@, value@));
            }
        },
    }
}

/// Writes one split entry into the two-level map.
fn nested_push(
    out: &mut Vec<(String, Vec<(String, String)>)>,
    main: String,
    sub: String,
    value: String,
)
    ensures
        final(out).deep_view() == nested_insert(old(out).deep_view(), main@, sub@, value@),
{
    let ghost old_dv = old(out).deep_view();
    match assoc_find_index(out, main.as_str()) {
        Some(j) => {
            proof {
                lemma_assoc_find_from(old_dv, main@, 0);
            }
            let mut entry = out.remove(j);
            inner_push(&mut entry.1, sub, value);
            out.insert(j, entry);
            proof {
                assert(out@ =~= old(out)@.update(j as int, (old(out)@[j as int].0, entry.1)));
                assert(out.deep_view() =~~= nested_insert(old_dv, main@, sub@, value@));
            }
        },
        None => {
            let mut inner: Vec<(String, String)> = Vec::new();
            inner.push((sub, value));
            out.push((main, inner));
            proof {
                assert(out.deep_view() =~~= nested_insert(old_dv, main@, sub@, value@));
            }
        },
    }
}

/// Regroups a flat key/value map into a two-level map using a delimiter
/// character and an ordered table of known prefixes. Ambiguous entries
/// (other than exactly one value) and keys matching neither rule are
/// skipped; the flat map's order decides which value survives a collision.
pub fn extract_nested_key_value(
    record: &Vec<(String, Vec<String>)>,
    delimiter: char,
    prefixes: &Vec<String>,
) -> (r: Vec<(String, Vec<(String, String)>)>)
    ensures
        r.deep_view() == spec_nested(record.deep_view(), delimiter, prefixes.deep_view()),
{
    let ghost fv = record.deep_view();
    let ghost pv = prefixes.deep_view();
    let count = record.len();
    let mut out: Vec<(String, Vec<(String, String)>)> = Vec::new();
    proof {
        assert(fv.take(0).len() == 0);
        assert(out.deep_view() =~= spec_nested(fv.take(0), delimiter, pv));
    }
    let mut idx: usize = 0;
    while idx < count
        invariant
            idx <= count,
            count == record@.len(),
            fv == record.deep_view(),
            pv == prefixes.deep_view(),
            fv.len() == count,
            out.deep_view() == spec_nested(fv.take(idx as int), delimiter, pv),
        decreases count - idx,
    {
        proof {
            assert(fv.take(idx as int + 1).drop_last() =~= fv.take(idx as int));
            assert(fv.take(idx as int + 1).last() == fv[idx as int]);
            assert(fv[idx as int].0 == record@[idx as int].0@);
            assert(fv[idx as int].1 == record@[idx as int].1.deep_view());
        }
        let key = &record[idx].0;
        let values = &record[idx].1;
        if values.len() == 1 {
            let value = values[0].clone();
            proof {
                assert(fv[idx as int].1[0] == record@[idx as int].1@[0]@);
            }
            match find_char(key.as_str(), delimiter) {
                Some(d) => {
                    proof {
                        lemma_first_index_of(key@, delimiter, 0);
                    }
                    let key_length = key.as_str().unicode_len();
                    let main = substring(key.as_str(), 0, d);
                    let sub = substring(key.as_str(), d + 1, key_length);
                    nested_push(&mut out, main, sub, value);
                },
                None => {
                    match find_prefix(key.as_str(), prefixes) {
                        Some(p) => {
                            proof {
                                lemma_first_prefix_match(key@, pv, 0);
                                assert(pv[p as int] == prefixes@[p as int]@);
                            }
                            let prefix_length = prefixes[p].as_str().unicode_len();
                            let key_length = key.as_str().unicode_len();
                            let main = prefixes[p].clone();
                            let sub = substring(key.as_str(), prefix_length, key_length);
                            nested_push(&mut out, main, sub, value);
                        },
                        None => {
                        },
                    }
                },
            }
        }
        idx = idx + 1;
    }
    proof {
        assert(fv.take(count as int) =~= fv);
    }
    out
}

} // verus!
