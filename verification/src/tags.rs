//! Metadata tag extractor.
//!
//! A block's decoded text carries metadata as `<key:value>` tags, where key
//! and value are each one or more characters excluding `<`, `>` and `:`.
//! Scanning is non-overlapping and left to right, and text that spells no
//! tag is ignored. Repeated keys accumulate their values in encounter order,
//! so the result is an ordered map from key to the list of its values.

use crate::assoc::{
    assoc_find, assoc_find_index, distinct_keys, lemma_assoc_find_from, lemma_assoc_find_push,
    lemma_assoc_find_update,
};
use crate::block::{get_content_at_address, spec_block_at};
use crate::error::ParseError;
use crate::scan::{find_run_end, run_end, substring, CharClass};
use vstd::prelude::*;
use vstd::utf8::{decode_utf8, valid_utf8};

verus! {

/// The key/value pairs of the tags of `s`, in scan order.
pub type TagPairs = Seq<(Seq<char>, Seq<char>)>;

/// The mathematical shape of an extracted tag map: keys in first-encounter
/// order, each with its values in encounter order.
pub type TagMapView = Seq<(Seq<char>, Seq<Seq<char>>)>;

/// The tags of `s` found at or after position `i`, in scan order.
///
/// A tag is `<key:value>` with key and value each a non-empty run of
/// characters outside `<`, `>`, `:`. A position that starts no complete tag
/// is skipped; a complete tag is consumed whole and the scan resumes after
/// its closing `>`.
pub open spec fn spec_tags(s: Seq<char>, i: int) -> TagPairs
    decreases s.len() - i,
{
    if i < 0 || i >= s.len() {
        Seq::empty()
    } else if s[i] != '<' {
        spec_tags(s, i + 1)
    } else {
        let ke = run_end(CharClass::TagText, s, i + 1);
        if i + 1 < ke && ke < s.len() && s[ke] == ':' {
            let ve = run_end(CharClass::TagText, s, ke + 1);
            if ke + 1 < ve && ve < s.len() && s[ve] == '>' {
                seq![(s.subrange(i + 1, ke), s.subrange(ke + 1, ve))] + spec_tags(s, ve + 1)
            } else {
                spec_tags(s, i + 1)
            }
        } else {
            spec_tags(s, i + 1)
        }
    }
}

/// One pair folded into the ordered map: the value is appended to the
/// pair's key entry, a fresh key entry going to the end.
pub open spec fn map_insert_value(m: TagMapView, key: Seq<char>, value: Seq<char>) -> TagMapView {
    let j = assoc_find(m, key);
    if j == -1 {
        m.push((key, seq![value]))
    } else {
        m.update(j, (key, m[j].1.push(value)))
    }
}

/// The ordered map that accumulates `pairs` in order.
pub open spec fn aggregate(pairs: TagPairs) -> TagMapView
    decreases pairs.len(),
{
    if pairs.len() == 0 {
        Seq::empty()
    } else {
        map_insert_value(aggregate(pairs.drop_last()), pairs.last().0, pairs.last().1)
    }
}

/// The values carried by `key` among `pairs`, in encounter order.
pub open spec fn values_of(pairs: TagPairs, key: Seq<char>) -> Seq<Seq<char>>
    decreases pairs.len(),
{
    if pairs.len() == 0 {
        Seq::empty()
    } else if pairs.last().0 == key {
        values_of(pairs.drop_last(), key).push(pairs.last().1)
    } else {
        values_of(pairs.drop_last(), key)
    }
}

/// Folding one more pair into an aggregated map is one map insertion.
pub proof fn lemma_aggregate_push(ps: TagPairs, k: Seq<char>, v: Seq<char>)
    ensures
        aggregate(ps.push((k, v))) == map_insert_value(aggregate(ps), k, v),
{
    assert(ps.push((k, v)).drop_last() =~= ps);
    assert(ps.push((k, v)).last() == (k, v));
}

/// Law: duplicate keys accumulate in encounter order. A key is present in
/// the aggregated map exactly when some pair carries it, and its entry then
/// lists the values of all its pairs, in order.
pub proof fn lemma_aggregate_accumulates(pairs: TagPairs, key: Seq<char>)
    ensures
        assoc_find(aggregate(pairs), key) == -1 <==> values_of(pairs, key).len() == 0,
        assoc_find(aggregate(pairs), key) != -1 ==> {
            let m = aggregate(pairs);
            let j = assoc_find(m, key);
            0 <= j < m.len() && m[j].0 == key && m[j].1 == values_of(pairs, key)
        },
    decreases pairs.len(),
{
    if pairs.len() == 0 {
    } else {
        let ps = pairs.drop_last();
        let p = pairs.last();
        lemma_aggregate_accumulates(ps, key);
        let m = aggregate(ps);
        lemma_assoc_find_from(m, key, 0);
        lemma_assoc_find_from(m, p.0, 0);
        let j = assoc_find(m, p.0);
        if j == -1 {
            lemma_assoc_find_push(m, p.0, seq![p.1], key, 0);
            if key == p.0 {
                assert(values_of(ps, key) =~= Seq::<Seq<char>>::empty());
                assert(seq![p.1] =~= values_of(ps, key).push(p.1));
            }
        } else {
            let w = m[j].1.push(p.1);
            lemma_assoc_find_update(m, j, w, key, 0);
            let fk = assoc_find(m, key);
            if key == p.0 {
                assert(fk == j);
            } else {
                if fk != -1 {
                    assert(m[fk].0 == key);
                    assert(fk != j);
                    assert(m.update(j, (m[j].0, w))[fk] == m[fk]);
                }
            }
        }
    }
}

/// One insertion keeps the map's keys distinct.
proof fn lemma_map_insert_value_distinct(m: TagMapView, key: Seq<char>, value: Seq<char>)
    requires
        distinct_keys(m),
    ensures
        distinct_keys(map_insert_value(m, key, value)),
{
    lemma_assoc_find_from(m, key, 0);
    let j = assoc_find(m, key);
    if j == -1 {
        let p = m.push((key, seq![value]));
        assert forall|a: int, b: int| 0 <= a < b < p.len() implies p[a].0 != p[b].0 by {
            if b == m.len() {
                assert(p[a] == m[a]);
            } else {
                assert(p[a] == m[a]);
                assert(p[b] == m[b]);
            }
        }
    } else {
        let u = m.update(j, (key, m[j].1.push(value)));
        assert forall|a: int, b: int| 0 <= a < b < u.len() implies u[a].0 != u[b].0 by {
            assert(u[a].0 == m[a].0);
            assert(u[b].0 == m[b].0);
        }
    }
}

/// Law: an aggregated tag map holds at most one entry per key — what a
/// keyed map guarantees by construction, the ordered map keeps as an
/// invariant.
pub proof fn lemma_aggregate_distinct_keys(pairs: TagPairs)
    ensures
        distinct_keys(aggregate(pairs)),
    decreases pairs.len(),
{
    if pairs.len() > 0 {
        lemma_aggregate_distinct_keys(pairs.drop_last());
        lemma_map_insert_value_distinct(
            aggregate(pairs.drop_last()),
            pairs.last().0,
            pairs.last().1,
        );
    }
}

/// Law: tag extraction is deterministic — two extractions from the same
/// text yield the identical ordered map.
pub proof fn lemma_tag_extraction_deterministic(
    text: Seq<char>,
    m1: TagMapView,
    m2: TagMapView,
)
    requires
        m1 == aggregate(spec_tags(text, 0)),
        m2 == aggregate(spec_tags(text, 0)),
    ensures
        m1 == m2,
{
}

/// Appends `value` to the entry of `key`, creating the entry at the end of
/// the map when the key is new.
fn push_tag_value(entries: &mut Vec<(String, Vec<String>)>, key: String, value: String)
    ensures
        final(entries).deep_view() == map_insert_value(old(entries).deep_view(), key@, value@),
{
    let ghost old_dv = old(entries).deep_view();
    match assoc_find_index(entries, key.as_str()) {
        Some(j) => {
            proof {
                lemma_assoc_find_from(old_dv, key@, 0);
            }
            let mut entry = entries.remove(j);
            entry.1.push(value);
            entries.insert(j, entry);
            proof {
                assert(entries@ =~= old(entries)@.update(
                    j as int,
                    (old(entries)@[j as int].0, entry.1),
                ));
                assert(entries.deep_view() =~~= map_insert_value(old_dv, key@, value@));
            }
        },
        None => {
            let mut values: Vec<String> = Vec::new();
            values.push(value);
            entries.push((key, values));
            proof {
                assert(entries.deep_view() =~~= map_insert_value(old_dv, key@, value@));
            }
        },
    }
}

/// Scans `content` for `<key:value>` tags and returns the ordered map that
/// accumulates them: duplicate keys collect their values in encounter order,
/// and text that spells no tag is ignored.
pub fn extract_key_value(content: &str) -> (r: Vec<(String, Vec<String>)>)
    ensures
        r.deep_view() == aggregate(spec_tags(content@, 0)),
{
    let ghost s = content@;
    let length = content.unicode_len();
    let mut entries: Vec<(String, Vec<String>)> = Vec::new();
    let ghost mut pairs: TagPairs = Seq::empty();
    proof {
        assert(entries.deep_view() =~= aggregate(pairs));
        assert(pairs + spec_tags(s, 0) =~= spec_tags(s, 0));
    }
    let mut i: usize = 0;
    while i < length
        invariant
            i <= length,
            length == s.len(),
            s == content@,
            spec_tags(s, 0) == pairs + spec_tags(s, i as int),
            entries.deep_view() == aggregate(pairs),
        decreases length - i,
    {
        let mut next: usize = i + 1;
        if content.get_char(i) == '<' {
            let ke = find_run_end(CharClass::TagText, content, i + 1, length);
            if i + 1 < ke && ke < length && content.get_char(ke) == ':' {
                let ve = find_run_end(CharClass::TagText, content, ke + 1, length);
                if ke + 1 < ve && ve < length && content.get_char(ve) == '>' {
                    let key = substring(content, i + 1, ke);
                    let value = substring(content, ke + 1, ve);
                    let ghost p = (
                        s.subrange(i + 1 as int, ke as int),
                        s.subrange(ke + 1 as int, ve as int),
                    );
                    proof {
                        lemma_aggregate_push(pairs, p.0, p.1);
                        assert(spec_tags(s, i as int) == seq![p] + spec_tags(s, ve + 1 as int));
                        assert(pairs + (seq![p] + spec_tags(s, ve + 1 as int)) =~= pairs.push(p)
                            + spec_tags(s, ve + 1 as int));
                    }
                    push_tag_value(&mut entries, key, value);
                    proof {
                        pairs = pairs.push(p);
                    }
                    next = ve + 1;
                }
            }
        }
        i = next;
    }
    proof {
        assert(spec_tags(s, length as int) =~= Seq::<(Seq<char>, Seq<char>)>::empty());
        assert(pairs + spec_tags(s, length as int) =~= pairs);
    }
    entries
}

/// Relies on `String::from_utf8`: it returns the string decoding the given
/// bytes exactly when they are valid UTF-8, and reports them otherwise.
#[verifier::external_body]
fn bytes_to_utf8_string(bytes: &[u8]) -> (r: Option<String>)
    ensures
        r is Some <==> valid_utf8(bytes@),
        r is Some ==> r->0@ == decode_utf8(bytes@),
{
    String::from_utf8(bytes.to_vec()).ok()
}

/// Decodes a byte buffer as UTF-8 text, reporting bytes that are no valid
/// encoding as [`ParseError::EncodingError`].
pub fn uint8_array_to_string(uint8_array: &[u8]) -> (r: Result<String, ParseError>)
    ensures
        r is Ok <==> valid_utf8(uint8_array@),
        r is Ok ==> r->Ok_0@ == decode_utf8(uint8_array@),
        r is Err ==> r->Err_0 == ParseError::EncodingError,
{
    match bytes_to_utf8_string(uint8_array) {
        Some(text) => Ok(text),
        None => Err(ParseError::EncodingError),
    }
}

/// What `parse_key_value` yields on a buffer: the empty map for the absent
/// address, the aggregated tags of the block's decoded text otherwise, or
/// the bounds or encoding error met on the way.
pub open spec fn spec_parse_key_value(s: Seq<u8>, address: int, width: int) -> Result<
    TagMapView,
    ParseError,
> {
    match spec_block_at(s, address, width) {
        Ok(None) => Ok(Seq::empty()),
        Ok(Some(bytes)) => if valid_utf8(bytes) {
            Ok(aggregate(spec_tags(decode_utf8(bytes), 0)))
        } else {
            Err(ParseError::EncodingError)
        },
        Err(e) => Err(e),
    }
}

/// Resolves the block at `address`, decodes it as UTF-8 text and extracts
/// its tags. An absent address (`0`) yields the empty map rather than an
/// error; an out-of-range block or non-UTF-8 payload is reported.
pub fn parse_key_value(buffer: &[u8], address: usize, byte_length: usize) -> (r: Result<
    Vec<(String, Vec<String>)>,
    ParseError,
>)
    requires
        1 <= byte_length <= 8,
    ensures
        match r {
            Ok(m) => spec_parse_key_value(buffer@, address as int, byte_length as int) == Ok::<
                TagMapView,
                ParseError,
            >(m.deep_view()),
            Err(e) => spec_parse_key_value(buffer@, address as int, byte_length as int) == Err::<
                TagMapView,
                ParseError,
            >(e),
        },
{
    let content = match get_content_at_address(buffer, address, byte_length) {
        Ok(c) => c,
        Err(e) => {
            return Err(e);
        },
    };
    match content {
        None => {
            let empty: Vec<(String, Vec<String>)> = Vec::new();
            proof {
                assert(empty.deep_view() =~= Seq::<(Seq<char>, Seq<Seq<char>>)>::empty());
            }
            Ok(empty)
        },
        Some(bytes) => {
            let text = match uint8_array_to_string(bytes.as_slice()) {
                Ok(t) => t,
                Err(e) => {
                    return Err(e);
                },
            };
            Ok(extract_key_value(text.as_str()))
        },
    }
}

} // verus!
