//! Layer-record decoder.
//!
//! A block's text may carry brace-delimited presentation records, one per
//! drawing layer: `{"key"#"value",...}`. Each record between one `{` and
//! the next `}` (no nesting) yields one [`LayerInfo`]. Within a record an
//! attribute is `"key"#"value"`; unrecognized attribute names are ignored,
//! a repeated name keeps its last value, and every absent field falls back
//! to its documented default rather than failing the record.

use crate::scan::{find_run_end, run_end, str_eq, substring, CharClass};
use vstd::prelude::*;

verus! {

/// The presentation record of one drawing layer: identity, display name
/// and visibility flags. Every field has a default used when the source
/// text does not mention it: `layer_id` 0, `name` "Main layer", and every
/// flag false.
#[derive(Clone, Debug, PartialEq, Eq)]
pub struct LayerInfo {
    pub layer_id: i32,
    pub name: String,
    pub is_background_layer: bool,
    pub is_allow_add: bool,
    pub is_current_layer: bool,
    pub is_visible: bool,
    pub is_deleted: bool,
    pub is_allow_up: bool,
    pub is_allow_down: bool,
}

/// The record bodies of `s` found at or after position `i`, in scan order:
/// each is the text strictly between one `{` and the next `}`, with no
/// nested braces (an empty body is a record too).
pub open spec fn spec_records(s: Seq<char>, i: int) -> Seq<Seq<char>>
    decreases s.len() - i,
{
    if i < 0 || i >= s.len() {
        Seq::empty()
    } else if s[i] != '{' {
        spec_records(s, i + 1)
    } else {
        let e = run_end(CharClass::RecordText, s, i + 1);
        if i + 1 <= e && e < s.len() && s[e] == '}' {
            seq![s.subrange(i + 1, e)] + spec_records(s, e + 1)
        } else {
            spec_records(s, i + 1)
        }
    }
}

/// The `"key"#"value"` attributes of a record body found at or after
/// position `i`, in scan order: a non-empty run of key characters, the
/// literal `"#"`, then a non-empty run of value characters.
pub open spec fn spec_attrs(s: Seq<char>, i: int) -> Seq<(Seq<char>, Seq<char>)>
    decreases s.len() - i,
{
    if i < 0 || i >= s.len() {
        Seq::empty()
    } else {
        let ke = run_end(CharClass::AttrKey, s, i);
        if i < ke && ke + 2 < s.len() && s[ke] == '"' && s[ke + 1] == '#' && s[ke + 2] == '"' {
            let ve = run_end(CharClass::AttrValue, s, ke + 3);
            if ke + 3 < ve && ve <= s.len() {
                seq![(s.subrange(i, ke), s.subrange(ke + 3, ve))] + spec_attrs(s, ve)
            } else {
                spec_attrs(s, i + 1)
            }
        } else {
            spec_attrs(s, i + 1)
        }
    }
}

/// The value of the last attribute named `key`, or `None` when the record
/// does not mention it: a repeated attribute name keeps its last value.
pub open spec fn attr_last(pairs: Seq<(Seq<char>, Seq<char>)>, key: Seq<char>) -> Option<
    Seq<char>,
>
    decreases pairs.len(),
{
    if pairs.len() == 0 {
        None
    } else if pairs.last().0 == key {
        Some(pairs.last().1)
    } else {
        attr_last(pairs.drop_last(), key)
    }
}

/// Whether `c` is an ASCII decimal digit.
pub open spec fn is_digit(c: char) -> bool {
    48 <= c as u32 <= 57
}

/// The numeric value of a digit character.
pub open spec fn digit_value(c: char) -> int {
    c as u32 - 48
}

/// Whether every character of `s` is a digit.
pub open spec fn all_digits(s: Seq<char>) -> bool {
    forall|i: int| 0 <= i < s.len() ==> is_digit(s[i])
}

/// The decimal value of a digit string.
pub open spec fn digits_value(s: Seq<char>) -> int
    decreases s.len(),
{
    if s.len() == 0 {
        0
    } else {
        digits_value(s.drop_last()) * 10 + digit_value(s.last())
    }
}

/// The signed integer `s` spells, when it is an optional `-` or `+` sign
/// followed by one or more digits and the value fits a 32-bit signed
/// integer; `None` otherwise.
pub open spec fn spec_parse_i32(s: Seq<char>) -> Option<int> {
    let digits = if s.len() > 0 && (s[0] == '-' || s[0] == '+') {
        s.drop_first()
    } else {
        s
    };
    let negative = s.len() > 0 && s[0] == '-';
    if digits.len() == 0 || !all_digits(digits) {
        None
    } else {
        let v = if negative {
            -digits_value(digits)
        } else {
            digits_value(digits)
        };
        if -0x8000_0000 <= v <= 0x7fff_ffff {
            Some(v)
        } else {
            None
        }
    }
}

/// The layer identity an attribute value yields: the integer it spells, or
/// the default `0` when it spells none.
pub open spec fn layer_id_value(v: Seq<char>) -> int {
    match spec_parse_i32(v) {
        Some(n) => n,
        None => 0,
    }
}

/// Whether `li` carries exactly the fields the attributes `attrs` assign,
/// with the documented default for every absent field.
pub open spec fn layer_info_matches(li: LayerInfo, attrs: Seq<(Seq<char>, Seq<char>)>) -> bool {
    &&& li.layer_id as int == (match attr_last(attrs, "layerId"@) {
        Some(v) => layer_id_value(v),
        None => 0,
    })
    &&& li.name@ == (match attr_last(attrs, "name"@) {
        Some(v) => v,
        None => "Main layer"@,
    })
    &&& li.is_background_layer == (attr_last(attrs, "isBackgroundLayer"@) == Some("true"@))
    &&& li.is_allow_add == (attr_last(attrs, "isAllowAdd"@) == Some("true"@))
    &&& li.is_current_layer == (attr_last(attrs, "isCurrentLayer"@) == Some("true"@))
    &&& li.is_visible == (attr_last(attrs, "isVisible"@) == Some("true"@))
    &&& li.is_deleted == (attr_last(attrs, "isDeleted"@) == Some("true"@))
    &&& li.is_allow_up == (attr_last(attrs, "isAllowUp"@) == Some("true"@))
    &&& li.is_allow_down == (attr_last(attrs, "isAllowDown"@) == Some("true"@))
}

/// Parses an attribute value as a signed 32-bit integer, with `0` for a
/// value that spells none (non-numeric text or a value out of range).
pub fn parse_i32_or_zero(s: &str) -> (n: i32)
    ensures
        n as int == layer_id_value(s@),
{
    let length = s.unicode_len();
    if length == 0 {
        return 0;
    }
    let first = s.get_char(0);
    let negative = first == '-';
    let signed = first == '-' || first == '+';
    let start: usize = if signed {
        1
    } else {
        0
    };
    let ghost digits = if signed {
        s@.drop_first()
    } else {
        s@
    };
    proof {
        assert(digits.len() == length - start);
        assert(forall|q: int| 0 <= q < digits.len() ==> digits[q] == s@[q + start]);
    }
    if start == length {
        return 0;
    }
    let mut acc: u64 = 0;
    let mut overflow = false;
    let mut j: usize = start;
    while j < length
        invariant
            start <= j <= length,
            start <= 1,
            length == s@.len(),
            digits == (if s@.len() > 0 && (s@[0] == '-' || s@[0] == '+') {
                s@.drop_first()
            } else {
                s@
            }),
            digits.len() == length - start,
            forall|q: int| 0 <= q < digits.len() ==> digits[q] == s@[q + start],
            forall|q: int| 0 <= q < j - start ==> is_digit(digits[q]),
            !overflow ==> acc == digits_value(digits.take(j - start)) && acc <= 2147483648,
            overflow ==> digits_value(digits.take(j - start)) > 2147483648,
        decreases length - j,
    {
        let c = s.get_char(j);
        let cv = c as u32;
        if cv < 48 || cv > 57 {
            proof {
                assert(digits[j - start] == s@[j as int]);
                assert(!is_digit(digits[j - start]));
                assert(!all_digits(digits));
            }
            return 0;
        }
        proof {
            assert(digits.take(j - start + 1).drop_last() =~= digits.take(j - start));
            assert(digits.take(j - start + 1).last() == digits[j - start]);
            assert(digits[j - start] == s@[j as int]);
            assert(digits_value(digits.take(j - start + 1)) == digits_value(
                digits.take(j - start),
            ) * 10 + digit_value(s@[j as int]));
        }
        if !overflow {
            acc = acc * 10 + ((cv - 48) as u64);
            if acc > 2147483648 {
                overflow = true;
            }
        }
        j = j + 1;
    }
    proof {
        assert(digits.take(length - start) =~= digits);
        assert(all_digits(digits));
    }
    if overflow {
        return 0;
    }
    if negative {
        if acc == 2147483648 {
            return i32::MIN;
        }
        return -(acc as i32);
    }
    if acc > 2147483647 {
        return 0;
    }
    acc as i32
}

/// The last entry of `pairs` whose key spells `key`, if any.
fn lookup_last<'a>(pairs: &'a Vec<(String, String)>, key: &str) -> (r: Option<&'a String>)
    ensures
        match r {
            Some(v) => attr_last(pairs.deep_view(), key@) == Some(v@),
            None => attr_last(pairs.deep_view(), key@) is None,
        },
{
    let ghost dv = pairs.deep_view();
    proof {
        assert(dv.take(pairs@.len() as int) =~= dv);
    }
    let mut j: usize = pairs.len();
    while j > 0
        invariant
            j <= pairs@.len(),
            dv == pairs.deep_view(),
            dv.len() == pairs@.len(),
            attr_last(dv, key@) == attr_last(dv.take(j as int), key@),
        decreases j,
    {
        j = j - 1;
        proof {
            assert(dv.take(j as int + 1).drop_last() =~= dv.take(j as int));
            assert(dv.take(j as int + 1).last() == dv[j as int]);
            assert(dv[j as int].0 == pairs@[j as int].0@);
            assert(dv[j as int].1 == pairs@[j as int].1@);
        }
        if str_eq(pairs[j].0.as_str(), key) {
            return Some(&pairs[j].1);
        }
    }
    proof {
        assert(dv.take(0).len() == 0);
    }
    None
}

/// Whether the last attribute named `key` holds exactly the text `true`
/// (case-sensitively); an absent attribute counts as false.
fn bool_attr(pairs: &Vec<(String, String)>, key: &str) -> (r: bool)
    ensures
        r == (attr_last(pairs.deep_view(), key@) == Some("true"@)),
{
    match lookup_last(pairs, key) {
        Some(v) => str_eq(v.as_str(), "true"),
        None => false,
    }
}

/// Scans a record body for its `"key"#"value"` attributes, in order.
fn scan_attrs(text: &str) -> (r: Vec<(String, String)>)
    ensures
        r.deep_view() == spec_attrs(text@, 0),
{
    let ghost s = text@;
    let length = text.unicode_len();
    let mut pairs: Vec<(String, String)> = Vec::new();
    let ghost mut collected: Seq<(Seq<char>, Seq<char>)> = Seq::empty();
    proof {
        assert(pairs.deep_view() =~= collected);
        assert(collected + spec_attrs(s, 0) =~= spec_attrs(s, 0));
    }
    let mut i: usize = 0;
    while i < length
        invariant
            i <= length,
            length == s.len(),
            s == text@,
            spec_attrs(s, 0) == collected + spec_attrs(s, i as int),
            pairs.deep_view() == collected,
        decreases length - i,
    {
        let mut next: usize = i + 1;
        let ke = find_run_end(CharClass::AttrKey, text, i, length);
        if i < ke && length - ke > 2 && text.get_char(ke) == '"' && text.get_char(ke + 1) == '#'
            && text.get_char(ke + 2) == '"' {
            let ve = find_run_end(CharClass::AttrValue, text, ke + 3, length);
            if ke + 3 < ve {
                let key = substring(text, i, ke);
                let value = substring(text, ke + 3, ve);
                pairs.push((key, value));
                proof {
                    let p = (s.subrange(i as int, ke as int), s.subrange(ke as int + 3, ve as int));
                    assert(spec_attrs(s, i as int) == seq![p] + spec_attrs(s, ve as int));
                    assert(collected + (seq![p] + spec_attrs(s, ve as int)) =~= collected.push(p)
                        + spec_attrs(s, ve as int));
                    collected = collected.push(p);
                    assert(pairs.deep_view() =~~= collected);
                }
                next = ve;
            }
        }
        i = next;
    }
    proof {
        assert(spec_attrs(s, length as int) =~= Seq::<(Seq<char>, Seq<char>)>::empty());
        assert(collected + spec_attrs(s, length as int) =~= collected);
    }
    pairs
}

/// Decodes one record body into a [`LayerInfo`], resolving every absent
/// field with its documented default.
fn parse_record(text: &str) -> (li: LayerInfo)
    ensures
        layer_info_matches(li, spec_attrs(text@, 0)),
{
    let pairs = scan_attrs(text);
    let layer_id = match lookup_last(&pairs, "layerId") {
        Some(v) => parse_i32_or_zero(v.as_str()),
        None => 0,
    };
    let name = match lookup_last(&pairs, "name") {
        Some(v) => v.clone(),
        None => "Main layer".to_owned(),
    };
    LayerInfo {
        layer_id,
        name,
        is_background_layer: bool_attr(&pairs, "isBackgroundLayer"),
        is_allow_add: bool_attr(&pairs, "isAllowAdd"),
        is_current_layer: bool_attr(&pairs, "isCurrentLayer"),
        is_visible: bool_attr(&pairs, "isVisible"),
        is_deleted: bool_attr(&pairs, "isDeleted"),
        is_allow_up: bool_attr(&pairs, "isAllowUp"),
        is_allow_down: bool_attr(&pairs, "isAllowDown"),
    }
}

/// Scans decoded text for brace-delimited layer records and returns one
/// [`LayerInfo`] per record, in left-to-right order.
pub fn extract_layer_info(content: &str) -> (r: Vec<LayerInfo>)
    ensures
        r@.len() == spec_records(content@, 0).len(),
        forall|j: int|
            0 <= j < r@.len() ==> layer_info_matches(
                r@[j],
                spec_attrs(spec_records(content@, 0)[j], 0),
            ),
{
    let ghost s = content@;
    let length = content.unicode_len();
    let mut infos: Vec<LayerInfo> = Vec::new();
    let ghost mut recs: Seq<Seq<char>> = Seq::empty();
    proof {
        assert(recs + spec_records(s, 0) =~= spec_records(s, 0));
    }
    let mut i: usize = 0;
    while i < length
        invariant
            i <= length,
            length == s.len(),
            s == content@,
            spec_records(s, 0) == recs + spec_records(s, i as int),
            infos@.len() == recs.len(),
            forall|j: int|
                0 <= j < recs.len() ==> layer_info_matches(infos@[j], spec_attrs(recs[j], 0)),
        decreases length - i,
    {
        let mut next: usize = i + 1;
        if content.get_char(i) == '{' {
            let e = find_run_end(CharClass::RecordText, content, i + 1, length);
            if e < length && content.get_char(e) == '}' {
                let record_text = substring(content, i + 1, e);
                let info = parse_record(record_text.as_str());
                infos.push(info);
                proof {
                    let body = s.subrange(i as int + 1, e as int);
                    assert(spec_records(s, i as int) == seq![body] + spec_records(s, e as int + 1));
                    assert(recs + (seq![body] + spec_records(s, e as int + 1)) =~= recs.push(body)
                        + spec_records(s, e as int + 1));
                    recs = recs.push(body);
                }
                next = e + 1;
            }
        }
        i = next;
    }
    proof {
        assert(spec_records(s, length as int) =~= Seq::<Seq<char>>::empty());
        assert(recs + spec_records(s, length as int) =~= recs);
    }
    infos
}

} // verus!
