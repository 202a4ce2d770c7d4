//! Character-level scanning helpers shared by the textual micro-parsers.
//!
//! The tag and layer-record grammars are both scanned left to right over the
//! characters of the decoded block text. Each grammar position admits a
//! character class; a scan repeatedly takes the maximal run of characters of
//! one class and then inspects the delimiter that ended it.

use vstd::prelude::*;

verus! {

/// The character classes of the textual sub-grammars: what a tag key or
/// value, a layer record body, or a record attribute key or value may hold.
#[derive(Clone, Copy, Debug, PartialEq, Eq, Structural)]
pub enum CharClass {
    /// A tag key or value: anything but `<`, `>` and `:`.
    TagText,
    /// A layer record body: anything but `{` and `}`.
    RecordText,
    /// A record attribute key: anything but `"`, `[`, `{`, `}` and `]`.
    AttrKey,
    /// A record attribute value: an attribute key character that is not `,`.
    AttrValue,
}

/// Whether `c` belongs to the class `k`.
pub open spec fn char_in_class(k: CharClass, c: char) -> bool {
    match k {
        CharClass::TagText => c != '<' && c != '>' && c != ':',
        CharClass::RecordText => c != '{' && c != '}',
        CharClass::AttrKey => c != '"' && c != '[' && c != '{' && c != '}' && c != ']',
        CharClass::AttrValue => c != '"' && c != '[' && c != '{' && c != '}' && c != ']'
            && c != ',',
    }
}

/// The first index at or after `i` whose character falls outside class `k`,
/// or the end of `s`: the maximal run of `k`-characters from `i` ends there.
pub open spec fn run_end(k: CharClass, s: Seq<char>, i: int) -> int
    decreases s.len() - i,
{
    if i < 0 || i >= s.len() {
        i
    } else if !char_in_class(k, s[i]) {
        i
    } else {
        run_end(k, s, i + 1)
    }
}

/// Whether `c` belongs to the class `k`, decided at run time.
pub fn char_in_class_exec(k: CharClass, c: char) -> (r: bool)
    ensures
        r == char_in_class(k, c),
{
    match k {
        CharClass::TagText => c != '<' && c != '>' && c != ':',
        CharClass::RecordText => c != '{' && c != '}',
        CharClass::AttrKey => c != '"' && c != '[' && c != '{' && c != '}' && c != ']',
        CharClass::AttrValue => c != '"' && c != '[' && c != '{' && c != '}' && c != ']'
            && c != ',',
    }
}

/// Finds the end of the maximal run of `k`-characters of `s` starting at
/// `start`; `length` is the character length of `s`.
pub fn find_run_end(k: CharClass, s: &str, start: usize, length: usize) -> (r: usize)
    requires
        length == s@.len(),
        start <= length,
    ensures
        r == run_end(k, s@, start as int),
        start <= r <= length,
{
    let mut j: usize = start;
    while j < length && char_in_class_exec(k, s.get_char(j))
        invariant
            start <= j <= length,
            length == s@.len(),
            run_end(k, s@, start as int) == run_end(k, s@, j as int),
        decreases length - j,
    {
        j = j + 1;
    }
    j
}

/// Whether two string slices spell the same characters.
pub fn str_eq(a: &str, b: &str) -> (r: bool)
    ensures
        r == (a@ == b@),
{
    let a_len = a.unicode_len();
    let b_len = b.unicode_len();
    if a_len != b_len {
        return false;
    }
    let mut j: usize = 0;
    while j < a_len
        invariant
            j <= a_len,
            a_len == a@.len(),
            b_len == b@.len(),
            a_len == b_len,
            forall|q: int| 0 <= q < j ==> a@[q] == b@[q],
        decreases a_len - j,
    {
        if a.get_char(j) != b.get_char(j) {
            return false;
        }
        j = j + 1;
    }
    proof {
        assert(a@ =~= b@);
    }
    true
}

/// Whether the characters of `s` start with those of `p`.
pub open spec fn spec_starts_with(s: Seq<char>, p: Seq<char>) -> bool {
    p.len() <= s.len() && s.subrange(0, p.len() as int) == p
}

/// Whether the string slice `s` starts with the prefix `p`.
pub fn str_starts_with(s: &str, p: &str) -> (r: bool)
    ensures
        r == spec_starts_with(s@, p@),
{
    let s_len = s.unicode_len();
    let p_len = p.unicode_len();
    if p_len > s_len {
        return false;
    }
    let mut j: usize = 0;
    while j < p_len
        invariant
            j <= p_len <= s_len,
            s_len == s@.len(),
            p_len == p@.len(),
            forall|q: int| 0 <= q < j ==> s@[q] == p@[q],
        decreases p_len - j,
    {
        if s.get_char(j) != p.get_char(j) {
            proof {
                assert(s@.subrange(0, p@.len() as int)[j as int] != p@[j as int]);
            }
            return false;
        }
        j = j + 1;
    }
    proof {
        assert(s@.subrange(0, p@.len() as int) =~= p@);
    }
    true
}

/// The first index at or after `i` where `s` holds the character `c`, or
/// `-1` when no later character of `s` is `c`.
pub open spec fn first_index_of(s: Seq<char>, c: char, i: int) -> int
    decreases s.len() - i,
{
    if i < 0 || i >= s.len() {
        -1
    } else if s[i] == c {
        i
    } else {
        first_index_of(s, c, i + 1)
    }
}

/// A found index points at `c` and nothing before it (from the start of the
/// search) is `c`; `-1` means `c` does not occur at or after `i`.
pub proof fn lemma_first_index_of(s: Seq<char>, c: char, i: int)
    requires
        0 <= i <= s.len(),
    ensures
        first_index_of(s, c, i) == -1 ==> forall|j: int| i <= j < s.len() ==> s[j] != c,
        first_index_of(s, c, i) != -1 ==> i <= first_index_of(s, c, i) < s.len()
            && s[first_index_of(s, c, i)] == c && forall|j: int|
            i <= j < first_index_of(s, c, i) ==> s[j] != c,
    decreases s.len() - i,
{
    if i < s.len() && s[i] != c {
        lemma_first_index_of(s, c, i + 1);
    }
}

/// Finds the first occurrence of the character `c` in `s`.
pub fn find_char(s: &str, c: char) -> (r: Option<usize>)
    ensures
        match r {
            Some(j) => j as int == first_index_of(s@, c, 0),
            None => first_index_of(s@, c, 0) == -1,
        },
{
    let length = s.unicode_len();
    let mut j: usize = 0;
    while j < length
        invariant
            j <= length,
            length == s@.len(),
            first_index_of(s@, c, 0) == first_index_of(s@, c, j as int),
        decreases length - j,
    {
        if s.get_char(j) == c {
            return Some(j);
        }
        j = j + 1;
    }
    None
}

/// Copies the characters `from..to` of `s` into an owned string.
pub fn substring(s: &str, from: usize, to: usize) -> (r: String)
    requires
        from <= to <= s@.len(),
    ensures
        r@ == s@.subrange(from as int, to as int),
{
    s.substring_char(from, to).to_owned()
}

} // verus!
