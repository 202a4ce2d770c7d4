//! Block reader: bounds-checked little-endian integer decoding and
//! length-prefixed block extraction from a byte buffer.
//!
//! Every higher-level field of the format is reached through the same
//! two-step indirection: an address-table entry gives the offset of a block,
//! the block starts with a fixed-width little-endian length field, and the
//! payload follows it verbatim. Centralizing the bounds checks here keeps the
//! rest of the kernel free of unchecked arithmetic: out-of-range access is
//! reported as [`ParseError::OutOfBounds`], never clamped or truncated.

use crate::error::ParseError;
use vstd::prelude::*;
use vstd::slice::{slice_index_get, slice_subrange, slice_to_vec};

verus! {

/// The little-endian unsigned value of the `width` bytes of `s` that start at
/// `off`: the byte at `off` is the least significant.
pub open spec fn le_bytes(s: Seq<u8>, off: int, width: int) -> int
    decreases width,
{
    if width <= 0 {
        0
    } else {
        s[off] + 256 * le_bytes(s, off + 1, width - 1)
    }
}

/// `256^w` for `w >= 0`: the number of values a `w`-byte field can hold.
pub open spec fn pow256(w: int) -> int
    decreases w,
{
    if w <= 0 {
        1
    } else {
        256 * pow256(w - 1)
    }
}

/// `pow256` is positive.
pub proof fn lemma_pow256_pos(a: int)
    ensures
        0 < pow256(a),
    decreases (if a <= 0 { 0int } else { a }),
{
    if a > 0 {
        lemma_pow256_pos(a - 1);
    }
}

/// `pow256` is positive and grows with its argument.
pub proof fn lemma_pow256_monotonic(a: int, b: int)
    requires
        a <= b,
    ensures
        0 < pow256(a) <= pow256(b),
    decreases b - a,
{
    lemma_pow256_pos(a);
    if a < b {
        lemma_pow256_monotonic(a, b - 1);
        lemma_pow256_pos(b - 1);
    }
}

/// The positional form of the little-endian value: the sum of
/// `s[off + i] * 256^i` over `i` in `[0, width)`.
pub open spec fn le_bytes_positional(s: Seq<u8>, off: int, width: int) -> int
    decreases width,
{
    if width <= 0 {
        0
    } else {
        le_bytes_positional(s, off, width - 1) + s[off + width - 1] * pow256(width - 1)
    }
}

/// Splitting off the least significant byte of the positional sum.
proof fn lemma_positional_shift(s: Seq<u8>, off: int, width: int)
    requires
        width >= 1,
    ensures
        le_bytes_positional(s, off, width) == s[off] + 256 * le_bytes_positional(
            s,
            off + 1,
            width - 1,
        ),
    decreases width,
{
    if width == 1 {
        assert(le_bytes_positional(s, off, 0) == 0);
        assert(le_bytes_positional(s, off + 1, 0) == 0);
        assert(pow256(0) == 1);
        assert(le_bytes_positional(s, off, 1) == 0 + s[off] * 1);
    } else {
        lemma_positional_shift(s, off, width - 1);
        let a = le_bytes_positional(s, off + 1, width - 2);
        let b = s[off + width - 1] as int;
        let p = pow256(width - 2);
        assert(256 * (a + b * p) == 256 * a + b * (256 * p)) by (nonlinear_arith);
        assert(pow256(width - 1) == 256 * p);
        assert(le_bytes_positional(s, off + 1, width - 1) == a + b * p);
        assert(le_bytes_positional(s, off, width) == le_bytes_positional(s, off, width - 1) + b
            * (256 * p));
        assert(le_bytes_positional(s, off, width - 1) == s[off] + 256 * a);
    }
}

/// Law: the little-endian reconstruction is the positional sum of its
/// bytes weighted by powers of 256: `le_bytes(s, off, width)` equals the
/// sum of `s[off + i] * 256^i` over `i` in `[0, width)`.
pub proof fn lemma_le_bytes_is_positional_sum(s: Seq<u8>, off: int, width: int)
    ensures
        le_bytes(s, off, width) == le_bytes_positional(s, off, width),
    decreases width,
{
    if width >= 1 {
        lemma_le_bytes_is_positional_sum(s, off + 1, width - 1);
        lemma_positional_shift(s, off, width);
    }
}

/// Whether reading `ext` bytes at `offset` stays inside a buffer of length
/// `length`.
pub fn check_offset(offset: usize, ext: usize, length: usize) -> (ok: bool)
    ensures
        ok <==> offset + ext <= length,
{
    ext <= length && offset <= length - ext
}

/// Decodes the `byte_length` bytes of `data` starting at `offset` as a
/// little-endian unsigned integer; out-of-range access is reported, and no
/// byte outside the buffer is touched.
pub fn read_uint_le(data: &[u8], offset: usize, byte_length: usize) -> (r: Result<
    u64,
    ParseError,
>)
    requires
        1 <= byte_length <= 8,
    ensures
        r is Ok <==> offset + byte_length <= data@.len(),
        r is Ok ==> r->Ok_0 == le_bytes(data@, offset as int, byte_length as int),
        r is Err ==> r->Err_0 == ParseError::OutOfBounds,
{
    let data_length = data.len();
    if !check_offset(offset, byte_length, data_length) {
        return Err(ParseError::OutOfBounds);
    }
    let mut val: u64 = 0;
    let mut i: usize = byte_length;
    while i > 0
        invariant
            1 <= byte_length <= 8,
            offset + byte_length <= data_length,
            data_length == data@.len(),
            i <= byte_length,
            val == le_bytes(data@, offset + i, byte_length - i),
            val < pow256(byte_length - i),
        decreases i,
    {
        i = i - 1;
        let b: u8 = *slice_index_get(data, offset + i);
        proof {
            lemma_pow256_monotonic(byte_length - i, 8);
            reveal_with_fuel(pow256, 9);
            assert(pow256(8) == 0x1_0000_0000_0000_0000);
        }
        val = val * 256 + (b as u64);
    }
    Ok(val)
}

/// What `get_content_at_address` yields on a buffer `s`: `None` for the
/// absent-address sentinel `0`; otherwise the `le_bytes(s, address, width)`
/// payload bytes that follow the `width`-byte length prefix at `address`, or
/// `OutOfBounds` when the prefix or the payload reaches past the end of `s`.
pub open spec fn spec_block_at(s: Seq<u8>, address: int, width: int) -> Result<
    Option<Seq<u8>>,
    ParseError,
> {
    if address == 0 {
        Ok(None)
    } else if address + width > s.len() {
        Err(ParseError::OutOfBounds)
    } else {
        let len = le_bytes(s, address, width);
        if address + width + len > s.len() {
            Err(ParseError::OutOfBounds)
        } else {
            Ok(Some(s.subrange(address + width, address + width + len)))
        }
    }
}

/// Returns the payload of the length-prefixed block at `address`, with
/// address `0` as the sentinel for "absent" (no content, not an error).
/// Any out-of-range computation aborts with `OutOfBounds`.
pub fn get_content_at_address(buffer: &[u8], address: usize, byte_length: usize) -> (r: Result<
    Option<Vec<u8>>,
    ParseError,
>)
    requires
        1 <= byte_length <= 8,
    ensures
        match r {
            Ok(Some(content)) => spec_block_at(buffer@, address as int, byte_length as int)
                == Ok::<Option<Seq<u8>>, ParseError>(Some(content@)),
            Ok(None) => spec_block_at(buffer@, address as int, byte_length as int) == Ok::<
                Option<Seq<u8>>,
                ParseError,
            >(None),
            Err(e) => spec_block_at(buffer@, address as int, byte_length as int) == Err::<
                Option<Seq<u8>>,
                ParseError,
            >(e),
        },
{
    if address == 0 {
        return Ok(None);
    }
    let block_length = match read_uint_le(buffer, address, byte_length) {
        Ok(v) => v,
        Err(e) => {
            return Err(e);
        },
    };
    let buffer_length = buffer.len();
    let start = address + byte_length;
    if block_length > (buffer_length - start) as u64 {
        return Err(ParseError::OutOfBounds);
    }
    let content = slice_to_vec(slice_subrange(buffer, start, start + (block_length as usize)));
    Ok(Some(content))
}

/// Law: writing a block as `[length][payload]` and reading it back yields
/// exactly the payload. If the `width` bytes at a non-zero `address` of `s`
/// encode `payload.len()` and the bytes after them spell `payload`, then the
/// block at `address` is read as `payload`.
pub proof fn lemma_block_round_trip(s: Seq<u8>, address: int, width: int, payload: Seq<u8>)
    requires
        1 <= width <= 8,
        0 < address,
        address + width + payload.len() <= s.len(),
        le_bytes(s, address, width) == payload.len(),
        s.subrange(address + width, address + width + payload.len() as int) == payload,
    ensures
        spec_block_at(s, address, width) == Ok::<Option<Seq<u8>>, ParseError>(Some(payload)),
{
}

} // verus!
