use supernote_lib::block::{check_offset, get_content_at_address, read_uint_le};
use supernote_lib::error::ParseError;

#[test]
fn read_uint_le_reconstructs_little_endian() {
    let buffer = [0x34u8, 0x12u8, 0xffu8];
    assert_eq!(read_uint_le(&buffer, 0, 2), Ok(0x1234));
    assert_eq!(read_uint_le(&buffer, 1, 2), Ok(0xff12));
    assert_eq!(read_uint_le(&buffer, 0, 1), Ok(0x34));
    assert_eq!(read_uint_le(&buffer, 2, 1), Ok(0xff));
    assert_eq!(read_uint_le(&buffer, 0, 3), Ok(0xff1234));
}

#[test]
fn read_uint_le_full_width() {
    let buffer = [0xffu8; 8];
    assert_eq!(read_uint_le(&buffer, 0, 8), Ok(u64::MAX));
    let buffer = [0x01u8, 0, 0, 0, 0, 0, 0, 0x80u8];
    assert_eq!(read_uint_le(&buffer, 0, 8), Ok(0x8000_0000_0000_0001));
}

#[test]
fn read_uint_le_out_of_bounds() {
    let buffer = [1u8, 2u8, 3u8];
    assert_eq!(read_uint_le(&buffer, 2, 2), Err(ParseError::OutOfBounds));
    assert_eq!(read_uint_le(&buffer, 3, 1), Err(ParseError::OutOfBounds));
    assert_eq!(read_uint_le(&[], 0, 1), Err(ParseError::OutOfBounds));
}

#[test]
fn check_offset_matches_bounds() {
    assert!(check_offset(0, 3, 3));
    assert!(check_offset(1, 2, 3));
    assert!(!check_offset(2, 2, 3));
    assert!(!check_offset(0, 1, 0));
}

#[test]
fn absent_address_yields_no_content() {
    // Address 0 is the sentinel for "absent", whatever the buffer holds.
    let buffer = [9u8, 9, 9, 9];
    assert_eq!(get_content_at_address(&buffer, 0, 4), Ok(None));
    assert_eq!(get_content_at_address(&[], 0, 4), Ok(None));
}

#[test]
fn length_prefixed_block_round_trip() {
    // [2 pad bytes][4-byte LE length][payload] read back at its address.
    let payload = [0xaau8, 0xbbu8, 0xccu8];
    let mut buffer = vec![0u8, 0u8];
    buffer.extend_from_slice(&[3, 0, 0, 0]);
    buffer.extend_from_slice(&payload);
    assert_eq!(
        get_content_at_address(&buffer, 2, 4),
        Ok(Some(payload.to_vec()))
    );
}

#[test]
fn empty_block_round_trip() {
    let buffer = [0u8, 2, 0, 0, 0, 0];
    assert_eq!(get_content_at_address(&buffer, 2, 4), Ok(Some(Vec::new())));
}

#[test]
fn block_out_of_bounds() {
    // The length prefix itself is readable but promises more payload than
    // the buffer holds.
    let buffer = [0u8, 200, 0, 0, 0, 1, 2];
    assert_eq!(
        get_content_at_address(&buffer, 1, 4),
        Err(ParseError::OutOfBounds)
    );
    // The length prefix itself reaches past the end.
    let buffer = [0u8, 1, 0];
    assert_eq!(
        get_content_at_address(&buffer, 1, 4),
        Err(ParseError::OutOfBounds)
    );
}
