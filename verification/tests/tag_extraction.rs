use supernote_lib::error::ParseError;
use supernote_lib::tags::{extract_key_value, parse_key_value, uint8_array_to_string};

fn entry(key: &str, values: &[&str]) -> (String, Vec<String>) {
    (
        key.to_string(),
        values.iter().map(|v| v.to_string()).collect(),
    )
}

#[test]
fn duplicate_keys_accumulate_in_encounter_order() {
    let map = extract_key_value("<a:1><a:2>");
    assert_eq!(map, vec![entry("a", &["1", "2"])]);
}

#[test]
fn re_extraction_yields_identical_map() {
    let text = "<MODULE_LABEL:note><a:1>junk<a:2><b:x>";
    assert_eq!(extract_key_value(text), extract_key_value(text));
}

#[test]
fn non_tag_text_is_ignored() {
    let map = extract_key_value("xx<KEY:VALUE>yy<K2:V2>zz");
    assert_eq!(map, vec![entry("KEY", &["VALUE"]), entry("K2", &["V2"])]);
}

#[test]
fn malformed_tags_are_skipped() {
    assert_eq!(extract_key_value("<a:>"), Vec::new());
    assert_eq!(extract_key_value("<:b>"), Vec::new());
    assert_eq!(extract_key_value("<ab>"), Vec::new());
    assert_eq!(extract_key_value("<a:b:c>"), Vec::new());
    assert_eq!(extract_key_value("a:b>"), Vec::new());
    // An unclosed opener does not swallow the complete tag after it.
    assert_eq!(extract_key_value("<x<a:b>"), vec![entry("a", &["b"])]);
}

#[test]
fn multibyte_characters_scan_as_characters() {
    let map = extract_key_value("<clé:valé>");
    assert_eq!(map, vec![entry("clé", &["valé"])]);
}

#[test]
fn keys_keep_first_encounter_order() {
    let map = extract_key_value("<b:1><a:2><b:3>");
    assert_eq!(map, vec![entry("b", &["1", "3"]), entry("a", &["2"])]);
}

#[test]
fn parse_key_value_reads_a_block() {
    let text = b"<PAGESTYLE:style_white><PAGESTYLE:style_dot>";
    let mut buffer = vec![0u8];
    buffer.extend_from_slice(&[text.len() as u8, 0, 0, 0]);
    buffer.extend_from_slice(text);
    let map = parse_key_value(&buffer, 1, 4).unwrap();
    assert_eq!(map, vec![entry("PAGESTYLE", &["style_white", "style_dot"])]);
}

#[test]
fn parse_key_value_absent_address_is_empty() {
    let buffer = [9u8, 9, 9, 9, 9];
    assert_eq!(parse_key_value(&buffer, 0, 4), Ok(Vec::new()));
}

#[test]
fn parse_key_value_out_of_bounds() {
    let buffer = [0u8, 200, 0, 0, 0];
    assert_eq!(parse_key_value(&buffer, 1, 4), Err(ParseError::OutOfBounds));
}

#[test]
fn parse_key_value_bad_encoding() {
    let mut buffer = vec![0u8];
    buffer.extend_from_slice(&[2, 0, 0, 0]);
    buffer.extend_from_slice(&[0xffu8, 0xfe]);
    assert_eq!(
        parse_key_value(&buffer, 1, 4),
        Err(ParseError::EncodingError)
    );
}

#[test]
fn utf8_decoding_decodes_multibyte_text() {
    let bytes = "pagé<K:V>".as_bytes();
    assert_eq!(
        uint8_array_to_string(bytes),
        Ok("pagé<K:V>".to_string())
    );
    assert_eq!(
        uint8_array_to_string(&[0xff, 0xfe]),
        Err(ParseError::EncodingError)
    );
    assert_eq!(uint8_array_to_string(&[]), Ok(String::new()));
}
