use supernote_lib::layers::{extract_layer_info, parse_i32_or_zero, LayerInfo};

fn default_info() -> LayerInfo {
    LayerInfo {
        layer_id: 0,
        name: "Main layer".to_string(),
        is_background_layer: false,
        is_allow_add: false,
        is_current_layer: false,
        is_visible: false,
        is_deleted: false,
        is_allow_up: false,
        is_allow_down: false,
    }
}

#[test]
fn decodes_one_record() {
    let infos = extract_layer_info(r##"{"layerId"#"2","name"#"Layer1","isVisible"#"true"}"##);
    let expected = LayerInfo {
        layer_id: 2,
        name: "Layer1".to_string(),
        is_visible: true,
        ..default_info()
    };
    assert_eq!(infos, vec![expected]);
}

#[test]
fn empty_record_yields_all_defaults() {
    let infos = extract_layer_info("{}");
    assert_eq!(infos, vec![default_info()]);
}

#[test]
fn adjacent_records_decode_in_order() {
    let infos = extract_layer_info(r##"{"name"#"First"}{"name"#"Second"}"##);
    assert_eq!(infos.len(), 2);
    assert_eq!(infos[0].name, "First");
    assert_eq!(infos[1].name, "Second");
}

#[test]
fn no_record_yields_no_info() {
    assert_eq!(extract_layer_info(""), Vec::new());
    assert_eq!(extract_layer_info(r##""name"#"x""##), Vec::new());
    // An unterminated opener is no record.
    assert_eq!(extract_layer_info(r##"{"name"#"x""##), Vec::new());
}

#[test]
fn unrecognized_attributes_are_ignored() {
    let infos = extract_layer_info(r##"{"mystery"#"7","isDeleted"#"true"}"##);
    let expected = LayerInfo {
        is_deleted: true,
        ..default_info()
    };
    assert_eq!(infos, vec![expected]);
}

#[test]
fn booleans_parse_case_sensitively() {
    let infos = extract_layer_info(r##"{"isVisible"#"TRUE","isAllowAdd"#"True"}"##);
    assert_eq!(infos, vec![default_info()]);
}

#[test]
fn repeated_attribute_keeps_last_value() {
    let infos = extract_layer_info(r##"{"name"#"One","name"#"Two"}"##);
    assert_eq!(infos[0].name, "Two");
}

#[test]
fn all_flags_decode() {
    let text = r##"{"layerId"#"-3","name"#"BG","isBackgroundLayer"#"true","isAllowAdd"#"true","isCurrentLayer"#"true","isVisible"#"true","isDeleted"#"true","isAllowUp"#"true","isAllowDown"#"true"}"##;
    let expected = LayerInfo {
        layer_id: -3,
        name: "BG".to_string(),
        is_background_layer: true,
        is_allow_add: true,
        is_current_layer: true,
        is_visible: true,
        is_deleted: true,
        is_allow_up: true,
        is_allow_down: true,
    };
    assert_eq!(extract_layer_info(text), vec![expected]);
}

#[test]
fn layer_id_parses_signed_integers() {
    assert_eq!(parse_i32_or_zero("2"), 2);
    assert_eq!(parse_i32_or_zero("-5"), -5);
    assert_eq!(parse_i32_or_zero("+7"), 7);
    assert_eq!(parse_i32_or_zero("0012"), 12);
    assert_eq!(parse_i32_or_zero("2147483647"), i32::MAX);
    assert_eq!(parse_i32_or_zero("-2147483648"), i32::MIN);
}

#[test]
fn layer_id_defaults_to_zero_when_unparsable() {
    assert_eq!(parse_i32_or_zero(""), 0);
    assert_eq!(parse_i32_or_zero("-"), 0);
    assert_eq!(parse_i32_or_zero("x7"), 0);
    assert_eq!(parse_i32_or_zero("7x"), 0);
    assert_eq!(parse_i32_or_zero("2147483648"), 0);
    assert_eq!(parse_i32_or_zero("-2147483649"), 0);
    assert_eq!(parse_i32_or_zero("99999999999999999999"), 0);
    let infos = extract_layer_info(r##"{"layerId"#"abc"}"##);
    assert_eq!(infos[0].layer_id, 0);
}
