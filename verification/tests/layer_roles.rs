use supernote_lib::error::ParseError;
use supernote_lib::model::LayerNames;

#[test]
fn known_roles_parse() {
    assert_eq!(LayerNames::from_text("MAINLAYER"), Ok(LayerNames::MainLayer));
    assert_eq!(LayerNames::from_text("LAYER1"), Ok(LayerNames::Layer1));
    assert_eq!(LayerNames::from_text("LAYER2"), Ok(LayerNames::Layer2));
    assert_eq!(LayerNames::from_text("LAYER3"), Ok(LayerNames::Layer3));
    assert_eq!(LayerNames::from_text("BGLAYER"), Ok(LayerNames::BgLayer));
}

#[test]
fn unknown_role_is_surfaced_not_dropped() {
    assert_eq!(
        LayerNames::from_text("WATERMARK"),
        Err(ParseError::UnknownLayerRole)
    );
    assert_eq!(
        LayerNames::from_text("mainlayer"),
        Err(ParseError::UnknownLayerRole)
    );
    assert_eq!(
        LayerNames::from_text(""),
        Err(ParseError::UnknownLayerRole)
    );
}

#[test]
fn errors_describe_themselves() {
    assert_eq!(
        ParseError::OutOfBounds.describe(),
        "access beyond buffer length"
    );
    assert_eq!(
        ParseError::EncodingError.describe(),
        "block payload is not valid UTF-8"
    );
    assert_eq!(
        ParseError::UnknownLayerRole.describe(),
        "unrecognized layer role"
    );
}
