use asset_restore::classify::{canonical_ext, classify, TypeTag};

#[test]
fn png_signature_wins_over_anything() {
    let mut v: Vec<u8> = vec![0x89, 0x50, 0x4e, 0x47, 0x0d, 0x0a, 0x1a, 0x0a];
    v.extend_from_slice(b"<?xml this is not xml at all");
    assert_eq!(classify(&v), TypeTag::Png);
    let sig_only: Vec<u8> = vec![0x89, 0x50, 0x4e, 0x47, 0x0d, 0x0a, 0x1a, 0x0a];
    assert_eq!(classify(&sig_only), TypeTag::Png);
}

#[test]
fn xml_declaration_in_header() {
    let v = b"<?xml version=\"1.0\"?><root/>".to_vec();
    assert_eq!(classify(&v), TypeTag::Xml);
    let d = b"<!DOCTYPE html><html></html>".to_vec();
    assert_eq!(classify(&d), TypeTag::Xml);
    let spaced = b"   <?xml version=\"1.0\"?>".to_vec();
    assert_eq!(classify(&spaced), TypeTag::Xml);
}

#[test]
fn plist_shapes_are_xml() {
    let dict = b"<plist>\n<dict><key>a</key></dict>\n</plist".to_vec();
    assert_eq!(classify(&dict), TypeTag::Xml);
    let bracketed = b"<a>hello</a>".to_vec();
    assert_eq!(classify(&bracketed), TypeTag::Xml);
}

#[test]
fn angle_start_without_xml_shape_falls_back() {
    let v = b"<- an arrow, then words".to_vec();
    assert_eq!(classify(&v), TypeTag::Atlas);
}

#[test]
fn json_object_and_array() {
    let obj = b"{\"a\":1}".to_vec();
    assert_eq!(classify(&obj), TypeTag::Json);
    let arr = b" [1, 2, 3] ".to_vec();
    assert_eq!(classify(&arr), TypeTag::Json);
}

#[test]
fn invalid_json_is_text_fallback() {
    let v = b"{not json at all".to_vec();
    assert_eq!(classify(&v), TypeTag::Atlas);
}

#[test]
fn text_and_binary_fallbacks() {
    let text = b"bone head\nslot arm\n".to_vec();
    assert_eq!(classify(&text), TypeTag::Atlas);
    let binary: Vec<u8> = vec![0xff, 0xfe, 0x00, 0x12];
    assert_eq!(classify(&binary), TypeTag::Skel);
    let empty: Vec<u8> = Vec::new();
    assert_eq!(classify(&empty), TypeTag::Atlas);
}

#[test]
fn valid_header_invalid_tail_is_binary() {
    let mut v = vec![b'a'; 64];
    v.push(0xff);
    assert_eq!(classify(&v), TypeTag::Skel);
}

#[test]
fn header_cut_mid_character_still_classifies() {
    let mut v = vec![b'a'; 63];
    v.extend_from_slice("é".as_bytes());
    v.extend_from_slice(b" more text");
    assert_eq!(classify(&v), TypeTag::Atlas);
}

#[test]
fn classification_is_deterministic() {
    let v = b"{\"k\": [true, null]}".to_vec();
    let first = classify(&v);
    let second = classify(&v);
    assert_eq!(first, second);
    assert_eq!(first, TypeTag::Json);
}

#[test]
fn canonical_extensions() {
    assert_eq!(canonical_ext(TypeTag::Png), Some("png"));
    assert_eq!(canonical_ext(TypeTag::Xml), Some("xml"));
    assert_eq!(canonical_ext(TypeTag::Json), Some("json"));
    assert_eq!(canonical_ext(TypeTag::Atlas), Some("atlas"));
    assert_eq!(canonical_ext(TypeTag::Skel), Some("skel"));
    assert_eq!(canonical_ext(TypeTag::Unknown), None);
}
