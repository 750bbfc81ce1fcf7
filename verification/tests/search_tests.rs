use asset_restore::search::{
    atlas_file_matches, content_matches_all, content_matches_term, skel_file_matches,
};

#[test]
fn all_terms_must_occur_in_any_order() {
    let terms: Vec<String> = vec!["a".to_string(), "b".to_string()];
    assert!(content_matches_all("xaybz", &terms));
    assert!(!content_matches_all("a", &terms));
}

#[test]
fn empty_term_set_matches_everything() {
    let terms: Vec<String> = Vec::new();
    assert!(content_matches_all("anything", &terms));
}

#[test]
fn matching_ignores_case() {
    assert!(content_matches_term("Hello World", "world"));
    assert!(content_matches_term("BIAOQING_YANSU", "biaoqing"));
    assert!(!content_matches_term("Hello World", "mars"));
}

#[test]
fn atlas_match_on_clean_text() {
    let clean = b"frame_2017,1937.png\n".to_vec();
    assert!(atlas_file_matches(&clean, "2017,1937"));
    assert!(!atlas_file_matches(&clean, "2048"));
}

#[test]
fn atlas_match_recovers_from_invalid_bytes() {
    let dirty: Vec<u8> = vec![b'a', 0xff, b'b'];
    assert!(atlas_file_matches(&dirty, "a"));
    assert!(atlas_file_matches(&dirty, "b"));
    assert!(!atlas_file_matches(&dirty, "ab"));
}

#[test]
fn skel_match_recovers_from_invalid_bytes() {
    let mut bytes: Vec<u8> = vec![0xff, 0xfe];
    bytes.extend_from_slice(b"bone_head");
    bytes.push(0xff);
    bytes.extend_from_slice(b"slot_arm");
    let both: Vec<String> = vec!["bone_head".to_string(), "slot_arm".to_string()];
    assert!(skel_file_matches(&bytes, &both));
    let missing: Vec<String> = vec!["bone_head".to_string(), "tail".to_string()];
    assert!(!skel_file_matches(&bytes, &missing));
}

#[test]
fn skel_match_on_clean_text() {
    let bytes = b"BIAOQING_jiangdongzhizhi biaoqing_yansu".to_vec();
    let terms: Vec<String> = vec![
        "biaoqing_jiangdongzhizhi".to_string(),
        "biaoqing_yansu".to_string(),
    ];
    assert!(skel_file_matches(&bytes, &terms));
}
