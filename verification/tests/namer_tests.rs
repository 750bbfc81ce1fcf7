use asset_restore::names::{
    has_extension, make_candidate, name_matches_query, next_free_move_name, next_free_name,
    size_stem, split_name,
};

#[test]
fn takes_first_free_suffix() {
    let existing: Vec<String> = vec![
        "data.png".to_string(),
        "data_1.png".to_string(),
        "data_2.png".to_string(),
    ];
    assert_eq!(next_free_name("data", "png", &existing), "data_3.png");
}

#[test]
fn unsuffixed_name_when_free() {
    let existing: Vec<String> = Vec::new();
    assert_eq!(next_free_name("data", "png", &existing), "data.png");
}

#[test]
fn first_gap_wins() {
    let existing: Vec<String> = vec!["data.png".to_string(), "data_2.png".to_string()];
    assert_eq!(next_free_name("data", "png", &existing), "data_1.png");
}

#[test]
fn namer_is_deterministic() {
    let existing: Vec<String> = vec!["a.skel".to_string(), "a_1.skel".to_string()];
    let first = next_free_name("a", "skel", &existing);
    let second = next_free_name("a", "skel", &existing);
    assert_eq!(first, second);
    assert_eq!(first, "a_2.skel");
}

#[test]
fn move_name_keeps_base_when_free() {
    let existing: Vec<String> = Vec::new();
    assert_eq!(next_free_move_name("a.atlas", &existing), "a.atlas");
}

#[test]
fn move_name_suffixes_on_collision() {
    let existing: Vec<String> = vec!["a.atlas".to_string()];
    assert_eq!(next_free_move_name("a.atlas", &existing), "a_1.atlas");
    let more: Vec<String> = vec!["a.atlas".to_string(), "a_1.atlas".to_string()];
    assert_eq!(next_free_move_name("a.atlas", &more), "a_2.atlas");
}

#[test]
fn candidate_shapes() {
    assert_eq!(make_candidate("s", "ext", 0), "s.ext");
    assert_eq!(make_candidate("s", "ext", 1), "s_1.ext");
    assert_eq!(make_candidate("s", "ext", 12), "s_12.ext");
    assert_eq!(make_candidate("s", "ext", 305), "s_305.ext");
}

#[test]
fn extension_split() {
    assert!(!has_extension("foo"));
    assert!(has_extension("foo.png"));
    assert!(!has_extension(".bashrc"));
    assert!(has_extension("a.b.c"));
    let (stem, ext) = split_name("archive.tar.gz");
    assert_eq!(stem, "archive.tar");
    assert_eq!(ext, Some("gz".to_string()));
    let (stem2, ext2) = split_name("plain");
    assert_eq!(stem2, "plain");
    assert_eq!(ext2, None);
    let (stem3, ext3) = split_name("trailing.");
    assert_eq!(stem3, "trailing");
    assert_eq!(ext3, Some(String::new()));
}

#[test]
fn query_matching() {
    assert!(name_matches_query("X.PNG", "png"));
    assert!(name_matches_query("x.png", ".png"));
    assert!(name_matches_query("x.png", "PNG"));
    assert!(!name_matches_query("x.txt", "png"));
    assert!(!name_matches_query("noext", "png"));
}

#[test]
fn size_stem_shape() {
    assert_eq!(size_stem(10, 20), "size_10x20");
    assert_eq!(size_stem(0, 4096), "size_0x4096");
}
