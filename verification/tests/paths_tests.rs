use asset_restore::appstate::{join_path, parent_dir, AppState};
use asset_restore::decode::decode_best_effort;
use asset_restore::errors::FileError;

#[test]
fn state_places_destinations_beside_work_dir() {
    let state = AppState::new("work/miniRes".to_string());
    assert_eq!(state.work_dir, "work/miniRes");
    assert_eq!(state.atlas_dir, "work/atlas");
    assert_eq!(state.skels_dir, "work/skels");
}

#[test]
fn state_for_bare_and_rooted_paths() {
    let bare = AppState::new("miniRes".to_string());
    assert_eq!(bare.atlas_dir, "atlas");
    assert_eq!(bare.skels_dir, "skels");
    let rooted = AppState::new("/miniRes".to_string());
    assert_eq!(rooted.atlas_dir, "/atlas");
}

#[test]
fn path_helpers() {
    assert_eq!(parent_dir("a/b/c"), "a/b");
    assert_eq!(parent_dir("c"), "");
    assert_eq!(parent_dir("/c"), "/");
    assert_eq!(join_path("a", "b"), "a/b");
    assert_eq!(join_path("a/", "b"), "a/b");
    assert_eq!(join_path("", "b"), "b");
}

#[test]
fn parent_ignores_trailing_separators() {
    assert_eq!(parent_dir("x/"), "");
    assert_eq!(parent_dir("a/b/"), "a");
    assert_eq!(parent_dir("a/b//"), "a");
    assert_eq!(parent_dir("/"), "/");
    assert_eq!(parent_dir(""), "");
}

#[test]
fn state_ignores_trailing_separator_on_work_dir() {
    let state = AppState::new("work/miniRes/".to_string());
    assert_eq!(state.atlas_dir, "work/atlas");
    assert_eq!(state.skels_dir, "work/skels");
    let bare = AppState::new("miniRes/".to_string());
    assert_eq!(bare.atlas_dir, "atlas");
}

#[test]
fn error_descriptions() {
    assert_eq!(FileError::IoError.describe(), "read or rename failed");
    assert_eq!(FileError::DecodeError.describe(), "content is not valid text");
    assert_eq!(FileError::FormatError.describe(), "not a valid PNG header");
    assert_eq!(FileError::InvalidPath.describe(), "file name is not representable");
    assert_ne!(FileError::IoError, FileError::FormatError);
}

#[test]
fn best_effort_decode_reports_cleanliness() {
    let clean = b"hello".to_vec();
    let (text, ok) = decode_best_effort(&clean);
    assert!(ok);
    assert_eq!(text, "hello");
    let dirty: Vec<u8> = vec![b'h', 0xff, b'i'];
    let (text2, ok2) = decode_best_effort(&dirty);
    assert!(!ok2);
    assert_eq!(text2, "h\u{fffd}i");
}
