use asset_restore::png::read_dimensions;
use asset_restore::relocate::{png_rename_plan, restore_target_name, select_matching};
use asset_restore::errors::FileError;

fn png_bytes(width: u32, height: u32) -> Vec<u8> {
    let mut v: Vec<u8> = vec![0x89, 0x50, 0x4e, 0x47, 0x0d, 0x0a, 0x1a, 0x0a];
    v.extend_from_slice(&[0x00, 0x00, 0x00, 0x0d]);
    v.extend_from_slice(b"IHDR");
    v.extend_from_slice(&width.to_be_bytes());
    v.extend_from_slice(&height.to_be_bytes());
    v
}

#[test]
fn existing_extension_is_left_alone() {
    let existing: Vec<String> = vec!["baz.txt".to_string()];
    let content = b"any content".to_vec();
    assert_eq!(restore_target_name("baz.txt", &content, &existing), None);
}

#[test]
fn end_to_end_restoration_scenario() {
    let existing: Vec<String> =
        vec!["foo".to_string(), "bar".to_string(), "baz.txt".to_string()];
    let foo = png_bytes(10, 20);
    assert_eq!(read_dimensions(&foo).unwrap().width, 10);
    assert_eq!(
        restore_target_name("foo", &foo, &existing),
        Some("foo.png".to_string())
    );
    let bar = b"{\"a\":1}".to_vec();
    assert_eq!(
        restore_target_name("bar", &bar, &existing),
        Some("bar.json".to_string())
    );
    let baz = b"plain text".to_vec();
    assert_eq!(restore_target_name("baz.txt", &baz, &existing), None);
}

#[test]
fn restoration_avoids_collisions() {
    let existing: Vec<String> = vec!["foo".to_string(), "foo.png".to_string()];
    let foo = png_bytes(1, 1);
    assert_eq!(
        restore_target_name("foo", &foo, &existing),
        Some("foo_1.png".to_string())
    );
}

#[test]
fn selection_is_case_insensitive_and_dot_blind() {
    let names: Vec<String> = vec![
        "a.atlas".to_string(),
        "b.skel".to_string(),
        "c.ATLAS".to_string(),
        "plain".to_string(),
    ];
    let picked = select_matching(&names, ".atlas");
    assert_eq!(picked, vec!["a.atlas".to_string(), "c.ATLAS".to_string()]);
    let picked2 = select_matching(&names, "atlas");
    assert_eq!(picked2, picked);
}

#[test]
fn second_organize_pass_finds_nothing() {
    let names: Vec<String> = vec![
        "a.atlas".to_string(),
        "b.skel".to_string(),
        "c.ATLAS".to_string(),
        "plain".to_string(),
    ];
    let moved = select_matching(&names, "atlas");
    let leftover: Vec<String> =
        names.iter().filter(|n| !moved.contains(n)).cloned().collect();
    assert_eq!(leftover, vec!["b.skel".to_string(), "plain".to_string()]);
    let second = select_matching(&leftover, "atlas");
    assert!(second.is_empty());
}

#[test]
fn png_rename_plan_uses_dimensions() {
    let bytes = png_bytes(10, 20);
    let empty: Vec<String> = Vec::new();
    assert_eq!(
        png_rename_plan("art.png", &bytes, &empty),
        Ok(Some("size_10x20.png".to_string()))
    );
    let taken: Vec<String> = vec!["size_10x20.png".to_string()];
    assert_eq!(
        png_rename_plan("art.png", &bytes, &taken),
        Ok(Some("size_10x20_1.png".to_string()))
    );
    let broken = b"not a png".to_vec();
    assert_eq!(png_rename_plan("art.png", &broken, &empty), Err(FileError::FormatError));
}

#[test]
fn png_rename_is_idempotent() {
    let bytes = png_bytes(10, 20);
    let listing: Vec<String> = vec!["size_10x20.png".to_string(), "size_10x20_3.png".to_string()];
    assert_eq!(png_rename_plan("size_10x20.png", &bytes, &listing), Ok(None));
    assert_eq!(png_rename_plan("size_10x20_3.png", &bytes, &listing), Ok(None));
}

#[test]
fn png_rename_skips_only_its_own_size_names() {
    let bytes = png_bytes(10, 20);
    let empty: Vec<String> = Vec::new();
    assert_eq!(
        png_rename_plan("size_99x20.png", &bytes, &empty),
        Ok(Some("size_10x20.png".to_string()))
    );
    assert_eq!(
        png_rename_plan("size_10x20_03.png", &bytes, &empty),
        Ok(Some("size_10x20.png".to_string()))
    );
    assert_eq!(
        png_rename_plan("size_10x20_0.png", &bytes, &empty),
        Ok(Some("size_10x20.png".to_string()))
    );
    assert_eq!(
        png_rename_plan("size_10x20_.png", &bytes, &empty),
        Ok(Some("size_10x20.png".to_string()))
    );
    assert_eq!(
        png_rename_plan("size_10x20x.png", &bytes, &empty),
        Ok(Some("size_10x20.png".to_string()))
    );
}
