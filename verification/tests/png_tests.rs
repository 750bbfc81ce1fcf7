use asset_restore::errors::FileError;
use asset_restore::png::{check_png_signature, read_dimensions, Dimensions};

fn png_header(width: u32, height: u32) -> Vec<u8> {
    let mut v: Vec<u8> = vec![0x89, 0x50, 0x4e, 0x47, 0x0d, 0x0a, 0x1a, 0x0a];
    v.extend_from_slice(&[0x00, 0x00, 0x00, 0x0d]);
    v.extend_from_slice(b"IHDR");
    v.extend_from_slice(&width.to_be_bytes());
    v.extend_from_slice(&height.to_be_bytes());
    v
}

#[test]
fn reads_256_by_200() {
    let mut v: Vec<u8> = vec![0x89, 0x50, 0x4e, 0x47, 0x0d, 0x0a, 0x1a, 0x0a];
    v.extend_from_slice(&[0x00, 0x00, 0x00, 0x0d]);
    v.extend_from_slice(b"IHDR");
    v.extend_from_slice(&[0x00, 0x00, 0x01, 0x00, 0x00, 0x00, 0x00, 0xc8]);
    assert_eq!(read_dimensions(&v), Ok(Dimensions { width: 256, height: 200 }));
}

#[test]
fn reads_10_by_20() {
    let v = png_header(10, 20);
    assert_eq!(read_dimensions(&v), Ok(Dimensions { width: 10, height: 20 }));
}

#[test]
fn short_file_is_format_error() {
    let v: Vec<u8> = vec![0x89, 0x50, 0x4e, 0x47, 0x0d, 0x0a, 0x1a, 0x0a, 0x00];
    assert_eq!(read_dimensions(&v), Err(FileError::FormatError));
    let empty: Vec<u8> = Vec::new();
    assert_eq!(read_dimensions(&empty), Err(FileError::FormatError));
}

#[test]
fn wrong_chunk_type_is_format_error() {
    let mut v: Vec<u8> = vec![0x89, 0x50, 0x4e, 0x47, 0x0d, 0x0a, 0x1a, 0x0a];
    v.extend_from_slice(&[0x00, 0x00, 0x00, 0x0d]);
    v.extend_from_slice(b"IDAT");
    v.extend_from_slice(&[0x00, 0x00, 0x01, 0x00, 0x00, 0x00, 0x00, 0xc8]);
    assert_eq!(read_dimensions(&v), Err(FileError::FormatError));
}

#[test]
fn wrong_signature_is_format_error() {
    let mut v = png_header(10, 20);
    v[0] = 0x88;
    assert_eq!(read_dimensions(&v), Err(FileError::FormatError));
}

#[test]
fn signature_check() {
    assert!(check_png_signature(&png_header(1, 1)));
    let sig_only: Vec<u8> = vec![0x89, 0x50, 0x4e, 0x47, 0x0d, 0x0a, 0x1a, 0x0a];
    assert!(check_png_signature(&sig_only));
    let short: Vec<u8> = vec![0x89, 0x50];
    assert!(!check_png_signature(&short));
    let text: Vec<u8> = b"not a png".to_vec();
    assert!(!check_png_signature(&text));
}
