use mysqlssl_plugin::common::{
    blob_file_ref_path, decode_blob_wire_format, encode_blob, encode_blob_full, BlobSource,
    DEFAULT_MAX_BLOB_SIZE, MAX_BLOB_PREVIEW_SIZE,
};

fn inline_bytes(value: &str, max: u64) -> Option<Vec<u8>> {
    match decode_blob_wire_format(value, max) {
        Some(BlobSource::Inline(bytes)) => Some(bytes),
        _ => None,
    }
}

#[test]
fn full_blob_round_trips() {
    let data = b"hello world".to_vec();
    let text = encode_blob_full(&data);
    assert_eq!(text, "BLOB:11:application/octet-stream:aGVsbG8gd29ybGQ=");
    assert_eq!(inline_bytes(&text, 100), Some(data));
}

#[test]
fn empty_blob_encodes_size_zero() {
    assert_eq!(encode_blob_full(&[]), "BLOB:0:application/octet-stream:");
    assert_eq!(encode_blob(&[]), "BLOB:0:application/octet-stream:");
    assert_eq!(inline_bytes("BLOB:0:application/octet-stream:", 0), Some(Vec::new()));
}

#[test]
fn recognised_type_is_reported() {
    let png = [0x89u8, 0x50, 0x4E, 0x47, 0x0D, 0x0A, 0x1A, 0x0A, 0, 0, 0, 0];
    let text = encode_blob_full(&png);
    assert!(text.starts_with("BLOB:12:image/png:"));
    assert_eq!(inline_bytes(&text, 0), Some(png.to_vec()));
}

#[test]
fn preview_is_cut_but_size_is_full() {
    let data = vec![b'a'; MAX_BLOB_PREVIEW_SIZE + 10];
    let text = encode_blob(&data);
    assert!(text.starts_with("BLOB:4106:"));
    let preview = inline_bytes(&text, 0).unwrap();
    assert_eq!(preview.len(), MAX_BLOB_PREVIEW_SIZE);
    assert_eq!(encode_blob(&data[..100]), encode_blob_full(&data[..100]));
}

#[test]
fn malformed_inline_values_decode_to_nothing() {
    assert!(decode_blob_wire_format("hello", 10).is_none());
    assert!(decode_blob_wire_format("BLOB:", 10).is_none());
    assert!(decode_blob_wire_format("BLOB:12", 10).is_none());
    assert!(decode_blob_wire_format("BLOB:12:text/plain", 10).is_none());
    assert!(decode_blob_wire_format("BLOB:1:text/plain:!!!", 10).is_none());
    assert_eq!(inline_bytes("BLOB:x:y:aGk=", 10), Some(b"hi".to_vec()));
}

#[test]
fn payload_may_follow_any_size_text() {
    assert_eq!(inline_bytes("BLOB::text/plain:aGk=", 10), Some(b"hi".to_vec()));
}

#[test]
fn file_reference_yields_its_path() {
    assert_eq!(blob_file_ref_path("BLOB_FILE_REF:10:photo.png:/tmp/photo.png", 100), Ok("/tmp/photo.png".to_string()));
    assert_eq!(blob_file_ref_path("BLOB_FILE_REF:+10:a:C:/x:y", 10), Ok("C:/x:y".to_string()));
    match decode_blob_wire_format("BLOB_FILE_REF:5:n:/data/f.bin", 5) {
        Some(BlobSource::File(path)) => assert_eq!(path, "/data/f.bin"),
        _ => panic!("expected a file reference"),
    }
}

#[test]
fn file_reference_errors() {
    assert_eq!(blob_file_ref_path("BLOB:1:a:b", 10), Err("Not a BLOB_FILE_REF".to_string()));
    assert_eq!(blob_file_ref_path("BLOB_FILE_REF:10:only", 10), Err("Invalid BLOB_FILE_REF format".to_string()));
    assert_eq!(blob_file_ref_path("BLOB_FILE_REF:", 10), Err("Invalid BLOB_FILE_REF format".to_string()));
    assert_eq!(blob_file_ref_path("BLOB_FILE_REF:ten:a:b", 10), Err("Invalid file size in BLOB_FILE_REF".to_string()));
    assert_eq!(blob_file_ref_path("BLOB_FILE_REF::a:b", 10), Err("Invalid file size in BLOB_FILE_REF".to_string()));
    assert_eq!(blob_file_ref_path("BLOB_FILE_REF:-1:a:b", 10), Err("Invalid file size in BLOB_FILE_REF".to_string()));
    assert_eq!(
        blob_file_ref_path("BLOB_FILE_REF:18446744073709551616:a:b", u64::MAX),
        Err("Invalid file size in BLOB_FILE_REF".to_string())
    );
    assert_eq!(
        blob_file_ref_path("BLOB_FILE_REF:3145729:a:b", 2 * 1024 * 1024),
        Err("File size (3145729 bytes) exceeds maximum allowed size (2097152 bytes / 2MB)".to_string())
    );
    assert!(decode_blob_wire_format("BLOB_FILE_REF:3145729:a:b", 10).is_none());
}

#[test]
fn largest_size_parses() {
    assert_eq!(blob_file_ref_path("BLOB_FILE_REF:18446744073709551615:a:b", u64::MAX), Ok("b".to_string()));
}

#[test]
fn default_limit_is_one_hundred_mebibytes() {
    assert_eq!(DEFAULT_MAX_BLOB_SIZE, 100 * 1024 * 1024);
}
