use std::io::Write;

use blog::upload::{accept_upload, decode_base64, hex_decode, text_from_bytes, PostUpload, UploadError};

fn compress(text: &str) -> Vec<u8> {
    let mut enc = bzip2::write::BzEncoder::new(Vec::new(), bzip2::Compression::default());
    enc.write_all(text.as_bytes()).unwrap();
    enc.finish().unwrap()
}

fn upload(content: String, overwrite: bool) -> PostUpload {
    PostUpload {
        title: "Title".to_string(),
        timestamp: 42,
        slug: "slug".to_string(),
        file_content_compressed: content,
        overwrite,
    }
}

#[test]
fn hex_decodes_pairs() {
    assert_eq!(hex_decode("6b697769").unwrap(), b"kiwi".to_vec());
    assert_eq!(hex_decode("6B69").unwrap(), b"ki".to_vec());
    assert_eq!(hex_decode("").unwrap(), Vec::<u8>::new());
    assert_eq!(hex_decode("00ff").unwrap(), vec![0u8, 255]);
}

#[test]
fn hex_refuses_odd_length_and_other_characters() {
    assert!(hex_decode("abc").is_none());
    assert!(hex_decode("zz").is_none());
    assert!(hex_decode("é1").is_none());
}

#[test]
fn base64_without_padding() {
    assert_eq!(decode_base64(b"aGVsbG8").unwrap(), "hello");
    assert!(matches!(decode_base64(b"aGVsbG8="), Err(UploadError::InvalidBase64(_))));
    assert!(matches!(decode_base64(b"/w"), Err(UploadError::InvalidUtf8)));
}

#[test]
fn text_needs_utf8() {
    assert_eq!(text_from_bytes(vec![104, 105]).unwrap(), "hi");
    assert!(matches!(text_from_bytes(vec![0xff]), Err(UploadError::InvalidUtf8)));
}

#[test]
fn accept_checks_target() {
    assert_eq!(accept_upload(b"# x".to_vec(), false, false).unwrap(), "# x");
    assert!(matches!(accept_upload(b"# x".to_vec(), false, true), Err(UploadError::AlreadyExistsError)));
    assert_eq!(accept_upload(b"# x".to_vec(), true, true).unwrap(), "# x");
    assert!(matches!(accept_upload(vec![0xc3], true, false), Err(UploadError::InvalidUtf8)));
}

#[test]
fn save_decodes_content() {
    let content = hex::encode(compress("# Hello\n\nworld"));
    assert_eq!(upload(content, false).save(false).unwrap(), "# Hello\n\nworld");
}

#[test]
fn save_refuses_existing_target_without_overwrite() {
    let content = hex::encode(compress("text"));
    assert!(matches!(upload(content.clone(), false).save(true), Err(UploadError::AlreadyExistsError)));
    assert_eq!(upload(content, true).save(true).unwrap(), "text");
}

#[test]
fn save_refuses_bad_encodings() {
    assert!(matches!(upload("xyz".to_string(), true).save(false), Err(UploadError::InvalidHex)));
    assert!(matches!(upload("00ff".to_string(), true).save(false), Err(UploadError::Decompression(_))));
}

#[test]
fn upload_metadata() {
    let p = upload(String::new(), false).metadata();
    assert_eq!(p.title, "Title");
    assert_eq!(p.timestamp, 42);
    assert_eq!(p.slug, "slug");
}
