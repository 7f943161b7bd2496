use ruach::attachment::{
    content_hash4, decode_data_url, finish_data_url, mime_to_ext, parse_data_url,
    AttachmentService, MAX_ATTACHMENT_BYTES,
};
use ruach::error::AppError;

use base64::Engine;

#[test]
fn mime_ext_mapping() {
    assert_eq!(mime_to_ext("image/png"), "png");
    assert_eq!(mime_to_ext("image/jpeg"), "jpg");
    assert_eq!(mime_to_ext("image/webp"), "webp");
    assert_eq!(mime_to_ext("application/pdf"), "bin");
}

#[test]
fn mime_ext_mapping_covers_all_images() {
    assert_eq!(mime_to_ext("image/gif"), "gif");
    assert_eq!(mime_to_ext("image/svg+xml"), "svg");
    assert_eq!(mime_to_ext("image/bmp"), "bmp");
    assert_eq!(mime_to_ext(""), "bin");
    assert_eq!(mime_to_ext("image/PNG"), "bin");
}

#[test]
fn decodes_data_url() {
    let b64 = base64::engine::general_purpose::STANDARD.encode("PNGDATA");
    let (bytes, mime) = decode_data_url(&format!("data:image/png;base64,{b64}")).unwrap();
    assert_eq!(bytes, b"PNGDATA");
    assert_eq!(mime, "image/png");
}

#[test]
fn rejects_bad_data_urls() {
    assert!(decode_data_url("not-a-url").is_err());
    assert!(decode_data_url("data:image/png,plain").is_err());
}

fn parse_message(r: Result<(Vec<u8>, String), AppError>) -> String {
    match r {
        Err(AppError::Parse(m)) => m,
        other => panic!("expected a parse error, got {:?}", other),
    }
}

#[test]
fn data_url_errors_name_the_problem() {
    assert_eq!(parse_message(decode_data_url("not-a-url")), "not a data url");
    assert_eq!(parse_message(decode_data_url("data:image/png;base64")), "data url missing comma");
    assert_eq!(
        parse_message(decode_data_url("data:image/png,plain")),
        "only base64 data urls supported"
    );
    let bad = parse_message(decode_data_url("data:image/png;base64,@@@@"));
    assert!(bad.starts_with("invalid base64: "));
    assert!(bad.len() > "invalid base64: ".len());
}

#[test]
fn data_url_mime_stops_at_first_semicolon() {
    let d = parse_data_url("data:text/plain;charset=utf-8;base64,aGk=").unwrap();
    assert_eq!(d.mime, "text/plain");
    assert_eq!(d.payload, "aGk=");
    let (bytes, mime) = decode_data_url("data:text/plain;charset=utf-8;base64,aGk=").unwrap();
    assert_eq!(bytes, b"hi");
    assert_eq!(mime, "text/plain");
    // The payload after the first comma is kept whole.
    let d = parse_data_url("data:;base64,a,b").unwrap();
    assert_eq!(d.mime, "");
    assert_eq!(d.payload, "a,b");
}

#[test]
fn finish_data_url_keeps_bytes_or_wraps_error() {
    match finish_data_url("image/gif".to_string(), Ok(vec![1, 2, 3])) {
        Ok((b, m)) => {
            assert_eq!(b, vec![1, 2, 3]);
            assert_eq!(m, "image/gif");
        }
        Err(e) => panic!("unexpected {:?}", e),
    }
    match finish_data_url("image/gif".to_string(), Err("boom".to_string())) {
        Err(AppError::Parse(m)) => assert_eq!(m, "invalid base64: boom"),
        other => panic!("unexpected {:?}", other),
    }
}

#[test]
fn content_hash_is_fnv1a_low_16_bits() {
    assert_eq!(content_hash4(b"AAAA"), "b719");
    assert_eq!(content_hash4(b"BBBB"), "5a25");
    assert_eq!(content_hash4(b""), "2325");
    assert_eq!(content_hash4(b"hello"), "bd0b");
}

#[test]
fn paste_names_follow_the_pattern() {
    let a = AttachmentService::paste_result(b"AAAA", "image/png", None, 1754188800123);
    assert_eq!(a.rel_path, "attachments/1754188800123-b719.png");
    let b = AttachmentService::paste_result(b"BBBB", "image/png", None, 1754188800123);
    assert_ne!(a.rel_path, b.rel_path);
    assert!(b.rel_path.starts_with("attachments/"));
    let c = AttachmentService::paste_result(b"AAAA", "image/png", None, 7);
    assert_eq!(c.rel_path, "attachments/7-b719.png");
}

#[test]
fn paste_keeps_plausible_own_extension() {
    assert_eq!(AttachmentService::paste_ext("image/png", Some("shot.webp")), "webp");
    assert_eq!(AttachmentService::paste_ext("image/png", Some("photo.jpeg")), "jpg");
    assert_eq!(AttachmentService::paste_ext("image/png", Some("notes.txt")), "png");
    assert_eq!(AttachmentService::paste_ext("image/gif", Some("noext")), "gif");
    assert_eq!(AttachmentService::paste_ext("application/pdf", None), "bin");
    let r = AttachmentService::paste_result(b"CCCC", "image/png", Some("shot.webp"), 1);
    assert!(r.rel_path.ends_with(".webp"));
}

#[test]
fn attachment_data_reads_mime_and_base64() {
    let d = AttachmentService::attachment_data("attachments/a.jpeg", b"hello").unwrap();
    assert_eq!(d.mime, "image/jpeg");
    assert_eq!(d.base64, "aGVsbG8=");
    let d = AttachmentService::attachment_data("attachments/a.svg", b"").unwrap();
    assert_eq!(d.mime, "image/svg+xml");
    assert_eq!(d.base64, "");
    let d = AttachmentService::attachment_data("attachments/blob", b"x").unwrap();
    assert_eq!(d.mime, "application/octet-stream");
    assert_eq!(d.base64, "eA==");
}

#[test]
fn attachment_read_refuses_paths_outside_the_vault() {
    match AttachmentService::attachment_data("../.ssh/id_rsa", b"secret") {
        Err(AppError::InvalidPath(p)) => assert_eq!(p, "../.ssh/id_rsa"),
        other => panic!("unexpected {:?}", other),
    }
    assert!(AttachmentService::attachment_data("/etc/passwd", b"x").is_err());
}

#[test]
fn oversized_data_urls_are_refused_before_decoding() {
    let mut url = String::from("data:image/png;base64,");
    url.push_str(&"A".repeat(64 * 1024 * 1024));
    assert_eq!(parse_message(decode_data_url(&url)), "data url too large");
    let small = format!("data:image/png;base64,{}", "AAAA".repeat(1000));
    assert!(decode_data_url(&small).is_ok());
}

#[test]
fn saved_paste_reads_back() {
    for (mime, expected) in [
        ("image/png", "image/png"),
        ("image/jpeg", "image/jpeg"),
        ("image/svg+xml", "image/svg+xml"),
        ("application/pdf", "application/octet-stream"),
    ] {
        let r = AttachmentService::paste_result(b"PNGDATA", mime, None, 1754188800123);
        let d = AttachmentService::attachment_data(&r.rel_path, b"PNGDATA").unwrap();
        assert_eq!(d.mime, expected);
        assert_eq!(d.base64, base64::engine::general_purpose::STANDARD.encode("PNGDATA"));
    }
}

#[test]
fn attachment_base64_groups_and_padding() {
    let d = AttachmentService::attachment_data("attachments/a.png", b"Man\xff").unwrap();
    assert_eq!(d.mime, "image/png");
    assert_eq!(d.base64, "TWFu/w==");
    let d = AttachmentService::attachment_data("attachments/a.png", b"Ma").unwrap();
    assert_eq!(d.base64, "TWE=");
}

#[test]
fn attachment_read_size_is_capped() {
    assert!(AttachmentService::check_attachment_size(MAX_ATTACHMENT_BYTES).is_ok());
    match AttachmentService::check_attachment_size(MAX_ATTACHMENT_BYTES + 1) {
        Err(AppError::Other(m)) => assert_eq!(m, "attachment too large"),
        other => panic!("unexpected {:?}", other),
    }
    let big = vec![0u8; MAX_ATTACHMENT_BYTES as usize + 1];
    match AttachmentService::attachment_data("attachments/big.png", &big) {
        Err(AppError::Other(m)) => assert_eq!(m, "attachment too large"),
        other => panic!("unexpected {:?}", other.map(|d| d.mime)),
    }
}
