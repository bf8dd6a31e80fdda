use base64::Engine;
use brochat::avatar::{decode, encode};
use brochat::error::AppError;

#[test]
fn encode_decode_roundtrip() {
    let png = [0x89, b'P', b'N', b'G', 0x0D, 0x0A, 0x1A, 0x0A, 1, 2, 3];
    let url = encode(&png);
    assert!(url.starts_with("data:image/png;base64,"));
    let bytes = decode(Some(&url)).unwrap().unwrap();
    assert_eq!(bytes, png);

    let raw = base64::engine::general_purpose::STANDARD.encode(png);
    let bytes = decode(Some(&raw)).unwrap().unwrap();
    assert_eq!(bytes, png);

    let jpeg = [0xFF, 0xD8, 0xFF, 0xE0];
    assert!(encode(&jpeg).starts_with("data:image/jpeg;base64,"));

    assert!(decode(None).unwrap().is_none());

    assert!(decode(Some("!!not-base64!!")).is_err());
}

#[test]
fn mime_sniffing_and_exact_url() {
    assert_eq!(encode(b"GIF89a"), "data:image/gif;base64,R0lGODlh");
    assert_eq!(encode(&[1, 2, 3]), "data:application/octet-stream;base64,AQID");
    assert_eq!(encode(&[]), "data:application/octet-stream;base64,");
}

#[test]
fn decode_takes_part_after_first_comma_and_trims() {
    assert_eq!(decode(Some("data:x/y;base64, AQID \n")).unwrap().unwrap(), vec![1, 2, 3]);
    // a data URL without a comma is decoded whole, and fails
    assert!(decode(Some("data:AQID")).is_err());
    match decode(Some("***")) {
        Err(AppError::AvatarBase64(_)) => {}
        other => panic!("unexpected {:?}", other),
    }
}

#[test]
fn only_canonical_base64_decodes() {
    assert_eq!(decode(Some("QQ==")).unwrap(), Some(b"A".to_vec()));
    assert!(decode(Some("QQ")).is_err());
    assert!(decode(Some("QR==")).is_err());
}
