use base64::Engine;
use brochat::cards::png_chunks::{build_chunk, decode_chara_value, embed_chara, extract_chara};
use brochat::error::AppError;

fn fixture_png() -> Vec<u8> {
    let mut png = Vec::new();
    png.extend_from_slice(&[0x89, 0x50, 0x4E, 0x47, 0x0D, 0x0A, 0x1A, 0x0A]);
    let mut ihdr = Vec::new();
    ihdr.extend_from_slice(&1u32.to_be_bytes());
    ihdr.extend_from_slice(&1u32.to_be_bytes());
    ihdr.extend_from_slice(&[8, 6, 0, 0, 0]);
    png.extend_from_slice(&build_chunk(b"IHDR", &ihdr));
    png.extend_from_slice(&build_chunk(b"IDAT", &[0x78, 0x9C, 0x63, 0x00]));
    png.extend_from_slice(&build_chunk(b"IEND", &[]));
    png
}

fn count_chara_chunks(png: &[u8]) -> usize {
    let mut pos = 8;
    let mut count = 0;
    while pos + 8 <= png.len() {
        let len = u32::from_be_bytes(png[pos..pos + 4].try_into().unwrap()) as usize;
        let data_start = pos + 8;
        let data_end = data_start + len;
        if &png[pos + 4..pos + 8] == b"tEXt"
            && png[data_start..data_end]
                .iter()
                .position(|&b| b == 0)
                .map(|n| &png[data_start..data_start + n] == b"chara")
                .unwrap_or(false)
        {
            count += 1;
        }
        pos = data_end + 4;
    }
    count
}

#[test]
fn embed_extract_roundtrip() {
    let png = fixture_png();
    assert!(extract_chara(&png).unwrap().is_none());

    let json = r#"{"spec":"chara_card_v2","data":{"name":"测试"}}"#;
    let embedded = embed_chara(&png, json).unwrap();
    assert_eq!(extract_chara(&embedded).unwrap().unwrap(), json);

    let re_embedded = embed_chara(&embedded, json).unwrap();
    assert_eq!(extract_chara(&re_embedded).unwrap().unwrap(), json);
    let count = count_chara_chunks(&re_embedded);
    assert_eq!(count, 1);

    let iend_len = 12;
    assert_eq!(embedded[..png.len() - iend_len], png[..png.len() - iend_len]);
    assert_eq!(&embedded[embedded.len() - iend_len..], &png[png.len() - iend_len..]);
}

#[test]
fn tolerates_data_url_prefix() {
    let value = format!(
        "data:application/json;base64,{}",
        base64::engine::general_purpose::STANDARD.encode(r#"{"name":"前缀卡"}"#)
    );
    assert_eq!(decode_chara_value(&value).unwrap(), r#"{"name":"前缀卡"}"#);
    assert_eq!(
        decode_chara_value(&base64::engine::general_purpose::STANDARD.encode(r#"{"name":"纯卡"}"#)).unwrap(),
        r#"{"name":"纯卡"}"#
    );
}

#[test]
fn rejects_non_png() {
    assert!(extract_chara(b"not a png at all").is_err());
    assert!(embed_chara(b"nope", "{}").is_err());
}

#[test]
fn build_chunk_layout_and_crc() {
    let c = build_chunk(b"IEND", &[]);
    assert_eq!(c, vec![0, 0, 0, 0, 0x49, 0x45, 0x4E, 0x44, 0xAE, 0x42, 0x60, 0x82]);
}

#[test]
fn re_embedding_is_idempotent() {
    let png = fixture_png();
    let once = embed_chara(&png, "{}").unwrap();
    let twice = embed_chara(&once, "{}").unwrap();
    assert_eq!(once, twice);
}

#[test]
fn png_chunk_errors() {
    let mut sig_only = vec![0x89, 0x50, 0x4E, 0x47, 0x0D, 0x0A, 0x1A, 0x0A];
    assert_eq!(embed_chara(&sig_only, "{}"), Err(AppError::MissingIend));
    assert_eq!(extract_chara(&sig_only), Ok(None));
    // a chunk claiming more data than the file holds
    sig_only.extend_from_slice(&[0, 0, 1, 0, b'I', b'D', b'A', b'T', 1, 2]);
    assert_eq!(extract_chara(&sig_only), Err(AppError::ChunkOutOfBounds));
    assert_eq!(embed_chara(&sig_only, "{}"), Err(AppError::ChunkOutOfBounds));
    assert_eq!(extract_chara(b"short"), Err(AppError::NotPng));
}

#[test]
fn chara_value_errors() {
    assert!(matches!(decode_chara_value("%%%"), Err(AppError::CharaBase64(_))));
    let not_utf8 = base64::engine::general_purpose::STANDARD.encode([0xFFu8, 0xFE]);
    assert_eq!(decode_chara_value(&not_utf8), Err(AppError::CharaNotUtf8));
    // surrounding white space is ignored
    assert_eq!(decode_chara_value("  e30=\n").unwrap(), "{}");
}

#[test]
fn re_embedding_another_card_replaces_the_first() {
    let png = fixture_png();
    let once = embed_chara(&png, r#"{"name":"甲"}"#).unwrap();
    let twice = embed_chara(&once, r#"{"name":"乙"}"#).unwrap();
    assert_eq!(twice, embed_chara(&png, r#"{"name":"乙"}"#).unwrap());
    assert_eq!(count_chara_chunks(&twice), 1);
    assert_eq!(extract_chara(&twice).unwrap().as_deref(), Some(r#"{"name":"乙"}"#));
}

#[test]
fn card_chunk_goes_right_before_iend() {
    let png = fixture_png();
    let json = r#"{"name":"丙"}"#;
    let out = embed_chara(&png, json).unwrap();
    let mut data = b"chara\0".to_vec();
    data.extend_from_slice(base64::engine::general_purpose::STANDARD.encode(json.as_bytes()).as_bytes());
    let mut expected = png[..png.len() - 12].to_vec();
    expected.extend_from_slice(&build_chunk(b"tEXt", &data));
    expected.extend_from_slice(&png[png.len() - 12..]);
    assert_eq!(out, expected);
}
