//! Byte encodings used by card files: base64 (RFC 4648, standard alphabet,
//! padded), CRC-32 (IEEE) and UTF-8 decoding.

use base64::Engine;
use vstd::prelude::*;
use vstd::utf8::{decode_utf8, encode_utf8, valid_utf8};

verus! {

/// The base64 digit for a 6-bit value.
pub open spec fn base64_digit(v: int) -> char {
    if v < 26 {
        (65 + v) as char
    } else if v < 52 {
        (97 + v - 26) as char
    } else if v < 62 {
        (48 + v - 52) as char
    } else if v == 62 {
        '+'
    } else {
        '/'
    }
}

/// Standard padded base64 of `b`.
pub open spec fn base64_encode(b: Seq<u8>) -> Seq<char>
    decreases b.len(),
{
    if b.len() == 0 {
        seq![]
    } else if b.len() == 1 {
        seq![base64_digit((b[0] as int) / 4), base64_digit(((b[0] as int) % 4) * 16), '=', '=']
    } else if b.len() == 2 {
        seq![
            base64_digit((b[0] as int) / 4),
            base64_digit(((b[0] as int) % 4) * 16 + (b[1] as int) / 16),
            base64_digit(((b[1] as int) % 16) * 4),
            '=',
        ]
    } else {
        seq![
            base64_digit((b[0] as int) / 4),
            base64_digit(((b[0] as int) % 4) * 16 + (b[1] as int) / 16),
            base64_digit(((b[1] as int) % 16) * 4 + (b[2] as int) / 64),
            base64_digit((b[2] as int) % 64),
        ] + base64_encode(b.skip(3))
    }
}

/// What the standard padded base64 decoder yields for the text bytes `t`,
/// if they decode.
pub uninterp spec fn base64_decoded(t: Seq<u8>) -> Option<Seq<u8>>;

/// The decoder's message when `t` does not decode.
pub uninterp spec fn base64_error_text(t: Seq<u8>) -> Seq<char>;

/// Calls `base64::engine::general_purpose::STANDARD.encode`. Claimed: the
/// text is the standard padded base64 alphabet encoding of the bytes, three
/// bytes to four digits, and the same engine decodes it back to the bytes.
#[verifier::external_body]
pub(crate) fn base64_encode_bytes(b: &[u8]) -> (r: String)
    ensures
        r@ == base64_encode(b@),
        base64_decoded(encode_utf8(r@)) == Some(b@),
{
    base64::engine::general_purpose::STANDARD.encode(b)
}

/// Calls `base64::engine::general_purpose::STANDARD.decode`. Claimed: the
/// engine requires canonical padding and zero trailing bits, so a text
/// decodes exactly when it is the standard encoding of some bytes, and then
/// to those bytes; on failure the result is the decoder's message.
#[verifier::external_body]
pub(crate) fn base64_decode_bytes(t: &[u8]) -> (r: Result<Vec<u8>, String>)
    ensures
        match r {
            Ok(v) => base64_decoded(t@) == Some(v@) && t@ == encode_utf8(base64_encode(v@)),
            Err(m) => base64_decoded(t@) is None && m@ == base64_error_text(t@)
                && forall|b: Seq<u8>| t@ != encode_utf8(#[trigger] base64_encode(b)),
        },
{
    base64::engine::general_purpose::STANDARD.decode(t).map_err(|e| e.to_string())
}

/// A character base64 output can contain.
pub open spec fn is_base64_char(c: char) -> bool {
    ('A' <= c && c <= 'Z') || ('a' <= c && c <= 'z') || ('0' <= c && c <= '9') || c == '+' || c
        == '/' || c == '='
}

proof fn lemma_base64_digit(v: int)
    requires
        0 <= v < 64,
    ensures
        is_base64_char(base64_digit(v)),
{
}

/// Base64 output holds only digits and padding.
pub proof fn lemma_base64_chars(b: Seq<u8>)
    ensures
        forall|i: int| 0 <= i < base64_encode(b).len() ==> is_base64_char(#[trigger] base64_encode(b)[i]),
    decreases b.len(),
{
    if b.len() >= 3 {
        lemma_base64_chars(b.skip(3));
        lemma_base64_digit((b[0] as int) / 4);
        lemma_base64_digit(((b[0] as int) % 4) * 16 + (b[1] as int) / 16);
        lemma_base64_digit(((b[1] as int) % 16) * 4 + (b[2] as int) / 64);
        lemma_base64_digit((b[2] as int) % 64);
        let head = seq![
            base64_digit((b[0] as int) / 4),
            base64_digit(((b[0] as int) % 4) * 16 + (b[1] as int) / 16),
            base64_digit(((b[1] as int) % 16) * 4 + (b[2] as int) / 64),
            base64_digit((b[2] as int) % 64),
        ];
        assert forall|i: int| 0 <= i < base64_encode(b).len() implies is_base64_char(#[trigger] base64_encode(b)[i]) by {
            if i >= 4 {
                assert(base64_encode(b)[i] == base64_encode(b.skip(3))[i - 4]);
            } else {
                assert(base64_encode(b)[i] == head[i]);
            }
        }
    } else if b.len() == 2 {
        lemma_base64_digit((b[0] as int) / 4);
        lemma_base64_digit(((b[0] as int) % 4) * 16 + (b[1] as int) / 16);
        lemma_base64_digit(((b[1] as int) % 16) * 4);
    } else if b.len() == 1 {
        lemma_base64_digit((b[0] as int) / 4);
        lemma_base64_digit(((b[0] as int) % 4) * 16);
    }
}

/// One bit step of the reflected CRC-32 (polynomial 0xEDB88320).
pub open spec fn crc_shift(c: u32) -> u32 {
    if c & 1 == 1 {
        (c >> 1) ^ 0xEDB88320u32
    } else {
        c >> 1
    }
}

/// Folds one byte into the CRC register.
pub open spec fn crc_byte(c: u32, b: u8) -> u32 {
    let x = c ^ (b as u32);
    crc_shift(crc_shift(crc_shift(crc_shift(crc_shift(crc_shift(crc_shift(crc_shift(x))))))))
}

/// Folds a byte sequence into the CRC register.
pub open spec fn crc_update(c: u32, b: Seq<u8>) -> u32
    decreases b.len(),
{
    if b.len() == 0 {
        c
    } else {
        crc_byte(crc_update(c, b.drop_last()), b.last())
    }
}

/// CRC-32 (IEEE 802.3): initial value and final xor 0xFFFFFFFF.
pub open spec fn crc32(b: Seq<u8>) -> u32 {
    crc_update(0xFFFFFFFFu32, b) ^ 0xFFFFFFFFu32
}

/// Calls `crc32fast::hash`. Claimed: the checksum is the IEEE CRC-32 of the
/// bytes, as `crc32` computes it bit by bit.
#[verifier::external_body]
pub(crate) fn crc32_of(b: &[u8]) -> (r: u32)
    ensures
        r == crc32(b@),
{
    crc32fast::hash(b)
}

/// Calls `String::from_utf8`. Claimed: it succeeds exactly on valid UTF-8,
/// and then holds the characters the bytes encode.
#[verifier::external_body]
pub(crate) fn utf8_to_string(b: Vec<u8>) -> (r: Option<String>)
    ensures
        r is Some <==> valid_utf8(b@),
        r matches Some(s) ==> s@ == decode_utf8(b@),
{
    String::from_utf8(b).ok()
}

} // verus!
