//! PNG chunk handling for character cards. SillyTavern keeps the card in a
//! `tEXt` chunk whose value is `chara\0<base64(JSON)>`. Chunks are walked
//! and copied as they are (CRCs untouched); pixels are never decoded.

use vstd::prelude::*;
use vstd::utf8::{decode_utf8, encode_utf8, encode_utf8_decode_utf8, encode_utf8_valid_utf8, valid_utf8};

use crate::encoding::{
    base64_decode_bytes, base64_decoded, base64_digit, base64_encode, base64_encode_bytes, base64_error_text,
    is_base64_char, lemma_base64_chars,
    crc32, crc32_of, utf8_to_string,
};
use crate::error::{AppError, ErrorV};
use crate::llm::sse::{lossy_string, utf8_lossy};
use crate::text::{
    opt_string_view, chars_of, has_prefix, lemma_trim_plain, string_from_chars, trim, trim_chars, trim_end, trim_start,
    unicode_white_space,
};

verus! {

/// The eight-byte PNG signature.
pub open spec fn png_sig() -> Seq<u8> {
    seq![0x89u8, 0x50u8, 0x4Eu8, 0x47u8, 0x0Du8, 0x0Au8, 0x1Au8, 0x0Au8]
}

/// Chunk type `tEXt`.
pub open spec fn text_type() -> Seq<u8> {
    seq![0x74u8, 0x45u8, 0x58u8, 0x74u8]
}

/// Chunk type `IEND`.
pub open spec fn iend_type() -> Seq<u8> {
    seq![0x49u8, 0x45u8, 0x4Eu8, 0x44u8]
}

/// The text keyword `chara`.
pub open spec fn chara_keyword() -> Seq<u8> {
    seq![0x63u8, 0x68u8, 0x61u8, 0x72u8, 0x61u8]
}

/// Big-endian 32-bit number at `i`.
pub open spec fn be32(r: Seq<u8>, i: int) -> int {
    r[i] * 16777216 + r[i + 1] * 65536 + r[i + 2] * 256 + r[i + 3]
}

/// Big-endian bytes of a 32-bit number.
pub open spec fn be32_bytes(x: u32) -> Seq<u8> {
    seq![
        (x / 16777216) as u8,
        ((x / 65536) % 256) as u8,
        ((x / 256) % 256) as u8,
        (x % 256) as u8,
    ]
}

/// Length of the chunk that starts `r`: length field, type, data, CRC.
pub open spec fn chunk_len(r: Seq<u8>) -> int {
    12 + be32(r, 0)
}

/// The data of the chunk that starts `r`.
pub open spec fn chunk_data(r: Seq<u8>) -> Seq<u8> {
    r.subrange(8, 8 + be32(r, 0))
}

/// Whether the chunk that starts `r` has type `t`.
pub open spec fn chunk_is(r: Seq<u8>, t: Seq<u8>) -> bool {
    r.subrange(4, 8) == t
}

/// Index of the first zero byte.
pub open spec fn first_nul(t: Seq<u8>) -> Option<int>
    decreases t.len(),
{
    if t.len() == 0 {
        None
    } else if t[0] == 0 {
        Some(0)
    } else {
        match first_nul(t.drop_first()) {
            Some(i) => Some(i + 1),
            None => None,
        }
    }
}

/// Whether the chunk that starts `r` is a `tEXt` chunk with keyword `chara`.
pub open spec fn is_chara_chunk(r: Seq<u8>) -> bool {
    chunk_is(r, text_type()) && match first_nul(chunk_data(r)) {
        Some(n) => chunk_data(r).take(n) == chara_keyword(),
        None => false,
    }
}

/// The `data:` URL prefix some exporters put before the base64 value.
pub open spec fn json_url_prefix() -> Seq<char> {
    "data:application/json;base64,"@
}

/// Decoding a `chara` value: optional data-URL prefix removed, trimmed,
/// base64-decoded, then read as UTF-8.
pub open spec fn chara_value(value: Seq<char>) -> Result<Seq<char>, ErrorV> {
    let b64 = if has_prefix(value, json_url_prefix()) {
        value.skip(json_url_prefix().len() as int)
    } else {
        value
    };
    let bytes = encode_utf8(trim(b64));
    match base64_decoded(bytes) {
        None => Err(ErrorV::CharaBase64(base64_error_text(bytes))),
        Some(d) => if valid_utf8(d) {
            Ok(decode_utf8(d))
        } else {
            Err(ErrorV::CharaNotUtf8)
        },
    }
}

/// Walking the chunks after the signature for the `chara` text; stops at
/// `IEND`, fails on a chunk that runs past the end.
pub open spec fn chara_in_chunks(r: Seq<u8>) -> Result<Option<Seq<char>>, ErrorV>
    decreases r.len(),
{
    if r.len() < 8 {
        Ok(None)
    } else if chunk_len(r) > r.len() {
        Err(ErrorV::ChunkOutOfBounds)
    } else if is_chara_chunk(r) {
        let d = chunk_data(r);
        match chara_value(utf8_lossy(d.skip(first_nul(d).unwrap() + 1))) {
            Ok(s) => Ok(Some(s)),
            Err(e) => Err(e),
        }
    } else if chunk_is(r, iend_type()) {
        Ok(None)
    } else {
        chara_in_chunks(r.skip(chunk_len(r)))
    }
}

/// The `chara` text of a PNG file, if it has one.
pub open spec fn extracted_chara(png: Seq<u8>) -> Result<Option<Seq<char>>, ErrorV> {
    if !has_prefix(png, png_sig()) {
        Err(ErrorV::NotPng)
    } else {
        chara_in_chunks(png.skip(8))
    }
}

/// Bytes of one chunk: length, type, data, CRC of type and data.
pub open spec fn chunk_bytes(t: Seq<u8>, d: Seq<u8>) -> Seq<u8> {
    be32_bytes(d.len() as u32) + t + d + be32_bytes(crc32(t + d))
}

/// The chunk that carries a card.
pub open spec fn chara_chunk(json: Seq<char>) -> Seq<u8> {
    chunk_bytes(
        text_type(),
        chara_keyword() + seq![0u8] + encode_utf8(base64_encode(encode_utf8(json))),
    )
}

/// `p` in front of a copy result.
pub open spec fn prefixed(p: Seq<u8>, r: Option<(Seq<u8>, bool)>) -> Option<(Seq<u8>, bool)> {
    match r {
        Some((o, ins)) => Some((p + o, ins)),
        None => None,
    }
}

/// Copying the chunks after the signature: existing `chara` chunks are
/// left out, `chunk` goes before the first `IEND`; `None` when a chunk runs
/// past the end. The flag says whether `chunk` went in.
pub open spec fn copy_chunks(r: Seq<u8>, chunk: Seq<u8>, inserted: bool) -> Option<(Seq<u8>, bool)>
    decreases r.len(),
{
    if r.len() < 8 {
        Some((seq![], inserted))
    } else if chunk_len(r) > r.len() {
        None
    } else if is_chara_chunk(r) {
        copy_chunks(r.skip(chunk_len(r)), chunk, inserted)
    } else if chunk_is(r, iend_type()) && !inserted {
        prefixed(chunk + r.take(chunk_len(r)), copy_chunks(r.skip(chunk_len(r)), chunk, true))
    } else {
        prefixed(r.take(chunk_len(r)), copy_chunks(r.skip(chunk_len(r)), chunk, inserted))
    }
}

/// A PNG file with `json` embedded as its card.
pub open spec fn embedded(png: Seq<u8>, json: Seq<char>) -> Result<Seq<u8>, ErrorV> {
    if !has_prefix(png, png_sig()) {
        Err(ErrorV::NotPng)
    } else {
        match copy_chunks(png.skip(8), chara_chunk(json), false) {
            None => Err(ErrorV::ChunkOutOfBounds),
            Some((o, ins)) => if ins {
                Ok(png_sig() + o)
            } else {
                Err(ErrorV::MissingIend)
            },
        }
    }
}


/// The result of a card operation as a value.
pub open spec fn result_view<T: View>(r: Result<T, AppError>) -> Result<T::V, ErrorV> {
    match r {
        Ok(x) => Ok(x@),
        Err(e) => Err(e@),
    }
}

/// Whether the file starts with the PNG signature.
pub fn check_signature(png: &[u8]) -> (r: Result<(), AppError>)
    ensures
        r is Ok <==> has_prefix(png@, png_sig()),
        r matches Err(e) ==> e == AppError::NotPng,
{
    let ok = png.len() >= 8 && png[0] == 0x89u8 && png[1] == 0x50u8 && png[2] == 0x4Eu8 && png[3]
        == 0x47u8 && png[4] == 0x0Du8 && png[5] == 0x0Au8 && png[6] == 0x1Au8 && png[7] == 0x0Au8;
    assert(ok == has_prefix(png@, png_sig())) by {
        if has_prefix(png@, png_sig()) {
            let sub = png@.subrange(0, 8);
            assert(sub[0] == png@[0] && sub[1] == png@[1] && sub[2] == png@[2] && sub[3] == png@[3]);
            assert(sub[4] == png@[4] && sub[5] == png@[5] && sub[6] == png@[6] && sub[7] == png@[7]);
        }
        if ok {
            assert(png@.subrange(0, 8) =~= png_sig());
        }
    }
    if ok {
        Ok(())
    } else {
        Err(AppError::NotPng)
    }
}

/// Whether the four bytes at `p` are `a b c d`.
fn four_bytes_are(png: &[u8], p: usize, a: u8, b: u8, c: u8, d: u8) -> (r: bool)
    requires
        p + 4 <= png@.len(),
    ensures
        r == (png@.subrange(p as int, p + 4) == seq![a, b, c, d]),
{
    let r = png[p] == a && png[p + 1] == b && png[p + 2] == c && png[p + 3] == d;
    let ghost sub = png@.subrange(p as int, p + 4);
    assert(sub[0] == png@[p as int] && sub[1] == png@[p + 1] && sub[2] == png@[p + 2] && sub[3]
        == png@[p + 3]);
    if r {
        assert(sub =~= seq![a, b, c, d]);
    }
    r
}

/// Big-endian 32-bit number at `p`.
fn read_be32(png: &[u8], p: usize) -> (r: u64)
    requires
        p + 4 <= png@.len(),
    ensures
        r == be32(png@, p as int),
        r < 0x1_0000_0000,
{
    (png[p] as u64) * 16777216 + (png[p + 1] as u64) * 65536 + (png[p + 2] as u64) * 256
        + (png[p + 3] as u64)
}

proof fn lemma_first_nul(t: Seq<u8>, k: int)
    requires
        0 <= k <= t.len(),
        forall|j: int| 0 <= j < k ==> t[j] != 0,
    ensures
        k < t.len() && t[k] == 0 ==> first_nul(t) == Some(k),
        k == t.len() ==> first_nul(t) is None,
    decreases k,
{
    if k > 0 {
        lemma_first_nul(t.drop_first(), k - 1);
    }
}

proof fn lemma_first_nul_bounds(t: Seq<u8>)
    ensures
        first_nul(t) matches Some(k) ==> 0 <= k < t.len() && t[k] == 0,
    decreases t.len(),
{
    if t.len() > 0 {
        lemma_first_nul_bounds(t.drop_first());
    }
}

/// Index (relative to `start`) of the first zero byte in `png[start..end]`.
fn find_nul(png: &[u8], start: usize, end: usize) -> (r: Option<usize>)
    requires
        start <= end <= png@.len(),
    ensures
        match r {
            Some(n) => first_nul(png@.subrange(start as int, end as int)) == Some(n as int),
            None => first_nul(png@.subrange(start as int, end as int)) is None,
        },
{
    let ghost t = png@.subrange(start as int, end as int);
    let mut i = start;
    while i < end
        invariant
            start <= i <= end <= png@.len(),
            t == png@.subrange(start as int, end as int),
            forall|j: int| 0 <= j < i - start ==> t[j] != 0,
        decreases end - i,
    {
        if png[i] == 0 {
            proof {
                lemma_first_nul(t, i - start);
            }
            return Some(i - start);
        }
        i = i + 1;
    }
    proof {
        lemma_first_nul(t, t.len() as int);
    }
    None
}

/// Decodes a `chara` value, accepting a `data:application/json;base64,`
/// prefix.
pub fn decode_chara_value(value: &str) -> (r: Result<String, AppError>)
    ensures
        result_view(r) == chara_value(value@),
{
    let v = chars_of(value);
    let prefix = chars_of("data:application/json;base64,");
    let mut start: usize = 0;
    if crate::text::occurs_at_exec(v.as_slice(), 0, prefix.as_slice()) {
        start = prefix.len();
    }
    let mut rest: Vec<char> = Vec::new();
    let mut i = start;
    while i < v.len()
        invariant
            start <= v@.len(),
            start <= i <= v@.len(),
            rest@ == v@.subrange(start as int, i as int),
        decreases v.len() - i,
    {
        rest.push(v[i]);
        assert(v@.subrange(start as int, i as int).push(v@[i as int]) =~= v@.subrange(start as int, i + 1));
        i = i + 1;
    }
    assert(rest@ =~= if has_prefix(value@, json_url_prefix()) {
        value@.skip(json_url_prefix().len() as int)
    } else {
        value@
    });
    let trimmed = trim_chars(rest.as_slice());
    let text = string_from_chars(trimmed.as_slice());
    let bytes = text.as_str().as_bytes();
    match base64_decode_bytes(bytes) {
        Err(m) => Err(AppError::CharaBase64(m)),
        Ok(d) => match utf8_to_string(d) {
            Some(s) => Ok(s),
            None => Err(AppError::CharaNotUtf8),
        },
    }
}


/// Facts about the chunk at `pos`, read through the suffix that starts there.
proof fn lemma_chunk_at(png: Seq<u8>, pos: int)
    requires
        0 <= pos,
        pos + 8 <= png.len(),
    ensures
        ({
            let r = png.skip(pos);
            &&& r.len() == png.len() - pos
            &&& be32(r, 0) == be32(png, pos)
            &&& r.subrange(4, 8) == png.subrange(pos + 4, pos + 8)
            &&& pos + chunk_len(r) <= png.len() ==> chunk_data(r) == png.subrange(pos + 8, pos + 8 + be32(png, pos))
            &&& pos + chunk_len(r) <= png.len() ==> r.skip(chunk_len(r)) == png.skip(pos + chunk_len(r))
            &&& pos + chunk_len(r) <= png.len() ==> r.take(chunk_len(r)) == png.subrange(pos, pos + chunk_len(r))
        }),
{
    let r = png.skip(pos);
    assert(r.subrange(4, 8) =~= png.subrange(pos + 4, pos + 8));
    if pos + chunk_len(r) <= png.len() {
        assert(chunk_data(r) =~= png.subrange(pos + 8, pos + 8 + be32(png, pos)));
        assert(r.skip(chunk_len(r)) =~= png.skip(pos + chunk_len(r)));
        assert(r.take(chunk_len(r)) =~= png.subrange(pos, pos + chunk_len(r)));
    }
}

/// Whether the chunk at `pos` (complete, data ending at `de`) is a `tEXt`
/// chunk with keyword `chara`; gives the zero byte's index when it is.
fn chara_chunk_at(png: &[u8], pos: usize, de: usize) -> (r: Option<usize>)
    requires
        pos + 8 <= de,
        de as int == pos + 8 + be32(png@, pos as int),
        de + 4 <= png@.len(),
    ensures
        r is Some <==> is_chara_chunk(png@.skip(pos as int)),
        r matches Some(n) ==> first_nul(chunk_data(png@.skip(pos as int))) == Some(n as int)
            && pos + 8 + n < de,
{
    proof {
        lemma_chunk_at(png@, pos as int);
    }
    if !four_bytes_are(png, pos + 4, 0x74u8, 0x45u8, 0x58u8, 0x74u8) {
        return None;
    }
    match find_nul(png, pos + 8, de) {
        None => None,
        Some(n) => {
            let ghost d = chunk_data(png@.skip(pos as int));
            assert(d =~= png@.subrange(pos + 8, de as int));
            proof {
                lemma_first_nul_bounds(d);
            }
            let kw = n == 5 && png[pos + 8] == 0x63u8 && png[pos + 9] == 0x68u8 && png[pos + 10]
                == 0x61u8 && png[pos + 11] == 0x72u8 && png[pos + 12] == 0x61u8;
            assert(kw == (d.take(n as int) == chara_keyword())) by {
                if d.take(n as int) == chara_keyword() {
                    assert(d.take(n as int).len() == 5);
                    assert(d.take(n as int)[0] == d[0] && d.take(n as int)[1] == d[1]);
                    assert(d.take(n as int)[2] == d[2] && d.take(n as int)[3] == d[3]);
                    assert(d.take(n as int)[4] == d[4]);
                }
                if kw {
                    assert(d.take(n as int) =~= chara_keyword());
                }
            }
            if kw {
                Some(n)
            } else {
                None
            }
        },
    }
}

/// Extracts the card JSON from a PNG (`None` when there is no `chara`
/// text before `IEND`).
pub fn extract_chara(png: &[u8]) -> (r: Result<Option<String>, AppError>)
    ensures
        match r {
            Ok(o) => extracted_chara(png@) == Ok::<Option<Seq<char>>, ErrorV>(opt_string_view(o)),
            Err(e) => extracted_chara(png@) == Err::<Option<Seq<char>>, ErrorV>(e@),
        },
{
    check_signature(png)?;
    let n = png.len();
    let mut pos: usize = 8;
    while n - pos >= 8
        invariant
            n == png@.len(),
            8 <= pos <= n,
            has_prefix(png@, png_sig()),
            chara_in_chunks(png@.skip(8)) == chara_in_chunks(png@.skip(pos as int)),
        decreases n - pos,
    {
        let ghost r = png@.skip(pos as int);
        proof {
            lemma_chunk_at(png@, pos as int);
        }
        let len = read_be32(png, pos);
        if len + 12 > (n - pos) as u64 {
            return Err(AppError::ChunkOutOfBounds);
        }
        let de = pos + 8 + len as usize;
        match chara_chunk_at(png, pos, de) {
            Some(k) => {
                let value = lossy_string(&png[pos + 8 + k + 1..de]);
                assert(png@.subrange(pos + 8 + k + 1, de as int) =~= chunk_data(r).skip(k + 1));
                let decoded = decode_chara_value(value.as_str());
                return match decoded {
                    Ok(s) => Ok(Some(s)),
                    Err(e) => Err(e),
                };
            },
            None => {},
        }
        if four_bytes_are(png, pos + 4, 0x49u8, 0x45u8, 0x4Eu8, 0x44u8) {
            return Ok(None);
        }
        pos = de + 4;
    }
    Ok(None)
}


/// Appends `src[a..b]`.
fn append_range(out: &mut Vec<u8>, src: &[u8], a: usize, b: usize)
    requires
        a <= b <= src@.len(),
    ensures
        final(out)@ == old(out)@ + src@.subrange(a as int, b as int),
{
    let mut i = a;
    while i < b
        invariant
            a <= i <= b <= src@.len(),
            out@ == old(out)@ + src@.subrange(a as int, i as int),
        decreases b - i,
    {
        out.push(src[i]);
        assert(src@.subrange(a as int, i + 1) =~= src@.subrange(a as int, i as int).push(src@[i as int]));
        i = i + 1;
    }
}

/// Big-endian bytes of `x`.
fn push_be32(out: &mut Vec<u8>, x: u32)
    ensures
        final(out)@ == old(out)@ + be32_bytes(x),
{
    out.push((x / 16777216) as u8);
    out.push(((x / 65536) % 256) as u8);
    out.push(((x / 256) % 256) as u8);
    out.push((x % 256) as u8);
    assert(out@ =~= old(out)@ + be32_bytes(x));
}

/// One chunk: `[len][type][data][crc]`.
pub fn build_chunk(chunk_type: &[u8], data: &[u8]) -> (r: Vec<u8>)
    requires
        chunk_type@.len() == 4,
    ensures
        r@ == chunk_bytes(chunk_type@, data@),
{
    let mut crc_input: Vec<u8> = Vec::new();
    append_range(&mut crc_input, chunk_type, 0, chunk_type.len());
    append_range(&mut crc_input, data, 0, data.len());
    assert(crc_input@ =~= chunk_type@ + data@);
    let crc = crc32_of(crc_input.as_slice());
    let mut out: Vec<u8> = Vec::new();
    push_be32(&mut out, data.len() as u32);
    append_range(&mut out, chunk_type, 0, chunk_type.len());
    append_range(&mut out, data, 0, data.len());
    push_be32(&mut out, crc);
    assert(chunk_type@.subrange(0, 4) =~= chunk_type@);
    assert(data@.subrange(0, data@.len() as int) =~= data@);
    assert(out@ =~= chunk_bytes(chunk_type@, data@));
    out
}

proof fn lemma_prefixed_assoc(a: Seq<u8>, b: Seq<u8>, x: Option<(Seq<u8>, bool)>)
    ensures
        prefixed(a, prefixed(b, x)) == prefixed(a + b, x),
{
    if let Some((o, ins)) = x {
        assert(a + (b + o) =~= (a + b) + o);
    }
}

/// One step of the copy, at a complete chunk that starts at `pos`.
proof fn lemma_copy_step(png: Seq<u8>, pos: int, c: Seq<u8>, ins: bool)
    requires
        0 <= pos,
        pos + 8 <= png.len(),
        pos + chunk_len(png.skip(pos)) <= png.len(),
    ensures
        ({
            let r = png.skip(pos);
            let cl = chunk_len(r);
            let whole = png.subrange(pos, pos + cl);
            let next = png.skip(pos + cl);
            copy_chunks(r, c, ins) == if is_chara_chunk(r) {
                copy_chunks(next, c, ins)
            } else if chunk_is(r, iend_type()) && !ins {
                prefixed(c + whole, copy_chunks(next, c, true))
            } else {
                prefixed(whole, copy_chunks(next, c, ins))
            }
        }),
{
    lemma_chunk_at(png, pos);
}

/// The text of the card chunk: keyword, zero byte, base64 of the JSON.
pub open spec fn chara_text(json: Seq<char>) -> Seq<u8> {
    chara_keyword() + seq![0u8] + encode_utf8(base64_encode(encode_utf8(json)))
}

/// Embeds the card JSON (before `IEND`); existing `chara` chunks are left
/// out, every other chunk is copied byte for byte.
#[verifier::rlimit(40)]
pub fn embed_chara(png: &[u8], chara_json: &str) -> (r: Result<Vec<u8>, AppError>)
    ensures
        result_view(r) == embedded(png@, chara_json@),
        chara_text(chara_json@).len() <= 0xFFFF_FFFF ==> (r matches Ok(out) ==> extracted_chara(out@)
            == Ok::<Option<Seq<char>>, ErrorV>(Some(chara_json@))),
{
    check_signature(png)?;
    let json_bytes = chara_json.as_bytes();
    let value = base64_encode_bytes(json_bytes);
    proof {
        if chara_text(chara_json@).len() <= 0xFFFF_FFFF {
            lemma_embed_then_extract(png@, chara_json@);
        }
    }
    let value_bytes = value.as_str().as_bytes();
    let mut text: Vec<u8> = Vec::new();
    text.push(0x63u8);
    text.push(0x68u8);
    text.push(0x61u8);
    text.push(0x72u8);
    text.push(0x61u8);
    text.push(0u8);
    append_range(&mut text, value_bytes, 0, value_bytes.len());
    assert(value_bytes@.subrange(0, value_bytes@.len() as int) =~= value_bytes@);
    assert(text@ =~= chara_text(chara_json@));
    let text_type_bytes: [u8; 4] = [0x74u8, 0x45u8, 0x58u8, 0x74u8];
    assert(text_type_bytes@ =~= text_type());
    let chunk = build_chunk(&text_type_bytes, text.as_slice());
    let ghost c = chunk@;
    assert(c == chara_chunk(chara_json@));

    let n = png.len();
    let mut out: Vec<u8> = Vec::new();
    append_range(&mut out, png, 0, 8);
    assert(png@.subrange(0, 8) == png_sig());
    assert(out@.skip(8) =~= Seq::<u8>::empty());
    assert(prefixed(Seq::<u8>::empty(), copy_chunks(png@.skip(8), c, false)) == copy_chunks(
        png@.skip(8),
        c,
        false,
    )) by {
        if let Some((o, ins)) = copy_chunks(png@.skip(8), c, false) {
            assert(Seq::<u8>::empty() + o =~= o);
        }
    }
    let mut inserted = false;
    let mut pos: usize = 8;
    while n - pos >= 8
        invariant
            n == png@.len(),
            8 <= pos <= n,
            c == chunk@,
            c == chara_chunk(chara_json@),
            has_prefix(png@, png_sig()),
            out@.len() >= 8,
            out@.take(8) == png_sig(),
            copy_chunks(png@.skip(8), c, false) == prefixed(
                out@.skip(8),
                copy_chunks(png@.skip(pos as int), c, inserted),
            ),
        decreases n - pos,
    {
        let ghost r = png@.skip(pos as int);
        let ghost before = out@;
        let ghost was_inserted = inserted;
        proof {
            lemma_chunk_at(png@, pos as int);
        }
        let len = read_be32(png, pos);
        if len + 12 > (n - pos) as u64 {
            assert(chunk_len(r) > r.len());
            assert(copy_chunks(r, c, inserted) is None);
            assert(copy_chunks(png@.skip(8), c, false) is None);
            assert(embedded(png@, chara_json@) == Err::<Seq<u8>, ErrorV>(ErrorV::ChunkOutOfBounds));
            return Err(AppError::ChunkOutOfBounds);
        }
        let de = pos + 8 + len as usize;
        let ghost cl = chunk_len(r);
        let ghost whole = png@.subrange(pos as int, pos + cl);
        proof {
            lemma_copy_step(png@, pos as int, c, inserted);
        }
        match chara_chunk_at(png, pos, de) {
            Some(_) => {},
            None => {
                if !inserted && four_bytes_are(png, pos + 4, 0x49u8, 0x45u8, 0x4Eu8, 0x44u8) {
                    append_range(&mut out, chunk.as_slice(), 0, chunk.len());
                    assert(chunk@.subrange(0, chunk@.len() as int) =~= chunk@);
                    inserted = true;
                    append_range(&mut out, png, pos, de + 4);
                    assert(out@.skip(8) =~= before.skip(8) + (c + whole));
                    proof {
                        lemma_prefixed_assoc(before.skip(8), c + whole, copy_chunks(png@.skip(pos + cl), c, true));
                    }
                } else {
                    append_range(&mut out, png, pos, de + 4);
                    assert(out@.skip(8) =~= before.skip(8) + whole);
                    proof {
                        lemma_prefixed_assoc(before.skip(8), whole, copy_chunks(png@.skip(pos + cl), c, was_inserted));
                    }
                }
            },
        }
        assert(out@.take(8) =~= before.take(8));
        pos = de + 4;
    }
    assert(copy_chunks(png@.skip(pos as int), c, inserted) == Some((Seq::<u8>::empty(), inserted)));
    assert(out@.skip(8) + Seq::<u8>::empty() =~= out@.skip(8));
    if !inserted {
        return Err(AppError::MissingIend);
    }
    assert(out@ =~= png_sig() + out@.skip(8));
    Ok(out)
}


proof fn lemma_be32_roundtrip(x: u32)
    ensures
        be32(be32_bytes(x), 0) == x,
{
    let b = be32_bytes(x);
    assert(b[0] == x / 16777216);
    assert(b[1] == (x / 65536) % 256);
    assert(b[2] == (x / 256) % 256);
    assert(b[3] == x % 256);
    assert(x / 16777216 * 16777216 + (x / 65536) % 256 * 65536 + (x / 256) % 256 * 256 + x % 256
        == x) by (nonlinear_arith);
}

/// Reading back a card chunk, whatever follows it.
/// The card chunk, whatever follows it, is one whole `chara` text chunk.
proof fn lemma_chara_chunk_shape(json: Seq<char>, rest: Seq<u8>)
    requires
        chara_text(json).len() <= 0xFFFF_FFFF,
    ensures
        (chara_chunk(json) + rest).len() >= 8,
        chunk_len(chara_chunk(json) + rest) == chara_chunk(json).len(),
        chunk_data(chara_chunk(json) + rest) == chara_text(json),
        is_chara_chunk(chara_chunk(json) + rest),
        !chunk_is(chara_chunk(json) + rest, iend_type()),
        (chara_chunk(json) + rest).skip(chara_chunk(json).len() as int) == rest,
{
    let t = chara_text(json);
    let l = t.len();
    let c = chara_chunk(json);
    let s = c + rest;
    lemma_be32_roundtrip(l as u32);
    assert(c.len() == 12 + l);
    assert(s.subrange(0, 4) =~= be32_bytes(l as u32));
    assert(be32(s, 0) == be32(be32_bytes(l as u32), 0));
    assert(chunk_len(s) == 12 + l);
    assert(s.subrange(4, 8) =~= text_type());
    assert(chunk_data(s) =~= t);
    assert(t[0] != 0 && t[1] != 0 && t[2] != 0 && t[3] != 0 && t[4] != 0 && t[5] == 0);
    lemma_first_nul(t, 5);
    assert(t.take(5) =~= chara_keyword());
    assert(is_chara_chunk(s));
    assert(text_type()[0] != iend_type()[0]);
    assert(s.skip(c.len() as int) =~= rest);
}

proof fn lemma_chara_chunk_read(json: Seq<char>, rest: Seq<u8>)
    requires
        chara_text(json).len() <= 0xFFFF_FFFF,
        base64_decoded(encode_utf8(base64_encode(encode_utf8(json)))) == Some(encode_utf8(json)),
    ensures
        chara_in_chunks(chara_chunk(json) + rest) == Ok::<Option<Seq<char>>, ErrorV>(Some(json)),
{
    let b64 = base64_encode(encode_utf8(json));
    let vb = encode_utf8(b64);
    let t = chara_text(json);
    let l = t.len();
    let c = chara_chunk(json);
    let s = c + rest;
    lemma_be32_roundtrip(l as u32);
    assert(c.len() == 12 + l);
    assert(s.subrange(0, 4) =~= be32_bytes(l as u32));
    assert(be32(s, 0) == be32(be32_bytes(l as u32), 0));
    assert(chunk_len(s) == 12 + l);
    assert(s.subrange(4, 8) =~= text_type());
    assert(chunk_data(s) =~= t);
    assert(t[0] != 0 && t[1] != 0 && t[2] != 0 && t[3] != 0 && t[4] != 0 && t[5] == 0);
    lemma_first_nul(t, 5);
    assert(t.take(5) =~= chara_keyword());
    assert(is_chara_chunk(s));
    assert(t.skip(6) =~= vb);
    encode_utf8_valid_utf8(b64);
    encode_utf8_decode_utf8(b64);
    assert(utf8_lossy(vb) == b64);
    lemma_base64_chars(encode_utf8(json));
    reveal_strlit("data:application/json;base64,");
    if has_prefix(b64, json_url_prefix()) {
        assert(b64.subrange(0, 29)[4] == json_url_prefix()[4]);
        assert(is_base64_char(b64[4]));
        assert(false);
    }
    assert forall|i: int| 0 <= i < b64.len() implies !unicode_white_space(#[trigger] b64[i]) by {
        assert(is_base64_char(b64[i]));
    }
    lemma_trim_plain(b64);
    encode_utf8_valid_utf8(json);
    encode_utf8_decode_utf8(json);
    assert(chara_value(b64) == Ok::<Seq<char>, ErrorV>(json));
}

proof fn lemma_same_first_chunk(r: Seq<u8>, x: Seq<u8>)
    requires
        r.len() >= 8,
        chunk_len(r) <= r.len(),
    ensures
        ({
            let s = r.take(chunk_len(r)) + x;
            &&& s.len() >= 8
            &&& be32(s, 0) == be32(r, 0)
            &&& chunk_len(s) == chunk_len(r)
            &&& chunk_len(s) <= s.len()
            &&& chunk_data(s) == chunk_data(r)
            &&& s.subrange(4, 8) == r.subrange(4, 8)
            &&& s.skip(chunk_len(s)) == x
        }),
{
    let s = r.take(chunk_len(r)) + x;
    assert(s[0] == r[0] && s[1] == r[1] && s[2] == r[2] && s[3] == r[3]);
    assert(chunk_data(s) =~= chunk_data(r));
    assert(s.subrange(4, 8) =~= r.subrange(4, 8));
    assert(s.skip(chunk_len(s)) =~= x);
}

/// Whatever the copy writes, the card chunk it inserted is the first
/// `chara` text a reader finds.
proof fn lemma_copy_then_read(r: Seq<u8>, json: Seq<char>, o: Seq<u8>)
    requires
        copy_chunks(r, chara_chunk(json), false) == Some((o, true)),
        chara_text(json).len() <= 0xFFFF_FFFF,
        base64_decoded(encode_utf8(base64_encode(encode_utf8(json)))) == Some(encode_utf8(json)),
    ensures
        chara_in_chunks(o) == Ok::<Option<Seq<char>>, ErrorV>(Some(json)),
    decreases r.len(),
{
    let c = chara_chunk(json);
    let cl = chunk_len(r);
    let next = r.skip(cl);
    if is_chara_chunk(r) {
        lemma_copy_then_read(next, json, o);
    } else if chunk_is(r, iend_type()) {
        let whole = r.take(cl);
        let (o2, ins2) = copy_chunks(next, c, true).unwrap();
        assert(o == c + whole + o2);
        assert(c + whole + o2 =~= c + (whole + o2));
        lemma_chara_chunk_read(json, whole + o2);
    } else {
        let whole = r.take(cl);
        let (o2, ins2) = copy_chunks(next, c, false).unwrap();
        assert(o == whole + o2);
        lemma_copy_then_read(next, json, o2);
        lemma_same_first_chunk(r, o2);
    }
}

/// What `embed_chara` writes, `extract_chara` reads back: the card that
/// went in (as long as the chunk length field can hold the chunk text and
/// the base64 text decodes to the bytes it was made from).
pub proof fn lemma_embed_then_extract(png: Seq<u8>, json: Seq<char>)
    requires
        chara_text(json).len() <= 0xFFFF_FFFF,
        base64_decoded(encode_utf8(base64_encode(encode_utf8(json)))) == Some(encode_utf8(json)),
    ensures
        embedded(png, json) matches Ok(out) ==> extracted_chara(out) == Ok::<
            Option<Seq<char>>,
            ErrorV,
        >(Some(json)),
{
    if embedded(png, json) is Ok {
        let (o, ins) = copy_chunks(png.skip(8), chara_chunk(json), false).unwrap();
        lemma_copy_then_read(png.skip(8), json, o);
        let out = png_sig() + o;
        assert(out.subrange(0, 8) =~= png_sig());
        assert(out.skip(8) =~= o);
    }
}

/// Embedding a card into a PNG that already carries it (as `embed_chara`
/// wrote it) gives the same bytes again.
pub proof fn lemma_embed_idempotent(png: Seq<u8>, json: Seq<char>)
    requires
        chara_text(json).len() <= 0xFFFF_FFFF,
    ensures
        embedded(png, json) matches Ok(out) ==> embedded(out, json) == Ok::<Seq<u8>, ErrorV>(out),
{
    lemma_embed_replaces(png, json, json);
}

/// Whether `r` is a run of whole chunks, none of them a card chunk, that
/// ends with its first `IEND` chunk.
pub open spec fn chunks_to_iend(r: Seq<u8>) -> bool
    decreases r.len(),
{
    if r.len() < 8 || chunk_len(r) > r.len() || is_chara_chunk(r) {
        false
    } else if chunk_is(r, iend_type()) {
        chunk_len(r) == r.len()
    } else {
        chunks_to_iend(r.skip(chunk_len(r)))
    }
}

/// The bytes of such a run before its `IEND` chunk.
pub open spec fn before_iend(r: Seq<u8>) -> Seq<u8>
    decreases r.len(),
{
    if r.len() < 8 || chunk_len(r) > r.len() || chunk_is(r, iend_type()) {
        seq![]
    } else {
        r.take(chunk_len(r)) + before_iend(r.skip(chunk_len(r)))
    }
}

/// Copying such a run puts `c` right before its `IEND` chunk.
proof fn lemma_copy_to_iend(r: Seq<u8>, c: Seq<u8>)
    requires
        chunks_to_iend(r),
    ensures
        before_iend(r).len() <= r.len(),
        r == before_iend(r) + r.skip(before_iend(r).len() as int),
        chunk_is(r.skip(before_iend(r).len() as int), iend_type()),
        chunk_len(r.skip(before_iend(r).len() as int)) == r.len() - before_iend(r).len(),
        copy_chunks(r, c, false) == Some((before_iend(r) + c + r.skip(before_iend(r).len() as int), true)),
    decreases r.len(),
{
    let cl = chunk_len(r);
    let next = r.skip(cl);
    if chunk_is(r, iend_type()) {
        assert(before_iend(r) =~= Seq::<u8>::empty());
        assert(r.skip(0) =~= r);
        assert(r.take(cl) =~= r);
        assert(next.len() == 0);
        assert(copy_chunks(next, c, true) == Some((Seq::<u8>::empty(), true)));
        assert(c + r.take(cl) + Seq::<u8>::empty() =~= Seq::<u8>::empty() + c + r);
    } else {
        lemma_copy_to_iend(next, c);
        let bn = before_iend(next);
        let rest = next.skip(bn.len() as int);
        assert(before_iend(r) == r.take(cl) + bn);
        assert(r =~= r.take(cl) + next);
        assert(r.skip(before_iend(r).len() as int) =~= rest);
        assert(r =~= before_iend(r) + rest);
        assert(r.take(cl) + (bn + c + rest) =~= before_iend(r) + c + rest);
    }
}

/// Embedding a card into a PNG whose chunks run to a final `IEND`, with no
/// card chunk among them, keeps every byte before `IEND`, puts the card
/// chunk there, and ends with the `IEND` chunk as it was.
pub proof fn lemma_embed_before_iend(png: Seq<u8>, json: Seq<char>)
    requires
        has_prefix(png, png_sig()),
        chunks_to_iend(png.skip(8)),
    ensures
        ({
            let k: int = 8 + before_iend(png.skip(8)).len() as int;
            &&& k <= png.len()
            &&& chunk_is(png.skip(k), iend_type())
            &&& chunk_len(png.skip(k)) == png.len() - k
            &&& embedded(png, json) == Ok::<Seq<u8>, ErrorV>(png.take(k) + chara_chunk(json) + png.skip(k))
        }),
{
    let r = png.skip(8);
    lemma_copy_to_iend(r, chara_chunk(json));
    let b = before_iend(r);
    let k: int = 8 + b.len() as int;
    let rest = r.skip(b.len() as int);
    assert(png.skip(k) =~= rest);
    assert(png.subrange(0, 8) =~= png_sig());
    assert forall|i: int| 0 <= i < k implies #[trigger] png.take(k)[i] == (png_sig() + b)[i] by {
        if i < 8 {
            assert(png[i] == png.subrange(0, 8)[i]);
        } else {
            assert(png[i] == r[i - 8]);
            assert(r[i - 8] == (b + rest)[i - 8]);
        }
    }
    assert(png.take(k) =~= png_sig() + b);
    assert(png_sig() + (b + chara_chunk(json) + rest) =~= png.take(k) + chara_chunk(json) + png.skip(k));
}

/// Copying what a copy with one card produced, now with another card, is
/// copying the original with that other card: the first card's chunk is
/// dropped like any card chunk, and the new one goes to the same place.
#[verifier::rlimit(30)]
proof fn lemma_copy_replace(r: Seq<u8>, json: Seq<char>, json2: Seq<char>, ins: bool, o: Seq<u8>, ins2: bool)
    requires
        chara_text(json).len() <= 0xFFFF_FFFF,
        copy_chunks(r, chara_chunk(json), ins) == Some((o, ins2)),
    ensures
        copy_chunks(o, chara_chunk(json2), ins) == copy_chunks(r, chara_chunk(json2), ins),
    decreases r.len(),
{
    let c = chara_chunk(json);
    let c2 = chara_chunk(json2);
    if r.len() < 8 {
        assert(o.len() == 0);
    } else {
        let cl = chunk_len(r);
        let next = r.skip(cl);
        let whole = r.take(cl);
        if is_chara_chunk(r) {
            lemma_copy_replace(next, json, json2, ins, o, ins2);
        } else if chunk_is(r, iend_type()) && !ins {
            let (o2, i2) = copy_chunks(next, c, true).unwrap();
            lemma_copy_replace(next, json, json2, true, o2, i2);
            let w = whole + o2;
            assert(o == c + whole + o2);
            assert(c + whole + o2 =~= c + w);
            lemma_chara_chunk_shape(json, w);
            lemma_same_first_chunk(r, o2);
            assert(w.take(chunk_len(w)) =~= whole);
            assert(copy_chunks(w, c2, false) == prefixed(c2 + whole, copy_chunks(o2, c2, true)));
            assert((c + w).skip(c.len() as int) == w);
            assert(copy_chunks(c + w, c2, false) == copy_chunks(w, c2, false));
        } else {
            let (o2, i2) = copy_chunks(next, c, ins).unwrap();
            lemma_copy_replace(next, json, json2, ins, o2, i2);
            assert(o == whole + o2);
            lemma_same_first_chunk(r, o2);
            assert(o.take(chunk_len(o)) =~= whole);
        }
    }
}

/// Embedding a card into a PNG that `embed_chara` wrote gives the same as
/// embedding it into the PNG it started from: the card chunk is replaced,
/// never kept beside the new one.
pub proof fn lemma_embed_replaces(png: Seq<u8>, json: Seq<char>, json2: Seq<char>)
    requires
        chara_text(json).len() <= 0xFFFF_FFFF,
    ensures
        embedded(png, json) matches Ok(out) ==> embedded(out, json2) == embedded(png, json2),
{
    if embedded(png, json) is Ok {
        let (o, ins) = copy_chunks(png.skip(8), chara_chunk(json), false).unwrap();
        lemma_copy_replace(png.skip(8), json, json2, false, o, ins);
        let out = png_sig() + o;
        assert(out.subrange(0, 8) =~= png_sig());
        assert(out.skip(8) =~= o);
    }
}

} // verus!
