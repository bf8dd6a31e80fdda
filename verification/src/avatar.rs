//! Avatars: image bytes are shown as `data:` URLs, and come back from the
//! front end either as such a URL or as bare base64.

use vstd::prelude::*;
use vstd::utf8::encode_utf8;

use crate::encoding::{
    base64_decode_bytes, base64_decoded, base64_encode, base64_encode_bytes, base64_error_text,
    is_base64_char, lemma_base64_chars,
};
use crate::error::{AppError, ErrorV};
use crate::text::{
    chars_of, has_prefix, lemma_trim_plain, push_chars, push_str, string_from_chars, trim, trim_chars,
    unicode_white_space,
};

verus! {

/// The MIME type told by the first bytes of an image.
pub open spec fn sniffed_mime(b: Seq<u8>) -> Seq<char> {
    if has_prefix(b, seq![0x89u8, 0x50u8, 0x4Eu8, 0x47u8]) {
        "image/png"@
    } else if has_prefix(b, seq![0xFFu8, 0xD8u8, 0xFFu8]) {
        "image/jpeg"@
    } else if has_prefix(b, seq![0x47u8, 0x49u8, 0x46u8, 0x38u8]) {
        "image/gif"@
    } else {
        "application/octet-stream"@
    }
}

/// The `data:` URL of an image.
pub open spec fn data_url(b: Seq<u8>) -> Seq<char> {
    "data:"@ + sniffed_mime(b) + ";base64,"@ + base64_encode(b)
}

/// Index of the first occurrence of `c`.
pub open spec fn first_index_of(s: Seq<char>, c: char) -> Option<int>
    decreases s.len(),
{
    if s.len() == 0 {
        None
    } else if s[0] == c {
        Some(0)
    } else {
        match first_index_of(s.drop_first(), c) {
            Some(i) => Some(i + 1),
            None => None,
        }
    }
}

/// The base64 part of what the front end sends: after the first comma of a
/// `data:` URL, else the whole text.
pub open spec fn base64_part(raw: Seq<char>) -> Seq<char> {
    if has_prefix(raw, "data:"@) {
        match first_index_of(raw.skip(5), ',') {
            Some(i) => raw.skip(5).skip(i + 1),
            None => raw,
        }
    } else {
        raw
    }
}

/// The bytes of an avatar as sent by the front end, or the decoder's
/// message.
pub open spec fn avatar_bytes(raw: Seq<char>) -> Result<Seq<u8>, ErrorV> {
    let t = encode_utf8(trim(base64_part(raw)));
    match base64_decoded(t) {
        Some(b) => Ok(b),
        None => Err(ErrorV::AvatarBase64(base64_error_text(t))),
    }
}

/// Turns image bytes into a `data:` URL; the MIME type comes from the
/// magic number. The URL decodes back to the bytes.
pub fn encode(bytes: &[u8]) -> (r: String)
    ensures
        r@ == data_url(bytes@),
        avatar_bytes(r@) == Ok::<Seq<u8>, ErrorV>(bytes@),
{
    let mut r = String::new();
    push_str(&mut r, "data:");
    let n = bytes.len();
    proof {
        reveal_strlit("image/png");
        reveal_strlit("image/jpeg");
        reveal_strlit("image/gif");
        reveal_strlit("application/octet-stream");
        reveal_strlit("data:");
        reveal_strlit(";base64,");
    }
    if n >= 4 && bytes[0] == 0x89u8 && bytes[1] == 0x50u8 && bytes[2] == 0x4Eu8 && bytes[3] == 0x47u8 {
        assert(bytes@.subrange(0, 4) =~= seq![0x89u8, 0x50u8, 0x4Eu8, 0x47u8]);
        push_str(&mut r, "image/png");
    } else if n >= 3 && bytes[0] == 0xFFu8 && bytes[1] == 0xD8u8 && bytes[2] == 0xFFu8 {
        assert(!has_prefix(bytes@, seq![0x89u8, 0x50u8, 0x4Eu8, 0x47u8]) ==> true);
        assert(bytes@.subrange(0, 3) =~= seq![0xFFu8, 0xD8u8, 0xFFu8]);
        assert(!has_prefix(bytes@, seq![0x89u8, 0x50u8, 0x4Eu8, 0x47u8])) by {
            if has_prefix(bytes@, seq![0x89u8, 0x50u8, 0x4Eu8, 0x47u8]) {
                assert(bytes@.subrange(0, 4)[0] == 0x89u8);
            }
        }
        push_str(&mut r, "image/jpeg");
    } else if n >= 4 && bytes[0] == 0x47u8 && bytes[1] == 0x49u8 && bytes[2] == 0x46u8 && bytes[3]
        == 0x38u8 {
        assert(bytes@.subrange(0, 4) =~= seq![0x47u8, 0x49u8, 0x46u8, 0x38u8]);
        assert(!has_prefix(bytes@, seq![0x89u8, 0x50u8, 0x4Eu8, 0x47u8])) by {
            if has_prefix(bytes@, seq![0x89u8, 0x50u8, 0x4Eu8, 0x47u8]) {
                assert(bytes@.subrange(0, 4)[0] == 0x89u8);
            }
        }
        assert(!has_prefix(bytes@, seq![0xFFu8, 0xD8u8, 0xFFu8])) by {
            if has_prefix(bytes@, seq![0xFFu8, 0xD8u8, 0xFFu8]) {
                assert(bytes@.subrange(0, 3)[0] == 0xFFu8);
            }
        }
        push_str(&mut r, "image/gif");
    } else {
        assert(!has_prefix(bytes@, seq![0x89u8, 0x50u8, 0x4Eu8, 0x47u8])) by {
            if has_prefix(bytes@, seq![0x89u8, 0x50u8, 0x4Eu8, 0x47u8]) {
                let p = bytes@.subrange(0, 4);
                assert(p[0] == bytes@[0] && p[1] == bytes@[1] && p[2] == bytes@[2] && p[3] == bytes@[3]);
            }
        }
        assert(!has_prefix(bytes@, seq![0xFFu8, 0xD8u8, 0xFFu8])) by {
            if has_prefix(bytes@, seq![0xFFu8, 0xD8u8, 0xFFu8]) {
                let p = bytes@.subrange(0, 3);
                assert(p[0] == bytes@[0] && p[1] == bytes@[1] && p[2] == bytes@[2]);
            }
        }
        assert(!has_prefix(bytes@, seq![0x47u8, 0x49u8, 0x46u8, 0x38u8])) by {
            if has_prefix(bytes@, seq![0x47u8, 0x49u8, 0x46u8, 0x38u8]) {
                let p = bytes@.subrange(0, 4);
                assert(p[0] == bytes@[0] && p[1] == bytes@[1] && p[2] == bytes@[2] && p[3] == bytes@[3]);
            }
        }
        push_str(&mut r, "application/octet-stream");
    }
    push_str(&mut r, ";base64,");
    let b64 = base64_encode_bytes(bytes);
    push_str(&mut r, b64.as_str());
    proof {
        lemma_data_url_decodes(bytes@);
    }
    r
}

/// A `data:` URL is read back to its base64 part.
proof fn lemma_data_url_decodes(b: Seq<u8>)
    requires
        base64_decoded(encode_utf8(base64_encode(b))) == Some(b),
    ensures
        avatar_bytes(data_url(b)) == Ok::<Seq<u8>, ErrorV>(b),
{
    reveal_strlit("image/png");
    reveal_strlit("image/jpeg");
    reveal_strlit("image/gif");
    reveal_strlit("application/octet-stream");
    reveal_strlit("data:");
    reveal_strlit(";base64,");
    let url = data_url(b);
    let m = sniffed_mime(b);
    let e = base64_encode(b);
    let tail = m + ";base64,"@ + e;
    assert(";base64,"@ + e == ";base64,"@.add(e));
    assert(url =~= "data:"@ + tail);
    assert(url.subrange(0, 5) =~= "data:"@);
    assert(url.skip(5) =~= tail);
    assert(forall|k: int| 0 <= k < m.len() ==> #[trigger] m[k] != ',');
    lemma_first_index_after(m, ";base64,"@ + e);
    assert(m + (";base64,"@ + e) =~= tail);
    assert(tail.skip(m.len() + 8int) =~= e);
    lemma_base64_chars(b);
    assert forall|k: int| 0 <= k < e.len() implies !unicode_white_space(#[trigger] e[k]) by {
        assert(is_base64_char(e[k]));
    }
    lemma_trim_plain(e);
}

/// The first comma of `m + x`, when `m` has none and `x` holds one at
/// index 7, is at `m.len() + 7`.
proof fn lemma_first_index_after(m: Seq<char>, x: Seq<char>)
    requires
        forall|k: int| 0 <= k < m.len() ==> #[trigger] m[k] != ',',
        x.len() >= 8,
        x[7] == ',',
        forall|k: int| 0 <= k < 7 ==> #[trigger] x[k] != ',',
    ensures
        first_index_of(m + x, ',') == Some(m.len() + 7int),
    decreases m.len() + 8,
{
    if m.len() > 0 {
        assert((m + x).drop_first() =~= m.drop_first() + x);
        lemma_first_index_after(m.drop_first(), x);
    } else {
        assert(m + x =~= x);
        lemma_first_index_in(x, 7);
    }
}

/// The first comma of `x` at `k`, when none comes before.
proof fn lemma_first_index_in(x: Seq<char>, k: int)
    requires
        0 <= k < x.len(),
        x[k] == ',',
        forall|j: int| 0 <= j < k ==> #[trigger] x[j] != ',',
    ensures
        first_index_of(x, ',') == Some(k),
    decreases k,
{
    if k > 0 {
        assert forall|j: int| 0 <= j < k - 1 implies #[trigger] x.drop_first()[j] != ',' by {
            assert(x.drop_first()[j] == x[j + 1]);
        }
        lemma_first_index_in(x.drop_first(), k - 1);
    }
}

/// Where `first_index_of` points, the character is there.
proof fn lemma_first_index_bounds(s: Seq<char>, c: char)
    ensures
        first_index_of(s, c) matches Some(i) ==> 0 <= i < s.len() && s[i] == c,
    decreases s.len(),
{
    if s.len() > 0 && s[0] != c {
        lemma_first_index_bounds(s.drop_first(), c);
    }
}

/// Index of the first comma in `s`, searching from `from`.
fn find_comma(s: &[char], from: usize) -> (r: Option<usize>)
    requires
        from <= s.len(),
    ensures
        match first_index_of(s@.skip(from as int), ',') {
            Some(i) => r == Some((from + i) as usize),
            None => r is None,
        },
        r matches Some(k) ==> from <= k < s.len(),
    decreases s.len() - from,
{
    if from == s.len() {
        return None;
    }
    let ghost t = s@.skip(from as int);
    assert(t.drop_first() =~= s@.skip(from + 1));
    if s[from] == ',' {
        Some(from)
    } else {
        find_comma(s, from + 1)
    }
}

/// Turns what the front end sent back into image bytes: the part after the
/// first comma of a `data:` URL, or the whole text, trimmed and
/// base64-decoded. `None` stays `None`.
pub fn decode(s: Option<&str>) -> (r: Result<Option<Vec<u8>>, AppError>)
    ensures
        s is None ==> r matches Ok(None),
        s matches Some(raw) ==> match avatar_bytes(raw@) {
            Ok(b) => r matches Ok(Some(v)) && v@ == b,
            Err(e) => r matches Err(x) && x@ == e,
        },
{
    match s {
        None => Ok(None),
        Some(raw) => {
            let v = chars_of(raw);
            proof {
                reveal_strlit("data:");
            }
            let prefix = chars_of("data:");
            let mut start: usize = 0;
            if crate::text::occurs_at_exec(v.as_slice(), 0, prefix.as_slice()) {
                match find_comma(v.as_slice(), 5) {
                    Some(i) => {
                        start = i + 1;
                    },
                    None => {},
                }
            }
            let mut rest: Vec<char> = Vec::new();
            let mut i = start;
            while i < v.len()
                invariant
                    start <= v@.len(),
                    start <= i <= v@.len(),
                    rest@ == v@.subrange(start as int, i as int),
                decreases v.len() - i,
            {
                rest.push(v[i]);
                assert(v@.subrange(start as int, i as int).push(v@[i as int]) =~= v@.subrange(
                    start as int,
                    i + 1,
                ));
                i = i + 1;
            }
            assert(rest@ =~= base64_part(raw@)) by {
                if has_prefix(raw@, "data:"@) {
                    lemma_first_index_bounds(raw@.skip(5), ',');
                    if let Some(k) = first_index_of(raw@.skip(5), ',') {
                        assert(raw@.skip(5).skip(k + 1) =~= raw@.skip(5 + k + 1));
                    }
                }
            }
            let trimmed = trim_chars(rest.as_slice());
            let text = string_from_chars(trimmed.as_slice());
            let bytes = text.as_str().as_bytes();
            match base64_decode_bytes(bytes) {
                Ok(d) => Ok(Some(d)),
                Err(m) => Err(AppError::AvatarBase64(m)),
            }
        },
    }
}

} // verus!
