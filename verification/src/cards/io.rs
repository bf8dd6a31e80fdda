//! Card files: which format a path names, what a card file holds, and
//! what an exported card file consists of. Reading and writing the files
//! is left to the caller.

use vstd::prelude::*;
use vstd::utf8::encode_utf8;

use crate::avatar::{avatar_bytes, decode};
use crate::cards::png_chunks::{chara_text, embed_chara, embedded, extract_chara, extracted_chara};
use crate::cards::spec::{
    applied, apply_to_card, book_json, card_json, card_roundtrips, character_fields, empty_card, parse_json,
    serialize_v2, CharaData, CharaDataV, decode_card,
};
use crate::error::{AppError, ErrorV};
use crate::json::{json_pretty_text, parse_error_text, parsed_json, JsonV};
use crate::models::{Character, Lorebook};
use crate::text::{contains_seq, has_prefix, lowercase, opt_string_view, str_eq, to_lower};

verus! {

/// The card file formats.
#[derive(Debug, Clone, Copy, PartialEq, Eq)]
pub enum CardFormat {
    Png,
    Json,
}

/// Index of the last `c` in `s`, or -1 when there is none.
pub open spec fn last_index_of(s: Seq<char>, c: char) -> int
    decreases s.len(),
{
    if s.len() == 0 {
        -1
    } else if s.last() == c {
        s.len() - 1
    } else {
        last_index_of(s.drop_last(), c)
    }
}

/// Where the last occurrence stands: in range, the character itself, and
/// none after it.
pub proof fn lemma_last_index_of(s: Seq<char>, c: char)
    ensures
        -1 <= last_index_of(s, c) < s.len(),
        last_index_of(s, c) >= 0 ==> s[last_index_of(s, c)] == c,
        forall|j: int| last_index_of(s, c) < j < s.len() ==> s[j] != c,
    decreases s.len(),
{
    if s.len() > 0 && s.last() != c {
        let t = s.drop_last();
        lemma_last_index_of(t, c);
        assert forall|j: int| last_index_of(s, c) < j < s.len() implies s[j] != c by {
            if j < t.len() {
                assert(s[j] == t[j]);
            }
        }
    }
}

/// Whether a path is written with `/` as its only separator and no drive
/// or prefix, so that every platform reads it the same way: no `\`, no
/// `:`, and no leading `//` (which Windows reads as a network share).
pub open spec fn slash_path(p: Seq<char>) -> bool {
    &&& !p.contains('\\')
    &&& !p.contains(':')
    &&& !(p.len() >= 2 && p[0] == '/' && p[1] == '/')
}

/// The final component of a `/`-separated path: trailing separators and
/// `.` components are dropped; a path ending in `..`, a root or an empty
/// path has none.
pub open spec fn file_name_of(p: Seq<char>) -> Option<Seq<char>>
    decreases p.len(),
{
    if p.len() == 0 {
        None
    } else if p.last() == '/' {
        file_name_of(p.drop_last())
    } else {
        let i = last_index_of(p, '/');
        let c = p.skip(i + 1);
        if c == seq!['.'] {
            if i < 0 {
                None
            } else {
                proof {
                    lemma_last_index_of(p, '/');
                }
                file_name_of(p.take(i))
            }
        } else if c == seq!['.', '.'] {
            None
        } else {
            Some(c)
        }
    }
}

/// The extension of a file name: what follows its last dot, unless there
/// is no dot or the only one starts the name.
pub open spec fn name_extension(name: Seq<char>) -> Option<Seq<char>> {
    let i = last_index_of(name, '.');
    if i <= 0 {
        None
    } else {
        Some(name.skip(i + 1))
    }
}

/// `Path::extension`, as text. An extension found always follows a dot in
/// the path; for a path with `/` as its only separator it is, as the
/// documentation of `Path::extension` and `Path::file_name` gives it, the
/// extension of the final component. How other separators and prefixes
/// read depends on the platform and is left unsaid.
#[verifier::external_body]
fn path_extension(path: &str) -> (r: Option<String>)
    ensures
        r matches Some(e) ==> contains_seq(path@, seq!['.'] + e@),
        slash_path(path@) ==> opt_string_view(r) == match file_name_of(path@) {
            Some(n) => name_extension(n),
            None => None,
        },
{
    std::path::Path::new(path).extension().and_then(|e| e.to_str()).map(|e| e.to_owned())
}

/// The extension of a path's final component, `/`-separated, empty when
/// there is none.
pub open spec fn path_extension_text(p: Seq<char>) -> Seq<char> {
    match file_name_of(p) {
        Some(n) => match name_extension(n) {
            Some(e) => e,
            None => seq![],
        },
        None => seq![],
    }
}

/// The lowercase form of an extension, empty when there is none.
pub fn lowercase_extension(ext: Option<&str>) -> (r: String)
    ensures
        r@ == lowercase(
            match ext {
                Some(e) => e@,
                None => seq![],
            },
        ),
{
    match ext {
        Some(e) => to_lower(e),
        None => {
            proof {
                reveal_strlit("");
            }
            assert(""@ =~= Seq::<char>::empty());
            to_lower("")
        },
    }
}

/// The lowercase extension of a path, empty when it has none.
pub fn extension(path: &str) -> (r: String)
    ensures
        exists|e: Seq<char>|
            r@ == lowercase(e) && (e.len() == 0 || contains_seq(path@, seq!['.'] + e)),
        slash_path(path@) ==> r@ == lowercase(path_extension_text(path@)),
{
    let ext = path_extension(path);
    match ext {
        Some(e) => {
            let r = lowercase_extension(Some(e.as_str()));
            assert(r@ == lowercase(e@));
            r
        },
        None => {
            let r = lowercase_extension(None);
            assert(r@ == lowercase(Seq::<char>::empty()));
            r
        },
    }
}

/// The format a (lowercase) extension names for import.
pub fn import_format(ext: &str) -> (r: Result<CardFormat, AppError>)
    ensures
        ext@ == "png"@ ==> r == Ok::<CardFormat, AppError>(CardFormat::Png),
        ext@ == "json"@ ==> r == Ok::<CardFormat, AppError>(CardFormat::Json),
        ext@ != "png"@ && ext@ != "json"@ ==> (r matches Err(e) && e@ == ErrorV::UnsupportedImport(ext@)),
{
    proof {
        reveal_strlit("png");
        reveal_strlit("json");
        assert("png"@.len() != "json"@.len());
    }
    if str_eq(ext, "png") {
        Ok(CardFormat::Png)
    } else if str_eq(ext, "json") {
        Ok(CardFormat::Json)
    } else {
        Err(AppError::UnsupportedImport(ext.to_owned()))
    }
}

/// What card text yields: the card, or why not.
pub open spec fn card_from_text(t: Seq<char>) -> Result<CharaDataV, ErrorV> {
    match parsed_json(t) {
        None => Err(ErrorV::CardJson(parse_error_text(t))),
        Some(v) => match decode_card(v) {
            Ok(d) => Ok(d),
            Err(m) => Err(ErrorV::CardJson(m)),
        },
    }
}

/// What a PNG card file yields: the card, or why not.
pub open spec fn card_from_png_bytes(b: Seq<u8>) -> Result<CharaDataV, ErrorV> {
    match extracted_chara(b) {
        Err(e) => Err(e),
        Ok(None) => Err(ErrorV::NoChara),
        Ok(Some(t)) => card_from_text(t),
    }
}

/// Parses card text, mapping failure to a card error.
fn parse_card_text(text: &str) -> (r: Result<CharaData, AppError>)
    ensures
        match card_from_text(text@) {
            Ok(d) => r matches Ok(x) && x@ == d,
            Err(e) => r matches Err(x) && x@ == e,
        },
{
    match parse_json(text) {
        Ok(d) => Ok(d),
        Err(m) => Err(AppError::CardJson(m)),
    }
}

/// Reads a PNG card file: the card from its `chara` text, and the whole
/// file as the avatar.
pub fn card_from_png(bytes: Vec<u8>) -> (r: Result<(CharaData, Option<Vec<u8>>), AppError>)
    ensures
        match card_from_png_bytes(bytes@) {
            Ok(d) => r matches Ok((x, a)) && x@ == d && (a matches Some(v) && v@ == bytes@),
            Err(e) => r matches Err(x) && x@ == e,
        },
{
    let text = match extract_chara(bytes.as_slice()) {
        Ok(Some(t)) => t,
        Ok(None) => {
            return Err(AppError::NoChara);
        },
        Err(e) => {
            return Err(e);
        },
    };
    let data = parse_card_text(text.as_str())?;
    Ok((data, Some(bytes)))
}

/// Reads a JSON card file; it brings no avatar.
pub fn card_from_json_text(text: &str) -> (r: Result<(CharaData, Option<Vec<u8>>), AppError>)
    ensures
        match card_from_text(text@) {
            Ok(d) => r matches Ok((x, a)) && x@ == d && a is None,
            Err(e) => r matches Err(x) && x@ == e,
        },
{
    let data = parse_card_text(text)?;
    Ok((data, None))
}

/// The first bytes of a PNG file.
pub open spec fn png_magic() -> Seq<u8> {
    seq![0x89u8, 0x50u8, 0x4Eu8, 0x47u8]
}

/// The card text exported for a character.
pub open spec fn export_text(c: Character, book: Option<JsonV>) -> Seq<char> {
    json_pretty_text(card_json(applied(character_fields(c), empty_card(), book)))
}

/// The bytes of an exported card file, or why there are none: PNG export
/// embeds the card in the character's PNG avatar, JSON export is the card
/// text.
pub open spec fn export_bytes(ext: Seq<char>, c: Character, book: Option<JsonV>) -> Result<Seq<u8>, ErrorV> {
    let t = export_text(c, book);
    if ext == "png"@ {
        match c.avatar {
            None => Err(ErrorV::NoPngAvatar),
            Some(a) => match avatar_bytes(a@) {
                Err(e) => Err(e),
                Ok(b) => if has_prefix(b, png_magic()) {
                    embedded(b, t)
                } else {
                    Err(ErrorV::NoPngAvatar)
                },
            },
        }
    } else if ext == "json"@ {
        Ok(encode_utf8(t))
    } else {
        Err(ErrorV::UnsupportedExport(ext))
    }
}

/// The bytes of the card file exported for a character under a (lowercase)
/// extension; the world book, when given, is embedded as the character
/// book.
pub fn card_file_contents(ext: &str, c: &Character, lorebook: Option<&Lorebook>) -> (r: Result<Vec<u8>, AppError>)
    ensures
        match export_bytes(
            ext@,
            *c,
            match lorebook {
                Some(b) => Some(book_json(*b)),
                None => None,
            },
        ) {
            Ok(b) => r matches Ok(v) && v@ == b,
            Err(e) => r matches Err(x) && x@ == e,
        },
        ({
            let book = match lorebook {
                Some(b) => Some(book_json(*b)),
                None => None,
            };
            let d = applied(character_fields(*c), empty_card(), book);
            let t = export_text(*c, book);
            &&& (ext@ == "png"@ && card_roundtrips(d) && chara_text(t).len() <= 0xFFFF_FFFF) ==> (r matches Ok(
                v,
            ) ==> card_from_png_bytes(v@) == Ok::<CharaDataV, ErrorV>(d))
            &&& card_roundtrips(d) ==> card_from_text(t) == Ok::<CharaDataV, ErrorV>(d)
        }),
{
    let mut data = CharaData::default();
    apply_to_card(c, &mut data, lorebook);
    let json = serialize_v2(&data);
    if str_eq(ext, "png") {
        let avatar = match decode(
            match &c.avatar {
                Some(a) => Some(a.as_str()),
                None => None,
            },
        ) {
            Ok(Some(b)) => b,
            Ok(None) => {
                return Err(AppError::NoPngAvatar);
            },
            Err(e) => {
                return Err(e);
            },
        };
        let is_png = avatar.len() >= 4 && avatar[0] == 0x89u8 && avatar[1] == 0x50u8 && avatar[2]
            == 0x4Eu8 && avatar[3] == 0x47u8;
        assert(is_png == has_prefix(avatar@, png_magic())) by {
            if avatar@.len() >= 4 {
                let p = avatar@.subrange(0, 4);
                assert(p[0] == avatar@[0] && p[1] == avatar@[1] && p[2] == avatar@[2] && p[3] == avatar@[3]);
                if is_png {
                    assert(p =~= png_magic());
                }
            }
        }
        if !is_png {
            return Err(AppError::NoPngAvatar);
        }
        embed_chara(avatar.as_slice(), json.as_str())
    } else if str_eq(ext, "json") {
        let bytes = json.as_str().as_bytes();
        let mut out: Vec<u8> = Vec::new();
        let mut i: usize = 0;
        while i < bytes.len()
            invariant
                i <= bytes@.len(),
                out@ == bytes@.take(i as int),
            decreases bytes.len() - i,
        {
            out.push(bytes[i]);
            assert(bytes@.take(i + 1) =~= bytes@.take(i as int).push(bytes@[i as int]));
            i = i + 1;
        }
        assert(bytes@.take(i as int) =~= bytes@);
        Ok(out)
    } else {
        Err(AppError::UnsupportedExport(ext.to_owned()))
    }
}

} // verus!
