//! How records are kept in the store: string lists and extensions as JSON
//! text, the character version shown in the list, and the greeting a new
//! conversation opens with.

use vstd::prelude::*;

use crate::cards::spec::{strs_json, str_of};
use crate::json::{
    jv_get, lemma_plain_seq, lemma_seq_depth, lemma_seq_view, parse_json_text, parsed_json, plain_json, seq_view,
    to_compact_string, json_compact_text, Json, JsonV,
};
use crate::text::{is_blank, is_blank_str, views};

verus! {

/// Whether every element is a string.
pub open spec fn all_strings(a: Seq<JsonV>) -> bool {
    forall|i: int| 0 <= i < a.len() ==> #[trigger] a[i] is Str
}

/// A stored string list read back: the strings of a JSON array of strings;
/// nothing when the text is not one.
pub open spec fn stored_strings(text: Seq<char>) -> Seq<Seq<char>> {
    match parsed_json(text) {
        Some(JsonV::Array(a)) => if all_strings(a) {
            Seq::new(a.len(), |i: int| str_of(Some(a[i])))
        } else {
            seq![]
        },
        _ => seq![],
    }
}

/// Reads a stored string list (a JSON array of strings); anything else
/// reads as an empty list.
pub fn parse_string_array(text: &str) -> (r: Vec<String>)
    ensures
        views(r@) == stored_strings(text@),
{
    broadcast use lemma_seq_view;

    let mut out: Vec<String> = Vec::new();
    let empty: Vec<String> = Vec::new();
    assert(views(empty@) =~= Seq::<Seq<char>>::empty());
    let v = match parse_json_text(text) {
        Ok(v) => v,
        Err(_) => {
            return empty;
        },
    };
    let a = match &v {
        Json::Array(a) => a,
        _ => {
            return empty;
        },
    };
    let ghost av = seq_view(a@);
    proof {
        lemma_seq_view(a@);
    }
    let mut i: usize = 0;
    while i < a.len()
        invariant
            av == seq_view(a@),
            av.len() == a@.len(),
            parsed_json(text@) == Some(JsonV::Array(av)),
            views(empty@) == Seq::<Seq<char>>::empty(),
            forall|j: int| 0 <= j < av.len() ==> #[trigger] av[j] == a@[j]@,
            i <= a.len(),
            forall|j: int| 0 <= j < i ==> #[trigger] av[j] is Str,
            views(out@) =~= Seq::new(i as nat, |j: int| str_of(Some(av[j]))),
        decreases a.len() - i,
    {
        assert(av[i as int] == a@[i as int]@);
        match &a[i] {
            Json::String(s) => {
                let ghost before = out@;
                out.push(s.clone());
                assert(views(out@) =~= views(before).push(s@));
            },
            _ => {
                assert(!all_strings(av));
                return empty;
            },
        }
        i = i + 1;
    }
    out
}

/// Writes a string list as JSON text; it reads back as the same list.
pub fn string_array_text(v: &Vec<String>) -> (r: String)
    ensures
        r@ == json_compact_text(strs_json(views(v@))),
        stored_strings(r@) == views(v@),
{
    let j = Json::from_strings(v);
    let ghost a = Seq::new(v@.len(), |k: int| JsonV::Str(v@[k]@));
    assert(a =~= Seq::new(views(v@).len(), |k: int| JsonV::Str(views(v@)[k])));
    proof {
        lemma_plain_seq(a);
        lemma_seq_depth(a, 0);
    }
    let r = to_compact_string(&j);
    assert(Seq::new(a.len(), |i: int| str_of(Some(a[i]))) =~= views(v@));
    r
}

/// Stored extensions read back: the value, when the text parses.
pub fn extensions_from_text(text: Option<&str>) -> (r: Option<Json>)
    ensures
        match text {
            Some(t) => match parsed_json(t@) {
                Some(v) => r matches Some(j) && j@ == v,
                None => r is None,
            },
            None => r is None,
        },
{
    match text {
        Some(t) => match parse_json_text(t) {
            Ok(v) => Some(v),
            Err(_) => None,
        },
        None => None,
    }
}

/// The character version kept in stored extensions:
/// `_v2_extra.character_version`, when it is a string.
pub open spec fn stored_version(text: Seq<char>) -> Option<Seq<char>> {
    match parsed_json(text) {
        Some(v) => match jv_get(v, "_v2_extra"@) {
            Some(x) => match jv_get(x, "character_version"@) {
                Some(JsonV::Str(s)) => Some(s),
                _ => None,
            },
            None => None,
        },
        None => None,
    }
}

/// The character version shown in the character list.
pub fn character_version_of(extensions: Option<&str>) -> (r: Option<String>)
    ensures
        match extensions {
            Some(t) => crate::text::opt_string_view(r) == stored_version(t@),
            None => r is None,
        },
{
    let t = match extensions {
        Some(t) => t,
        None => {
            return None;
        },
    };
    let v = match parse_json_text(t) {
        Ok(v) => v,
        Err(_) => {
            return None;
        },
    };
    match v.get("_v2_extra") {
        Some(x) => match x.get("character_version") {
            Some(Json::String(s)) => Some(s.clone()),
            _ => None,
        },
        None => None,
    }
}

/// The greeting a new conversation opens with: the one at `index` when
/// there is one, else the first; none when that is blank or there is none.
pub open spec fn chosen_greeting(greetings: Seq<Seq<char>>, index: Option<usize>) -> Option<Seq<char>> {
    let g = match index {
        Some(i) => if i < greetings.len() {
            Some(greetings[i as int])
        } else if greetings.len() > 0 {
            Some(greetings[0])
        } else {
            None
        },
        None => if greetings.len() > 0 {
            Some(greetings[0])
        } else {
            None
        },
    };
    match g {
        Some(s) => if is_blank(s) {
            None
        } else {
            Some(s)
        },
        None => None,
    }
}

/// Picks the opening greeting of a new conversation.
pub fn pick_greeting(first_messages: &Vec<String>, index: Option<usize>) -> (r: Option<String>)
    ensures
        crate::text::opt_string_view(r) == chosen_greeting(views(first_messages@), index),
{
    let n = first_messages.len();
    let pos = match index {
        Some(i) => if i < n {
            i
        } else {
            0
        },
        None => 0,
    };
    if pos >= n {
        return None;
    }
    let g = &first_messages[pos];
    if is_blank_str(g.as_str()) {
        None
    } else {
        Some(g.clone())
    }
}

} // verus!
