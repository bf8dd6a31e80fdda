//! SillyTavern chara v1/v2 cards and the character record. Card fields the
//! record has no place for (creator, creator notes, character version,
//! post-history instructions, character book) travel in the extensions
//! under the key `_v2_extra`, so a card survives import and export.
//!
//! Card JSON is read the way a derived deserializer reads it: a v2 card
//! wraps the fields in `data`, a v1 card has them at the root; `name` is
//! required, the other fields default; a field of the wrong type is an
//! error; a `null` optional value reads as absent.

use vstd::prelude::*;

use crate::json::{
    decimal, distinct_keys, jv_array, jv_i64, insert_member, key_position, lemma_key_position, json_view, jv_get, jv_index, members_insert, lemma_member_lookup_prefix, lemma_members_view, lemma_seq_view, member_lookup,
    members_view, distinct_deep, lemma_lookup_member, lemma_members_distinct_deep, lemma_seq_distinct_deep, lemma_plain_members, lemma_plain_seq, plain_json, json_depth, lemma_seq_depth, lemma_members_depth, parse_depth_limit, reparses, parse_error_text, parse_json_text, parsed_json, seq_view, to_pretty_string, json_pretty_text, Json,
    JsonV, NumberView, int_view,
};
use crate::models::{Character, CharacterInput, LoreEntry, LoreEntryInput, Lorebook, LorebookInput};
use crate::text::{debug_string, debug_text, chars_of, is_blank, is_blank_str, opt_string_view, push_str, str_eq, trim, trim_chars, trim_end, trim_start, views};

verus! {

/// The card fields shared by v1 (at the root) and v2 (under `data`).
#[derive(Debug, Clone, PartialEq)]
pub struct CharaData {
    pub name: String,
    pub description: String,
    pub personality: String,
    pub scenario: String,
    pub first_mes: String,
    pub mes_example: String,
    pub creator_notes: String,
    pub system_prompt: String,
    pub post_history_instructions: String,
    pub alternate_greetings: Vec<String>,
    pub character_book: Option<Json>,
    pub tags: Vec<String>,
    pub creator: String,
    pub character_version: String,
    pub extensions: Option<Json>,
}

/// A v2 card: the fields under `data`, tagged with the spec's name and
/// version.
pub struct V2Card {
    pub spec: String,
    pub spec_version: String,
    pub data: CharaData,
}

/// Card fields as values.
pub struct CharaDataV {
    pub name: Seq<char>,
    pub description: Seq<char>,
    pub personality: Seq<char>,
    pub scenario: Seq<char>,
    pub first_mes: Seq<char>,
    pub mes_example: Seq<char>,
    pub creator_notes: Seq<char>,
    pub system_prompt: Seq<char>,
    pub post_history_instructions: Seq<char>,
    pub alternate_greetings: Seq<Seq<char>>,
    pub character_book: Option<JsonV>,
    pub tags: Seq<Seq<char>>,
    pub creator: Seq<char>,
    pub character_version: Seq<char>,
    pub extensions: Option<JsonV>,
}

/// The value of an optional JSON tree.
pub open spec fn opt_json(o: Option<Json>) -> Option<JsonV> {
    match o {
        Some(j) => Some(j@),
        None => None,
    }
}

impl View for CharaData {
    type V = CharaDataV;

    open spec fn view(&self) -> CharaDataV {
        CharaDataV {
            name: self.name@,
            description: self.description@,
            personality: self.personality@,
            scenario: self.scenario@,
            first_mes: self.first_mes@,
            mes_example: self.mes_example@,
            creator_notes: self.creator_notes@,
            system_prompt: self.system_prompt@,
            post_history_instructions: self.post_history_instructions@,
            alternate_greetings: views(self.alternate_greetings@),
            character_book: opt_json(self.character_book),
            tags: views(self.tags@),
            creator: self.creator@,
            character_version: self.character_version@,
            extensions: opt_json(self.extensions),
        }
    }
}

/// The empty card.
pub open spec fn empty_card() -> CharaDataV {
    CharaDataV {
        name: seq![],
        description: seq![],
        personality: seq![],
        scenario: seq![],
        first_mes: seq![],
        mes_example: seq![],
        creator_notes: seq![],
        system_prompt: seq![],
        post_history_instructions: seq![],
        alternate_greetings: seq![],
        character_book: None,
        tags: seq![],
        creator: seq![],
        character_version: seq![],
        extensions: None,
    }
}

impl Default for CharaData {
    fn default() -> (d: CharaData)
        ensures
            d@ == empty_card(),
    {
        let d = CharaData {
            name: String::new(),
            description: String::new(),
            personality: String::new(),
            scenario: String::new(),
            first_mes: String::new(),
            mes_example: String::new(),
            creator_notes: String::new(),
            system_prompt: String::new(),
            post_history_instructions: String::new(),
            alternate_greetings: Vec::new(),
            character_book: None,
            tags: Vec::new(),
            creator: String::new(),
            character_version: String::new(),
            extensions: None,
        };
        assert(views(d.alternate_greetings@) =~= Seq::<Seq<char>>::empty());
        assert(views(d.tags@) =~= Seq::<Seq<char>>::empty());
        d
    }
}

/// Number of card fields.
pub open spec fn field_count() -> int {
    15
}

/// The JSON key of field `i`, in declaration order.
pub open spec fn field_name(i: int) -> Seq<char> {
    if i == 0 {
        "name"@
    } else if i == 1 {
        "description"@
    } else if i == 2 {
        "personality"@
    } else if i == 3 {
        "scenario"@
    } else if i == 4 {
        "first_mes"@
    } else if i == 5 {
        "mes_example"@
    } else if i == 6 {
        "creator_notes"@
    } else if i == 7 {
        "system_prompt"@
    } else if i == 8 {
        "post_history_instructions"@
    } else if i == 9 {
        "alternate_greetings"@
    } else if i == 10 {
        "character_book"@
    } else if i == 11 {
        "tags"@
    } else if i == 12 {
        "creator"@
    } else if i == 13 {
        "character_version"@
    } else {
        "extensions"@
    }
}

/// The field a key names, if any.
pub open spec fn key_index(k: Seq<char>) -> Option<int> {
    if k == "name"@ {
        Some(0)
    } else if k == "description"@ {
        Some(1)
    } else if k == "personality"@ {
        Some(2)
    } else if k == "scenario"@ {
        Some(3)
    } else if k == "first_mes"@ {
        Some(4)
    } else if k == "mes_example"@ {
        Some(5)
    } else if k == "creator_notes"@ {
        Some(6)
    } else if k == "system_prompt"@ {
        Some(7)
    } else if k == "post_history_instructions"@ {
        Some(8)
    } else if k == "alternate_greetings"@ {
        Some(9)
    } else if k == "character_book"@ {
        Some(10)
    } else if k == "tags"@ {
        Some(11)
    } else if k == "creator"@ {
        Some(12)
    } else if k == "character_version"@ {
        Some(13)
    } else if k == "extensions"@ {
        Some(14)
    } else {
        None
    }
}

/// Whether field `i` is a list of strings.
pub open spec fn is_list_field(i: int) -> bool {
    i == 9 || i == 11
}

/// Whether field `i` is an optional JSON value.
pub open spec fn is_value_field(i: int) -> bool {
    i == 10 || i == 14
}

/// How a JSON value is shown in a type error, as `serde_json` shows the
/// unexpected value: `null`, the boolean or number itself in backquotes
/// (`integer` or `floating point`), a string as `Debug` prints it, and
/// `sequence` or `map` for the containers.
pub open spec fn kind_text(v: JsonV) -> Seq<char> {
    match v {
        JsonV::Null => "null"@,
        JsonV::Bool(b) => if b { "boolean `true`"@ } else { "boolean `false`"@ },
        JsonV::Number(n) => if n.int is Some || n.uint is Some {
            "integer `"@ + n.text + "`"@
        } else {
            "floating point `"@ + n.text + "`"@
        },
        JsonV::Str(s) => "string "@ + debug_text(s),
        JsonV::Array(_) => "sequence"@,
        JsonV::Object(_) => "map"@,
    }
}

/// The message for a value of the wrong type.
pub open spec fn invalid_type(v: JsonV, expected: Seq<char>) -> Seq<char> {
    "invalid type: "@ + kind_text(v) + ", expected "@ + expected
}

/// Index of the first element that is not a string.
pub open spec fn first_non_str(a: Seq<JsonV>) -> Option<int>
    decreases a.len(),
{
    if a.len() == 0 {
        None
    } else if !(a[0] is Str) {
        Some(0)
    } else {
        match first_non_str(a.drop_first()) {
            Some(k) => Some(k + 1),
            None => None,
        }
    }
}

/// The error reading `v` as a string list, if any.
pub open spec fn list_error(v: JsonV) -> Option<Seq<char>> {
    match v {
        JsonV::Array(a) => match first_non_str(a) {
            Some(k) => Some(invalid_type(a[k], "a string"@)),
            None => None,
        },
        _ => Some(invalid_type(v, "a sequence"@)),
    }
}

/// The error reading `v` as field `i`, if any.
pub open spec fn field_error(i: int, v: JsonV) -> Option<Seq<char>> {
    if is_value_field(i) {
        None
    } else if is_list_field(i) {
        list_error(v)
    } else {
        match v {
            JsonV::Str(_) => None,
            _ => Some(invalid_type(v, "a string"@)),
        }
    }
}

/// The first error among the members of a card object, in member order.
pub open spec fn members_error(m: Seq<(Seq<char>, JsonV)>) -> Option<Seq<char>>
    decreases m.len(),
{
    if m.len() == 0 {
        None
    } else {
        match key_index(m[0].0) {
            Some(i) => match field_error(i, m[0].1) {
                Some(e) => Some(e),
                None => members_error(m.drop_first()),
            },
            None => members_error(m.drop_first()),
        }
    }
}

/// The first error among the elements of a card array, from index `i`.
pub open spec fn elems_error(a: Seq<JsonV>, i: int) -> Option<Seq<char>>
    decreases field_count() - i,
{
    if i < 0 || i >= field_count() || i >= a.len() {
        None
    } else {
        match field_error(i, a[i]) {
            Some(e) => Some(e),
            None => elems_error(a, i + 1),
        }
    }
}

/// What the card value holds for field `i`: a member, or an element.
pub open spec fn slot(v: JsonV, i: int) -> Option<JsonV> {
    match v {
        JsonV::Object(m) => member_lookup(m, field_name(i)),
        JsonV::Array(a) => if 0 <= i < a.len() {
            Some(a[i])
        } else {
            None
        },
        _ => None,
    }
}

/// A string field: the string, or empty when absent.
pub open spec fn str_of(o: Option<JsonV>) -> Seq<char> {
    match o {
        Some(JsonV::Str(s)) => s,
        _ => seq![],
    }
}

/// A list field: the strings, or empty when absent.
pub open spec fn strs_of(o: Option<JsonV>) -> Seq<Seq<char>> {
    match o {
        Some(JsonV::Array(a)) => Seq::new(a.len(), |k: int| str_of(Some(a[k]))),
        _ => seq![],
    }
}

/// An optional value field: absent when missing or null.
pub open spec fn value_of(o: Option<JsonV>) -> Option<JsonV> {
    match o {
        Some(JsonV::Null) => None,
        Some(x) => Some(x),
        None => None,
    }
}

/// The card read from its slots.
pub open spec fn card_from_slots(v: JsonV) -> CharaDataV {
    CharaDataV {
        name: str_of(slot(v, 0)),
        description: str_of(slot(v, 1)),
        personality: str_of(slot(v, 2)),
        scenario: str_of(slot(v, 3)),
        first_mes: str_of(slot(v, 4)),
        mes_example: str_of(slot(v, 5)),
        creator_notes: str_of(slot(v, 6)),
        system_prompt: str_of(slot(v, 7)),
        post_history_instructions: str_of(slot(v, 8)),
        alternate_greetings: strs_of(slot(v, 9)),
        character_book: value_of(slot(v, 10)),
        tags: strs_of(slot(v, 11)),
        creator: str_of(slot(v, 12)),
        character_version: str_of(slot(v, 13)),
        extensions: value_of(slot(v, 14)),
    }
}

/// Reading card fields from a JSON value (an object, or an array in field
/// order), or the reason it fails.
pub open spec fn decode_chara(v: JsonV) -> Result<CharaDataV, Seq<char>> {
    match v {
        JsonV::Object(m) => match members_error(m) {
            Some(e) => Err(e),
            None => if member_lookup(m, "name"@) is None {
                Err("missing field `name`"@)
            } else {
                Ok(card_from_slots(v))
            },
        },
        JsonV::Array(a) => if a.len() == 0 {
            Err("invalid length 0, expected struct CharaData with 15 elements"@)
        } else {
            match elems_error(a, 0) {
                Some(e) => Err(e),
                None => if a.len() > field_count() {
                    Err("invalid length "@ + crate::json::decimal(a.len() as int)
                        + ", expected fewer elements in array"@)
                } else {
                    Ok(card_from_slots(v))
                },
            }
        },
        _ => Err(invalid_type(v, "struct CharaData"@)),
    }
}

/// The first error among the members of a v2 wrapper, in member order.
pub open spec fn wrapper_error(m: Seq<(Seq<char>, JsonV)>) -> Option<Seq<char>>
    decreases m.len(),
{
    if m.len() == 0 {
        None
    } else {
        let (k, x) = m[0];
        if (k == "spec"@ || k == "spec_version"@) && !(x is Str) {
            Some(invalid_type(x, "a string"@))
        } else if k == "data"@ && decode_chara(x) is Err {
            Some(decode_chara(x)->Err_0)
        } else {
            wrapper_error(m.drop_first())
        }
    }
}

/// Reading a card: a value with a `data` member is a v2 wrapper
/// (`spec` required, `spec_version` optional, both strings), anything else
/// holds the fields itself.
pub open spec fn decode_card(v: JsonV) -> Result<CharaDataV, Seq<char>> {
    match jv_get(v, "data"@) {
        Some(d) => match v {
            JsonV::Object(m) => match wrapper_error(m) {
                Some(e) => Err(e),
                None => if member_lookup(m, "spec"@) is None {
                    Err("missing field `spec`"@)
                } else {
                    decode_chara(d)
                },
            },
            _ => decode_chara(d),
        },
        None => decode_chara(v),
    }
}


/// The JSON key of field `i`.
fn field_name_str(i: usize) -> (r: &'static str)
    requires
        i < 15,
    ensures
        r@ == field_name(i as int),
{
    if i == 0 {
        "name"
    } else if i == 1 {
        "description"
    } else if i == 2 {
        "personality"
    } else if i == 3 {
        "scenario"
    } else if i == 4 {
        "first_mes"
    } else if i == 5 {
        "mes_example"
    } else if i == 6 {
        "creator_notes"
    } else if i == 7 {
        "system_prompt"
    } else if i == 8 {
        "post_history_instructions"
    } else if i == 9 {
        "alternate_greetings"
    } else if i == 10 {
        "character_book"
    } else if i == 11 {
        "tags"
    } else if i == 12 {
        "creator"
    } else if i == 13 {
        "character_version"
    } else {
        "extensions"
    }
}

/// The field a key names, if any.
fn key_index_of(k: &str) -> (r: Option<usize>)
    ensures
        match r {
            Some(i) => key_index(k@) == Some(i as int) && i < 15,
            None => key_index(k@) is None,
        },
{
    if str_eq(k, "name") {
        Some(0)
    } else if str_eq(k, "description") {
        Some(1)
    } else if str_eq(k, "personality") {
        Some(2)
    } else if str_eq(k, "scenario") {
        Some(3)
    } else if str_eq(k, "first_mes") {
        Some(4)
    } else if str_eq(k, "mes_example") {
        Some(5)
    } else if str_eq(k, "creator_notes") {
        Some(6)
    } else if str_eq(k, "system_prompt") {
        Some(7)
    } else if str_eq(k, "post_history_instructions") {
        Some(8)
    } else if str_eq(k, "alternate_greetings") {
        Some(9)
    } else if str_eq(k, "character_book") {
        Some(10)
    } else if str_eq(k, "tags") {
        Some(11)
    } else if str_eq(k, "creator") {
        Some(12)
    } else if str_eq(k, "character_version") {
        Some(13)
    } else if str_eq(k, "extensions") {
        Some(14)
    } else {
        None
    }
}

/// The message for a value of the wrong type.
fn invalid_type_msg(v: &Json, expected: &str) -> (r: String)
    ensures
        r@ == invalid_type(v@, expected@),
{
    let mut r = String::new();
    push_str(&mut r, "invalid type: ");
    match v {
        Json::Null => push_str(&mut r, "null"),
        Json::Bool(b) => if *b {
            push_str(&mut r, "boolean `true`")
        } else {
            push_str(&mut r, "boolean `false`")
        },
        Json::Number(n) => {
            if n.int_value().is_some() || n.uint_value().is_some() {
                push_str(&mut r, "integer `");
            } else {
                push_str(&mut r, "floating point `");
            }
            push_str(&mut r, n.text().as_str());
            push_str(&mut r, "`");
        },
        Json::String(s) => {
            push_str(&mut r, "string ");
            let d = debug_string(s.as_str());
            push_str(&mut r, d.as_str());
        },
        Json::Array(_) => push_str(&mut r, "sequence"),
        Json::Object(_) => push_str(&mut r, "map"),
    }
    push_str(&mut r, ", expected ");
    push_str(&mut r, expected);
    r
}

/// The error reading `v` as a string list, if any.
fn list_error_of(v: &Json) -> (r: Option<String>)
    ensures
        opt_string_view(r) == list_error(v@),
{
    broadcast use lemma_seq_view;

    match v {
        Json::Array(a) => {
            let ghost av = seq_view(a@);
            proof {
                lemma_seq_view(a@);
            }
            assert(av.skip(0) =~= av);
            let mut i: usize = 0;
            while i < a.len()
                invariant
                    av == seq_view(a@),
                    av.len() == a@.len(),
                    forall|j: int| 0 <= j < av.len() ==> #[trigger] av[j] == json_view(a@[j]),
                    v@ == JsonV::Array(av),
                    i <= a.len(),
                    first_non_str(av) == match first_non_str(av.skip(i as int)) {
                        Some(k) => Some(k + i),
                        None => None,
                    },
                decreases a.len() - i,
            {
                let ghost t = av.skip(i as int);
                assert(t[0] == json_view(a@[i as int]));
                match &a[i] {
                    Json::String(_) => {},
                    x => {
                        assert(first_non_str(t) == Some(0int));
                        return Some(invalid_type_msg(x, "a string"));
                    },
                }
                assert(t.drop_first() =~= av.skip(i + 1));
                i = i + 1;
            }
            assert(av.skip(i as int).len() == 0);
            None
        },
        _ => Some(invalid_type_msg(v, "a sequence")),
    }
}

/// The error reading `v` as field `i`, if any.
fn field_error_of(i: usize, v: &Json) -> (r: Option<String>)
    ensures
        opt_string_view(r) == field_error(i as int, v@),
{
    if i == 10 || i == 14 {
        None
    } else if i == 9 || i == 11 {
        list_error_of(v)
    } else {
        match v {
            Json::String(_) => None,
            _ => Some(invalid_type_msg(v, "a string")),
        }
    }
}

/// The first error among the members of a card object.
fn members_error_of(m: &Vec<(String, Json)>) -> (r: Option<String>)
    ensures
        opt_string_view(r) == members_error(members_view(m@)),
{
    broadcast use lemma_members_view;

    let ghost mv = members_view(m@);
    proof {
        lemma_members_view(m@);
    }
    assert(mv.skip(0) =~= mv);
    let mut i: usize = 0;
    while i < m.len()
        invariant
            mv == members_view(m@),
            mv.len() == m@.len(),
            forall|j: int| 0 <= j < mv.len() ==> #[trigger] mv[j] == (m@[j].0@, json_view(m@[j].1)),
            i <= m.len(),
            members_error(mv) == members_error(mv.skip(i as int)),
        decreases m.len() - i,
    {
        let ghost t = mv.skip(i as int);
        assert(t[0] == (m@[i as int].0@, json_view(m@[i as int].1)));
        assert(t.drop_first() =~= mv.skip(i + 1));
        match key_index_of(m[i].0.as_str()) {
            Some(f) => {
                let e = field_error_of(f, &m[i].1);
                if e.is_some() {
                    return e;
                }
            },
            None => {},
        }
        i = i + 1;
    }
    assert(mv.skip(i as int).len() == 0);
    None
}

/// The first error among the elements of a card array.
fn elems_error_of(a: &Vec<Json>) -> (r: Option<String>)
    ensures
        opt_string_view(r) == elems_error(seq_view(a@), 0),
{
    broadcast use lemma_seq_view;

    let ghost av = seq_view(a@);
    proof {
        lemma_seq_view(a@);
    }
    let mut i: usize = 0;
    while i < a.len() && i < 15
        invariant
            av == seq_view(a@),
            av.len() == a@.len(),
            forall|j: int| 0 <= j < av.len() ==> #[trigger] av[j] == json_view(a@[j]),
            i <= 15,
            elems_error(av, 0) == elems_error(av, i as int),
        decreases 15 - i,
    {
        assert(av[i as int] == json_view(a@[i as int]));
        let e = field_error_of(i, &a[i]);
        if e.is_some() {
            return e;
        }
        i = i + 1;
    }
    None
}

/// What the card value holds for field `i`.
fn slot_of(v: &Json, i: usize) -> (r: Option<&Json>)
    requires
        i < 15,
    ensures
        match r {
            Some(x) => slot(v@, i as int) == Some(x@),
            None => slot(v@, i as int) is None,
        },
{
    broadcast use lemma_seq_view;

    match v {
        Json::Object(_) => v.get(field_name_str(i)),
        Json::Array(a) => {
            if i < a.len() {
                assert(seq_view(a@)[i as int] == json_view(a@[i as int]));
                Some(&a[i])
            } else {
                None
            }
        },
        _ => None,
    }
}

/// A string field, empty when absent.
fn str_field(v: &Json, i: usize) -> (r: String)
    requires
        i < 15,
    ensures
        r@ == str_of(slot(v@, i as int)),
{
    match slot_of(v, i) {
        Some(Json::String(s)) => s.clone(),
        _ => String::new(),
    }
}

/// A list field, empty when absent.
fn strs_field(v: &Json, i: usize) -> (r: Vec<String>)
    requires
        i < 15,
    ensures
        views(r@) == strs_of(slot(v@, i as int)),
{
    broadcast use lemma_seq_view;

    let mut out: Vec<String> = Vec::new();
    match slot_of(v, i) {
        Some(Json::Array(a)) => {
            let ghost av = seq_view(a@);
            proof {
                lemma_seq_view(a@);
            }
            let mut k: usize = 0;
            while k < a.len()
                invariant
                    av == seq_view(a@),
                    av.len() == a@.len(),
                    forall|j: int| 0 <= j < av.len() ==> #[trigger] av[j] == json_view(a@[j]),
                    k <= a.len(),
                    views(out@) =~= Seq::new(k as nat, |j: int| str_of(Some(av[j]))),
                decreases a.len() - k,
            {
                assert(av[k as int] == json_view(a@[k as int]));
                let ghost before = out@;
                match &a[k] {
                    Json::String(s) => out.push(s.clone()),
                    _ => out.push(String::new()),
                }
                assert(out@.last()@ == str_of(Some(av[k as int])));
                assert(views(out@) =~= views(before).push(str_of(Some(av[k as int]))));
                k = k + 1;
            }
        },
        _ => {
            assert(views(out@) =~= Seq::<Seq<char>>::empty());
        },
    }
    out
}

/// An optional value field, absent when missing or null.
fn value_field(v: &Json, i: usize) -> (r: Option<Json>)
    requires
        i < 15,
    ensures
        opt_json(r) == value_of(slot(v@, i as int)),
{
    match slot_of(v, i) {
        Some(Json::Null) => None,
        Some(x) => Some(x.copy()),
        None => None,
    }
}

/// The card read from its slots.
fn card_from_slots_of(v: &Json) -> (d: CharaData)
    ensures
        d@ == card_from_slots(v@),
{
    CharaData {
        name: str_field(v, 0),
        description: str_field(v, 1),
        personality: str_field(v, 2),
        scenario: str_field(v, 3),
        first_mes: str_field(v, 4),
        mes_example: str_field(v, 5),
        creator_notes: str_field(v, 6),
        system_prompt: str_field(v, 7),
        post_history_instructions: str_field(v, 8),
        alternate_greetings: strs_field(v, 9),
        character_book: value_field(v, 10),
        tags: strs_field(v, 11),
        creator: str_field(v, 12),
        character_version: str_field(v, 13),
        extensions: value_field(v, 14),
    }
}

/// The card result as a value.
pub open spec fn card_result(r: Result<CharaData, String>) -> Result<CharaDataV, Seq<char>> {
    match r {
        Ok(d) => Ok(d@),
        Err(m) => Err(m@),
    }
}

/// Decimal digits of `n`.
fn decimal_string(n: usize) -> (r: String)
    ensures
        r@ == crate::json::decimal(n as int),
    decreases n,
{
    let d = (n % 10) as u8;
    let c = (48u8 + d) as char;
    if n < 10 {
        let mut r = String::new();
        crate::text::push_chars(&mut r, &[c]);
        assert(r@ =~= seq![(48 + n) as char]);
        r
    } else {
        let mut r = decimal_string(n / 10);
        crate::text::push_chars(&mut r, &[c]);
        assert(r@ =~= crate::json::digits((n / 10) as nat).push((48 + n % 10) as char));
        r
    }
}

/// Reads card fields from a JSON value: an object by key, or an array in
/// field order; `name` is required, the rest default.
pub fn chara_data_from_json(v: &Json) -> (r: Result<CharaData, String>)
    ensures
        card_result(r) == decode_chara(v@),
{
    broadcast use lemma_seq_view, lemma_members_view;

    match v {
        Json::Object(m) => {
            let e = members_error_of(m);
            match e {
                Some(e) => Err(e),
                None => {
                    if v.get("name").is_none() {
                        Err("missing field `name`".to_owned())
                    } else {
                        Ok(card_from_slots_of(v))
                    }
                },
            }
        },
        Json::Array(a) => {
            if a.len() == 0 {
                return Err("invalid length 0, expected struct CharaData with 15 elements".to_owned());
            }
            match elems_error_of(a) {
                Some(e) => Err(e),
                None => {
                    if a.len() > 15 {
                        let mut msg = String::new();
                        push_str(&mut msg, "invalid length ");
                        let digits = decimal_string(a.len());
                        push_str(&mut msg, digits.as_str());
                        push_str(&mut msg, ", expected fewer elements in array");
                        Err(msg)
                    } else {
                        Ok(card_from_slots_of(v))
                    }
                },
            }
        },
        _ => Err(invalid_type_msg(v, "struct CharaData")),
    }
}

/// The first error among the members of a v2 wrapper.
fn wrapper_error_of(m: &Vec<(String, Json)>) -> (r: Option<String>)
    ensures
        opt_string_view(r) == wrapper_error(members_view(m@)),
{
    let ghost mv = members_view(m@);
    proof {
        lemma_members_view(m@);
    }
    assert(mv.skip(0) =~= mv);
    let mut i: usize = 0;
    while i < m.len()
        invariant
            mv == members_view(m@),
            mv.len() == m@.len(),
            forall|j: int| 0 <= j < mv.len() ==> #[trigger] mv[j] == (m@[j].0@, json_view(m@[j].1)),
            i <= m.len(),
            wrapper_error(mv) == wrapper_error(mv.skip(i as int)),
        decreases m.len() - i,
    {
        let ghost t = mv.skip(i as int);
        assert(t[0] == (m@[i as int].0@, json_view(m@[i as int].1)));
        assert(t.drop_first() =~= mv.skip(i + 1));
        let key = m[i].0.as_str();
        let x = &m[i].1;
        proof {
            reveal_strlit("spec");
            reveal_strlit("spec_version");
            reveal_strlit("data");
            assert("spec"@[0] != "data"@[0]);
            assert("spec_version"@.len() != "data"@.len());
        }
        if str_eq(key, "spec") || str_eq(key, "spec_version") {
            match x {
                Json::String(_) => {},
                _ => {
                    return Some(invalid_type_msg(x, "a string"));
                },
            }
        } else if str_eq(key, "data") {
            match chara_data_from_json(x) {
                Err(e) => {
                    return Some(e);
                },
                Ok(_) => {},
            }
        }
        assert(wrapper_error(t) == wrapper_error(t.drop_first()));
        i = i + 1;
    }
    assert(mv.skip(i as int).len() == 0);
    None
}

/// Reads a card from a JSON value: a v2 wrapper when it has a `data`
/// member, v1 fields otherwise.
pub fn card_from_json(v: &Json) -> (r: Result<CharaData, String>)
    ensures
        card_result(r) == decode_card(v@),
{
    match v.get("data") {
        Some(d) => match v {
            Json::Object(m) => match wrapper_error_of(m) {
                Some(e) => Err(e),
                None => {
                    if v.get("spec").is_none() {
                        Err("missing field `spec`".to_owned())
                    } else {
                        chara_data_from_json(d)
                    }
                },
            },
            _ => chara_data_from_json(d),
        },
        None => chara_data_from_json(v),
    }
}

/// A card read from a value that repeats no key has extensions that repeat
/// none.
proof fn lemma_card_keys_distinct(v: JsonV)
    requires
        distinct_deep(v),
    ensures
        decode_card(v) matches Ok(d) ==> (d.extensions matches Some(JsonV::Object(m)) ==> distinct_keys(m)),
{
    let x = match jv_get(v, "data"@) {
        Some(dd) => dd,
        None => v,
    };
    if let JsonV::Object(m0) = v {
        lemma_lookup_member(m0, "data"@);
        lemma_members_distinct_deep(m0);
    }
    assert(distinct_deep(x));
    match x {
        JsonV::Object(m) => {
            lemma_lookup_member(m, field_name(14));
            lemma_members_distinct_deep(m);
        },
        JsonV::Array(a) => {
            lemma_seq_distinct_deep(a);
        },
        _ => {},
    }
    if let Some(y) = slot(x, 14) {
        assert(distinct_deep(y));
    }
}

/// Parses card JSON, v2 (`data` wrapper) or v1 (fields at the root). A
/// card read this way has extensions that repeat no key, as the parser's
/// maps hold each key once.
pub fn parse_json(text: &str) -> (r: Result<CharaData, String>)
    ensures
        match parsed_json(text@) {
            Some(v) => card_result(r) == decode_card(v),
            None => r matches Err(m) && m@ == parse_error_text(text@),
        },
        r matches Ok(d) ==> (d@.extensions matches Some(JsonV::Object(m)) ==> distinct_keys(m)),
{
    match parse_json_text(text) {
        Ok(v) => {
            proof {
                lemma_card_keys_distinct(v@);
            }
            card_from_json(&v)
        },
        Err(m) => Err(m),
    }
}

/// A list of strings as a JSON array.
pub open spec fn strs_json(v: Seq<Seq<char>>) -> JsonV {
    JsonV::Array(Seq::new(v.len(), |i: int| JsonV::Str(v[i])))
}

/// An optional value as JSON: the value, or null.
pub open spec fn value_json(o: Option<JsonV>) -> JsonV {
    match o {
        Some(v) => v,
        None => JsonV::Null,
    }
}

/// Field `i` of a card as JSON.
pub open spec fn field_json(d: CharaDataV, i: int) -> JsonV {
    if i == 0 {
        JsonV::Str(d.name)
    } else if i == 1 {
        JsonV::Str(d.description)
    } else if i == 2 {
        JsonV::Str(d.personality)
    } else if i == 3 {
        JsonV::Str(d.scenario)
    } else if i == 4 {
        JsonV::Str(d.first_mes)
    } else if i == 5 {
        JsonV::Str(d.mes_example)
    } else if i == 6 {
        JsonV::Str(d.creator_notes)
    } else if i == 7 {
        JsonV::Str(d.system_prompt)
    } else if i == 8 {
        JsonV::Str(d.post_history_instructions)
    } else if i == 9 {
        strs_json(d.alternate_greetings)
    } else if i == 10 {
        value_json(d.character_book)
    } else if i == 11 {
        strs_json(d.tags)
    } else if i == 12 {
        JsonV::Str(d.creator)
    } else if i == 13 {
        JsonV::Str(d.character_version)
    } else {
        value_json(d.extensions)
    }
}

/// The members of the card fields object, in field order.
pub open spec fn data_members(d: CharaDataV) -> Seq<(Seq<char>, JsonV)> {
    Seq::new(15, |i: int| (field_name(i), field_json(d, i)))
}

/// A v2 wrapper as a JSON tree: `spec`, `spec_version`, then `data`.
pub open spec fn v2_json(spec: Seq<char>, version: Seq<char>, d: CharaDataV) -> JsonV {
    JsonV::Object(
        seq![
            ("spec"@, JsonV::Str(spec)),
            ("spec_version"@, JsonV::Str(version)),
            ("data"@, JsonV::Object(data_members(d))),
        ],
    )
}

/// A card as the JSON tree of its v2 wrapper, spec `chara_card_v2`,
/// version `2.0`.
pub open spec fn card_json(d: CharaDataV) -> JsonV {
    v2_json("chara_card_v2"@, "2.0"@, d)
}

/// Field `i` of a card as JSON.
fn field_to_json(d: &CharaData, i: usize) -> (j: Json)
    requires
        i < 15,
    ensures
        j@ == field_json(d@, i as int),
{
    let opt = if i == 10 {
        &d.character_book
    } else {
        &d.extensions
    };
    if i == 9 {
        let j = Json::from_strings(&d.alternate_greetings);
        assert(Seq::new(d.alternate_greetings@.len(), |k: int| JsonV::Str(d.alternate_greetings@[k]@)) =~= Seq::new(
            views(d.alternate_greetings@).len(),
            |k: int| JsonV::Str(views(d.alternate_greetings@)[k]),
        ));
        j
    } else if i == 11 {
        let j = Json::from_strings(&d.tags);
        assert(Seq::new(d.tags@.len(), |k: int| JsonV::Str(d.tags@[k]@)) =~= Seq::new(
            views(d.tags@).len(),
            |k: int| JsonV::Str(views(d.tags@)[k]),
        ));
        j
    } else if i == 10 || i == 14 {
        match opt {
            Some(v) => v.copy(),
            None => Json::Null,
        }
    } else {
        let s = if i == 0 {
            &d.name
        } else if i == 1 {
            &d.description
        } else if i == 2 {
            &d.personality
        } else if i == 3 {
            &d.scenario
        } else if i == 4 {
            &d.first_mes
        } else if i == 5 {
            &d.mes_example
        } else if i == 6 {
            &d.creator_notes
        } else if i == 7 {
            &d.system_prompt
        } else if i == 8 {
            &d.post_history_instructions
        } else if i == 12 {
            &d.creator
        } else {
            &d.character_version
        };
        Json::String(s.clone())
    }
}

/// The card fields as a JSON object, in field order.
fn data_to_json(d: &CharaData) -> (j: Json)
    ensures
        j@ == JsonV::Object(data_members(d@)),
{
    broadcast use lemma_members_view;

    let mut fields: Vec<(String, Json)> = Vec::new();
    let mut i: usize = 0;
    while i < 15
        invariant
            i <= 15,
            fields@.len() == i,
            forall|k: int|
                0 <= k < i ==> (#[trigger] fields@[k]).0@ == field_name(k) && fields@[k].1@ == field_json(
                    d@,
                    k,
                ),
        decreases 15 - i,
    {
        let name = field_name_str(i).to_owned();
        let value = field_to_json(d, i);
        fields.push((name, value));
        i = i + 1;
    }
    assert(members_view(fields@) =~= data_members(d@));
    Json::Object(fields)
}

/// A copy of a list of strings.
fn copy_strings(v: &Vec<String>) -> (r: Vec<String>)
    ensures
        views(r@) == views(v@),
{
    let mut r: Vec<String> = Vec::new();
    let mut i: usize = 0;
    while i < v.len()
        invariant
            i <= v.len(),
            views(r@) =~= views(v@.take(i as int)),
        decreases v.len() - i,
    {
        let s = v[i].clone();
        let ghost before = r@;
        r.push(s);
        assert(v@.take(i + 1) =~= v@.take(i as int).push(v@[i as int]));
        assert(r@ =~= before.push(v@[i as int]));
        assert(views(r@) =~= views(before).push(v@[i as int]@));
        i = i + 1;
    }
    assert(v@.take(v.len() as int) =~= v@);
    r
}

/// A copy of an optional JSON tree.
fn copy_opt_json(o: &Option<Json>) -> (r: Option<Json>)
    ensures
        opt_json(r) == opt_json(*o),
{
    match o {
        Some(j) => Some(j.copy()),
        None => None,
    }
}

/// A copy of the card fields.
fn copy_card(d: &CharaData) -> (r: CharaData)
    ensures
        r@ == d@,
{
    CharaData {
        name: d.name.clone(),
        description: d.description.clone(),
        personality: d.personality.clone(),
        scenario: d.scenario.clone(),
        first_mes: d.first_mes.clone(),
        mes_example: d.mes_example.clone(),
        creator_notes: d.creator_notes.clone(),
        system_prompt: d.system_prompt.clone(),
        post_history_instructions: d.post_history_instructions.clone(),
        alternate_greetings: copy_strings(&d.alternate_greetings),
        character_book: copy_opt_json(&d.character_book),
        tags: copy_strings(&d.tags),
        creator: d.creator.clone(),
        character_version: d.character_version.clone(),
        extensions: copy_opt_json(&d.extensions),
    }
}

impl V2Card {
    /// The card as a JSON tree: `spec`, `spec_version`, then the fields
    /// under `data`.
    pub fn to_json(&self) -> (j: Json)
        ensures
            j@ == v2_json(self.spec@, self.spec_version@, self.data@),
    {
        broadcast use lemma_members_view;

        let fields = data_to_json(&self.data);
        let mut top: Vec<(String, Json)> = Vec::new();
        top.push(("spec".to_owned(), Json::String(self.spec.clone())));
        top.push(("spec_version".to_owned(), Json::String(self.spec_version.clone())));
        top.push(("data".to_owned(), fields));
        let j = Json::Object(top);
        assert(members_view(top@) =~= seq![
            ("spec"@, JsonV::Str(self.spec@)),
            ("spec_version"@, JsonV::Str(self.spec_version@)),
            ("data"@, JsonV::Object(data_members(self.data@))),
        ]);
        j
    }
}

/// The field keys are distinct, and each names its own field.
proof fn lemma_field_names()
    ensures
        forall|i: int, j: int|
            0 <= i < 15 && 0 <= j < 15 && i != j ==> #[trigger] field_name(i) != #[trigger] field_name(j),
        forall|i: int| 0 <= i < 15 ==> key_index(#[trigger] field_name(i)) == Some(i),
{
    reveal_strlit("name");
    reveal_strlit("description");
    reveal_strlit("personality");
    reveal_strlit("scenario");
    reveal_strlit("first_mes");
    reveal_strlit("mes_example");
    reveal_strlit("creator_notes");
    reveal_strlit("system_prompt");
    reveal_strlit("post_history_instructions");
    reveal_strlit("alternate_greetings");
    reveal_strlit("character_book");
    reveal_strlit("tags");
    reveal_strlit("creator");
    reveal_strlit("character_version");
    reveal_strlit("extensions");
    assert forall|i: int, j: int|
        0 <= i < 15 && 0 <= j < 15 && i != j implies #[trigger] field_name(i) != #[trigger] field_name(j) by {
        if field_name(i) == field_name(j) {
            assert(field_name(i).len() == field_name(j).len());
            assert(field_name(i)[0] == field_name(j)[0]);
        }
    }
    assert forall|i: int| 0 <= i < 15 implies key_index(#[trigger] field_name(i)) == Some(i) by {
        assert(i == 0 || field_name(i) != field_name(0));
        assert(i == 1 || field_name(i) != field_name(1));
        assert(i == 2 || field_name(i) != field_name(2));
        assert(i == 3 || field_name(i) != field_name(3));
        assert(i == 4 || field_name(i) != field_name(4));
        assert(i == 5 || field_name(i) != field_name(5));
        assert(i == 6 || field_name(i) != field_name(6));
        assert(i == 7 || field_name(i) != field_name(7));
        assert(i == 8 || field_name(i) != field_name(8));
        assert(i == 9 || field_name(i) != field_name(9));
        assert(i == 10 || field_name(i) != field_name(10));
        assert(i == 11 || field_name(i) != field_name(11));
        assert(i == 12 || field_name(i) != field_name(12));
        assert(i == 13 || field_name(i) != field_name(13));
        assert(i == 14 || field_name(i) != field_name(14));
    }
}

/// A list of strings has no element that is not a string.
proof fn lemma_strs_all_str(v: Seq<Seq<char>>)
    ensures
        first_non_str(Seq::new(v.len(), |i: int| JsonV::Str(v[i]))) is None,
    decreases v.len(),
{
    let a = Seq::new(v.len(), |i: int| JsonV::Str(v[i]));
    if v.len() > 0 {
        lemma_strs_all_str(v.drop_first());
        assert(a.drop_first() =~= Seq::new(v.drop_first().len(), |i: int| JsonV::Str(v.drop_first()[i])));
    }
}

/// A field of a card has the type its field needs.
proof fn lemma_field_json_ok(d: CharaDataV, i: int)
    requires
        0 <= i < 15,
    ensures
        field_error(i, field_json(d, i)) is None,
{
    lemma_strs_all_str(d.alternate_greetings);
    lemma_strs_all_str(d.tags);
}

/// No member of the fields object from `j` on has a type error.
proof fn lemma_data_members_no_error(d: CharaDataV, j: int)
    requires
        0 <= j <= 15,
    ensures
        members_error(data_members(d).skip(j)) is None,
    decreases 15 - j,
{
    let dm = data_members(d);
    if j < 15 {
        lemma_data_members_no_error(d, j + 1);
        lemma_field_names();
        lemma_field_json_ok(d, j);
        let t = dm.skip(j);
        assert(t[0] == (field_name(j), field_json(d, j)));
        assert(key_index(field_name(j)) == Some(j));
        assert(t.drop_first() =~= dm.skip(j + 1));
    } else {
        assert(dm.skip(j).len() == 0);
    }
}

/// Each key of the fields object finds its own field.
proof fn lemma_data_members_lookup(d: CharaDataV, i: int)
    requires
        0 <= i < 15,
    ensures
        member_lookup(data_members(d), field_name(i)) == Some(field_json(d, i)),
{
    let dm = data_members(d);
    lemma_field_names();
    assert forall|j: int| 0 <= j < i implies dm[j].0 != field_name(i) by {
        assert(dm[j].0 == field_name(j));
    }
    lemma_member_lookup_prefix(dm, field_name(i), i);
    assert(dm.skip(i)[0] == dm[i]);
}

/// The fields object reads back as the card it was made from, when no
/// optional value is null.
proof fn lemma_decode_data_members(d: CharaDataV)
    requires
        d.character_book != Some(JsonV::Null),
        d.extensions != Some(JsonV::Null),
    ensures
        decode_chara(JsonV::Object(data_members(d))) == Ok::<CharaDataV, Seq<char>>(d),
{
    let dm = data_members(d);
    let v = JsonV::Object(dm);
    lemma_data_members_no_error(d, 0);
    assert(dm.skip(0) =~= dm);
    lemma_data_members_lookup(d, 0);
    lemma_data_members_lookup(d, 1);
    lemma_data_members_lookup(d, 2);
    lemma_data_members_lookup(d, 3);
    lemma_data_members_lookup(d, 4);
    lemma_data_members_lookup(d, 5);
    lemma_data_members_lookup(d, 6);
    lemma_data_members_lookup(d, 7);
    lemma_data_members_lookup(d, 8);
    lemma_data_members_lookup(d, 9);
    lemma_data_members_lookup(d, 10);
    lemma_data_members_lookup(d, 11);
    lemma_data_members_lookup(d, 12);
    lemma_data_members_lookup(d, 13);
    lemma_data_members_lookup(d, 14);
    assert(strs_of(Some(strs_json(d.alternate_greetings))) =~= d.alternate_greetings);
    assert(strs_of(Some(strs_json(d.tags))) =~= d.tags);
    assert(card_from_slots(v) == d);
}

/// How deep a card's optional values may nest for the printed card to
/// parse again: the wrapper and the `data` object add two levels to the
/// parser's limit.
pub open spec fn card_value_depth_limit() -> nat {
    (parse_depth_limit() - 2) as nat
}

/// Whether a card prints and reads back unchanged: its optional values are
/// plain, not null, and nested within `card_value_depth_limit`.
pub open spec fn card_roundtrips(d: CharaDataV) -> bool {
    &&& d.character_book != Some(JsonV::Null)
    &&& d.extensions != Some(JsonV::Null)
    &&& (d.character_book matches Some(b) ==> plain_json(b) && json_depth(b) <= card_value_depth_limit())
    &&& (d.extensions matches Some(e) ==> plain_json(e) && json_depth(e) <= card_value_depth_limit())
}

/// A card tree parses back when its optional values are plain and shallow
/// enough.
proof fn lemma_card_json_plain(d: CharaDataV)
    requires
        card_roundtrips(d),
    ensures
        reparses(card_json(d)),
{
    let dm = data_members(d);
    let lim = card_value_depth_limit();
    lemma_field_names();
    assert forall|i: int| 0 <= i < dm.len() implies plain_json(#[trigger] dm[i].1) && json_depth(dm[i].1) <= lim by {
        if i == 9 || i == 11 {
            let v = if i == 9 { d.alternate_greetings } else { d.tags };
            let a = Seq::new(v.len(), |k: int| JsonV::Str(v[k]));
            lemma_plain_seq(a);
            lemma_seq_depth(a, 0);
        }
    }
    lemma_members_depth(dm, lim);
    assert forall|i: int, j: int| 0 <= i < j < dm.len() implies #[trigger] dm[i].0 != #[trigger] dm[j].0 by {
        assert(field_name(i) != field_name(j));
    }
    lemma_plain_members(dm);
    reveal_strlit("spec");
    reveal_strlit("spec_version");
    reveal_strlit("data");
    let top = seq![
        ("spec"@, JsonV::Str("chara_card_v2"@)),
        ("spec_version"@, JsonV::Str("2.0"@)),
        ("data"@, JsonV::Object(dm)),
    ];
    assert("spec"@[0] != "data"@[0]);
    assert("spec"@.len() != "spec_version"@.len());
    assert("spec_version"@.len() != "data"@.len());
    lemma_plain_members(top);
    assert(json_depth(top[2].1) <= lim + 1);
    lemma_members_depth(top, lim + 1);
}

/// A card tree reads back as the card, when no optional value is null.
proof fn lemma_decode_card_json(d: CharaDataV)
    requires
        d.character_book != Some(JsonV::Null),
        d.extensions != Some(JsonV::Null),
    ensures
        decode_card(card_json(d)) == Ok::<CharaDataV, Seq<char>>(d),
{
    reveal_strlit("spec");
    reveal_strlit("spec_version");
    reveal_strlit("data");
    assert("spec"@[0] != "data"@[0]);
    assert("spec"@.len() != "spec_version"@.len());
    assert("spec_version"@.len() != "data"@.len());
    let dv = JsonV::Object(data_members(d));
    let top = seq![
        ("spec"@, JsonV::Str("chara_card_v2"@)),
        ("spec_version"@, JsonV::Str("2.0"@)),
        ("data"@, dv),
    ];
    lemma_decode_data_members(d);
    assert(top.drop_first() =~= seq![("spec_version"@, JsonV::Str("2.0"@)), ("data"@, dv)]);
    assert(top.drop_first().drop_first() =~= seq![("data"@, dv)]);
    assert(top.drop_first().drop_first().drop_first() =~= Seq::<(Seq<char>, JsonV)>::empty());
    let t1 = top.drop_first();
    let t2 = t1.drop_first();
    assert(member_lookup(t2, "data"@) == Some(dv));
    assert(member_lookup(t1, "data"@) == Some(dv));
    assert(member_lookup(top, "data"@) == Some(dv));
    assert(wrapper_error(t2.drop_first()) is None);
    assert(wrapper_error(t2) is None);
    assert(wrapper_error(t1) is None);
    assert(wrapper_error(top) is None);
}

/// Prints a card as pretty v2 JSON (`spec`, `spec_version`, `data`); used
/// for both PNG embedding and JSON export. A card whose optional values are
/// plain, not null and nested within the parser's depth limit (less the two
/// levels of the wrapper) reads back as itself.
pub fn serialize_v2(data: &CharaData) -> (r: String)
    ensures
        r@ == json_pretty_text(card_json(data@)),
        card_roundtrips(data@) ==> parsed_json(r@) == Some(card_json(data@)) && decode_card(
            card_json(data@),
        ) == Ok::<CharaDataV, Seq<char>>(data@),
{
    let card = V2Card {
        spec: "chara_card_v2".to_owned(),
        spec_version: "2.0".to_owned(),
        data: copy_card(data),
    };
    let j = card.to_json();
    proof {
        reveal_strlit("chara_card_v2");
        reveal_strlit("2.0");
    }
    proof {
        if card_roundtrips(data@) {
            lemma_card_text_roundtrip(data@);
        }
    }
    to_pretty_string(&j)
}

/// A card printed by `serialize_v2` parses back to the same card, when its
/// optional values are plain, not null and shallow enough
/// (`card_roundtrips`).
pub proof fn lemma_card_text_roundtrip(d: CharaDataV)
    requires
        card_roundtrips(d),
    ensures
        reparses(card_json(d)),
        decode_card(card_json(d)) == Ok::<CharaDataV, Seq<char>>(d),
{
    lemma_card_json_plain(d);
    lemma_decode_card_json(d);
}

/// The fields a character shares with its card.
pub struct CardFields {
    pub name: Seq<char>,
    pub description: Seq<char>,
    pub personality: Seq<char>,
    pub scenario: Seq<char>,
    pub first_messages: Seq<Seq<char>>,
    pub example_messages: Seq<char>,
    pub system_prompt: Option<Seq<char>>,
    pub tags: Seq<Seq<char>>,
    pub extensions: Option<JsonV>,
}

/// The card fields of a character input.
pub open spec fn input_fields(i: CharacterInput) -> CardFields {
    CardFields {
        name: i.name@,
        description: i.description@,
        personality: i.personality@,
        scenario: i.scenario@,
        first_messages: views(i.first_messages@),
        example_messages: i.example_messages@,
        system_prompt: opt_string_view(i.system_prompt),
        tags: views(i.tags@),
        extensions: opt_json(i.extensions),
    }
}

/// The card fields of a stored character.
pub open spec fn character_fields(c: Character) -> CardFields {
    CardFields {
        name: c.name@,
        description: c.description@,
        personality: c.personality@,
        scenario: c.scenario@,
        first_messages: views(c.first_messages@),
        example_messages: c.example_messages@,
        system_prompt: opt_string_view(c.system_prompt),
        tags: views(c.tags@),
        extensions: opt_json(c.extensions),
    }
}

/// The texts that are not blank, in order.
pub open spec fn nonblank(s: Seq<Seq<char>>) -> Seq<Seq<char>>
    decreases s.len(),
{
    if s.len() == 0 {
        seq![]
    } else if is_blank(s.last()) {
        nonblank(s.drop_last())
    } else {
        nonblank(s.drop_last()).push(s.last())
    }
}

/// The greetings of a card: `first_mes` then the alternates, blank ones
/// left out.
pub open spec fn card_greetings(d: CharaDataV) -> Seq<Seq<char>> {
    nonblank(seq![d.first_mes] + d.alternate_greetings)
}

/// The key under which card-only fields are kept in the extensions.
pub open spec fn extra_key() -> Seq<char> {
    "_v2_extra"@
}

/// Whether the card-only fields are all empty.
pub open spec fn extra_empty(d: CharaDataV) -> bool {
    &&& d.creator.len() == 0
    &&& d.creator_notes.len() == 0
    &&& d.character_version.len() == 0
    &&& d.post_history_instructions.len() == 0
    &&& d.character_book is None
}

/// The card-only fields as an object.
pub open spec fn extra_json(d: CharaDataV) -> JsonV {
    JsonV::Object(
        seq![
            ("creator"@, JsonV::Str(d.creator)),
            ("creator_notes"@, JsonV::Str(d.creator_notes)),
            ("character_version"@, JsonV::Str(d.character_version)),
            ("post_history_instructions"@, JsonV::Str(d.post_history_instructions)),
            ("character_book"@, value_json(d.character_book)),
        ],
    )
}

/// The members of `m` whose value is not null, inserted in order into an
/// empty map.
pub open spec fn non_null_members(m: Seq<(Seq<char>, JsonV)>) -> Seq<(Seq<char>, JsonV)>
    decreases m.len(),
{
    if m.len() == 0 {
        seq![]
    } else if m.last().1 is Null {
        non_null_members(m.drop_last())
    } else {
        members_insert(non_null_members(m.drop_last()), m.last().0, m.last().1)
    }
}

/// The extensions of the character made from a card: the card's own
/// non-null extension members, plus the card-only fields under
/// `_v2_extra` when any is set; absent when that leaves nothing.
pub open spec fn input_extensions(d: CharaDataV) -> Option<JsonV> {
    let base = match d.extensions {
        Some(JsonV::Object(m)) => non_null_members(m),
        _ => seq![],
    };
    let all = if extra_empty(d) {
        base
    } else {
        members_insert(base, extra_key(), extra_json(d))
    };
    if all.len() == 0 {
        None
    } else {
        Some(JsonV::Object(all))
    }
}

/// The character fields taken from a card.
pub open spec fn card_input(d: CharaDataV) -> CardFields {
    CardFields {
        name: d.name,
        description: d.description,
        personality: d.personality,
        scenario: d.scenario,
        first_messages: card_greetings(d),
        example_messages: d.mes_example,
        system_prompt: if is_blank(d.system_prompt) {
            None
        } else {
            Some(d.system_prompt)
        },
        tags: d.tags,
        extensions: input_extensions(d),
    }
}

/// The card-only fields as an object.
fn extra_to_json(d: &CharaData) -> (j: Json)
    ensures
        j@ == extra_json(d@),
{
    broadcast use lemma_members_view;

    let mut m: Vec<(String, Json)> = Vec::new();
    m.push(("creator".to_owned(), Json::String(d.creator.clone())));
    m.push(("creator_notes".to_owned(), Json::String(d.creator_notes.clone())));
    m.push(("character_version".to_owned(), Json::String(d.character_version.clone())));
    m.push(("post_history_instructions".to_owned(), Json::String(d.post_history_instructions.clone())));
    let book = match &d.character_book {
        Some(b) => b.copy(),
        None => Json::Null,
    };
    m.push(("character_book".to_owned(), book));
    assert(members_view(m@) =~= extra_json(d@)->Object_0);
    Json::Object(m)
}

/// Whether the card-only fields are all empty.
fn extra_is_empty(data: &CharaData) -> (r: bool)
    ensures
        r == extra_empty(data@),
{
    data.creator.as_str().is_empty() && data.creator_notes.as_str().is_empty()
        && data.character_version.as_str().is_empty()
        && data.post_history_instructions.as_str().is_empty() && data.character_book.is_none()
}

/// Turns a card into character fields (the avatar is added by the
/// caller): blank greetings are left out, a blank system prompt becomes
/// none, and the card-only fields go under `_v2_extra` in the extensions.
pub fn card_to_input(data: &CharaData) -> (r: CharacterInput)
    ensures
        input_fields(r) == card_input(data@),
        !r.nsfw,
        r.avatar is None,
{
    broadcast use lemma_members_view;

    let ghost d = data@;
    let mut first_messages: Vec<String> = Vec::new();
    let ghost all = seq![d.first_mes] + d.alternate_greetings;
    if !is_blank_str(data.first_mes.as_str()) {
        first_messages.push(data.first_mes.clone());
    }
    assert(all.take(1).drop_last() =~= Seq::<Seq<char>>::empty());
    assert(all.take(1).last() == d.first_mes);
    assert(nonblank(all.take(1).drop_last()) =~= Seq::<Seq<char>>::empty());
    assert(views(first_messages@) =~= nonblank(all.take(1)));
    let mut i: usize = 0;
    while i < data.alternate_greetings.len()
        invariant
            d == data@,
            all == seq![d.first_mes] + d.alternate_greetings,
            i <= data.alternate_greetings@.len(),
            views(first_messages@) == nonblank(all.take(i + 1)),
        decreases data.alternate_greetings.len() - i,
    {
        let g = &data.alternate_greetings[i];
        let ghost before = first_messages@;
        assert(all.take(i + 2).drop_last() =~= all.take(i + 1));
        assert(all.take(i + 2).last() == g@);
        if !is_blank_str(g.as_str()) {
            first_messages.push(g.clone());
            assert(views(first_messages@) =~= views(before).push(g@));
        }
        i = i + 1;
    }
    assert(all.take(i + 1) =~= all);

    let mut ext: Vec<(String, Json)> = Vec::new();
    assert(members_view(ext@) =~= Seq::<(Seq<char>, JsonV)>::empty());
    match &data.extensions {
        Some(Json::Object(map)) => {
            let ghost mv = members_view(map@);
            let mut k: usize = 0;
            while k < map.len()
                invariant
                    mv == members_view(map@),
                    mv.len() == map@.len(),
                    forall|j: int| 0 <= j < mv.len() ==> #[trigger] mv[j] == (map@[j].0@, json_view(map@[j].1)),
                    k <= map.len(),
                    members_view(ext@) == non_null_members(mv.take(k as int)),
                decreases map.len() - k,
            {
                assert(mv.take(k + 1).drop_last() =~= mv.take(k as int));
                assert(mv.take(k + 1).last() == mv[k as int]);
                assert(mv[k as int] == (map@[k as int].0@, json_view(map@[k as int].1)));
                if !map[k].1.is_null() {
                    insert_member(&mut ext, map[k].0.clone(), map[k].1.copy());
                }
                k = k + 1;
            }
            assert(mv.take(k as int) =~= mv);
        },
        _ => {},
    }
    let empty_extra = extra_is_empty(data);
    if !empty_extra {
        insert_member(&mut ext, "_v2_extra".to_owned(), extra_to_json(data));
    }
    let extensions = if ext.len() == 0 {
        None
    } else {
        Some(Json::Object(ext))
    };
    let system_prompt = if is_blank_str(data.system_prompt.as_str()) {
        None
    } else {
        Some(data.system_prompt.clone())
    };
    CharacterInput {
        name: data.name.clone(),
        description: data.description.clone(),
        personality: data.personality.clone(),
        scenario: data.scenario.clone(),
        first_messages,
        example_messages: data.mes_example.clone(),
        system_prompt,
        tags: data.tags.clone(),
        nsfw: false,
        avatar: None,
        extensions,
    }
}

/// Whether `k` names a string field kept under `_v2_extra`.
pub open spec fn is_extra_str_key(k: Seq<char>) -> bool {
    k == "creator"@ || k == "creator_notes"@ || k == "character_version"@ || k
        == "post_history_instructions"@
}

/// Whether the members of an `_v2_extra` object read without error: each
/// string field holds a string.
pub open spec fn extra_ok(m: Seq<(Seq<char>, JsonV)>) -> bool
    decreases m.len(),
{
    if m.len() == 0 {
        true
    } else {
        (is_extra_str_key(m[0].0) ==> m[0].1 is Str) && extra_ok(m.drop_first())
    }
}

/// The card with its card-only fields read from an `_v2_extra` object.
pub open spec fn with_extra(d: CharaDataV, em: Seq<(Seq<char>, JsonV)>) -> CharaDataV {
    CharaDataV {
        creator: str_of(member_lookup(em, "creator"@)),
        creator_notes: str_of(member_lookup(em, "creator_notes"@)),
        character_version: str_of(member_lookup(em, "character_version"@)),
        post_history_instructions: str_of(member_lookup(em, "post_history_instructions"@)),
        character_book: value_of(member_lookup(em, "character_book"@)),
        ..d
    }
}

/// The members other than those under `k`, inserted in order into an
/// empty map.
pub open spec fn without_key(m: Seq<(Seq<char>, JsonV)>, k: Seq<char>) -> Seq<(Seq<char>, JsonV)>
    decreases m.len(),
{
    if m.len() == 0 {
        seq![]
    } else if m.last().0 == k {
        without_key(m.drop_last(), k)
    } else {
        members_insert(without_key(m.drop_last(), k), m.last().0, m.last().1)
    }
}

/// A card updated from a character: the character's fields overwrite the
/// card's; from object extensions the `_v2_extra` fields are restored (when
/// they read) and the other members become the card extensions; a world
/// book, when given, replaces the character book.
pub open spec fn applied(c: CardFields, d: CharaDataV, book: Option<JsonV>) -> CharaDataV {
    let fm = c.first_messages;
    let d1 = CharaDataV {
        name: c.name,
        description: c.description,
        personality: c.personality,
        scenario: c.scenario,
        first_mes: if fm.len() > 0 {
            fm[0]
        } else {
            seq![]
        },
        alternate_greetings: if fm.len() > 0 {
            fm.skip(1)
        } else {
            seq![]
        },
        mes_example: c.example_messages,
        system_prompt: match c.system_prompt {
            Some(s) => s,
            None => seq![],
        },
        tags: c.tags,
        ..d
    };
    let d2 = match c.extensions {
        Some(JsonV::Object(m)) => {
            let d3 = match member_lookup(m, extra_key()) {
                Some(JsonV::Object(em)) => if extra_ok(em) {
                    with_extra(d1, em)
                } else {
                    d1
                },
                _ => d1,
            };
            CharaDataV { extensions: Some(JsonV::Object(without_key(m, extra_key()))), ..d3 }
        },
        _ => d1,
    };
    match book {
        Some(b) => CharaDataV { character_book: Some(b), ..d2 },
        None => d2,
    }
}

/// An integer as JSON.
pub open spec fn int_json(i: i64) -> JsonV {
    JsonV::Number(int_view(i as int))
}

/// A world-book entry as a SillyTavern `character_book` entry.
pub open spec fn entry_json(e: LoreEntry) -> JsonV {
    JsonV::Object(
        seq![
            ("keys"@, strs_json(views(e.keys@))),
            ("secondary_keys"@, strs_json(views(e.secondary_keys@))),
            ("comment"@, JsonV::Str(e.comment@)),
            ("content"@, JsonV::Str(e.content@)),
            ("constant"@, JsonV::Bool(e.constant)),
            ("selective"@, JsonV::Bool(e.selective)),
            ("insertion_order"@, int_json(e.insertion_order)),
            ("enabled"@, JsonV::Bool(e.enabled)),
            ("position"@, JsonV::Str(e.position@)),
            ("extensions"@, JsonV::Object(seq![])),
        ],
    )
}

/// A world book as a SillyTavern `character_book`.
pub open spec fn book_json(b: Lorebook) -> JsonV {
    JsonV::Object(
        seq![
            ("name"@, JsonV::Str(b.name@)),
            ("description"@, JsonV::Str(b.description@)),
            ("scan_depth"@, int_json(b.scan_depth)),
            ("token_budget"@, int_json(b.token_budget)),
            ("recursive_scanning"@, JsonV::Bool(b.recursive_scanning)),
            ("extensions"@, JsonV::Object(seq![])),
            ("entries"@, JsonV::Array(Seq::new(b.entries@.len(), |i: int| entry_json(b.entries@[i])))),
        ],
    )
}

/// A list of strings as JSON.
fn strings_to_json(v: &Vec<String>) -> (j: Json)
    ensures
        j@ == strs_json(views(v@)),
{
    let j = Json::from_strings(v);
    assert(Seq::new(v@.len(), |k: int| JsonV::Str(v@[k]@)) =~= Seq::new(
        views(v@).len(),
        |k: int| JsonV::Str(views(v@)[k]),
    ));
    j
}

/// A world-book entry as a `character_book` entry.
fn entry_to_json(e: &LoreEntry) -> (j: Json)
    ensures
        j@ == entry_json(*e),
{
    broadcast use lemma_members_view;

    let mut m: Vec<(String, Json)> = Vec::new();
    m.push(("keys".to_owned(), strings_to_json(&e.keys)));
    m.push(("secondary_keys".to_owned(), strings_to_json(&e.secondary_keys)));
    m.push(("comment".to_owned(), Json::String(e.comment.clone())));
    m.push(("content".to_owned(), Json::String(e.content.clone())));
    m.push(("constant".to_owned(), Json::Bool(e.constant)));
    m.push(("selective".to_owned(), Json::Bool(e.selective)));
    m.push(("insertion_order".to_owned(), Json::from_i64(e.insertion_order)));
    m.push(("enabled".to_owned(), Json::Bool(e.enabled)));
    m.push(("position".to_owned(), Json::String(e.position.clone())));
    let empty: Vec<(String, Json)> = Vec::new();
    assert(members_view(empty@) =~= Seq::<(Seq<char>, JsonV)>::empty());
    m.push(("extensions".to_owned(), Json::Object(empty)));
    assert(members_view(m@) =~= entry_json(*e)->Object_0);
    Json::Object(m)
}

/// Turns a world book into a SillyTavern `character_book`, so an exported
/// card reads back in SillyTavern.
pub fn lorebook_to_character_book(book: &Lorebook) -> (j: Json)
    ensures
        j@ == book_json(*book),
{
    broadcast use lemma_members_view, lemma_seq_view;

    let mut entries: Vec<Json> = Vec::new();
    let mut i: usize = 0;
    while i < book.entries.len()
        invariant
            i <= book.entries@.len(),
            entries@.len() == i,
            forall|k: int| 0 <= k < i ==> (#[trigger] entries@[k])@ == entry_json(book.entries@[k]),
        decreases book.entries.len() - i,
    {
        entries.push(entry_to_json(&book.entries[i]));
        i = i + 1;
    }
    assert(seq_view(entries@) =~= Seq::new(book.entries@.len(), |k: int| entry_json(book.entries@[k])));
    let mut m: Vec<(String, Json)> = Vec::new();
    m.push(("name".to_owned(), Json::String(book.name.clone())));
    m.push(("description".to_owned(), Json::String(book.description.clone())));
    m.push(("scan_depth".to_owned(), Json::from_i64(book.scan_depth)));
    m.push(("token_budget".to_owned(), Json::from_i64(book.token_budget)));
    m.push(("recursive_scanning".to_owned(), Json::Bool(book.recursive_scanning)));
    let empty: Vec<(String, Json)> = Vec::new();
    assert(members_view(empty@) =~= Seq::<(Seq<char>, JsonV)>::empty());
    m.push(("extensions".to_owned(), Json::Object(empty)));
    m.push(("entries".to_owned(), Json::Array(entries)));
    assert(members_view(m@) =~= book_json(*book)->Object_0);
    Json::Object(m)
}

/// Whether the members of an `_v2_extra` object read without error.
fn extra_ok_of(m: &Vec<(String, Json)>) -> (r: bool)
    ensures
        r == extra_ok(members_view(m@)),
{
    let ghost mv = members_view(m@);
    proof {
        lemma_members_view(m@);
    }
    assert(mv.skip(0) =~= mv);
    let mut i: usize = 0;
    while i < m.len()
        invariant
            mv == members_view(m@),
            mv.len() == m@.len(),
            forall|j: int| 0 <= j < mv.len() ==> #[trigger] mv[j] == (m@[j].0@, json_view(m@[j].1)),
            i <= m.len(),
            extra_ok(mv) == extra_ok(mv.skip(i as int)),
        decreases m.len() - i,
    {
        let ghost t = mv.skip(i as int);
        assert(t[0] == (m@[i as int].0@, json_view(m@[i as int].1)));
        assert(t.drop_first() =~= mv.skip(i + 1));
        let key = m[i].0.as_str();
        let is_str_key = str_eq(key, "creator") || str_eq(key, "creator_notes") || str_eq(
            key,
            "character_version",
        ) || str_eq(key, "post_history_instructions");
        if is_str_key {
            match &m[i].1 {
                Json::String(_) => {},
                _ => {
                    return false;
                },
            }
        }
        i = i + 1;
    }
    assert(mv.skip(i as int).len() == 0);
    true
}

/// A string member, empty when absent or not a string.
fn member_str(x: &Json, key: &str) -> (r: String)
    ensures
        r@ == str_of(jv_get(x@, key@)),
{
    match x.get(key) {
        Some(Json::String(s)) => s.clone(),
        _ => String::new(),
    }
}

/// A value member, absent when missing or null.
fn member_value(x: &Json, key: &str) -> (r: Option<Json>)
    ensures
        opt_json(r) == value_of(jv_get(x@, key@)),
{
    match x.get(key) {
        Some(Json::Null) => None,
        Some(v) => Some(v.copy()),
        None => None,
    }
}

/// The members other than those under `key`, as a map keeps them.
fn without_key_of(m: &Vec<(String, Json)>, key: &str) -> (r: Vec<(String, Json)>)
    ensures
        members_view(r@) == without_key(members_view(m@), key@),
{
    let ghost mv = members_view(m@);
    proof {
        lemma_members_view(m@);
    }
    let mut out: Vec<(String, Json)> = Vec::new();
    assert(members_view(out@) =~= Seq::<(Seq<char>, JsonV)>::empty());
    let mut k: usize = 0;
    while k < m.len()
        invariant
            mv == members_view(m@),
            mv.len() == m@.len(),
            forall|j: int| 0 <= j < mv.len() ==> #[trigger] mv[j] == (m@[j].0@, json_view(m@[j].1)),
            k <= m.len(),
            members_view(out@) == without_key(mv.take(k as int), key@),
        decreases m.len() - k,
    {
        assert(mv.take(k + 1).drop_last() =~= mv.take(k as int));
        assert(mv.take(k + 1).last() == mv[k as int]);
        assert(mv[k as int] == (m@[k as int].0@, json_view(m@[k as int].1)));
        if !str_eq(m[k].0.as_str(), key) {
            insert_member(&mut out, m[k].0.clone(), m[k].1.copy());
        }
        k = k + 1;
    }
    assert(mv.take(k as int) =~= mv);
    out
}

/// Writes a character into a card for export: the character's fields
/// overwrite the card's, the `_v2_extra` fields come back from the
/// extensions, and a world book, when given, replaces the character book.
pub fn apply_to_card(c: &Character, data: &mut CharaData, lorebook: Option<&Lorebook>)
    ensures
        final(data)@ == applied(
            character_fields(*c),
            old(data)@,
            match lorebook {
                Some(b) => Some(book_json(*b)),
                None => None,
            },
        ),
{
    let ghost d0 = data@;
    let ghost cf = character_fields(*c);
    data.name = c.name.clone();
    data.description = c.description.clone();
    data.personality = c.personality.clone();
    data.scenario = c.scenario.clone();
    let n = c.first_messages.len();
    data.first_mes = if n > 0 {
        c.first_messages[0].clone()
    } else {
        String::new()
    };
    let mut alternates: Vec<String> = Vec::new();
    if n > 0 {
        let mut i: usize = 1;
        while i < n
            invariant
                n == c.first_messages@.len(),
                1 <= i <= n,
                views(alternates@) =~= views(c.first_messages@).subrange(1, i as int),
            decreases n - i,
        {
            let ghost before = alternates@;
            alternates.push(c.first_messages[i].clone());
            assert(views(alternates@) =~= views(before).push(c.first_messages@[i as int]@));
            i = i + 1;
        }
        assert(views(c.first_messages@).subrange(1, n as int) =~= views(c.first_messages@).skip(1));
    } else {
        assert(views(alternates@) =~= Seq::<Seq<char>>::empty());
    }
    data.alternate_greetings = alternates;
    data.mes_example = c.example_messages.clone();
    data.system_prompt = match &c.system_prompt {
        Some(s) => s.clone(),
        None => String::new(),
    };
    data.tags = c.tags.clone();
    let ghost d1 = data@;
    assert(d1 == CharaDataV {
        name: cf.name,
        description: cf.description,
        personality: cf.personality,
        scenario: cf.scenario,
        first_mes: if cf.first_messages.len() > 0 {
            cf.first_messages[0]
        } else {
            seq![]
        },
        alternate_greetings: if cf.first_messages.len() > 0 {
            cf.first_messages.skip(1)
        } else {
            seq![]
        },
        mes_example: cf.example_messages,
        system_prompt: match cf.system_prompt {
            Some(s) => s,
            None => seq![],
        },
        tags: cf.tags,
        ..d0
    });
    match &c.extensions {
        Some(ext) => match ext {
            Json::Object(map) => {
                match ext.get("_v2_extra") {
                    Some(x) => match x {
                        Json::Object(em) => {
                            if extra_ok_of(em) {
                                data.creator = member_str(x, "creator");
                                data.creator_notes = member_str(x, "creator_notes");
                                data.character_version = member_str(x, "character_version");
                                data.post_history_instructions = member_str(x, "post_history_instructions");
                                data.character_book = member_value(x, "character_book");
                            }
                        },
                        _ => {},
                    },
                    None => {},
                }
                let rest = without_key_of(map, "_v2_extra");
                data.extensions = Some(Json::Object(rest));
            },
            _ => {},
        },
        None => {},
    }
    match lorebook {
        Some(book) => {
            data.character_book = Some(lorebook_to_character_book(book));
        },
        None => {},
    }
}

/// Texts none of which is blank are all kept.
proof fn lemma_nonblank_all(s: Seq<Seq<char>>)
    requires
        forall|i: int| 0 <= i < s.len() ==> !is_blank(#[trigger] s[i]),
    ensures
        nonblank(s) == s,
    decreases s.len(),
{
    if s.len() > 0 {
        lemma_nonblank_all(s.drop_last());
        assert(s.drop_last().push(s.last()) =~= s);
    }
}

/// Inserting a key that is not there appends it.
proof fn lemma_insert_new(m: Seq<(Seq<char>, JsonV)>, k: Seq<char>, v: JsonV)
    requires
        forall|i: int| 0 <= i < m.len() ==> #[trigger] m[i].0 != k,
    ensures
        members_insert(m, k, v) == m.push((k, v)),
{
    lemma_key_position(m, k);
    if let Some(i) = key_position(m, k) {
        assert(m[i].0 == k);
    }
}

/// Members with distinct keys and no null value are kept as they are.
proof fn lemma_non_null_identity(m: Seq<(Seq<char>, JsonV)>)
    requires
        distinct_keys(m),
        forall|i: int| 0 <= i < m.len() ==> !(#[trigger] m[i].1 is Null),
    ensures
        non_null_members(m) == m,
    decreases m.len(),
{
    if m.len() > 0 {
        let p = m.drop_last();
        assert forall|i: int, j: int| 0 <= i < j < p.len() implies #[trigger] p[i].0 != #[trigger] p[j].0 by {
            assert(p[i] == m[i] && p[j] == m[j]);
        }
        lemma_non_null_identity(p);
        assert(!(m[m.len() - 1].1 is Null));
        assert forall|i: int| 0 <= i < p.len() implies #[trigger] p[i].0 != m.last().0 by {
            assert(p[i] == m[i]);
            assert(m[i].0 != m[m.len() - 1].0);
        }
        lemma_insert_new(p, m.last().0, m.last().1);
        assert(p.push(m.last()) =~= m);
    }
}

/// Removing a key that is not there keeps members with distinct keys.
proof fn lemma_without_key_identity(m: Seq<(Seq<char>, JsonV)>, k: Seq<char>)
    requires
        distinct_keys(m),
        forall|i: int| 0 <= i < m.len() ==> #[trigger] m[i].0 != k,
    ensures
        without_key(m, k) == m,
    decreases m.len(),
{
    if m.len() > 0 {
        let p = m.drop_last();
        assert forall|i: int, j: int| 0 <= i < j < p.len() implies #[trigger] p[i].0 != #[trigger] p[j].0 by {
            assert(p[i] == m[i] && p[j] == m[j]);
        }
        assert(m[m.len() - 1].0 != k);
        lemma_without_key_identity(p, k);
        assert forall|i: int| 0 <= i < p.len() implies #[trigger] p[i].0 != m.last().0 by {
            assert(p[i] == m[i]);
            assert(m[i].0 != m[m.len() - 1].0);
        }
        lemma_insert_new(p, m.last().0, m.last().1);
        assert(p.push(m.last()) =~= m);
    }
}

/// Whether a card comes back unchanged from the character made of it:
/// no greeting is blank, the system prompt is empty or not blank, the
/// character book is not null, and the extensions are an object with
/// distinct keys, no null value and no `_v2_extra` member (not empty
/// unless card-only fields are set), or absent with no card-only field set.
pub open spec fn card_survives_character(d: CharaDataV) -> bool {
    &&& !is_blank(d.first_mes)
    &&& forall|i: int| 0 <= i < d.alternate_greetings.len() ==> !is_blank(#[trigger] d.alternate_greetings[i])
    &&& (d.system_prompt.len() == 0 || !is_blank(d.system_prompt))
    &&& d.character_book != Some(JsonV::Null)
    &&& match d.extensions {
        None => extra_empty(d),
        Some(JsonV::Object(m)) => {
            &&& distinct_keys(m)
            &&& forall|i: int| 0 <= i < m.len() ==> !(#[trigger] m[i].1 is Null)
            &&& forall|i: int| 0 <= i < m.len() ==> #[trigger] m[i].0 != extra_key()
            &&& (m.len() > 0 || !extra_empty(d))
        },
        Some(_) => false,
    }
}

/// The `_v2_extra` object reads back as the card-only fields.
proof fn lemma_extra_reads_back(d: CharaDataV, d1: CharaDataV)
    requires
        d.character_book != Some(JsonV::Null),
    ensures
        extra_ok(extra_json(d)->Object_0),
        with_extra(d1, extra_json(d)->Object_0) == (CharaDataV {
            creator: d.creator,
            creator_notes: d.creator_notes,
            character_version: d.character_version,
            post_history_instructions: d.post_history_instructions,
            character_book: d.character_book,
            ..d1
        }),
{
    reveal_strlit("creator");
    reveal_strlit("creator_notes");
    reveal_strlit("character_version");
    reveal_strlit("post_history_instructions");
    reveal_strlit("character_book");
    let em = extra_json(d)->Object_0;
    let e1 = em.drop_first();
    let e2 = e1.drop_first();
    let e3 = e2.drop_first();
    let e4 = e3.drop_first();
    let cbv = value_json(d.character_book);
    assert(e1 =~= seq![
        ("creator_notes"@, JsonV::Str(d.creator_notes)),
        ("character_version"@, JsonV::Str(d.character_version)),
        ("post_history_instructions"@, JsonV::Str(d.post_history_instructions)),
        ("character_book"@, cbv),
    ]);
    assert(e2 =~= seq![
        ("character_version"@, JsonV::Str(d.character_version)),
        ("post_history_instructions"@, JsonV::Str(d.post_history_instructions)),
        ("character_book"@, cbv),
    ]);
    assert(e3 =~= seq![
        ("post_history_instructions"@, JsonV::Str(d.post_history_instructions)),
        ("character_book"@, cbv),
    ]);
    assert(e4 =~= seq![("character_book"@, cbv)]);
    assert(e4.drop_first().len() == 0);
    assert("creator"@.len() != "creator_notes"@.len());
    assert("creator"@.len() != "character_version"@.len());
    assert("creator"@.len() != "post_history_instructions"@.len());
    assert("creator"@.len() != "character_book"@.len());
    assert("creator_notes"@.len() != "character_version"@.len());
    assert("creator_notes"@.len() != "post_history_instructions"@.len());
    assert("creator_notes"@.len() != "character_book"@.len());
    assert("character_version"@.len() != "post_history_instructions"@.len());
    assert("character_version"@.len() != "character_book"@.len());
    assert("post_history_instructions"@.len() != "character_book"@.len());
    assert(extra_ok(e4.drop_first()));
    assert(!is_extra_str_key("character_book"@));
    assert(extra_ok(e4));
    assert(extra_ok(e3));
    assert(extra_ok(e2));
    assert(extra_ok(e1));
    assert(extra_ok(em));
    assert(member_lookup(em, "creator"@) == Some(JsonV::Str(d.creator)));
    assert(member_lookup(e1, "creator_notes"@) == Some(JsonV::Str(d.creator_notes)));
    assert(member_lookup(em, "creator_notes"@) == Some(JsonV::Str(d.creator_notes)));
    assert(member_lookup(e2, "character_version"@) == Some(JsonV::Str(d.character_version)));
    assert(member_lookup(e1, "character_version"@) == Some(JsonV::Str(d.character_version)));
    assert(member_lookup(em, "character_version"@) == Some(JsonV::Str(d.character_version)));
    let phi = "post_history_instructions"@;
    assert(member_lookup(e3, phi) == Some(JsonV::Str(d.post_history_instructions)));
    assert(member_lookup(e2, phi) == Some(JsonV::Str(d.post_history_instructions)));
    assert(member_lookup(e1, phi) == Some(JsonV::Str(d.post_history_instructions)));
    assert(member_lookup(em, phi) == Some(JsonV::Str(d.post_history_instructions)));
    let cb = "character_book"@;
    assert(member_lookup(e4, cb) == Some(value_json(d.character_book)));
    assert(member_lookup(e3, cb) == Some(value_json(d.character_book)));
    assert(member_lookup(e2, cb) == Some(value_json(d.character_book)));
    assert(member_lookup(e1, cb) == Some(value_json(d.character_book)));
    assert(member_lookup(em, cb) == Some(value_json(d.character_book)));
}

/// A card turned into a character and written back into an empty card is
/// the card again (import then export loses nothing), when no greeting is
/// blank, the system prompt is empty or not blank, the character book is
/// not null, and the extensions are as `card_survives_character` says.
pub proof fn lemma_card_character_roundtrip(d: CharaDataV)
    requires
        card_survives_character(d),
    ensures
        applied(card_input(d), empty_card(), None) == d,
{
    let all = seq![d.first_mes] + d.alternate_greetings;
    assert forall|i: int| 0 <= i < all.len() implies !is_blank(#[trigger] all[i]) by {
        if i > 0 {
            assert(all[i] == d.alternate_greetings[i - 1]);
        }
    }
    lemma_nonblank_all(all);
    assert(all.skip(1) =~= d.alternate_greetings);
    if d.system_prompt.len() == 0 {
        assert(trim_start(d.system_prompt) == d.system_prompt);
        assert(trim_end(d.system_prompt) == d.system_prompt);
    }
    let c = card_input(d);
    let e = empty_card();
    if extra_empty(d) {
        assert(d.creator =~= e.creator);
        assert(d.creator_notes =~= e.creator_notes);
        assert(d.character_version =~= e.character_version);
        assert(d.post_history_instructions =~= e.post_history_instructions);
    }
    lemma_extra_reads_back(d, e);
    match d.extensions {
        Some(JsonV::Object(m)) => {
            lemma_non_null_identity(m);
            lemma_without_key_identity(m, extra_key());
            if !extra_empty(d) {
                lemma_insert_new(m, extra_key(), extra_json(d));
                let all_m = m.push((extra_key(), extra_json(d)));
                assert forall|j: int| 0 <= j < m.len() implies all_m[j].0 != extra_key() by {
                    assert(all_m[j] == m[j]);
                }
                lemma_member_lookup_prefix(all_m, extra_key(), m.len() as int);
                assert(all_m.skip(m.len() as int)[0] == (extra_key(), extra_json(d)));
                assert(all_m.drop_last() =~= m);
                assert(non_null_members(m) == m);
                assert(c.extensions == Some(JsonV::Object(all_m)));
                assert(member_lookup(all_m, extra_key()) == Some(extra_json(d)));
                assert(without_key(all_m, extra_key()) == without_key(m, extra_key()));
                let r = applied(c, e, None);
                assert(r.extensions == Some(JsonV::Object(m)));
                assert(r.creator == d.creator);
                assert(r.character_book == d.character_book);
                assert(r.first_mes == d.first_mes);
                assert(r.alternate_greetings == d.alternate_greetings);
                assert(r.system_prompt == d.system_prompt);
                assert(r == d);
            } else {
                lemma_key_position(m, extra_key());
                lemma_member_lookup_prefix(m, extra_key(), m.len() as int);
                assert(m.skip(m.len() as int).len() == 0);
                assert(c.extensions == Some(JsonV::Object(m)));
                assert(member_lookup(m, extra_key()) is None);
                let r = applied(c, e, None);
                assert(r.extensions == Some(JsonV::Object(m)));
                assert(r.creator == d.creator);
                assert(r.character_book == d.character_book);
                assert(r.name == d.name);
                assert(r.description == d.description);
                assert(r.personality == d.personality);
                assert(r.scenario == d.scenario);
                assert(r.first_mes == d.first_mes);
                assert(r.mes_example == d.mes_example);
                assert(r.creator_notes == d.creator_notes);
                assert(r.system_prompt == d.system_prompt);
                assert(r.post_history_instructions == d.post_history_instructions);
                assert(r.alternate_greetings == d.alternate_greetings);
                assert(r.tags == d.tags);
                assert(r.character_version == d.character_version);
                assert(r == d);
            }
        },
        _ => {
            assert(input_extensions(d) is None);
            let r = applied(c, e, None);
            assert(r.name == d.name);
            assert(r.description == d.description);
            assert(r.personality == d.personality);
            assert(r.scenario == d.scenario);
            assert(r.first_mes == d.first_mes);
            assert(r.mes_example == d.mes_example);
            assert(r.creator_notes == d.creator_notes);
            assert(r.system_prompt == d.system_prompt);
            assert(r.post_history_instructions == d.post_history_instructions);
            assert(r.alternate_greetings == d.alternate_greetings);
            assert(r.tags == d.tags);
            assert(r.character_version == d.character_version);
            assert(r.creator == d.creator);
            assert(r.character_book == d.character_book);
            assert(r.extensions == d.extensions);
        },
    }
}

/// The string, or `d` for anything else.
pub open spec fn str_or(v: JsonV, d: Seq<char>) -> Seq<char> {
    match v {
        JsonV::Str(s) => s,
        _ => d,
    }
}

/// The boolean, or `d` for anything else.
pub open spec fn bool_or(v: JsonV, d: bool) -> bool {
    match v {
        JsonV::Bool(b) => b,
        _ => d,
    }
}

/// The `i64` reading, or `d` for anything else.
pub open spec fn i64_or(v: JsonV, d: i64) -> i64 {
    match jv_i64(v) {
        Some(i) => i,
        None => d,
    }
}

/// The string elements of a list, in order; other elements are skipped.
pub open spec fn strings_in(a: Seq<JsonV>) -> Seq<Seq<char>>
    decreases a.len(),
{
    if a.len() == 0 {
        seq![]
    } else {
        match a.last() {
            JsonV::Str(s) => strings_in(a.drop_last()).push(s),
            _ => strings_in(a.drop_last()),
        }
    }
}

/// The string elements of an array; nothing for anything else.
pub open spec fn string_items(v: JsonV) -> Seq<Seq<char>> {
    match v {
        JsonV::Array(a) => strings_in(a),
        _ => seq![],
    }
}

/// A world-book entry being saved, as a value.
pub struct LoreEntryInputV {
    pub keys: Seq<Seq<char>>,
    pub secondary_keys: Seq<Seq<char>>,
    pub comment: Seq<char>,
    pub content: Seq<char>,
    pub constant: bool,
    pub selective: bool,
    pub insertion_order: i64,
    pub enabled: bool,
    pub position: Seq<char>,
}

/// The value of an entry being saved.
pub open spec fn entry_input_view(e: LoreEntryInput) -> LoreEntryInputV {
    LoreEntryInputV {
        keys: views(e.keys@),
        secondary_keys: views(e.secondary_keys@),
        comment: e.comment@,
        content: e.content@,
        constant: e.constant,
        selective: e.selective,
        insertion_order: e.insertion_order,
        enabled: e.enabled,
        position: e.position@,
    }
}

/// An entry read from a SillyTavern `character_book` entry, with the
/// defaults for what is missing or of another type.
pub open spec fn entry_from_json(e: JsonV) -> LoreEntryInputV {
    LoreEntryInputV {
        keys: string_items(jv_index(e, "keys"@)),
        secondary_keys: string_items(jv_index(e, "secondary_keys"@)),
        comment: str_or(jv_index(e, "comment"@), seq![]),
        content: str_or(jv_index(e, "content"@), seq![]),
        constant: bool_or(jv_index(e, "constant"@), false),
        selective: bool_or(jv_index(e, "selective"@), false),
        insertion_order: i64_or(jv_index(e, "insertion_order"@), 0),
        enabled: bool_or(jv_index(e, "enabled"@), true),
        position: str_or(jv_index(e, "position"@), "before_char"@),
    }
}

/// Whether `b` is the world book read from the `character_book` value `v`:
/// `v` has an `entries` array, each entry is read with its defaults, and
/// the book's own fields default to "世界书", "", 4, 500 and `false`; the
/// book is enabled.
pub open spec fn is_lore_input_of(b: LorebookInput, v: JsonV) -> bool {
    match jv_array(jv_index(v, "entries"@)) {
        None => false,
        Some(a) => {
            &&& b.name@ == str_or(jv_index(v, "name"@), "世界书"@)
            &&& b.description@ == str_or(jv_index(v, "description"@), seq![])
            &&& b.scan_depth == i64_or(jv_index(v, "scan_depth"@), 4)
            &&& b.token_budget == i64_or(jv_index(v, "token_budget"@), 500)
            &&& b.recursive_scanning == bool_or(jv_index(v, "recursive_scanning"@), false)
            &&& b.enabled
            &&& b.entries@.len() == a.len()
            &&& forall|i: int|
                0 <= i < a.len() ==> entry_input_view(#[trigger] b.entries@[i]) == entry_from_json(a[i])
        },
    }
}

/// The member under `key` (null when missing), as a string or `d`.
fn index_str_or(v: &Json, key: &str, d: &str) -> (r: String)
    ensures
        r@ == str_or(jv_index(v@, key@), d@),
{
    match v.get(key) {
        Some(Json::String(s)) => s.clone(),
        _ => d.to_owned(),
    }
}

/// The member under `key`, as a boolean or `d`.
fn index_bool_or(v: &Json, key: &str, d: bool) -> (r: bool)
    ensures
        r == bool_or(jv_index(v@, key@), d),
{
    match v.get(key) {
        Some(Json::Bool(b)) => *b,
        _ => d,
    }
}

/// The member under `key`, as an `i64` or `d`.
fn index_i64_or(v: &Json, key: &str, d: i64) -> (r: i64)
    ensures
        r == i64_or(jv_index(v@, key@), d),
{
    match v.get(key) {
        Some(x) => match x.as_i64() {
            Some(i) => i,
            None => d,
        },
        None => d,
    }
}

/// The string elements of an array; nothing for anything else.
fn str_array(v: &Json) -> (r: Vec<String>)
    ensures
        views(r@) == string_items(v@),
{
    broadcast use lemma_seq_view;

    let mut out: Vec<String> = Vec::new();
    match v {
        Json::Array(a) => {
            let ghost av = seq_view(a@);
            proof {
                lemma_seq_view(a@);
            }
            let mut i: usize = 0;
            assert(views(out@) =~= strings_in(av.take(0)));
            while i < a.len()
                invariant
                    av == seq_view(a@),
                    av.len() == a@.len(),
                    forall|j: int| 0 <= j < av.len() ==> #[trigger] av[j] == json_view(a@[j]),
                    i <= a.len(),
                    views(out@) == strings_in(av.take(i as int)),
                decreases a.len() - i,
            {
                assert(av.take(i + 1).drop_last() =~= av.take(i as int));
                assert(av.take(i + 1).last() == json_view(a@[i as int]));
                let ghost before = out@;
                match &a[i] {
                    Json::String(s) => {
                        out.push(s.clone());
                        assert(views(out@) =~= views(before).push(s@));
                    },
                    _ => {},
                }
                i = i + 1;
            }
            assert(av.take(i as int) =~= av);
        },
        _ => {
            assert(views(out@) =~= Seq::<Seq<char>>::empty());
        },
    }
    out
}

/// The string elements of the array under `key`.
fn index_str_array(v: &Json, key: &str) -> (r: Vec<String>)
    ensures
        views(r@) == string_items(jv_index(v@, key@)),
{
    match v.get(key) {
        Some(x) => str_array(x),
        None => {
            let r: Vec<String> = Vec::new();
            assert(views(r@) =~= Seq::<Seq<char>>::empty());
            r
        },
    }
}

/// Reads a SillyTavern `character_book` (embedded in a card, or a world
/// book file) into a world book to save; `None` when it has no `entries`
/// array.
pub fn character_book_to_lore_input(v: &Json) -> (r: Option<LorebookInput>)
    ensures
        match r {
            Some(b) => is_lore_input_of(b, v@),
            None => jv_array(jv_index(v@, "entries"@)) is None,
        },
{
    broadcast use lemma_seq_view;

    let entries_json = match v.get("entries") {
        Some(x) => x,
        None => {
            return None;
        },
    };
    let arr = match entries_json.as_array() {
        Some(a) => a,
        None => {
            return None;
        },
    };
    let ghost av = seq_view(arr@);
    proof {
        lemma_seq_view(arr@);
    }
    let mut entries: Vec<LoreEntryInput> = Vec::new();
    let mut i: usize = 0;
    while i < arr.len()
        invariant
            av == seq_view(arr@),
            av.len() == arr@.len(),
            forall|j: int| 0 <= j < av.len() ==> #[trigger] av[j] == json_view(arr@[j]),
            i <= arr.len(),
            entries@.len() == i,
            forall|j: int| 0 <= j < i ==> entry_input_view(#[trigger] entries@[j]) == entry_from_json(av[j]),
        decreases arr.len() - i,
    {
        let e = &arr[i];
        assert(av[i as int] == e@);
        let keys = index_str_array(e, "keys");
        let secondary_keys = index_str_array(e, "secondary_keys");
        let entry = LoreEntryInput {
            keys,
            secondary_keys,
            comment: index_str_or(e, "comment", ""),
            content: index_str_or(e, "content", ""),
            constant: index_bool_or(e, "constant", false),
            selective: index_bool_or(e, "selective", false),
            insertion_order: index_i64_or(e, "insertion_order", 0),
            enabled: index_bool_or(e, "enabled", true),
            position: index_str_or(e, "position", "before_char"),
        };
        proof {
            reveal_strlit("");
        }
        assert(""@ =~= Seq::<char>::empty());
        assert(entry_input_view(entry) == entry_from_json(av[i as int]));
        entries.push(entry);
        i = i + 1;
    }
    proof {
        reveal_strlit("");
    }
    assert(""@ =~= Seq::<char>::empty());
    Some(LorebookInput {
        name: index_str_or(v, "name", "世界书"),
        description: index_str_or(v, "description", ""),
        scan_depth: index_i64_or(v, "scan_depth", 4),
        token_budget: index_i64_or(v, "token_budget", 500),
        recursive_scanning: index_bool_or(v, "recursive_scanning", false),
        enabled: true,
        entries,
    })
}

/// Reads a SillyTavern world-book file: its JSON (under `data` when it
/// has one) as a `character_book`; an error when the text does not parse
/// or holds no `entries` array.
pub fn worldbook_from_text(text: &str) -> (r: Result<LorebookInput, String>)
    ensures
        match parsed_json(text@) {
            None => r matches Err(m) && m@ == "JSON 解析失败: "@ + parse_error_text(text@),
            Some(v) => {
                let b = match jv_get(v, "data"@) {
                    Some(d) => d,
                    None => v,
                };
                match r {
                    Ok(book) => is_lore_input_of(book, b),
                    Err(m) => jv_array(jv_index(b, "entries"@)) is None && m@
                        == "不是有效的世界书文件（缺少 entries）"@,
                }
            },
        },
{
    let v = match parse_json_text(text) {
        Ok(v) => v,
        Err(e) => {
            let mut m = String::new();
            push_str(&mut m, "JSON 解析失败: ");
            push_str(&mut m, e.as_str());
            return Err(m);
        },
    };
    let book_v = match v.get("data") {
        Some(d) => d,
        None => &v,
    };
    match character_book_to_lore_input(book_v) {
        Some(b) => Ok(b),
        None => Err("不是有效的世界书文件（缺少 entries）".to_owned()),
    }
}

/// The lookup of the key at `i`, when no earlier member has it.
proof fn lemma_lookup_at(m: Seq<(Seq<char>, JsonV)>, i: int)
    requires
        0 <= i < m.len(),
        forall|j: int| 0 <= j < i ==> m[j].0 != m[i].0,
    ensures
        member_lookup(m, m[i].0) == Some(m[i].1),
{
    lemma_member_lookup_prefix(m, m[i].0, i);
    assert(m.skip(i)[0] == m[i]);
}

/// Keys that differ in length or in one of their first three characters
/// are distinct.
proof fn lemma_keys_distinct(m: Seq<(Seq<char>, JsonV)>)
    requires
        forall|i: int| 0 <= i < m.len() ==> (#[trigger] m[i].0).len() >= 3,
        forall|i: int, j: int|
            0 <= i < j < m.len() ==> (#[trigger] m[i].0).len() != (#[trigger] m[j].0).len() || m[i].0[0]
                != m[j].0[0] || m[i].0[1] != m[j].0[1] || m[i].0[2] != m[j].0[2],
    ensures
        distinct_keys(m),
{
}

/// The strings of a list of strings, as JSON, are the list.
proof fn lemma_strings_in_strs(v: Seq<Seq<char>>)
    ensures
        strings_in(Seq::new(v.len(), |i: int| JsonV::Str(v[i]))) == v,
    decreases v.len(),
{
    let a = Seq::new(v.len(), |i: int| JsonV::Str(v[i]));
    if v.len() > 0 {
        lemma_strings_in_strs(v.drop_last());
        assert(a.drop_last() =~= Seq::new(v.drop_last().len(), |i: int| JsonV::Str(v.drop_last()[i])));
        assert(v.drop_last().push(v.last()) =~= v);
    }
}

/// A stored world-book entry, as the entry read back from its export.
pub open spec fn entry_as_input(e: LoreEntry) -> LoreEntryInputV {
    LoreEntryInputV {
        keys: views(e.keys@),
        secondary_keys: views(e.secondary_keys@),
        comment: e.comment@,
        content: e.content@,
        constant: e.constant,
        selective: e.selective,
        insertion_order: e.insertion_order,
        enabled: e.enabled,
        position: e.position@,
    }
}

/// An exported entry reads back as the entry.
proof fn lemma_entry_reads_back(e: LoreEntry)
    ensures
        entry_from_json(entry_json(e)) == entry_as_input(e),
{
    reveal_strlit("keys");
    reveal_strlit("secondary_keys");
    reveal_strlit("comment");
    reveal_strlit("content");
    reveal_strlit("constant");
    reveal_strlit("selective");
    reveal_strlit("insertion_order");
    reveal_strlit("enabled");
    reveal_strlit("position");
    reveal_strlit("extensions");
    let m = entry_json(e)->Object_0;
    lemma_keys_distinct(m);
    lemma_lookup_at(m, 0);
    lemma_lookup_at(m, 1);
    lemma_lookup_at(m, 2);
    lemma_lookup_at(m, 3);
    lemma_lookup_at(m, 4);
    lemma_lookup_at(m, 5);
    lemma_lookup_at(m, 6);
    lemma_lookup_at(m, 7);
    lemma_lookup_at(m, 8);
    lemma_strings_in_strs(views(e.keys@));
    lemma_strings_in_strs(views(e.secondary_keys@));
}

/// A world book exported as a `character_book` and read back holds the
/// same fields and entries (enabled, as every imported book is).
pub proof fn lemma_book_reads_back(b: Lorebook, x: LorebookInput)
    requires
        is_lore_input_of(x, book_json(b)),
    ensures
        x.name@ == b.name@,
        x.description@ == b.description@,
        x.scan_depth == b.scan_depth,
        x.token_budget == b.token_budget,
        x.recursive_scanning == b.recursive_scanning,
        x.enabled,
        x.entries@.len() == b.entries@.len(),
        forall|i: int|
            0 <= i < b.entries@.len() ==> entry_input_view(#[trigger] x.entries@[i]) == entry_as_input(
                b.entries@[i],
            ),
{
    reveal_strlit("name");
    reveal_strlit("description");
    reveal_strlit("scan_depth");
    reveal_strlit("token_budget");
    reveal_strlit("recursive_scanning");
    reveal_strlit("extensions");
    reveal_strlit("entries");
    let m = book_json(b)->Object_0;
    lemma_keys_distinct(m);
    lemma_lookup_at(m, 0);
    lemma_lookup_at(m, 1);
    lemma_lookup_at(m, 2);
    lemma_lookup_at(m, 3);
    lemma_lookup_at(m, 4);
    lemma_lookup_at(m, 6);
    assert forall|i: int| 0 <= i < b.entries@.len() implies entry_input_view(#[trigger] x.entries@[i])
        == entry_as_input(b.entries@[i]) by {
        lemma_entry_reads_back(b.entries@[i]);
    }
}

/// The text of member `k`: its string, empty when it is missing or not a
/// string.
pub open spec fn member_text(m: Seq<(Seq<char>, JsonV)>, k: Seq<char>) -> Seq<char> {
    match member_lookup(m, k) {
        Some(JsonV::Str(s)) => s,
        _ => seq![],
    }
}

/// The list member `k`: the texts of its elements, empty when it is
/// missing or not an array.
pub open spec fn member_strings(m: Seq<(Seq<char>, JsonV)>, k: Seq<char>) -> Seq<Seq<char>> {
    match member_lookup(m, k) {
        Some(JsonV::Array(a)) => Seq::new(
            a.len(),
            |i: int|
                match a[i] {
                    JsonV::Str(s) => s,
                    _ => seq![],
                },
        ),
        _ => seq![],
    }
}

/// The value member `k`: absent when it is missing or null.
pub open spec fn member_json(m: Seq<(Seq<char>, JsonV)>, k: Seq<char>) -> Option<JsonV> {
    match member_lookup(m, k) {
        Some(JsonV::Null) => None,
        other => other,
    }
}

/// Where a card's fields stand: under `data` for a v2 card, at the root for
/// a v1 card.
pub open spec fn card_source(v: JsonV) -> JsonV {
    match jv_get(v, "data"@) {
        Some(x) => x,
        None => v,
    }
}

/// A card read from JSON holds exactly the members of its field object (the
/// root of a v1 card, `data` of a v2 card), each under its own name: a
/// string field is that member's string (empty when missing), a list field
/// its strings, a value field its value (absent when missing or null). A v1
/// card is read as its fields alone.
pub proof fn lemma_card_fields_from_members(v: JsonV)
    ensures
        (jv_get(v, "data"@) is None) ==> decode_card(v) == decode_chara(v),
        (decode_card(v) is Ok && card_source(v) is Object) ==> ({
            let d = decode_card(v)->Ok_0;
            let m = card_source(v)->Object_0;
            &&& d.name == member_text(m, "name"@)
            &&& d.description == member_text(m, "description"@)
            &&& d.personality == member_text(m, "personality"@)
            &&& d.scenario == member_text(m, "scenario"@)
            &&& d.first_mes == member_text(m, "first_mes"@)
            &&& d.mes_example == member_text(m, "mes_example"@)
            &&& d.creator_notes == member_text(m, "creator_notes"@)
            &&& d.system_prompt == member_text(m, "system_prompt"@)
            &&& d.post_history_instructions == member_text(m, "post_history_instructions"@)
            &&& d.alternate_greetings == member_strings(m, "alternate_greetings"@)
            &&& d.character_book == member_json(m, "character_book"@)
            &&& d.tags == member_strings(m, "tags"@)
            &&& d.creator == member_text(m, "creator"@)
            &&& d.character_version == member_text(m, "character_version"@)
            &&& d.extensions == member_json(m, "extensions"@)
        }),
{
    if decode_card(v) is Ok && card_source(v) is Object {
        let src = card_source(v);
        let m = src->Object_0;
        assert(decode_chara(src) == decode_card(v));
        let d = decode_card(v)->Ok_0;
        assert(d == card_from_slots(src));
        assert(d.alternate_greetings =~= member_strings(m, "alternate_greetings"@));
        assert(d.tags =~= member_strings(m, "tags"@));
    }
}

/// A world-book entry read from a character book keeps what its member
/// says and otherwise takes the keyword-entry defaults: it is constant or
/// selective only when that member is `true`, enabled unless the member is
/// `false`, first in order unless `insertion_order` is an integer, before
/// the character unless `position` is a string, and its content is the
/// `content` string (empty when missing).
pub proof fn lemma_book_entry_defaults(b: LorebookInput, v: JsonV)
    requires
        is_lore_input_of(b, v),
    ensures
        forall|i: int|
            0 <= i < b.entries@.len() ==> ({
                let e = jv_index(v, "entries"@)->Array_0[i];
                let x = #[trigger] b.entries@[i];
                &&& x.constant == (jv_index(e, "constant"@) == JsonV::Bool(true))
                &&& x.selective == (jv_index(e, "selective"@) == JsonV::Bool(true))
                &&& x.enabled == (jv_index(e, "enabled"@) != JsonV::Bool(false))
                &&& (jv_i64(jv_index(e, "insertion_order"@)) matches Some(n) ==> x.insertion_order == n)
                &&& (jv_i64(jv_index(e, "insertion_order"@)) is None ==> x.insertion_order == 0)
                &&& (jv_index(e, "position"@) matches JsonV::Str(p) ==> x.position@ == p)
                &&& (!(jv_index(e, "position"@) is Str) ==> x.position@ == "before_char"@)
                &&& x.content@ == match jv_index(e, "content"@) {
                    JsonV::Str(c) => c,
                    _ => seq![],
                }
            }),
{
    let a = jv_index(v, "entries"@)->Array_0;
    assert forall|i: int| 0 <= i < b.entries@.len() implies ({
        let e = jv_index(v, "entries"@)->Array_0[i];
        let x = #[trigger] b.entries@[i];
        &&& x.constant == (jv_index(e, "constant"@) == JsonV::Bool(true))
        &&& x.selective == (jv_index(e, "selective"@) == JsonV::Bool(true))
        &&& x.enabled == (jv_index(e, "enabled"@) != JsonV::Bool(false))
        &&& (jv_i64(jv_index(e, "insertion_order"@)) matches Some(n) ==> x.insertion_order == n)
        &&& (jv_i64(jv_index(e, "insertion_order"@)) is None ==> x.insertion_order == 0)
        &&& (jv_index(e, "position"@) matches JsonV::Str(p) ==> x.position@ == p)
        &&& (!(jv_index(e, "position"@) is Str) ==> x.position@ == "before_char"@)
        &&& x.content@ == match jv_index(e, "content"@) {
            JsonV::Str(c) => c,
            _ => seq![],
        }
    }) by {
        assert(entry_input_view(b.entries@[i]) == entry_from_json(a[i]));
    }
}

} // verus!
