//! JSON values as the library reads and builds them. Parsing and printing
//! are done by `serde_json`; everything in between works on this type.

use vstd::prelude::*;

use crate::text::str_eq;

verus! {

/// `serde_json::Number`, carried opaque inside `JsonNumber`.
#[verifier::external_type_specification]
#[verifier::external_body]
pub struct ExJsonNumberRaw(serde_json::Number);

/// `serde_json::Value`, handed only between the parsing and printing
/// calls.
#[verifier::external_type_specification]
#[verifier::external_body]
pub struct ExJsonValueRaw(serde_json::Value);

/// A JSON number: its printed form, its `i64` and `u64` readings when it
/// has them (a float has neither), and the number itself.
#[derive(Debug, PartialEq)]
pub struct JsonNumber {
    text: String,
    int: Option<i64>,
    uint: Option<u64>,
    raw: serde_json::Number,
}

/// A number as a value: printed form, `i64` reading and `u64` reading.
pub struct NumberView {
    pub text: Seq<char>,
    pub int: Option<i64>,
    pub uint: Option<u64>,
}

/// The integer `x` as a JSON number: printed in decimal, read as `i64`
/// and as `u64` where it fits each.
pub open spec fn int_view(x: int) -> NumberView {
    NumberView {
        text: decimal(x),
        int: if i64::MIN <= x <= i64::MAX { Some(x as i64) } else { None },
        uint: if 0 <= x <= u64::MAX { Some(x as u64) } else { None },
    }
}

/// Whether a number is an integer printed in decimal, with both readings
/// as they follow from its value.
pub open spec fn plain_number(n: NumberView) -> bool {
    ||| (n.int matches Some(i) && n == int_view(i as int))
    ||| (n.uint matches Some(u) && n == int_view(u as int))
}

impl View for JsonNumber {
    type V = NumberView;

    closed spec fn view(&self) -> NumberView {
        NumberView { text: self.text@, int: self.int, uint: self.uint }
    }
}

/// A JSON value.
#[derive(Debug, PartialEq)]
pub enum Json {
    Null,
    Bool(bool),
    Number(JsonNumber),
    String(String),
    Array(Vec<Json>),
    Object(Vec<(String, Json)>),
}

/// A JSON value as a mathematical value.
pub enum JsonV {
    Null,
    Bool(bool),
    Number(NumberView),
    Str(Seq<char>),
    Array(Seq<JsonV>),
    Object(Seq<(Seq<char>, JsonV)>),
}

/// The value of a JSON tree.
pub open spec fn json_view(j: Json) -> JsonV
    decreases j,
{
    match j {
        Json::Null => JsonV::Null,
        Json::Bool(b) => JsonV::Bool(b),
        Json::Number(n) => JsonV::Number(n@),
        Json::String(s) => JsonV::Str(s@),
        Json::Array(v) => JsonV::Array(seq_view(v@)),
        Json::Object(v) => JsonV::Object(members_view(v@)),
    }
}

/// The values of a list of JSON trees.
pub open spec fn seq_view(s: Seq<Json>) -> Seq<JsonV>
    decreases s,
{
    if s.len() == 0 {
        seq![]
    } else {
        seq_view(s.drop_last()).push(json_view(s.last()))
    }
}

/// The values of a list of object members.
pub open spec fn members_view(s: Seq<(String, Json)>) -> Seq<(Seq<char>, JsonV)>
    decreases s,
{
    if s.len() == 0 {
        seq![]
    } else {
        members_view(s.drop_last()).push((s.last().0@, json_view(s.last().1)))
    }
}

impl View for Json {
    type V = JsonV;

    open spec fn view(&self) -> JsonV {
        json_view(*self)
    }
}


/// `seq_view` keeps length and positions.
pub broadcast proof fn lemma_seq_view(s: Seq<Json>)
    ensures
        #[trigger] seq_view(s).len() == s.len(),
        forall|i: int| 0 <= i < s.len() ==> #[trigger] seq_view(s)[i] == json_view(s[i]),
    decreases s.len(),
{
    if s.len() > 0 {
        lemma_seq_view(s.drop_last());
    }
}

/// `members_view` keeps length and positions.
pub broadcast proof fn lemma_members_view(s: Seq<(String, Json)>)
    ensures
        #[trigger] members_view(s).len() == s.len(),
        forall|i: int|
            0 <= i < s.len() ==> #[trigger] members_view(s)[i] == (s[i].0@, json_view(s[i].1)),
    decreases s.len(),
{
    if s.len() > 0 {
        lemma_members_view(s.drop_last());
    }
}

/// The decimal digits of `n`.
pub open spec fn digits(n: nat) -> Seq<char>
    decreases n,
{
    if n < 10 {
        seq![(48 + n) as char]
    } else {
        digits(n / 10).push((48 + n % 10) as char)
    }
}

/// How an integer prints in decimal.
pub open spec fn decimal(i: int) -> Seq<char> {
    if i < 0 {
        seq!['-'] + digits((-i) as nat)
    } else {
        digits(i as nat)
    }
}

/// The value under `key` in an object's members (first match).
pub open spec fn member_lookup(m: Seq<(Seq<char>, JsonV)>, key: Seq<char>) -> Option<JsonV>
    decreases m.len(),
{
    if m.len() == 0 {
        None
    } else if m[0].0 == key {
        Some(m[0].1)
    } else {
        member_lookup(m.drop_first(), key)
    }
}

/// `value.get(key)`: the member under `key`, for objects.
pub open spec fn jv_get(v: JsonV, key: Seq<char>) -> Option<JsonV> {
    match v {
        JsonV::Object(m) => member_lookup(m, key),
        _ => None,
    }
}

/// `value[key]`: the member under `key`, or null.
pub open spec fn jv_index(v: JsonV, key: Seq<char>) -> JsonV {
    match jv_get(v, key) {
        Some(x) => x,
        None => JsonV::Null,
    }
}

/// The string, for strings.
pub open spec fn jv_str(v: JsonV) -> Option<Seq<char>> {
    match v {
        JsonV::Str(s) => Some(s),
        _ => None,
    }
}

/// The elements, for arrays.
pub open spec fn jv_array(v: JsonV) -> Option<Seq<JsonV>> {
    match v {
        JsonV::Array(a) => Some(a),
        _ => None,
    }
}

/// The boolean, for booleans.
pub open spec fn jv_bool(v: JsonV) -> Option<bool> {
    match v {
        JsonV::Bool(b) => Some(b),
        _ => None,
    }
}

/// The `i64` reading, for numbers that have one.
pub open spec fn jv_i64(v: JsonV) -> Option<i64> {
    match v {
        JsonV::Number(n) => n.int,
        _ => None,
    }
}

/// Whether `key` names a member of `m`.
pub open spec fn has_member(m: Seq<(Seq<char>, JsonV)>, key: Seq<char>) -> bool {
    exists|i: int| 0 <= i < m.len() && #[trigger] m[i].0 == key
}

/// Whether a tree has the shape that printing keeps: every number is an
/// `i64` printed in decimal, and no object repeats a key. (Parsing back also
/// needs the nesting to stay within the parser's depth limit, see
/// `json_depth`.)
pub open spec fn plain_json(v: JsonV) -> bool
    decreases v,
{
    match v {
        JsonV::Number(n) => plain_number(n),
        JsonV::Array(a) => plain_seq(a),
        JsonV::Object(m) => plain_members(m),
        _ => true,
    }
}

/// Every element is plain.
pub open spec fn plain_seq(a: Seq<JsonV>) -> bool
    decreases a,
{
    if a.len() == 0 {
        true
    } else {
        plain_seq(a.drop_last()) && plain_json(a.last())
    }
}

/// Keys are distinct and every value is plain.
pub open spec fn plain_members(m: Seq<(Seq<char>, JsonV)>) -> bool
    decreases m,
{
    if m.len() == 0 {
        true
    } else {
        plain_members(m.drop_last()) && plain_json(m.last().1) && !has_member(
            m.drop_last(),
            m.last().0,
        )
    }
}

/// How deeply arrays and objects nest: 0 for a scalar, one more than the
/// deepest element for an array or object.
pub open spec fn json_depth(v: JsonV) -> nat
    decreases v,
{
    match v {
        JsonV::Array(a) => 1 + seq_depth(a),
        JsonV::Object(m) => 1 + members_depth(m),
        _ => 0,
    }
}

/// The depth of the deepest element, 0 when there is none.
pub open spec fn seq_depth(a: Seq<JsonV>) -> nat
    decreases a,
{
    if a.len() == 0 {
        0
    } else {
        let d = seq_depth(a.drop_last());
        let e = json_depth(a.last());
        if d < e { e } else { d }
    }
}

/// The depth of the deepest member value, 0 when there is none.
pub open spec fn members_depth(m: Seq<(Seq<char>, JsonV)>) -> nat
    decreases m,
{
    if m.len() == 0 {
        0
    } else {
        let d = members_depth(m.drop_last());
        let e = json_depth(m.last().1);
        if d < e { e } else { d }
    }
}

/// The deepest nesting `serde_json`'s parser accepts: it starts with a
/// budget of 128 and fails when an array or object brings it to 0.
pub open spec fn parse_depth_limit() -> nat {
    127
}

/// Whether a tree prints and parses back unchanged: plain, and nested no
/// deeper than the parser accepts.
pub open spec fn reparses(v: JsonV) -> bool {
    plain_json(v) && json_depth(v) <= parse_depth_limit()
}

/// Elements no deeper than `k` keep the list's element depth within `k`.
pub proof fn lemma_seq_depth(a: Seq<JsonV>, k: nat)
    requires
        forall|i: int| 0 <= i < a.len() ==> json_depth(#[trigger] a[i]) <= k,
    ensures
        seq_depth(a) <= k,
    decreases a.len(),
{
    if a.len() > 0 {
        lemma_seq_depth(a.drop_last(), k);
    }
}

/// Member values no deeper than `k` keep the members' depth within `k`.
pub proof fn lemma_members_depth(m: Seq<(Seq<char>, JsonV)>, k: nat)
    requires
        forall|i: int| 0 <= i < m.len() ==> json_depth(#[trigger] m[i].1) <= k,
    ensures
        members_depth(m) <= k,
    decreases m.len(),
{
    if m.len() > 0 {
        lemma_members_depth(m.drop_last(), k);
    }
}

/// Whether no object anywhere in the tree repeats a key (as in every value
/// `serde_json` builds, whose maps hold each key once).
pub open spec fn distinct_deep(v: JsonV) -> bool
    decreases v,
{
    match v {
        JsonV::Array(a) => seq_distinct_deep(a),
        JsonV::Object(m) => distinct_keys(m) && members_distinct_deep(m),
        _ => true,
    }
}

/// Every element repeats no key anywhere.
pub open spec fn seq_distinct_deep(a: Seq<JsonV>) -> bool
    decreases a,
{
    a.len() == 0 || (seq_distinct_deep(a.drop_last()) && distinct_deep(a.last()))
}

/// Every member value repeats no key anywhere.
pub open spec fn members_distinct_deep(m: Seq<(Seq<char>, JsonV)>) -> bool
    decreases m,
{
    m.len() == 0 || (members_distinct_deep(m.drop_last()) && distinct_deep(m.last().1))
}

/// Each element of such a list repeats no key.
pub proof fn lemma_seq_distinct_deep(a: Seq<JsonV>)
    requires
        seq_distinct_deep(a),
    ensures
        forall|i: int| 0 <= i < a.len() ==> distinct_deep(#[trigger] a[i]),
    decreases a.len(),
{
    if a.len() > 0 {
        lemma_seq_distinct_deep(a.drop_last());
        assert forall|i: int| 0 <= i < a.len() implies distinct_deep(#[trigger] a[i]) by {
            if i < a.len() - 1 {
                assert(a[i] == a.drop_last()[i]);
            }
        }
    }
}

/// Each member value of such members repeats no key.
pub proof fn lemma_members_distinct_deep(m: Seq<(Seq<char>, JsonV)>)
    requires
        members_distinct_deep(m),
    ensures
        forall|i: int| 0 <= i < m.len() ==> distinct_deep(#[trigger] m[i].1),
    decreases m.len(),
{
    if m.len() > 0 {
        lemma_members_distinct_deep(m.drop_last());
        assert forall|i: int| 0 <= i < m.len() implies distinct_deep(#[trigger] m[i].1) by {
            if i < m.len() - 1 {
                assert(m[i] == m.drop_last()[i]);
            }
        }
    }
}

/// A looked-up member is one of the member values.
pub proof fn lemma_lookup_member(m: Seq<(Seq<char>, JsonV)>, k: Seq<char>)
    ensures
        member_lookup(m, k) matches Some(x) ==> exists|i: int| 0 <= i < m.len() && #[trigger] m[i].1 == x,
    decreases m.len(),
{
    if m.len() > 0 && m[0].0 != k {
        let t = m.drop_first();
        lemma_lookup_member(t, k);
        if let Some(x) = member_lookup(t, k) {
            let i = choose|i: int| 0 <= i < t.len() && #[trigger] t[i].1 == x;
            assert(m[i + 1].1 == x);
        }
    }
}

/// A list of plain values is plain.
pub proof fn lemma_plain_seq(a: Seq<JsonV>)
    requires
        forall|i: int| 0 <= i < a.len() ==> plain_json(#[trigger] a[i]),
    ensures
        plain_seq(a),
    decreases a.len(),
{
    if a.len() > 0 {
        lemma_plain_seq(a.drop_last());
    }
}

/// Members with distinct keys and plain values are plain.
pub proof fn lemma_plain_members(m: Seq<(Seq<char>, JsonV)>)
    requires
        forall|i: int, j: int| 0 <= i < j < m.len() ==> #[trigger] m[i].0 != #[trigger] m[j].0,
        forall|i: int| 0 <= i < m.len() ==> plain_json(#[trigger] m[i].1),
    ensures
        plain_members(m),
    decreases m.len(),
{
    if m.len() > 0 {
        let p = m.drop_last();
        assert forall|i: int, j: int| 0 <= i < j < p.len() implies #[trigger] p[i].0 != #[trigger] p[j].0 by {
            assert(p[i] == m[i] && p[j] == m[j]);
        }
        lemma_plain_members(p);
        if has_member(p, m.last().0) {
            let i = choose|i: int| 0 <= i < p.len() && #[trigger] p[i].0 == m.last().0;
            assert(m[i].0 != m[m.len() - 1].0);
        }
    }
}

/// What `serde_json::from_str::<Value>` gives for a text, if it parses.
pub uninterp spec fn parsed_json(text: Seq<char>) -> Option<JsonV>;

/// The message `serde_json::from_str::<Value>` gives for a text it cannot
/// parse.
pub uninterp spec fn parse_error_text(text: Seq<char>) -> Seq<char>;

/// How `serde_json::to_string_pretty` prints a value.
pub uninterp spec fn json_pretty_text(v: JsonV) -> Seq<char>;

/// How `serde_json::to_string` prints a value.
pub uninterp spec fn json_compact_text(v: JsonV) -> Seq<char>;

/// Converts a parsed `serde_json` value, member for member.
#[verifier::external_body]
fn from_value(v: serde_json::Value) -> Json {
    match v {
        serde_json::Value::Null => Json::Null,
        serde_json::Value::Bool(b) => Json::Bool(b),
        serde_json::Value::Number(n) => Json::Number(JsonNumber { text: n.to_string(), int: n.as_i64(), uint: n.as_u64(), raw: n }),
        serde_json::Value::String(s) => Json::String(s),
        serde_json::Value::Array(a) => Json::Array(a.into_iter().map(from_value).collect()),
        serde_json::Value::Object(m) => Json::Object(m.into_iter().map(|(k, x)| (k, from_value(x))).collect()),
    }
}

/// Converts to a `serde_json` value, member for member.
#[verifier::external_body]
fn to_value(j: &Json) -> serde_json::Value {
    match j {
        Json::Null => serde_json::Value::Null,
        Json::Bool(b) => serde_json::Value::Bool(*b),
        Json::Number(n) => serde_json::Value::Number(n.raw.clone()),
        Json::String(s) => serde_json::Value::String(s.clone()),
        Json::Array(a) => serde_json::Value::Array(a.iter().map(to_value).collect()),
        Json::Object(m) => serde_json::Value::Object(m.iter().map(|(k, x)| (k.clone(), to_value(x))).collect()),
    }
}

/// Calls `serde_json::from_str::<Value>`. Claimed: it succeeds exactly when
/// the text parses, the result (members in document order) depends on the
/// text alone and, its objects being maps, repeats no key in any object,
/// and a failure carries the parser's message for that text.
#[verifier::external_body]
fn serde_parse(text: &str) -> (r: Result<Json, String>)
    ensures
        r is Ok <==> parsed_json(text@) is Some,
        r matches Ok(j) ==> parsed_json(text@) == Some(j@) && distinct_deep(j@),
        r matches Err(m) ==> m@ == parse_error_text(text@),
{
    match serde_json::from_str::<serde_json::Value>(text) {
        Ok(v) => Ok(from_value(v)),
        Err(e) => Err(e.to_string()),
    }
}

/// Calls `serde_json::to_string_pretty`. Claimed: the text depends on the
/// value alone, and a plain value (distinct keys, integer numbers) nested
/// no deeper than the parser's limit of 127 parses back to itself.
#[verifier::external_body]
pub(crate) fn to_pretty_string(j: &Json) -> (r: String)
    ensures
        r@ == json_pretty_text(j@),
        reparses(j@) ==> parsed_json(r@) == Some(j@),
{
    serde_json::to_string_pretty(&to_value(j)).unwrap_or_default()
}

/// Calls `serde_json::to_string`. Claimed: the text depends on the value
/// alone, and a plain value nested no deeper than the parser's limit of 127
/// parses back to itself.
#[verifier::external_body]
fn serde_compact(j: &Json) -> (r: String)
    ensures
        r@ == json_compact_text(j@),
        reparses(j@) ==> parsed_json(r@) == Some(j@),
{
    serde_json::to_string(&to_value(j)).unwrap_or_default()
}

/// Reads JSON text: the value it holds, or why it is not JSON.
pub fn parse_json_text(text: &str) -> (r: Result<Json, String>)
    ensures
        r is Ok <==> parsed_json(text@) is Some,
        r matches Ok(j) ==> parsed_json(text@) == Some(j@) && distinct_deep(j@),
        r matches Err(m) ==> m@ == parse_error_text(text@),
{
    serde_parse(text)
}

/// Prints a value as compact JSON text; a plain value within the parser's
/// depth limit reads back unchanged.
pub fn to_compact_string(j: &Json) -> (r: String)
    ensures
        r@ == json_compact_text(j@),
        reparses(j@) ==> parsed_json(r@) == Some(j@),
{
    serde_compact(j)
}

/// Calls `serde_json::Number::from(i64)`. Claimed: the number prints as
/// the integer's decimal digits and reads back as it, as `i64` always and
/// as `u64` when it is not negative.
#[verifier::external_body]
pub(crate) fn number_from_i64(i: i64) -> (n: JsonNumber)
    ensures
        n@ == int_view(i as int),
{
    let raw = serde_json::Number::from(i);
    JsonNumber { text: raw.to_string(), int: raw.as_i64(), uint: raw.as_u64(), raw }
}

/// Calls `serde_json::Number::clone`. Claimed: the copy prints and reads
/// as the original.
#[verifier::external_body]
fn clone_number(n: &JsonNumber) -> (r: JsonNumber)
    ensures
        r@ == n@,
{
    JsonNumber { text: n.text.clone(), int: n.int, uint: n.uint, raw: n.raw.clone() }
}


/// Members before `i` that do not carry `k` do not change the lookup.
pub proof fn lemma_member_lookup_prefix(m: Seq<(Seq<char>, JsonV)>, k: Seq<char>, i: int)
    requires
        0 <= i <= m.len(),
        forall|j: int| 0 <= j < i ==> m[j].0 != k,
    ensures
        member_lookup(m, k) == member_lookup(m.skip(i), k),
    decreases i,
{
    if i > 0 {
        assert(m.drop_first().skip(i - 1) =~= m.skip(i));
        lemma_member_lookup_prefix(m.drop_first(), k, i - 1);
    } else {
        assert(m.skip(0) =~= m);
    }
}

impl Json {
    /// `Value::get(key)`: the member under `key`, for objects.
    pub fn get(&self, key: &str) -> (r: Option<&Json>)
        ensures
            match r {
                Some(x) => jv_get(self@, key@) == Some(x@),
                None => jv_get(self@, key@) is None,
            },
    {
        broadcast use lemma_members_view;

        match self {
            Json::Object(m) => {
                let ghost mv = members_view(m@);
                assert(self@ == JsonV::Object(mv));
                proof {
                    lemma_members_view(m@);
                }
                let mut i: usize = 0;
                while i < m.len()
                    invariant
                        mv == members_view(m@),
                        self@ == JsonV::Object(mv),
                        mv.len() == m@.len(),
                        forall|j: int| 0 <= j < mv.len() ==> #[trigger] mv[j] == (m@[j].0@, json_view(m@[j].1)),
                        0 <= i <= m.len(),
                        forall|j: int| 0 <= j < i ==> mv[j].0 != key@,
                    decreases m.len() - i,
                {
                    assert(mv[i as int] == (m@[i as int].0@, json_view(m@[i as int].1)));
                    if str_eq(m[i].0.as_str(), key) {
                        proof {
                            lemma_member_lookup_prefix(mv, key@, i as int);
                            assert(mv.skip(i as int)[0] == mv[i as int]);
                        }
                        assert(m@[i as int].1@ == json_view(m@[i as int].1));
                        return Some(&m[i].1);
                    }
                    i = i + 1;
                }
                proof {
                    lemma_member_lookup_prefix(mv, key@, i as int);
                    assert(mv.skip(i as int).len() == 0);
                }
                None
            },
            _ => None,
        }
    }

    /// The string, for strings.
    pub fn as_str(&self) -> (r: Option<&String>)
        ensures
            match r {
                Some(x) => jv_str(self@) == Some(x@),
                None => jv_str(self@) is None,
            },
    {
        match self {
            Json::String(s) => Some(s),
            _ => None,
        }
    }

    /// The elements, for arrays.
    pub fn as_array(&self) -> (r: Option<&Vec<Json>>)
        ensures
            match r {
                Some(x) => jv_array(self@) == Some(seq_view(x@)),
                None => jv_array(self@) is None,
            },
    {
        match self {
            Json::Array(a) => Some(a),
            _ => None,
        }
    }

    /// The boolean, for booleans.
    pub fn as_bool(&self) -> (r: Option<bool>)
        ensures
            r == jv_bool(self@),
    {
        match self {
            Json::Bool(b) => Some(*b),
            _ => None,
        }
    }

    /// The `i64` reading, for numbers that have one.
    pub fn as_i64(&self) -> (r: Option<i64>)
        ensures
            r == jv_i64(self@),
    {
        match self {
            Json::Number(n) => n.int_value(),
            _ => None,
        }
    }

    /// Whether this is null.
    pub fn is_null(&self) -> (r: bool)
        ensures
            r == (self@ == JsonV::Null),
    {
        match self {
            Json::Null => true,
            _ => false,
        }
    }

    /// An integer value.
    pub fn from_i64(i: i64) -> (j: Json)
        ensures
            j@ == JsonV::Number(int_view(i as int)),
    {
        Json::Number(number_from_i64(i))
    }

    /// An array of strings.
    pub fn from_strings(v: &Vec<String>) -> (j: Json)
        ensures
            j@ == JsonV::Array(Seq::new(v@.len(), |i: int| JsonV::Str(v@[i]@))),
    {
        broadcast use lemma_seq_view;

        let mut out: Vec<Json> = Vec::new();
        let mut i: usize = 0;
        while i < v.len()
            invariant
                0 <= i <= v.len(),
                out@.len() == i,
                forall|k: int| 0 <= k < i ==> json_view(#[trigger] out@[k]) == JsonV::Str(v@[k]@),
            decreases v.len() - i,
        {
            out.push(Json::String(v[i].clone()));
            i = i + 1;
        }
        assert(seq_view(out@) =~= Seq::new(v@.len(), |i: int| JsonV::Str(v@[i]@)));
        Json::Array(out)
    }

    /// A deep copy.
    pub fn copy(&self) -> (r: Json)
        ensures
            r@ == self@,
        decreases self,
    {
        broadcast use lemma_seq_view, lemma_members_view;

        match self {
            Json::Null => Json::Null,
            Json::Bool(b) => Json::Bool(*b),
            Json::Number(n) => Json::Number(clone_number(n)),
            Json::String(s) => Json::String(s.clone()),
            Json::Array(a) => {
                let mut out: Vec<Json> = Vec::new();
                let mut i: usize = 0;
                while i < a.len()
                    invariant
                        *self == Json::Array(*a),
                        0 <= i <= a.len(),
                        out@.len() == i,
                        forall|k: int| 0 <= k < i ==> json_view(#[trigger] out@[k]) == json_view(a@[k]),
                    decreases a.len() - i,
                {
                    proof {
                        vstd::std_specs::vec::axiom_vec_index_decreases(*a, i as int);
                    }
                    assert(decreases_to!(*a => a[i as int]));
                    assert(decreases_to!(*self => self->Array_0));
                    out.push(a[i].copy());
                    i = i + 1;
                }
                proof {
                    lemma_seq_view(a@);
                    lemma_seq_view(out@);
                }
                assert(seq_view(out@) =~= seq_view(a@));
                Json::Array(out)
            },
            Json::Object(m) => {
                let mut out: Vec<(String, Json)> = Vec::new();
                let mut i: usize = 0;
                while i < m.len()
                    invariant
                        *self == Json::Object(*m),
                        0 <= i <= m.len(),
                        out@.len() == i,
                        forall|k: int|
                            0 <= k < i ==> (#[trigger] out@[k]).0@ == m@[k].0@ && json_view(out@[k].1)
                                == json_view(m@[k].1),
                    decreases m.len() - i,
                {
                    proof {
                        vstd::std_specs::vec::axiom_vec_index_decreases(*m, i as int);
                    }
                    assert(decreases_to!(*self => self->Object_0));
                    assert(decreases_to!(*m => m[i as int]));
                    assert(decreases_to!(m[i as int] => m[i as int].1));
                    let v = m[i].1.copy();
                    out.push((m[i].0.clone(), v));
                    i = i + 1;
                }
                proof {
                    lemma_members_view(m@);
                    lemma_members_view(out@);
                }
                assert forall|k: int| 0 <= k < m@.len() implies #[trigger] members_view(out@)[k]
                    == members_view(m@)[k] by {
                    assert(out@[k].0@ == m@[k].0@);
                }
                assert(members_view(out@) =~= members_view(m@));
                Json::Object(out)
            },
        }
    }
}

impl Clone for Json {
    fn clone(&self) -> (r: Json)
        ensures
            r@ == self@,
    {
        self.copy()
    }
}

impl Clone for JsonNumber {
    fn clone(&self) -> (r: JsonNumber)
        ensures
            r@ == self@,
    {
        clone_number(self)
    }
}

impl JsonNumber {
    /// The `i64` reading.
    pub fn int_value(&self) -> (r: Option<i64>)
        ensures
            r == self@.int,
    {
        self.int
    }

    /// The `u64` reading.
    pub fn uint_value(&self) -> (r: Option<u64>)
        ensures
            r == self@.uint,
    {
        self.uint
    }

    /// The printed form.
    pub fn text(&self) -> (r: &String)
        ensures
            r@ == self@.text,
    {
        &self.text
    }
}

/// Position of the first member under `k`.
pub open spec fn key_position(m: Seq<(Seq<char>, JsonV)>, k: Seq<char>) -> Option<int>
    decreases m.len(),
{
    if m.len() == 0 {
        None
    } else if m[0].0 == k {
        Some(0)
    } else {
        match key_position(m.drop_first(), k) {
            Some(i) => Some(i + 1),
            None => None,
        }
    }
}

/// Whether no two members share a key.
pub open spec fn distinct_keys(m: Seq<(Seq<char>, JsonV)>) -> bool {
    forall|i: int, j: int| 0 <= i < j < m.len() ==> #[trigger] m[i].0 != #[trigger] m[j].0
}

/// Map insertion on object members: a key already there keeps its place
/// and takes the new value; a new key goes last.
pub open spec fn members_insert(m: Seq<(Seq<char>, JsonV)>, k: Seq<char>, v: JsonV) -> Seq<(Seq<char>, JsonV)> {
    match key_position(m, k) {
        Some(i) => m.update(i, (k, v)),
        None => m.push((k, v)),
    }
}

/// `key_position` finds the first member under `k`, or none.
pub proof fn lemma_key_position(m: Seq<(Seq<char>, JsonV)>, k: Seq<char>)
    ensures
        match key_position(m, k) {
            Some(i) => 0 <= i < m.len() && m[i].0 == k && forall|j: int| 0 <= j < i ==> m[j].0 != k,
            None => forall|j: int| 0 <= j < m.len() ==> m[j].0 != k,
        },
    decreases m.len(),
{
    if m.len() > 0 && m[0].0 != k {
        let t = m.drop_first();
        lemma_key_position(t, k);
        assert forall|j: int| 1 <= j < m.len() implies m[j].0 == t[j - 1].0 by {}
    }
}

/// Inserts a member the way a JSON map does.
pub fn insert_member(m: &mut Vec<(String, Json)>, k: String, v: Json)
    ensures
        members_view(final(m)@) == members_insert(members_view(old(m)@), k@, v@),
{
    broadcast use lemma_members_view;

    let ghost mv = members_view(m@);
    proof {
        lemma_members_view(m@);
        lemma_key_position(mv, k@);
    }
    let mut i: usize = 0;
    while i < m.len()
        invariant
            mv == members_view(m@),
            mv == members_view(old(m)@),
            mv.len() == m@.len(),
            forall|j: int| 0 <= j < mv.len() ==> #[trigger] mv[j] == (m@[j].0@, json_view(m@[j].1)),
            i <= m.len(),
            forall|j: int| 0 <= j < i ==> mv[j].0 != k@,
        decreases m.len() - i,
    {
        assert(mv[i as int] == (m@[i as int].0@, json_view(m@[i as int].1)));
        if str_eq(m[i].0.as_str(), k.as_str()) {
            assert(mv[i as int].0 == k@);
            proof {
                lemma_key_position(mv, k@);
            }
            assert(key_position(mv, k@) == Some(i as int));
            let ghost kv = k@;
            let ghost vv = v@;
            m.set(i, (k, v));
            proof {
                lemma_members_view(m@);
            }
            assert(members_view(m@) =~= mv.update(i as int, (kv, vv)));
            return;
        }
        i = i + 1;
    }
    proof {
        lemma_key_position(mv, k@);
    }
    assert(key_position(mv, k@) is None);
    let ghost kv = k@;
    let ghost vv = v@;
    m.push((k, v));
    proof {
        lemma_members_view(m@);
    }
    assert(members_view(m@) =~= mv.push((kv, vv)));
}

} // verus!
