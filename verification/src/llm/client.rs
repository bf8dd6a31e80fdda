//! OpenAI-compatible request assembly: endpoint normalisation, request
//! body and the message list sent to the model.

use vstd::prelude::*;

use crate::json::{decimal, int_view, jv_array, jv_get, jv_index, lemma_member_lookup_prefix, member_lookup, lemma_members_view, lemma_seq_view, members_view, seq_view, Json, JsonV, NumberView};
use crate::llm::context::{kept_from, lemma_kept_from_range, substitute_tokens, substituted, trim_history, trimmed_history, contents, Msg};
use crate::llm::lorebook::LoreInjection;
use crate::models::{Character, Message};
use crate::text::{
    chars_of, has_prefix, has_suffix, is_blank, is_blank_str, join, join_strings, lowercase, push_chars,
    push_str, string_from_chars, to_lower, trim, trim_chars, views,
};

verus! {

/// `s` with every trailing `c` removed (`str::trim_end_matches`).
pub open spec fn strip_trailing(s: Seq<char>, c: char) -> Seq<char>
    decreases s.len(),
{
    if s.len() > 0 && s.last() == c {
        strip_trailing(s.drop_last(), c)
    } else {
        s
    }
}

/// The API root for a base URL: trimmed, trailing slashes removed, `/v1`
/// appended when missing.
pub open spec fn api_root_of(base_url: Seq<char>) -> Seq<char> {
    let base = strip_trailing(trim(base_url), '/');
    if has_suffix(base, "/v1"@) {
        base
    } else {
        base + "/v1"@
    }
}

/// The chat-completions endpoint for a base URL.
pub open spec fn chat_url_of(base_url: Seq<char>) -> Seq<char> {
    api_root_of(base_url) + "/chat/completions"@
}

/// The model-list endpoint for a base URL.
pub open spec fn models_url_of(base_url: Seq<char>) -> Seq<char> {
    api_root_of(base_url) + "/models"@
}

/// Normalises the base URL to the chat-completions endpoint (an Ollama
/// base such as `http://localhost:11434/v1` goes the same way).
pub fn chat_url(base_url: &str) -> (r: String)
    ensures
        r@ == chat_url_of(base_url@),
{
    let mut out = api_root(base_url);
    push_str(&mut out, "/chat/completions");
    out
}

/// Normalises the base URL to the model-list endpoint.
pub fn models_url(base_url: &str) -> (r: String)
    ensures
        r@ == models_url_of(base_url@),
{
    let mut out = api_root(base_url);
    push_str(&mut out, "/models");
    out
}

/// The API root for a base URL.
fn api_root(base_url: &str) -> (r: String)
    ensures
        r@ == api_root_of(base_url@),
{
    let raw = chars_of(base_url);
    let t = trim_chars(raw.as_slice());
    let mut end = t.len();
    assert(t@.take(end as int) =~= t@);
    while end > 0 && t[end - 1] == '/'
        invariant
            0 <= end <= t@.len(),
            strip_trailing(t@, '/') == strip_trailing(t@.take(end as int), '/'),
        decreases end,
    {
        assert(t@.take(end as int).drop_last() =~= t@.take(end - 1));
        end = end - 1;
    }
    let ghost base = t@.take(end as int);
    assert(strip_trailing(t@, '/') == base) by {
        if end > 0 {
            assert(base.last() == t@[end - 1]);
        }
    }
    let mut out = String::new();
    push_chars(&mut out, &t.as_slice()[0..end]);
    assert(out@ =~= base);
    let v1 = chars_of("/v1");
    proof {
        reveal_strlit("/v1");
    }
    let ends_v1 = end >= 3 && t[end - 3] == '/' && t[end - 2] == 'v' && t[end - 1] == '1';
    assert(ends_v1 == has_suffix(base, "/v1"@)) by {
        if has_suffix(base, "/v1"@) {
            let sub = base.subrange(base.len() - 3, base.len() as int);
            assert(sub[0] == base[base.len() - 3]);
            assert(sub[1] == base[base.len() - 2]);
            assert(sub[2] == base[base.len() - 1]);
        }
        if ends_v1 {
            assert(base.subrange(base.len() - 3, base.len() as int) =~= "/v1"@);
        }
    }
    if !ends_v1 {
        push_chars(&mut out, v1.as_slice());
    }
    out
}

/// Whether the model takes `max_completion_tokens` rather than `max_tokens`
/// (the gpt-5 / o1 / o3 / o4 families, by lowercased prefix).
pub open spec fn prefers_max_completion_tokens(model: Seq<char>) -> bool {
    let m = lowercase(model);
    has_prefix(m, "gpt-5"@) || has_prefix(m, "o1"@) || has_prefix(m, "o3"@) || has_prefix(m, "o4"@)
}

/// Whether `s` begins with `p`.
fn starts_with_chars(s: &[char], p: &str) -> (r: bool)
    ensures
        r == has_prefix(s@, p@),
{
    let pv = chars_of(p);
    if pv.len() > s.len() {
        return false;
    }
    let mut i: usize = 0;
    while i < pv.len()
        invariant
            pv@ == p@,
            pv.len() <= s.len(),
            0 <= i <= pv.len(),
            forall|j: int| 0 <= j < i ==> s@[j] == pv@[j],
        decreases pv.len() - i,
    {
        if s[i] != pv[i] {
            assert(s@.subrange(0, pv.len() as int)[i as int] != p@[i as int]);
            return false;
        }
        i = i + 1;
    }
    assert(s@.subrange(0, pv.len() as int) =~= p@);
    true
}

/// Whether the model needs `max_completion_tokens`.
pub fn prefer_max_completion_tokens(model: &str) -> (r: bool)
    ensures
        r == prefers_max_completion_tokens(model@),
{
    let lowered = to_lower(model);
    let m = chars_of(lowered.as_str());
    starts_with_chars(m.as_slice(), "gpt-5") || starts_with_chars(m.as_slice(), "o1")
        || starts_with_chars(m.as_slice(), "o3") || starts_with_chars(m.as_slice(), "o4")
}

/// A labelled part of the system prompt: the trimmed text after its label,
/// or nothing when the text is blank.
pub open spec fn section(label: Seq<char>, text: Seq<char>) -> Seq<Seq<char>> {
    if is_blank(text) {
        seq![]
    } else {
        seq![label + trim(text)]
    }
}

/// World-book entries as system prompt parts: trimmed, blank ones left out.
pub open spec fn lore_parts(es: Seq<Seq<char>>) -> Seq<Seq<char>>
    decreases es.len(),
{
    if es.len() == 0 {
        seq![]
    } else if is_blank(es.last()) {
        lore_parts(es.drop_last())
    } else {
        lore_parts(es.drop_last()).push(trim(es.last()))
    }
}

/// The character's own system prompt when it is not blank, else the
/// default one.
pub open spec fn base_prompt(c: Character, default_prompt: Seq<char>) -> Seq<char> {
    match c.system_prompt {
        Some(p) => if is_blank(p@) {
            default_prompt
        } else {
            p@
        },
        None => default_prompt,
    }
}

/// The parts of the system message: base prompt, world-book entries that
/// go before the character, description, personality, scenario, entries
/// that go after the character, example dialogue.
pub open spec fn system_parts(c: Character, default_prompt: Seq<char>, lore: LoreInjection) -> Seq<Seq<char>> {
    section(seq![], base_prompt(c, default_prompt)) + lore_parts(views(lore.before_char@)) + section(
        "【角色设定·描述】\n"@,
        c.description@,
    ) + section("【角色设定·性格】\n"@, c.personality@) + section("【角色设定·场景】\n"@, c.scenario@)
        + lore_parts(views(lore.after_char@)) + section("【示例对话】\n"@, c.example_messages@)
}

/// The contents of stored messages.
pub open spec fn message_contents(h: Seq<Message>) -> Seq<Seq<char>> {
    h.map_values(|m: Message| m.content@)
}

/// A message as (role, content).
pub open spec fn msg_pair(m: Msg) -> (Seq<char>, Seq<char>) {
    (m.role@, m.content@)
}

/// The messages sent to the model: the system message (when it has any
/// part) with `{{char}}`/`{{user}}` replaced, then the history trimmed to
/// the budget, each with the same replacement.
pub open spec fn request_messages(
    c: Character,
    default_prompt: Seq<char>,
    budget: nat,
    history: Seq<Message>,
    lore: LoreInjection,
) -> Seq<(Seq<char>, Seq<char>)> {
    let parts = system_parts(c, default_prompt, lore);
    let sys = if parts.len() == 0 {
        seq![]
    } else {
        seq![("system"@, substituted(join(parts, "\n\n"@), c.name@))]
    };
    let k = if history.len() == 0 {
        0
    } else {
        kept_from(message_contents(history), budget)
    };
    sys + Seq::new(
        (history.len() - k) as nat,
        |i: int| (history[k + i].role@, substituted(history[k + i].content@, c.name@)),
    )
}

/// Appends a labelled section when the text is not blank.
fn push_section(parts: &mut Vec<String>, label: &str, text: &str)
    ensures
        views(final(parts)@) == views(old(parts)@) + section(label@, text@),
{
    if is_blank_str(text) {
        assert(views(parts@) =~= views(parts@) + Seq::<Seq<char>>::empty());
    } else {
        let ghost before = parts@;
        let v = chars_of(text);
        let t = trim_chars(v.as_slice());
        let mut p = String::new();
        push_str(&mut p, label);
        push_chars(&mut p, t.as_slice());
        parts.push(p);
        assert(views(parts@) =~= views(before) + section(label@, text@));
    }
}

/// Appends the world-book entries, trimmed, blank ones left out.
fn push_lore(parts: &mut Vec<String>, entries: &Vec<String>)
    ensures
        views(final(parts)@) == views(old(parts)@) + lore_parts(views(entries@)),
{
    let ghost start = views(parts@);
    let ghost es = views(entries@);
    let mut i: usize = 0;
    assert(es.take(0) =~= Seq::<Seq<char>>::empty());
    assert(views(parts@) =~= start + lore_parts(es.take(0)));
    while i < entries.len()
        invariant
            es == views(entries@),
            i <= entries@.len(),
            views(parts@) == start + lore_parts(es.take(i as int)),
        decreases entries.len() - i,
    {
        let ghost before = parts@;
        assert(es.take(i + 1).drop_last() =~= es.take(i as int));
        assert(es.take(i + 1).last() == entries@[i as int]@);
        if !is_blank_str(entries[i].as_str()) {
            let v = chars_of(entries[i].as_str());
            let t = trim_chars(v.as_slice());
            parts.push(string_from_chars(t.as_slice()));
            assert(views(parts@) =~= views(before).push(trim(es[i as int])));
        }
        i = i + 1;
    }
    assert(es.take(i as int) =~= es);
}

/// Assembles the messages sent to the model: one system message (the
/// character's or the default prompt, world-book entries before and after
/// the character's description, personality and scenario, example
/// dialogue), then the stored history trimmed to `max_context_tokens`; all
/// with `{{char}}`/`{{user}}` replaced.
pub fn build_request_messages(
    character: &Character,
    default_system_prompt: &str,
    max_context_tokens: i64,
    history: &[Message],
    lore: &LoreInjection,
) -> (r: Vec<Msg>)
    ensures
        r@.map_values(|m: Msg| msg_pair(m)) == request_messages(
            *character,
            default_system_prompt@,
            (max_context_tokens as usize) as nat,
            history@,
            *lore,
        ),
        history@.len() > 0 ==> msg_pair(r@.last()) == (
            history@.last().role@,
            substituted(history@.last().content@, character.name@),
        ),
{
    let mut parts: Vec<String> = Vec::new();
    let base: &str = match &character.system_prompt {
        Some(p) => if is_blank_str(p.as_str()) {
            default_system_prompt
        } else {
            p.as_str()
        },
        None => default_system_prompt,
    };
    assert(views(parts@) =~= Seq::<Seq<char>>::empty());
    push_section(&mut parts, "", base);
    proof {
        reveal_strlit("");
        assert(""@ =~= Seq::<char>::empty());
    }
    push_lore(&mut parts, &lore.before_char);
    push_section(&mut parts, "【角色设定·描述】\n", character.description.as_str());
    push_section(&mut parts, "【角色设定·性格】\n", character.personality.as_str());
    push_section(&mut parts, "【角色设定·场景】\n", character.scenario.as_str());
    push_lore(&mut parts, &lore.after_char);
    push_section(&mut parts, "【示例对话】\n", character.example_messages.as_str());
    let ghost ps = system_parts(*character, default_system_prompt@, *lore);
    assert(views(parts@) =~= ps);

    let mut history_msgs: Vec<Msg> = Vec::new();
    let mut i: usize = 0;
    while i < history.len()
        invariant
            i <= history@.len(),
            history_msgs@.len() == i,
            forall|j: int|
                0 <= j < i ==> (#[trigger] history_msgs@[j]).role@ == history@[j].role@
                    && history_msgs@[j].content@ == history@[j].content@,
        decreases history.len() - i,
    {
        history_msgs.push(Msg::new(history[i].role.as_str(), history[i].content.as_str()));
        i = i + 1;
    }
    assert(contents(history_msgs@) =~= message_contents(history@));
    let budget = max_context_tokens as usize;
    let trimmed = trim_history(history_msgs.as_slice(), budget);
    let ghost k = if history@.len() == 0 {
        0
    } else {
        kept_from(message_contents(history@), budget as nat)
    };
    proof {
        if history@.len() > 0 {
            lemma_kept_from_range(message_contents(history@), budget as nat);
        }
    }
    assert(0 <= k <= history_msgs@.len());
    assert(trimmed@ == history_msgs@.skip(k));

    let mut out: Vec<Msg> = Vec::new();
    if parts.len() > 0 {
        let system_text = join_strings(&parts, "\n\n");
        let content = substitute_tokens(system_text.as_str(), character.name.as_str());
        out.push(Msg::new("system", content.as_str()));
    }
    let ghost sys_out = out@;
    let ghost sys_len = out@.len();
    let mut j: usize = 0;
    while j < trimmed.len()
        invariant
            out@.len() == sys_len + j,
            sys_len == sys_out.len(),
            j <= trimmed@.len(),
            trimmed@ == history_msgs@.skip(k),
            forall|x: int| 0 <= x < sys_len ==> #[trigger] out@[x] == sys_out[x],
            forall|x: int|
                0 <= x < j ==> (#[trigger] out@[sys_len + x]).role@ == trimmed@[x].role@
                    && out@[sys_len + x].content@ == substituted(trimmed@[x].content@, character.name@),
        decreases trimmed.len() - j,
    {
        let content = substitute_tokens(trimmed[j].content.as_str(), character.name.as_str());
        out.push(Msg::new(trimmed[j].role.as_str(), content.as_str()));
        j = j + 1;
    }
    proof {
        reveal_strlit("system");
        let want = request_messages(*character, default_system_prompt@, budget as nat, history@, *lore);
        let got = out@.map_values(|m: Msg| msg_pair(m));
        assert(got.len() == want.len());
        assert forall|x: int| 0 <= x < got.len() implies got[x] == want[x] by {
            if x >= sys_len {
                let y = x - sys_len;
                assert(out@[sys_len + y].role@ == trimmed@[y].role@);
                assert(trimmed@[y] == history_msgs@[k + y]);
            }
        }
        assert(got =~= want);
        if history@.len() > 0 {
            assert(k <= history@.len() - 1);
            assert(got[got.len() - 1] == want[want.len() - 1]);
        }
    }
    out
}

/// A message as a JSON object.
pub open spec fn msg_json(m: Msg) -> JsonV {
    JsonV::Object(seq![("role"@, JsonV::Str(m.role@)), ("content"@, JsonV::Str(m.content@))])
}

/// The streaming request body: model, messages, `stream: true`,
/// temperature, then the token limit under the name the model takes.
pub open spec fn body_json(model: Seq<char>, max_tokens: i64, temperature: JsonV, messages: Seq<Msg>) -> JsonV {
    let limit_key = if prefers_max_completion_tokens(model) {
        "max_completion_tokens"@
    } else {
        "max_tokens"@
    };
    JsonV::Object(
        seq![
            ("model"@, JsonV::Str(model)),
            ("messages"@, JsonV::Array(Seq::new(messages.len(), |i: int| msg_json(messages[i])))),
            ("stream"@, JsonV::Bool(true)),
            ("temperature"@, temperature),
            (limit_key, JsonV::Number(int_view(max_tokens as int))),
        ],
    )
}

/// Builds the streaming request body (the caller adds authorisation).
pub fn build_body(model: &str, max_tokens: i64, temperature: &Json, messages: &[Msg]) -> (j: Json)
    ensures
        j@ == body_json(model@, max_tokens, temperature@, messages@),
{
    broadcast use lemma_members_view, lemma_seq_view;

    let mut msgs: Vec<Json> = Vec::new();
    let mut i: usize = 0;
    while i < messages.len()
        invariant
            i <= messages@.len(),
            msgs@.len() == i,
            forall|x: int| 0 <= x < i ==> (#[trigger] msgs@[x])@ == msg_json(messages@[x]),
        decreases messages.len() - i,
    {
        let mut m: Vec<(String, Json)> = Vec::new();
        let msg = &messages[i];
        assert(*msg == messages@[i as int]);
        m.push(("role".to_owned(), Json::String(msg.role.clone())));
        m.push(("content".to_owned(), Json::String(msg.content.clone())));
        proof {
            lemma_members_view(m@);
        }
        assert(members_view(m@) =~= msg_json(messages@[i as int])->Object_0);
        msgs.push(Json::Object(m));
        i = i + 1;
    }
    assert(seq_view(msgs@) =~= Seq::new(messages@.len(), |x: int| msg_json(messages@[x])));
    let limit_key = if prefer_max_completion_tokens(model) {
        "max_completion_tokens"
    } else {
        "max_tokens"
    };
    let mut body: Vec<(String, Json)> = Vec::new();
    body.push(("model".to_owned(), Json::String(model.to_owned())));
    body.push(("messages".to_owned(), Json::Array(msgs)));
    body.push(("stream".to_owned(), Json::Bool(true)));
    body.push(("temperature".to_owned(), temperature.copy()));
    body.push((limit_key.to_owned(), Json::from_i64(max_tokens)));
    assert(members_view(body@) =~= body_json(model@, max_tokens, temperature@, messages@)->Object_0);
    Json::Object(body)
}

/// The model ids of a model list: the string `id` of each element of
/// `data`, in order; elements without one are skipped.
pub open spec fn model_ids_in(items: Seq<JsonV>) -> Seq<Seq<char>>
    decreases items.len(),
{
    if items.len() == 0 {
        seq![]
    } else {
        match jv_get(items.last(), "id"@) {
            Some(JsonV::Str(s)) => model_ids_in(items.drop_last()).push(s),
            _ => model_ids_in(items.drop_last()),
        }
    }
}

/// The model ids in a model-list response; none when it has no `data`
/// array.
pub open spec fn model_ids_of(v: JsonV) -> Seq<Seq<char>> {
    match jv_array(jv_index(v, "data"@)) {
        Some(items) => model_ids_in(items),
        None => seq![],
    }
}

/// Reads the model ids out of a parsed model-list response.
pub fn model_ids(v: &Json) -> (r: Vec<String>)
    ensures
        views(r@) == model_ids_of(v@),
{
    broadcast use lemma_seq_view;

    let mut out: Vec<String> = Vec::new();
    assert(views(out@) =~= Seq::<Seq<char>>::empty());
    let items = match v.get("data") {
        Some(d) => match d.as_array() {
            Some(a) => a,
            None => {
                return out;
            },
        },
        None => {
            return out;
        },
    };
    let ghost iv = seq_view(items@);
    proof {
        lemma_seq_view(items@);
    }
    let mut i: usize = 0;
    while i < items.len()
        invariant
            iv == seq_view(items@),
            iv.len() == items@.len(),
            forall|j: int| 0 <= j < iv.len() ==> #[trigger] iv[j] == items@[j]@,
            i <= items.len(),
            views(out@) == model_ids_in(iv.take(i as int)),
        decreases items.len() - i,
    {
        assert(iv.take(i + 1).drop_last() =~= iv.take(i as int));
        assert(iv.take(i + 1).last() == items@[i as int]@);
        match items[i].get("id") {
            Some(Json::String(s)) => {
                let ghost before = out@;
                out.push(s.clone());
                assert(views(out@) =~= views(before).push(s@));
            },
            _ => {},
        }
        i = i + 1;
    }
    assert(iv.take(i as int) =~= iv);
    out
}

/// Where the body puts the token limit: for a model whose lowercased name
/// starts with `gpt-5`, `o1`, `o3` or `o4` under `max_completion_tokens`,
/// for every other model under `max_tokens`, and never under both.
pub proof fn lemma_body_limit_key(model: Seq<char>, max_tokens: i64, temperature: JsonV, messages: Seq<Msg>)
    ensures
        ({
            let m = lowercase(model);
            let newer = has_prefix(m, "o4"@) || has_prefix(m, "o3"@) || has_prefix(m, "o1"@)
                || has_prefix(m, "gpt-5"@);
            let body = body_json(model, max_tokens, temperature, messages);
            let limit = JsonV::Number(int_view(max_tokens as int));
            &&& newer ==> jv_get(body, "max_completion_tokens"@) == Some(limit) && jv_get(body, "max_tokens"@) is None
            &&& !newer ==> jv_get(body, "max_tokens"@) == Some(limit) && jv_get(body, "max_completion_tokens"@) is None
        }),
{
    reveal_strlit("model");
    reveal_strlit("messages");
    reveal_strlit("stream");
    reveal_strlit("temperature");
    reveal_strlit("max_tokens");
    reveal_strlit("max_completion_tokens");
    let body = body_json(model, max_tokens, temperature, messages);
    let mm = body->Object_0;
    let limit_key = mm[4].0;
    let other: Seq<char> = if limit_key == "max_tokens"@ { "max_completion_tokens"@ } else { "max_tokens"@ };
    assert("model"@[1] != "max_tokens"@[1]);
    assert("model"@[1] != "max_completion_tokens"@[1]);
    assert("messages"@[1] != "max_tokens"@[1]);
    assert("messages"@[1] != "max_completion_tokens"@[1]);
    assert("stream"@[0] != "max_tokens"@[0]);
    assert("stream"@[0] != "max_completion_tokens"@[0]);
    assert("temperature"@[0] != "max_tokens"@[0]);
    assert("temperature"@[0] != "max_completion_tokens"@[0]);
    assert("max_tokens"@.len() != "max_completion_tokens"@.len());
    lemma_member_lookup_prefix(mm, limit_key, 4);
    assert(mm.skip(4)[0] == mm[4]);
    assert(member_lookup(mm.skip(4), limit_key) == Some(mm[4].1));
    lemma_member_lookup_prefix(mm, other, 5);
    assert(mm.skip(5).len() == 0);
}

} // verus!
