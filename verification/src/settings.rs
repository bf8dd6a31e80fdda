//! Settings as they are stored: each value as text under its key,
//! merged over the defaults when read. The temperature is kept as the JSON
//! text of a number; reading it as a float is left to the caller.

use vstd::prelude::*;

use crate::json::{parsed_json, to_compact_string, json_compact_text, Json, JsonV, NumberView, decimal, plain_json, int_view};
use crate::text::str_eq;

verus! {

/// The settings, with the temperature as JSON number text.
#[derive(Debug, Clone, PartialEq)]
pub struct SettingsRecord {
    pub base_url: String,
    pub api_key: String,
    pub model: String,
    pub temperature: String,
    pub max_tokens: i64,
    pub max_context_tokens: i64,
    pub system_prompt: String,
    pub ui_theme: String,
    pub ui_font_size: i64,
    pub ui_avatar_style: String,
    pub ui_chat_style: String,
    pub ui_show_timestamps: bool,
    pub ui_avatar_hover_zoom: bool,
    pub ui_reduce_motion: bool,
    pub ui_glass_blur: bool,
    pub ui_text_shadow: bool,
    pub ui_message_animation: bool,
    pub ui_auto_expand_actions: bool,
    pub ui_reply_timer: bool,
    pub ui_show_floor: bool,
    pub ui_show_token_count: bool,
    pub ui_click_to_edit: bool,
    pub char_show_version: bool,
    pub chat_sound: bool,
    pub chat_debug_prompt: bool,
    pub chat_load_messages: i64,
    pub chat_auto_scroll: bool,
    pub chat_confirm_delete: bool,
    pub chat_block_external_media: bool,
    pub chat_substitute_in_assistant: bool,
    pub chat_enter_mode: String,
    pub chat_auto_load_last: bool,
}

/// The settings as values.
pub struct SettingsV {
    pub base_url: Seq<char>,
    pub api_key: Seq<char>,
    pub model: Seq<char>,
    pub temperature: Seq<char>,
    pub max_tokens: i64,
    pub max_context_tokens: i64,
    pub system_prompt: Seq<char>,
    pub ui_theme: Seq<char>,
    pub ui_font_size: i64,
    pub ui_avatar_style: Seq<char>,
    pub ui_chat_style: Seq<char>,
    pub ui_show_timestamps: bool,
    pub ui_avatar_hover_zoom: bool,
    pub ui_reduce_motion: bool,
    pub ui_glass_blur: bool,
    pub ui_text_shadow: bool,
    pub ui_message_animation: bool,
    pub ui_auto_expand_actions: bool,
    pub ui_reply_timer: bool,
    pub ui_show_floor: bool,
    pub ui_show_token_count: bool,
    pub ui_click_to_edit: bool,
    pub char_show_version: bool,
    pub chat_sound: bool,
    pub chat_debug_prompt: bool,
    pub chat_load_messages: i64,
    pub chat_auto_scroll: bool,
    pub chat_confirm_delete: bool,
    pub chat_block_external_media: bool,
    pub chat_substitute_in_assistant: bool,
    pub chat_enter_mode: Seq<char>,
    pub chat_auto_load_last: bool,
}

impl View for SettingsRecord {
    type V = SettingsV;

    open spec fn view(&self) -> SettingsV {
        SettingsV {
            base_url: self.base_url@,
            api_key: self.api_key@,
            model: self.model@,
            temperature: self.temperature@,
            max_tokens: self.max_tokens,
            max_context_tokens: self.max_context_tokens,
            system_prompt: self.system_prompt@,
            ui_theme: self.ui_theme@,
            ui_font_size: self.ui_font_size,
            ui_avatar_style: self.ui_avatar_style@,
            ui_chat_style: self.ui_chat_style@,
            ui_show_timestamps: self.ui_show_timestamps,
            ui_avatar_hover_zoom: self.ui_avatar_hover_zoom,
            ui_reduce_motion: self.ui_reduce_motion,
            ui_glass_blur: self.ui_glass_blur,
            ui_text_shadow: self.ui_text_shadow,
            ui_message_animation: self.ui_message_animation,
            ui_auto_expand_actions: self.ui_auto_expand_actions,
            ui_reply_timer: self.ui_reply_timer,
            ui_show_floor: self.ui_show_floor,
            ui_show_token_count: self.ui_show_token_count,
            ui_click_to_edit: self.ui_click_to_edit,
            char_show_version: self.char_show_version,
            chat_sound: self.chat_sound,
            chat_debug_prompt: self.chat_debug_prompt,
            chat_load_messages: self.chat_load_messages,
            chat_auto_scroll: self.chat_auto_scroll,
            chat_confirm_delete: self.chat_confirm_delete,
            chat_block_external_media: self.chat_block_external_media,
            chat_substitute_in_assistant: self.chat_substitute_in_assistant,
            chat_enter_mode: self.chat_enter_mode@,
            chat_auto_load_last: self.chat_auto_load_last,
        }
    }
}

/// The default settings (an empty API key sends no authorisation).
pub open spec fn default_settings() -> SettingsV {
    SettingsV {
        base_url: "https://api.openai.com/v1"@,
        api_key: ""@,
        model: "gpt-4o-mini"@,
        temperature: "0.8"@,
        max_tokens: 1024,
        max_context_tokens: 8192,
        system_prompt: ""@,
        ui_theme: "system"@,
        ui_font_size: 13,
        ui_avatar_style: ""@,
        ui_chat_style: ""@,
        ui_show_timestamps: true,
        ui_avatar_hover_zoom: true,
        ui_reduce_motion: false,
        ui_glass_blur: false,
        ui_text_shadow: false,
        ui_message_animation: true,
        ui_auto_expand_actions: false,
        ui_reply_timer: false,
        ui_show_floor: false,
        ui_show_token_count: false,
        ui_click_to_edit: false,
        char_show_version: false,
        chat_sound: false,
        chat_debug_prompt: false,
        chat_load_messages: 100,
        chat_auto_scroll: true,
        chat_confirm_delete: true,
        chat_block_external_media: false,
        chat_substitute_in_assistant: true,
        chat_enter_mode: ""@,
        chat_auto_load_last: false,
    }
}

impl Default for SettingsRecord {
    fn default() -> (s: SettingsRecord)
        ensures
            s@ == default_settings(),
    {
        SettingsRecord {
            base_url: "https://api.openai.com/v1".to_owned(),
            api_key: "".to_owned(),
            model: "gpt-4o-mini".to_owned(),
            temperature: "0.8".to_owned(),
            max_tokens: 1024,
            max_context_tokens: 8192,
            system_prompt: "".to_owned(),
            ui_theme: "system".to_owned(),
            ui_font_size: 13,
            ui_avatar_style: "".to_owned(),
            ui_chat_style: "".to_owned(),
            ui_show_timestamps: true,
            ui_avatar_hover_zoom: true,
            ui_reduce_motion: false,
            ui_glass_blur: false,
            ui_text_shadow: false,
            ui_message_animation: true,
            ui_auto_expand_actions: false,
            ui_reply_timer: false,
            ui_show_floor: false,
            ui_show_token_count: false,
            ui_click_to_edit: false,
            char_show_version: false,
            chat_sound: false,
            chat_debug_prompt: false,
            chat_load_messages: 100,
            chat_auto_scroll: true,
            chat_confirm_delete: true,
            chat_block_external_media: false,
            chat_substitute_in_assistant: true,
            chat_enter_mode: "".to_owned(),
            chat_auto_load_last: false,
        }
    }
}

/// The value of the last pair under `k`.
pub open spec fn last_text(pairs: Seq<(Seq<char>, Seq<char>)>, k: Seq<char>) -> Option<Seq<char>>
    decreases pairs.len(),
{
    if pairs.len() == 0 {
        None
    } else if pairs.last().0 == k {
        Some(pairs.last().1)
    } else {
        last_text(pairs.drop_last(), k)
    }
}

/// The integer of a stored value, when it parses as one.
pub open spec fn int_text(v: Seq<char>) -> Option<i64> {
    match parsed_json(v) {
        Some(JsonV::Number(n)) => n.int,
        _ => None,
    }
}

/// The boolean of a stored value, when it parses as one.
pub open spec fn bool_text(v: Seq<char>) -> Option<bool> {
    match parsed_json(v) {
        Some(JsonV::Bool(b)) => Some(b),
        _ => None,
    }
}

/// Whether a stored value parses as a number.
pub open spec fn is_number_text(v: Seq<char>) -> bool {
    parsed_json(v) matches Some(JsonV::Number(_))
}

/// The integer of the last pair under `k` that holds one.
pub open spec fn last_int(pairs: Seq<(Seq<char>, Seq<char>)>, k: Seq<char>) -> Option<i64>
    decreases pairs.len(),
{
    if pairs.len() == 0 {
        None
    } else if pairs.last().0 == k && int_text(pairs.last().1) is Some {
        int_text(pairs.last().1)
    } else {
        last_int(pairs.drop_last(), k)
    }
}

/// The boolean of the last pair under `k` that holds one.
pub open spec fn last_bool(pairs: Seq<(Seq<char>, Seq<char>)>, k: Seq<char>) -> Option<bool>
    decreases pairs.len(),
{
    if pairs.len() == 0 {
        None
    } else if pairs.last().0 == k && bool_text(pairs.last().1) is Some {
        bool_text(pairs.last().1)
    } else {
        last_bool(pairs.drop_last(), k)
    }
}

/// The last value under `k` that parses as a number.
pub open spec fn last_number(pairs: Seq<(Seq<char>, Seq<char>)>, k: Seq<char>) -> Option<Seq<char>>
    decreases pairs.len(),
{
    if pairs.len() == 0 {
        None
    } else if pairs.last().0 == k && is_number_text(pairs.last().1) {
        Some(pairs.last().1)
    } else {
        last_number(pairs.drop_last(), k)
    }
}

/// `o`, or `d` when absent.
pub open spec fn or_else<T>(o: Option<T>, d: T) -> T {
    match o {
        Some(x) => x,
        None => d,
    }
}

/// The settings read from stored pairs: for each key the last stored value
/// that reads as the field's type, else the default.
pub open spec fn settings_from(pairs: Seq<(Seq<char>, Seq<char>)>) -> SettingsV {
    let d = default_settings();
    SettingsV {
        base_url: or_else(last_text(pairs, "base_url"@), d.base_url),
        api_key: or_else(last_text(pairs, "api_key"@), d.api_key),
        model: or_else(last_text(pairs, "model"@), d.model),
        temperature: or_else(last_number(pairs, "temperature"@), d.temperature),
        max_tokens: or_else(last_int(pairs, "max_tokens"@), d.max_tokens),
        max_context_tokens: or_else(last_int(pairs, "max_context_tokens"@), d.max_context_tokens),
        system_prompt: or_else(last_text(pairs, "system_prompt"@), d.system_prompt),
        ui_theme: or_else(last_text(pairs, "ui_theme"@), d.ui_theme),
        ui_font_size: or_else(last_int(pairs, "ui_font_size"@), d.ui_font_size),
        ui_avatar_style: or_else(last_text(pairs, "ui_avatar_style"@), d.ui_avatar_style),
        ui_chat_style: or_else(last_text(pairs, "ui_chat_style"@), d.ui_chat_style),
        ui_show_timestamps: or_else(last_bool(pairs, "ui_show_timestamps"@), d.ui_show_timestamps),
        ui_avatar_hover_zoom: or_else(last_bool(pairs, "ui_avatar_hover_zoom"@), d.ui_avatar_hover_zoom),
        ui_reduce_motion: or_else(last_bool(pairs, "ui_reduce_motion"@), d.ui_reduce_motion),
        ui_glass_blur: or_else(last_bool(pairs, "ui_glass_blur"@), d.ui_glass_blur),
        ui_text_shadow: or_else(last_bool(pairs, "ui_text_shadow"@), d.ui_text_shadow),
        ui_message_animation: or_else(last_bool(pairs, "ui_message_animation"@), d.ui_message_animation),
        ui_auto_expand_actions: or_else(last_bool(pairs, "ui_auto_expand_actions"@), d.ui_auto_expand_actions),
        ui_reply_timer: or_else(last_bool(pairs, "ui_reply_timer"@), d.ui_reply_timer),
        ui_show_floor: or_else(last_bool(pairs, "ui_show_floor"@), d.ui_show_floor),
        ui_show_token_count: or_else(last_bool(pairs, "ui_show_token_count"@), d.ui_show_token_count),
        ui_click_to_edit: or_else(last_bool(pairs, "ui_click_to_edit"@), d.ui_click_to_edit),
        char_show_version: or_else(last_bool(pairs, "char_show_version"@), d.char_show_version),
        chat_sound: or_else(last_bool(pairs, "chat_sound"@), d.chat_sound),
        chat_debug_prompt: or_else(last_bool(pairs, "chat_debug_prompt"@), d.chat_debug_prompt),
        chat_load_messages: or_else(last_int(pairs, "chat_load_messages"@), d.chat_load_messages),
        chat_auto_scroll: or_else(last_bool(pairs, "chat_auto_scroll"@), d.chat_auto_scroll),
        chat_confirm_delete: or_else(last_bool(pairs, "chat_confirm_delete"@), d.chat_confirm_delete),
        chat_block_external_media: or_else(last_bool(pairs, "chat_block_external_media"@), d.chat_block_external_media),
        chat_substitute_in_assistant: or_else(last_bool(pairs, "chat_substitute_in_assistant"@), d.chat_substitute_in_assistant),
        chat_enter_mode: or_else(last_text(pairs, "chat_enter_mode"@), d.chat_enter_mode),
        chat_auto_load_last: or_else(last_bool(pairs, "chat_auto_load_last"@), d.chat_auto_load_last),
    }
}

/// One stored pair applied to the settings read so far: the field under
/// its key takes the value when it reads as the field's type.
pub open spec fn apply_pair(s: SettingsV, k: Seq<char>, v: Seq<char>) -> SettingsV {
    SettingsV {
        base_url: if k == "base_url"@ { v } else { s.base_url },
        api_key: if k == "api_key"@ { v } else { s.api_key },
        model: if k == "model"@ { v } else { s.model },
        temperature: if k == "temperature"@ && is_number_text(v) { v } else { s.temperature },
        max_tokens: if k == "max_tokens"@ && int_text(v) is Some { int_text(v).unwrap() } else { s.max_tokens },
        max_context_tokens: if k == "max_context_tokens"@ && int_text(v) is Some { int_text(v).unwrap() } else { s.max_context_tokens },
        system_prompt: if k == "system_prompt"@ { v } else { s.system_prompt },
        ui_theme: if k == "ui_theme"@ { v } else { s.ui_theme },
        ui_font_size: if k == "ui_font_size"@ && int_text(v) is Some { int_text(v).unwrap() } else { s.ui_font_size },
        ui_avatar_style: if k == "ui_avatar_style"@ { v } else { s.ui_avatar_style },
        ui_chat_style: if k == "ui_chat_style"@ { v } else { s.ui_chat_style },
        ui_show_timestamps: if k == "ui_show_timestamps"@ && bool_text(v) is Some { bool_text(v).unwrap() } else { s.ui_show_timestamps },
        ui_avatar_hover_zoom: if k == "ui_avatar_hover_zoom"@ && bool_text(v) is Some { bool_text(v).unwrap() } else { s.ui_avatar_hover_zoom },
        ui_reduce_motion: if k == "ui_reduce_motion"@ && bool_text(v) is Some { bool_text(v).unwrap() } else { s.ui_reduce_motion },
        ui_glass_blur: if k == "ui_glass_blur"@ && bool_text(v) is Some { bool_text(v).unwrap() } else { s.ui_glass_blur },
        ui_text_shadow: if k == "ui_text_shadow"@ && bool_text(v) is Some { bool_text(v).unwrap() } else { s.ui_text_shadow },
        ui_message_animation: if k == "ui_message_animation"@ && bool_text(v) is Some { bool_text(v).unwrap() } else { s.ui_message_animation },
        ui_auto_expand_actions: if k == "ui_auto_expand_actions"@ && bool_text(v) is Some { bool_text(v).unwrap() } else { s.ui_auto_expand_actions },
        ui_reply_timer: if k == "ui_reply_timer"@ && bool_text(v) is Some { bool_text(v).unwrap() } else { s.ui_reply_timer },
        ui_show_floor: if k == "ui_show_floor"@ && bool_text(v) is Some { bool_text(v).unwrap() } else { s.ui_show_floor },
        ui_show_token_count: if k == "ui_show_token_count"@ && bool_text(v) is Some { bool_text(v).unwrap() } else { s.ui_show_token_count },
        ui_click_to_edit: if k == "ui_click_to_edit"@ && bool_text(v) is Some { bool_text(v).unwrap() } else { s.ui_click_to_edit },
        char_show_version: if k == "char_show_version"@ && bool_text(v) is Some { bool_text(v).unwrap() } else { s.char_show_version },
        chat_sound: if k == "chat_sound"@ && bool_text(v) is Some { bool_text(v).unwrap() } else { s.chat_sound },
        chat_debug_prompt: if k == "chat_debug_prompt"@ && bool_text(v) is Some { bool_text(v).unwrap() } else { s.chat_debug_prompt },
        chat_load_messages: if k == "chat_load_messages"@ && int_text(v) is Some { int_text(v).unwrap() } else { s.chat_load_messages },
        chat_auto_scroll: if k == "chat_auto_scroll"@ && bool_text(v) is Some { bool_text(v).unwrap() } else { s.chat_auto_scroll },
        chat_confirm_delete: if k == "chat_confirm_delete"@ && bool_text(v) is Some { bool_text(v).unwrap() } else { s.chat_confirm_delete },
        chat_block_external_media: if k == "chat_block_external_media"@ && bool_text(v) is Some { bool_text(v).unwrap() } else { s.chat_block_external_media },
        chat_substitute_in_assistant: if k == "chat_substitute_in_assistant"@ && bool_text(v) is Some { bool_text(v).unwrap() } else { s.chat_substitute_in_assistant },
        chat_enter_mode: if k == "chat_enter_mode"@ { v } else { s.chat_enter_mode },
        chat_auto_load_last: if k == "chat_auto_load_last"@ && bool_text(v) is Some { bool_text(v).unwrap() } else { s.chat_auto_load_last },
    }
}

/// The stored keys, in the order they are written.
pub open spec fn settings_key(i: int) -> Seq<char> {
    if i == 0 {
        "base_url"@
    } else if i == 1 {
        "api_key"@
    } else if i == 2 {
        "model"@
    } else if i == 3 {
        "system_prompt"@
    } else if i == 4 {
        "temperature"@
    } else if i == 5 {
        "max_tokens"@
    } else if i == 6 {
        "max_context_tokens"@
    } else if i == 7 {
        "ui_theme"@
    } else if i == 8 {
        "ui_font_size"@
    } else if i == 9 {
        "ui_avatar_style"@
    } else if i == 10 {
        "ui_chat_style"@
    } else if i == 11 {
        "ui_show_timestamps"@
    } else if i == 12 {
        "ui_avatar_hover_zoom"@
    } else if i == 13 {
        "ui_reduce_motion"@
    } else if i == 14 {
        "ui_text_shadow"@
    } else if i == 15 {
        "ui_message_animation"@
    } else if i == 16 {
        "ui_auto_expand_actions"@
    } else if i == 17 {
        "ui_reply_timer"@
    } else if i == 18 {
        "ui_show_floor"@
    } else if i == 19 {
        "ui_show_token_count"@
    } else if i == 20 {
        "ui_click_to_edit"@
    } else if i == 21 {
        "char_show_version"@
    } else if i == 22 {
        "chat_sound"@
    } else if i == 23 {
        "chat_debug_prompt"@
    } else if i == 24 {
        "chat_load_messages"@
    } else if i == 25 {
        "chat_auto_scroll"@
    } else if i == 26 {
        "chat_confirm_delete"@
    } else if i == 27 {
        "chat_block_external_media"@
    } else if i == 28 {
        "chat_substitute_in_assistant"@
    } else if i == 29 {
        "chat_enter_mode"@
    } else if i == 30 {
        "chat_auto_load_last"@
    } else {
        "ui_glass_blur"@
    }
}
/// The stored keys are distinct.
proof fn lemma_settings_keys_distinct()
    ensures
        forall|i: int, j: int|
            0 <= i < j < 32 ==> #[trigger] settings_key(i) != #[trigger] settings_key(j),
{
    reveal_strlit("base_url");
    reveal_strlit("api_key");
    reveal_strlit("model");
    reveal_strlit("system_prompt");
    reveal_strlit("temperature");
    reveal_strlit("max_tokens");
    reveal_strlit("max_context_tokens");
    reveal_strlit("ui_theme");
    reveal_strlit("ui_font_size");
    reveal_strlit("ui_avatar_style");
    reveal_strlit("ui_chat_style");
    reveal_strlit("ui_show_timestamps");
    reveal_strlit("ui_avatar_hover_zoom");
    reveal_strlit("ui_reduce_motion");
    reveal_strlit("ui_text_shadow");
    reveal_strlit("ui_message_animation");
    reveal_strlit("ui_auto_expand_actions");
    reveal_strlit("ui_reply_timer");
    reveal_strlit("ui_show_floor");
    reveal_strlit("ui_show_token_count");
    reveal_strlit("ui_click_to_edit");
    reveal_strlit("char_show_version");
    reveal_strlit("chat_sound");
    reveal_strlit("chat_debug_prompt");
    reveal_strlit("chat_load_messages");
    reveal_strlit("chat_auto_scroll");
    reveal_strlit("chat_confirm_delete");
    reveal_strlit("chat_block_external_media");
    reveal_strlit("chat_substitute_in_assistant");
    reveal_strlit("chat_enter_mode");
    reveal_strlit("chat_auto_load_last");
    reveal_strlit("ui_glass_blur");
    assert forall|i: int, j: int| 0 <= i < j < 32 implies #[trigger] settings_key(i) != #[trigger] settings_key(j) by {
        if settings_key(i) == settings_key(j) {
            assert(settings_key(i).len() == settings_key(j).len());
            assert(settings_key(i)[0] == settings_key(j)[0]);
            assert(settings_key(i)[3] == settings_key(j)[3]);
            assert(settings_key(i)[5] == settings_key(j)[5]);
        }
    }
}

/// Reading one more pair is applying it to what was read before.
proof fn lemma_apply_pair(pairs: Seq<(Seq<char>, Seq<char>)>, k: Seq<char>, v: Seq<char>)
    ensures
        settings_from(pairs.push((k, v))) == apply_pair(settings_from(pairs), k, v),
{
    let p = pairs.push((k, v));
    assert(p.drop_last() =~= pairs);
    assert(p.last() == (k, v));
}

/// The values of stored pairs.
pub open spec fn pair_views(pairs: Seq<(String, String)>) -> Seq<(Seq<char>, Seq<char>)> {
    pairs.map_values(|p: (String, String)| (p.0@, p.1@))
}

/// The integer of a stored value.
fn int_of(v: &str) -> (r: Option<i64>)
    ensures
        r == int_text(v@),
{
    match crate::json::parse_json_text(v) {
        Ok(j) => match &j {
            Json::Number(_) => j.as_i64(),
            _ => None,
        },
        Err(_) => None,
    }
}

/// The boolean of a stored value.
fn bool_of(v: &str) -> (r: Option<bool>)
    ensures
        r == bool_text(v@),
{
    match crate::json::parse_json_text(v) {
        Ok(Json::Bool(b)) => Some(b),
        _ => None,
    }
}

/// Whether a stored value is a number.
fn is_number(v: &str) -> (r: bool)
    ensures
        r == is_number_text(v@),
{
    match crate::json::parse_json_text(v) {
        Ok(Json::Number(_)) => true,
        _ => false,
    }
}

/// A text field after a pair: the value when the pair is under its key.
fn text_after(cur: &String, key: &str, k: &str, v: &str) -> (r: String)
    ensures
        r@ == if k@ == key@ {
            v@
        } else {
            cur@
        },
{
    if str_eq(k, key) {
        v.to_owned()
    } else {
        cur.clone()
    }
}

/// A number-text field after a pair: the value when the pair is under its
/// key and holds a number.
fn number_after(cur: &String, key: &str, k: &str, v: &str) -> (r: String)
    ensures
        r@ == if k@ == key@ && is_number_text(v@) {
            v@
        } else {
            cur@
        },
{
    if str_eq(k, key) && is_number(v) {
        v.to_owned()
    } else {
        cur.clone()
    }
}

/// An integer field after a pair: the integer when the pair is under its
/// key and holds one.
fn int_after(cur: i64, key: &str, k: &str, v: &str) -> (r: i64)
    ensures
        r == if k@ == key@ && int_text(v@) is Some {
            int_text(v@).unwrap()
        } else {
            cur
        },
{
    if str_eq(k, key) {
        match int_of(v) {
            Some(x) => x,
            None => cur,
        }
    } else {
        cur
    }
}

/// A boolean field after a pair: the boolean when the pair is under its
/// key and holds one.
fn bool_after(cur: bool, key: &str, k: &str, v: &str) -> (r: bool)
    ensures
        r == if k@ == key@ && bool_text(v@) is Some {
            bool_text(v@).unwrap()
        } else {
            cur
        },
{
    if str_eq(k, key) {
        match bool_of(v) {
            Some(x) => x,
            None => cur,
        }
    } else {
        cur
    }
}

/// The settings after one stored pair.
fn apply_stored(s: &SettingsRecord, k: &str, v: &str) -> (r: SettingsRecord)
    ensures
        r@ == apply_pair(s@, k@, v@),
{
    SettingsRecord {
        base_url: text_after(&s.base_url, "base_url", k, v),
        api_key: text_after(&s.api_key, "api_key", k, v),
        model: text_after(&s.model, "model", k, v),
        temperature: number_after(&s.temperature, "temperature", k, v),
        max_tokens: int_after(s.max_tokens, "max_tokens", k, v),
        max_context_tokens: int_after(s.max_context_tokens, "max_context_tokens", k, v),
        system_prompt: text_after(&s.system_prompt, "system_prompt", k, v),
        ui_theme: text_after(&s.ui_theme, "ui_theme", k, v),
        ui_font_size: int_after(s.ui_font_size, "ui_font_size", k, v),
        ui_avatar_style: text_after(&s.ui_avatar_style, "ui_avatar_style", k, v),
        ui_chat_style: text_after(&s.ui_chat_style, "ui_chat_style", k, v),
        ui_show_timestamps: bool_after(s.ui_show_timestamps, "ui_show_timestamps", k, v),
        ui_avatar_hover_zoom: bool_after(s.ui_avatar_hover_zoom, "ui_avatar_hover_zoom", k, v),
        ui_reduce_motion: bool_after(s.ui_reduce_motion, "ui_reduce_motion", k, v),
        ui_glass_blur: bool_after(s.ui_glass_blur, "ui_glass_blur", k, v),
        ui_text_shadow: bool_after(s.ui_text_shadow, "ui_text_shadow", k, v),
        ui_message_animation: bool_after(s.ui_message_animation, "ui_message_animation", k, v),
        ui_auto_expand_actions: bool_after(s.ui_auto_expand_actions, "ui_auto_expand_actions", k, v),
        ui_reply_timer: bool_after(s.ui_reply_timer, "ui_reply_timer", k, v),
        ui_show_floor: bool_after(s.ui_show_floor, "ui_show_floor", k, v),
        ui_show_token_count: bool_after(s.ui_show_token_count, "ui_show_token_count", k, v),
        ui_click_to_edit: bool_after(s.ui_click_to_edit, "ui_click_to_edit", k, v),
        char_show_version: bool_after(s.char_show_version, "char_show_version", k, v),
        chat_sound: bool_after(s.chat_sound, "chat_sound", k, v),
        chat_debug_prompt: bool_after(s.chat_debug_prompt, "chat_debug_prompt", k, v),
        chat_load_messages: int_after(s.chat_load_messages, "chat_load_messages", k, v),
        chat_auto_scroll: bool_after(s.chat_auto_scroll, "chat_auto_scroll", k, v),
        chat_confirm_delete: bool_after(s.chat_confirm_delete, "chat_confirm_delete", k, v),
        chat_block_external_media: bool_after(s.chat_block_external_media, "chat_block_external_media", k, v),
        chat_substitute_in_assistant: bool_after(s.chat_substitute_in_assistant, "chat_substitute_in_assistant", k, v),
        chat_enter_mode: text_after(&s.chat_enter_mode, "chat_enter_mode", k, v),
        chat_auto_load_last: bool_after(s.chat_auto_load_last, "chat_auto_load_last", k, v),
    }
}

/// Reads the settings from the stored (key, value) pairs, in order, over
/// the defaults; values that do not read as their field's type are
/// skipped.
pub fn settings_from_pairs(pairs: &[(String, String)]) -> (r: SettingsRecord)
    ensures
        r@ == settings_from(pair_views(pairs@)),
{
    let mut s = SettingsRecord::default();
    let ghost pv = pair_views(pairs@);
    assert(pv.take(0) =~= Seq::<(Seq<char>, Seq<char>)>::empty());
    let mut i: usize = 0;
    while i < pairs.len()
        invariant
            pv == pair_views(pairs@),
            i <= pairs@.len(),
            s@ == settings_from(pv.take(i as int)),
        decreases pairs.len() - i,
    {
        proof {
            lemma_apply_pair(pv.take(i as int), pairs@[i as int].0@, pairs@[i as int].1@);
            assert(pv.take(i + 1) =~= pv.take(i as int).push((pairs@[i as int].0@, pairs@[i as int].1@)));
        }
        s = apply_stored(&s, pairs[i].0.as_str(), pairs[i].1.as_str());
        i = i + 1;
    }
    assert(pv.take(i as int) =~= pv);
    s
}

/// An integer as stored JSON.
pub open spec fn int_number(i: i64) -> JsonV {
    JsonV::Number(int_view(i as int))
}

/// The text stored for the value under key `i`.
pub open spec fn stored_value(s: SettingsV, i: int) -> Seq<char> {
    if i == 0 {
        s.base_url
    } else if i == 1 {
        s.api_key
    } else if i == 2 {
        s.model
    } else if i == 3 {
        s.system_prompt
    } else if i == 4 {
        s.temperature
    } else if i == 5 {
        json_compact_text(int_number(s.max_tokens))
    } else if i == 6 {
        json_compact_text(int_number(s.max_context_tokens))
    } else if i == 7 {
        s.ui_theme
    } else if i == 8 {
        json_compact_text(int_number(s.ui_font_size))
    } else if i == 9 {
        s.ui_avatar_style
    } else if i == 10 {
        s.ui_chat_style
    } else if i == 11 {
        json_compact_text(JsonV::Bool(s.ui_show_timestamps))
    } else if i == 12 {
        json_compact_text(JsonV::Bool(s.ui_avatar_hover_zoom))
    } else if i == 13 {
        json_compact_text(JsonV::Bool(s.ui_reduce_motion))
    } else if i == 14 {
        json_compact_text(JsonV::Bool(s.ui_text_shadow))
    } else if i == 15 {
        json_compact_text(JsonV::Bool(s.ui_message_animation))
    } else if i == 16 {
        json_compact_text(JsonV::Bool(s.ui_auto_expand_actions))
    } else if i == 17 {
        json_compact_text(JsonV::Bool(s.ui_reply_timer))
    } else if i == 18 {
        json_compact_text(JsonV::Bool(s.ui_show_floor))
    } else if i == 19 {
        json_compact_text(JsonV::Bool(s.ui_show_token_count))
    } else if i == 20 {
        json_compact_text(JsonV::Bool(s.ui_click_to_edit))
    } else if i == 21 {
        json_compact_text(JsonV::Bool(s.char_show_version))
    } else if i == 22 {
        json_compact_text(JsonV::Bool(s.chat_sound))
    } else if i == 23 {
        json_compact_text(JsonV::Bool(s.chat_debug_prompt))
    } else if i == 24 {
        json_compact_text(int_number(s.chat_load_messages))
    } else if i == 25 {
        json_compact_text(JsonV::Bool(s.chat_auto_scroll))
    } else if i == 26 {
        json_compact_text(JsonV::Bool(s.chat_confirm_delete))
    } else if i == 27 {
        json_compact_text(JsonV::Bool(s.chat_block_external_media))
    } else if i == 28 {
        json_compact_text(JsonV::Bool(s.chat_substitute_in_assistant))
    } else if i == 29 {
        s.chat_enter_mode
    } else if i == 30 {
        json_compact_text(JsonV::Bool(s.chat_auto_load_last))
    } else {
        json_compact_text(JsonV::Bool(s.ui_glass_blur))
    }
}

/// The pairs written for the settings, in key order.
pub open spec fn settings_pairs_of(s: SettingsV) -> Seq<(Seq<char>, Seq<char>)> {
    Seq::new(32, |i: int| (settings_key(i), stored_value(s, i)))
}

/// The last pair under `k` is at `j`.
proof fn lemma_last_at(pairs: Seq<(Seq<char>, Seq<char>)>, j: int, k: Seq<char>)
    requires
        0 <= j < pairs.len(),
        pairs[j].0 == k,
        forall|i: int| j < i < pairs.len() ==> pairs[i].0 != k,
    ensures
        last_text(pairs, k) == Some(pairs[j].1),
        int_text(pairs[j].1) is Some ==> last_int(pairs, k) == int_text(pairs[j].1),
        bool_text(pairs[j].1) is Some ==> last_bool(pairs, k) == bool_text(pairs[j].1),
        is_number_text(pairs[j].1) ==> last_number(pairs, k) == Some(pairs[j].1),
    decreases pairs.len(),
{
    if j < pairs.len() - 1 {
        let p = pairs.drop_last();
        assert forall|i: int| j < i < p.len() implies p[i].0 != k by {
            assert(p[i] == pairs[i]);
        }
        lemma_last_at(p, j, k);
        assert(pairs.last() == pairs[pairs.len() - 1]);
    }
}

/// Settings written as pairs read back as themselves, when each written
/// value reads back as its field.
proof fn lemma_settings_roundtrip(s: SettingsV)
    requires
        is_number_text(s.temperature),
        forall|i: int| 0 <= i < 32 ==> reads_back(s, i, #[trigger] stored_value(s, i)),
    ensures
        settings_from(settings_pairs_of(s)) == s,
{
    let pairs = settings_pairs_of(s);
    lemma_settings_keys_distinct();
    assert(reads_back(s, 5, stored_value(s, 5)));
    assert(reads_back(s, 6, stored_value(s, 6)));
    assert(reads_back(s, 8, stored_value(s, 8)));
    assert(reads_back(s, 11, stored_value(s, 11)));
    assert(reads_back(s, 12, stored_value(s, 12)));
    assert(reads_back(s, 13, stored_value(s, 13)));
    assert(reads_back(s, 14, stored_value(s, 14)));
    assert(reads_back(s, 15, stored_value(s, 15)));
    assert(reads_back(s, 16, stored_value(s, 16)));
    assert(reads_back(s, 17, stored_value(s, 17)));
    assert(reads_back(s, 18, stored_value(s, 18)));
    assert(reads_back(s, 19, stored_value(s, 19)));
    assert(reads_back(s, 20, stored_value(s, 20)));
    assert(reads_back(s, 21, stored_value(s, 21)));
    assert(reads_back(s, 22, stored_value(s, 22)));
    assert(reads_back(s, 23, stored_value(s, 23)));
    assert(reads_back(s, 24, stored_value(s, 24)));
    assert(reads_back(s, 25, stored_value(s, 25)));
    assert(reads_back(s, 26, stored_value(s, 26)));
    assert(reads_back(s, 27, stored_value(s, 27)));
    assert(reads_back(s, 28, stored_value(s, 28)));
    assert(reads_back(s, 30, stored_value(s, 30)));
    assert(pairs[0] == ("base_url"@, stored_value(s, 0)));
    assert forall|x: int| 0 < x < 32 implies pairs[x].0 != "base_url"@ by { assert(settings_key(0) == "base_url"@); }
    lemma_last_at(pairs, 0, "base_url"@);
    assert(pairs[1] == ("api_key"@, stored_value(s, 1)));
    assert forall|x: int| 1 < x < 32 implies pairs[x].0 != "api_key"@ by { assert(settings_key(1) == "api_key"@); }
    lemma_last_at(pairs, 1, "api_key"@);
    assert(pairs[2] == ("model"@, stored_value(s, 2)));
    assert forall|x: int| 2 < x < 32 implies pairs[x].0 != "model"@ by { assert(settings_key(2) == "model"@); }
    lemma_last_at(pairs, 2, "model"@);
    assert(pairs[3] == ("system_prompt"@, stored_value(s, 3)));
    assert forall|x: int| 3 < x < 32 implies pairs[x].0 != "system_prompt"@ by { assert(settings_key(3) == "system_prompt"@); }
    lemma_last_at(pairs, 3, "system_prompt"@);
    assert(pairs[4] == ("temperature"@, stored_value(s, 4)));
    assert forall|x: int| 4 < x < 32 implies pairs[x].0 != "temperature"@ by { assert(settings_key(4) == "temperature"@); }
    lemma_last_at(pairs, 4, "temperature"@);
    assert(pairs[5] == ("max_tokens"@, stored_value(s, 5)));
    assert forall|x: int| 5 < x < 32 implies pairs[x].0 != "max_tokens"@ by { assert(settings_key(5) == "max_tokens"@); }
    lemma_last_at(pairs, 5, "max_tokens"@);
    assert(pairs[6] == ("max_context_tokens"@, stored_value(s, 6)));
    assert forall|x: int| 6 < x < 32 implies pairs[x].0 != "max_context_tokens"@ by { assert(settings_key(6) == "max_context_tokens"@); }
    lemma_last_at(pairs, 6, "max_context_tokens"@);
    assert(pairs[7] == ("ui_theme"@, stored_value(s, 7)));
    assert forall|x: int| 7 < x < 32 implies pairs[x].0 != "ui_theme"@ by { assert(settings_key(7) == "ui_theme"@); }
    lemma_last_at(pairs, 7, "ui_theme"@);
    assert(pairs[8] == ("ui_font_size"@, stored_value(s, 8)));
    assert forall|x: int| 8 < x < 32 implies pairs[x].0 != "ui_font_size"@ by { assert(settings_key(8) == "ui_font_size"@); }
    lemma_last_at(pairs, 8, "ui_font_size"@);
    assert(pairs[9] == ("ui_avatar_style"@, stored_value(s, 9)));
    assert forall|x: int| 9 < x < 32 implies pairs[x].0 != "ui_avatar_style"@ by { assert(settings_key(9) == "ui_avatar_style"@); }
    lemma_last_at(pairs, 9, "ui_avatar_style"@);
    assert(pairs[10] == ("ui_chat_style"@, stored_value(s, 10)));
    assert forall|x: int| 10 < x < 32 implies pairs[x].0 != "ui_chat_style"@ by { assert(settings_key(10) == "ui_chat_style"@); }
    lemma_last_at(pairs, 10, "ui_chat_style"@);
    assert(pairs[11] == ("ui_show_timestamps"@, stored_value(s, 11)));
    assert forall|x: int| 11 < x < 32 implies pairs[x].0 != "ui_show_timestamps"@ by { assert(settings_key(11) == "ui_show_timestamps"@); }
    lemma_last_at(pairs, 11, "ui_show_timestamps"@);
    assert(pairs[12] == ("ui_avatar_hover_zoom"@, stored_value(s, 12)));
    assert forall|x: int| 12 < x < 32 implies pairs[x].0 != "ui_avatar_hover_zoom"@ by { assert(settings_key(12) == "ui_avatar_hover_zoom"@); }
    lemma_last_at(pairs, 12, "ui_avatar_hover_zoom"@);
    assert(pairs[13] == ("ui_reduce_motion"@, stored_value(s, 13)));
    assert forall|x: int| 13 < x < 32 implies pairs[x].0 != "ui_reduce_motion"@ by { assert(settings_key(13) == "ui_reduce_motion"@); }
    lemma_last_at(pairs, 13, "ui_reduce_motion"@);
    assert(pairs[14] == ("ui_text_shadow"@, stored_value(s, 14)));
    assert forall|x: int| 14 < x < 32 implies pairs[x].0 != "ui_text_shadow"@ by { assert(settings_key(14) == "ui_text_shadow"@); }
    lemma_last_at(pairs, 14, "ui_text_shadow"@);
    assert(pairs[15] == ("ui_message_animation"@, stored_value(s, 15)));
    assert forall|x: int| 15 < x < 32 implies pairs[x].0 != "ui_message_animation"@ by { assert(settings_key(15) == "ui_message_animation"@); }
    lemma_last_at(pairs, 15, "ui_message_animation"@);
    assert(pairs[16] == ("ui_auto_expand_actions"@, stored_value(s, 16)));
    assert forall|x: int| 16 < x < 32 implies pairs[x].0 != "ui_auto_expand_actions"@ by { assert(settings_key(16) == "ui_auto_expand_actions"@); }
    lemma_last_at(pairs, 16, "ui_auto_expand_actions"@);
    assert(pairs[17] == ("ui_reply_timer"@, stored_value(s, 17)));
    assert forall|x: int| 17 < x < 32 implies pairs[x].0 != "ui_reply_timer"@ by { assert(settings_key(17) == "ui_reply_timer"@); }
    lemma_last_at(pairs, 17, "ui_reply_timer"@);
    assert(pairs[18] == ("ui_show_floor"@, stored_value(s, 18)));
    assert forall|x: int| 18 < x < 32 implies pairs[x].0 != "ui_show_floor"@ by { assert(settings_key(18) == "ui_show_floor"@); }
    lemma_last_at(pairs, 18, "ui_show_floor"@);
    assert(pairs[19] == ("ui_show_token_count"@, stored_value(s, 19)));
    assert forall|x: int| 19 < x < 32 implies pairs[x].0 != "ui_show_token_count"@ by { assert(settings_key(19) == "ui_show_token_count"@); }
    lemma_last_at(pairs, 19, "ui_show_token_count"@);
    assert(pairs[20] == ("ui_click_to_edit"@, stored_value(s, 20)));
    assert forall|x: int| 20 < x < 32 implies pairs[x].0 != "ui_click_to_edit"@ by { assert(settings_key(20) == "ui_click_to_edit"@); }
    lemma_last_at(pairs, 20, "ui_click_to_edit"@);
    assert(pairs[21] == ("char_show_version"@, stored_value(s, 21)));
    assert forall|x: int| 21 < x < 32 implies pairs[x].0 != "char_show_version"@ by { assert(settings_key(21) == "char_show_version"@); }
    lemma_last_at(pairs, 21, "char_show_version"@);
    assert(pairs[22] == ("chat_sound"@, stored_value(s, 22)));
    assert forall|x: int| 22 < x < 32 implies pairs[x].0 != "chat_sound"@ by { assert(settings_key(22) == "chat_sound"@); }
    lemma_last_at(pairs, 22, "chat_sound"@);
    assert(pairs[23] == ("chat_debug_prompt"@, stored_value(s, 23)));
    assert forall|x: int| 23 < x < 32 implies pairs[x].0 != "chat_debug_prompt"@ by { assert(settings_key(23) == "chat_debug_prompt"@); }
    lemma_last_at(pairs, 23, "chat_debug_prompt"@);
    assert(pairs[24] == ("chat_load_messages"@, stored_value(s, 24)));
    assert forall|x: int| 24 < x < 32 implies pairs[x].0 != "chat_load_messages"@ by { assert(settings_key(24) == "chat_load_messages"@); }
    lemma_last_at(pairs, 24, "chat_load_messages"@);
    assert(pairs[25] == ("chat_auto_scroll"@, stored_value(s, 25)));
    assert forall|x: int| 25 < x < 32 implies pairs[x].0 != "chat_auto_scroll"@ by { assert(settings_key(25) == "chat_auto_scroll"@); }
    lemma_last_at(pairs, 25, "chat_auto_scroll"@);
    assert(pairs[26] == ("chat_confirm_delete"@, stored_value(s, 26)));
    assert forall|x: int| 26 < x < 32 implies pairs[x].0 != "chat_confirm_delete"@ by { assert(settings_key(26) == "chat_confirm_delete"@); }
    lemma_last_at(pairs, 26, "chat_confirm_delete"@);
    assert(pairs[27] == ("chat_block_external_media"@, stored_value(s, 27)));
    assert forall|x: int| 27 < x < 32 implies pairs[x].0 != "chat_block_external_media"@ by { assert(settings_key(27) == "chat_block_external_media"@); }
    lemma_last_at(pairs, 27, "chat_block_external_media"@);
    assert(pairs[28] == ("chat_substitute_in_assistant"@, stored_value(s, 28)));
    assert forall|x: int| 28 < x < 32 implies pairs[x].0 != "chat_substitute_in_assistant"@ by { assert(settings_key(28) == "chat_substitute_in_assistant"@); }
    lemma_last_at(pairs, 28, "chat_substitute_in_assistant"@);
    assert(pairs[29] == ("chat_enter_mode"@, stored_value(s, 29)));
    assert forall|x: int| 29 < x < 32 implies pairs[x].0 != "chat_enter_mode"@ by { assert(settings_key(29) == "chat_enter_mode"@); }
    lemma_last_at(pairs, 29, "chat_enter_mode"@);
    assert(pairs[30] == ("chat_auto_load_last"@, stored_value(s, 30)));
    assert forall|x: int| 30 < x < 32 implies pairs[x].0 != "chat_auto_load_last"@ by { assert(settings_key(30) == "chat_auto_load_last"@); }
    lemma_last_at(pairs, 30, "chat_auto_load_last"@);
    assert(reads_back(s, 31, stored_value(s, 31)));
    assert(pairs[31] == ("ui_glass_blur"@, stored_value(s, 31)));
    lemma_last_at(pairs, 31, "ui_glass_blur"@);
}

/// Whether a written text reads back as the field under key `i`.
pub open spec fn reads_back(s: SettingsV, i: int, t: Seq<char>) -> bool {
    if i == 5 {
        int_text(t) == Some(s.max_tokens)
    } else if i == 6 {
        int_text(t) == Some(s.max_context_tokens)
    } else if i == 8 {
        int_text(t) == Some(s.ui_font_size)
    } else if i == 11 {
        bool_text(t) == Some(s.ui_show_timestamps)
    } else if i == 12 {
        bool_text(t) == Some(s.ui_avatar_hover_zoom)
    } else if i == 13 {
        bool_text(t) == Some(s.ui_reduce_motion)
    } else if i == 14 {
        bool_text(t) == Some(s.ui_text_shadow)
    } else if i == 15 {
        bool_text(t) == Some(s.ui_message_animation)
    } else if i == 16 {
        bool_text(t) == Some(s.ui_auto_expand_actions)
    } else if i == 17 {
        bool_text(t) == Some(s.ui_reply_timer)
    } else if i == 18 {
        bool_text(t) == Some(s.ui_show_floor)
    } else if i == 19 {
        bool_text(t) == Some(s.ui_show_token_count)
    } else if i == 20 {
        bool_text(t) == Some(s.ui_click_to_edit)
    } else if i == 21 {
        bool_text(t) == Some(s.char_show_version)
    } else if i == 22 {
        bool_text(t) == Some(s.chat_sound)
    } else if i == 23 {
        bool_text(t) == Some(s.chat_debug_prompt)
    } else if i == 24 {
        int_text(t) == Some(s.chat_load_messages)
    } else if i == 25 {
        bool_text(t) == Some(s.chat_auto_scroll)
    } else if i == 26 {
        bool_text(t) == Some(s.chat_confirm_delete)
    } else if i == 27 {
        bool_text(t) == Some(s.chat_block_external_media)
    } else if i == 28 {
        bool_text(t) == Some(s.chat_substitute_in_assistant)
    } else if i == 30 {
        bool_text(t) == Some(s.chat_auto_load_last)
    } else if i == 31 {
        bool_text(t) == Some(s.ui_glass_blur)
    } else {
        true
    }
}

/// The pair written for key `i`.
#[verifier::rlimit(60)]
fn stored_pair(s: &SettingsRecord, i: usize) -> (r: (String, String))
    requires
        i < 32,
    ensures
        r.0@ == settings_key(i as int),
        r.1@ == stored_value(s@, i as int),
        reads_back(s@, i as int, r.1@),
{
    if i == 0 {
        ("base_url".to_owned(), s.base_url.clone())
    } else if i == 1 {
        ("api_key".to_owned(), s.api_key.clone())
    } else if i == 2 {
        ("model".to_owned(), s.model.clone())
    } else if i == 3 {
        ("system_prompt".to_owned(), s.system_prompt.clone())
    } else if i == 4 {
        ("temperature".to_owned(), s.temperature.clone())
    } else if i == 5 {
        ("max_tokens".to_owned(), to_compact_string(&Json::from_i64(s.max_tokens)))
    } else if i == 6 {
        ("max_context_tokens".to_owned(), to_compact_string(&Json::from_i64(s.max_context_tokens)))
    } else if i == 7 {
        ("ui_theme".to_owned(), s.ui_theme.clone())
    } else if i == 8 {
        ("ui_font_size".to_owned(), to_compact_string(&Json::from_i64(s.ui_font_size)))
    } else if i == 9 {
        ("ui_avatar_style".to_owned(), s.ui_avatar_style.clone())
    } else if i == 10 {
        ("ui_chat_style".to_owned(), s.ui_chat_style.clone())
    } else if i == 11 {
        ("ui_show_timestamps".to_owned(), to_compact_string(&Json::Bool(s.ui_show_timestamps)))
    } else if i == 12 {
        ("ui_avatar_hover_zoom".to_owned(), to_compact_string(&Json::Bool(s.ui_avatar_hover_zoom)))
    } else if i == 13 {
        ("ui_reduce_motion".to_owned(), to_compact_string(&Json::Bool(s.ui_reduce_motion)))
    } else if i == 14 {
        ("ui_text_shadow".to_owned(), to_compact_string(&Json::Bool(s.ui_text_shadow)))
    } else if i == 15 {
        ("ui_message_animation".to_owned(), to_compact_string(&Json::Bool(s.ui_message_animation)))
    } else if i == 16 {
        ("ui_auto_expand_actions".to_owned(), to_compact_string(&Json::Bool(s.ui_auto_expand_actions)))
    } else if i == 17 {
        ("ui_reply_timer".to_owned(), to_compact_string(&Json::Bool(s.ui_reply_timer)))
    } else if i == 18 {
        ("ui_show_floor".to_owned(), to_compact_string(&Json::Bool(s.ui_show_floor)))
    } else if i == 19 {
        ("ui_show_token_count".to_owned(), to_compact_string(&Json::Bool(s.ui_show_token_count)))
    } else if i == 20 {
        ("ui_click_to_edit".to_owned(), to_compact_string(&Json::Bool(s.ui_click_to_edit)))
    } else if i == 21 {
        ("char_show_version".to_owned(), to_compact_string(&Json::Bool(s.char_show_version)))
    } else if i == 22 {
        ("chat_sound".to_owned(), to_compact_string(&Json::Bool(s.chat_sound)))
    } else if i == 23 {
        ("chat_debug_prompt".to_owned(), to_compact_string(&Json::Bool(s.chat_debug_prompt)))
    } else if i == 24 {
        ("chat_load_messages".to_owned(), to_compact_string(&Json::from_i64(s.chat_load_messages)))
    } else if i == 25 {
        ("chat_auto_scroll".to_owned(), to_compact_string(&Json::Bool(s.chat_auto_scroll)))
    } else if i == 26 {
        ("chat_confirm_delete".to_owned(), to_compact_string(&Json::Bool(s.chat_confirm_delete)))
    } else if i == 27 {
        ("chat_block_external_media".to_owned(), to_compact_string(&Json::Bool(s.chat_block_external_media)))
    } else if i == 28 {
        ("chat_substitute_in_assistant".to_owned(), to_compact_string(&Json::Bool(s.chat_substitute_in_assistant)))
    } else if i == 29 {
        ("chat_enter_mode".to_owned(), s.chat_enter_mode.clone())
    } else if i == 30 {
        ("chat_auto_load_last".to_owned(), to_compact_string(&Json::Bool(s.chat_auto_load_last)))
    } else {
        ("ui_glass_blur".to_owned(), to_compact_string(&Json::Bool(s.ui_glass_blur)))
    }
}

/// The pairs stored for the settings, one per key: texts as they are,
/// numbers and booleans as JSON. They read back as the same settings
/// whenever the temperature text is a number.
#[verifier::rlimit(60)]
pub fn settings_pairs(s: &SettingsRecord) -> (r: Vec<(String, String)>)
    ensures
        pair_views(r@) == settings_pairs_of(s@),
        is_number_text(s@.temperature) ==> settings_from(pair_views(r@)) == s@,
{
    let ghost want = settings_pairs_of(s@);
    let mut r: Vec<(String, String)> = Vec::new();
    let mut i: usize = 0;
    while i < 32
        invariant
            i <= 32,
            want == settings_pairs_of(s@),
            pair_views(r@) == want.take(i as int),
            forall|j: int| 0 <= j < i ==> reads_back(s@, j, #[trigger] want[j].1),
        decreases 32 - i,
    {
        let p = stored_pair(s, i);
        let ghost before = r@;
        r.push(p);
        assert(pair_views(r@) =~= pair_views(before).push((p.0@, p.1@)));
        assert(want.take(i + 1) =~= want.take(i as int).push(want[i as int]));
        i = i + 1;
    }
    assert(want.take(32) =~= want);
    assert forall|j: int| 0 <= j < 32 implies reads_back(s@, j, #[trigger] stored_value(s@, j)) by {
        assert(want[j].1 == stored_value(s@, j));
    }
    proof {
        if is_number_text(s@.temperature) {
            lemma_settings_roundtrip(s@);
        }
    }
    r
}

} // verus!
