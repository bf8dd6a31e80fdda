//! The rules of a chat turn: what a sent message becomes, when a
//! conversation gets its title, what regeneration removes, whether a
//! request may start or be cancelled, and how a finished stream is saved
//! and reported.

use vstd::prelude::*;

use crate::llm::stream::{truncated, StreamResult};
use crate::models::Message;
use crate::text::{chars_of, opt_string_view, str_eq, string_from_chars, trim, trim_chars};

verus! {

/// What the user sent, trimmed; an empty message is refused.
pub fn prepare_message(content: &str) -> (r: Result<String, String>)
    ensures
        trim(content@).len() > 0 ==> (r matches Ok(s) && s@ == trim(content@)),
        trim(content@).len() == 0 ==> (r matches Err(m) && m@ == "消息不能为空"@),
{
    let v = chars_of(content);
    let t = trim_chars(v.as_slice());
    if t.len() == 0 {
        Err("消息不能为空".to_owned())
    } else {
        Ok(string_from_chars(t.as_slice()))
    }
}

/// Whether a conversation gets its title now: when its first user message
/// has just been stored.
pub fn should_auto_title(user_count: i64) -> (r: bool)
    ensures
        r == (user_count == 1),
{
    user_count == 1
}

/// The title made from the first user message: its first 24 characters,
/// with "…" when it is longer.
pub fn auto_title(content: &str) -> (r: String)
    ensures
        r@ == truncated(content@, 24),
{
    crate::llm::stream::truncate(content, 24)
}

/// The refusal when a reply is already being generated.
pub fn busy_message() -> (r: String)
    ensures
        r@ == "已有生成中的回复，请先停止"@,
{
    "已有生成中的回复，请先停止".to_owned()
}

/// Which message regeneration removes: the last one, when it is the
/// assistant's.
pub fn regenerate_target(history: &[Message]) -> (r: Option<usize>)
    ensures
        history@.len() > 0 && history@.last().role@ == "assistant"@ ==> r == Some(
            (history@.len() - 1) as usize,
        ),
        !(history@.len() > 0 && history@.last().role@ == "assistant"@) ==> r is None,
{
    let n = history.len();
    if n > 0 && str_eq(history[n - 1].role.as_str(), "assistant") {
        Some(n - 1)
    } else {
        None
    }
}

/// Whether a request id names the active request.
pub fn is_active_request(active: Option<&str>, request_id: &str) -> (r: bool)
    ensures
        r == (active matches Some(a) && a@ == request_id@),
{
    match active {
        Some(a) => str_eq(a, request_id),
        None => false,
    }
}

/// Whether the reply is stored: always after a normal end (an empty reply
/// too, so the conversation stays complete), otherwise when some text came.
pub fn should_save_reply(result: &StreamResult) -> (r: bool)
    ensures
        r == ((result.error is None && !result.cancelled) || result.text@.len() > 0),
{
    (result.error.is_none() && !result.cancelled) || !result.text.as_str().is_empty()
}

/// Whether text was kept: whenever the reply had text.
pub fn partial_saved(result: &StreamResult) -> (r: bool)
    ensures
        r == (result.text@.len() > 0),
{
    !result.text.as_str().is_empty()
}

/// How a finished stream is reported.
#[derive(Debug, Clone, PartialEq, Eq)]
pub enum ChatEvent {
    /// The reply was stored under this id.
    Done { message_id: String },
    /// The stream failed, or a normal reply could not be stored.
    Error { message: String, partial_saved: bool },
    /// The user cancelled.
    Cancelled { partial_saved: bool },
}

/// A report as a value.
pub enum ChatEventV {
    Done(Seq<char>),
    Error(Seq<char>, bool),
    Cancelled(bool),
}

impl View for ChatEvent {
    type V = ChatEventV;

    open spec fn view(&self) -> ChatEventV {
        match self {
            ChatEvent::Done { message_id } => ChatEventV::Done(message_id@),
            ChatEvent::Error { message, partial_saved } => ChatEventV::Error(message@, *partial_saved),
            ChatEvent::Cancelled { partial_saved } => ChatEventV::Cancelled(*partial_saved),
        }
    }
}

/// The report for a finished stream: a normal end reports the stored
/// reply (or that storing failed), a cancellation reports whether text was
/// kept, a failure reports its message.
pub open spec fn finish_report(result: StreamResult, saved_id: Option<Seq<char>>) -> ChatEventV {
    let kept = result.text@.len() > 0;
    if result.error is None && !result.cancelled {
        match saved_id {
            Some(id) => ChatEventV::Done(id),
            None => ChatEventV::Error("回复保存失败"@, kept),
        }
    } else if result.cancelled {
        ChatEventV::Cancelled(kept)
    } else {
        ChatEventV::Error(
            match opt_string_view(result.error) {
                Some(m) => m,
                None => seq![],
            },
            kept,
        )
    }
}

/// The report for a finished stream, given the id of the stored reply if
/// storing succeeded.
pub fn finish_event(result: &StreamResult, saved_id: Option<String>) -> (e: ChatEvent)
    ensures
        e@ == finish_report(*result, opt_string_view(saved_id)),
{
    let kept = partial_saved(result);
    if result.error.is_none() && !result.cancelled {
        match saved_id {
            Some(id) => ChatEvent::Done { message_id: id },
            None => ChatEvent::Error { message: "回复保存失败".to_owned(), partial_saved: kept },
        }
    } else if result.cancelled {
        ChatEvent::Cancelled { partial_saved: kept }
    } else {
        let message = match &result.error {
            Some(m) => m.clone(),
            None => String::new(),
        };
        ChatEvent::Error { message, partial_saved: kept }
    }
}

} // verus!
