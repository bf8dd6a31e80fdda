//! The streamed reply as a state machine: the caller performs the HTTP
//! request and the waiting, and hands each event (bytes, a network error,
//! a cancellation, the end of the stream) to `ChatStream`, which decides
//! what text to forward and how the stream ends.

use vstd::prelude::*;

use crate::llm::sse::{extract_delta, finish_result, payload_delta, push_result, SseParser, SseState};
use crate::text::{opt_string_view, push_str, str_eq, views};

verus! {

/// How a streamed reply ended: the text received (kept even after a
/// failure), the failure if any, and whether it was cancelled.
#[derive(Debug, Default)]
pub struct StreamResult {
    pub text: String,
    pub error: Option<String>,
    pub cancelled: bool,
}

/// At most `max` characters of `s`; a cut is marked with "…".
pub open spec fn truncated(s: Seq<char>, max: nat) -> Seq<char> {
    if s.len() <= max {
        s
    } else {
        s.take(max as int) + "…"@
    }
}

/// Cuts a text to `max` characters, marking a cut with "…".
pub fn truncate(s: &str, max: usize) -> (r: String)
    ensures
        r@ == truncated(s@, max as nat),
{
    let v = crate::text::chars_of(s);
    if v.len() <= max {
        s.to_owned()
    } else {
        let mut out = crate::text::string_from_chars(&v.as_slice()[0..max]);
        assert(v@.subrange(0, max as int) =~= s@.take(max as int));
        push_str(&mut out, "…");
        out
    }
}

/// The message for a client that could not be built.
pub fn client_error_message(e: &str) -> (r: String)
    ensures
        r@ == "HTTP 客户端初始化失败: "@ + e@,
{
    let mut r = String::new();
    push_str(&mut r, "HTTP 客户端初始化失败: ");
    push_str(&mut r, e);
    r
}

/// The message for a request that could not be sent.
pub fn request_error_message(e: &str) -> (r: String)
    ensures
        r@ == "请求失败: "@ + e@,
{
    let mut r = String::new();
    push_str(&mut r, "请求失败: ");
    push_str(&mut r, e);
    r
}

/// The message for an unsuccessful HTTP status: the status and at most
/// 300 characters of the response body.
pub fn http_error_message(status: &str, body: &str) -> (r: String)
    ensures
        r@ == "HTTP "@ + status@ + ": "@ + truncated(body@, 300),
{
    let mut r = String::new();
    push_str(&mut r, "HTTP ");
    push_str(&mut r, status);
    push_str(&mut r, ": ");
    let t = truncate(body, 300);
    push_str(&mut r, t.as_str());
    r
}

/// The non-empty deltas of the payloads before the first `[DONE]`, and
/// whether one came.
pub open spec fn deltas_until_done(ps: Seq<Seq<char>>) -> (Seq<Seq<char>>, bool)
    decreases ps.len(),
{
    if ps.len() == 0 {
        (seq![], false)
    } else if ps[0] == "[DONE]"@ {
        (seq![], true)
    } else {
        let (d, f) = deltas_until_done(ps.drop_first());
        match payload_delta(ps[0]) {
            Some(x) => if x.len() > 0 { (seq![x] + d, f) } else { (d, f) },
            None => (d, f),
        }
    }
}

/// The non-empty deltas of all payloads (`[DONE]` carries none).
pub open spec fn all_deltas(ps: Seq<Seq<char>>) -> Seq<Seq<char>>
    decreases ps.len(),
{
    if ps.len() == 0 {
        seq![]
    } else {
        match payload_delta(ps[0]) {
            Some(x) => if x.len() > 0 {
                seq![x] + all_deltas(ps.drop_first())
            } else {
                all_deltas(ps.drop_first())
            },
            None => all_deltas(ps.drop_first()),
        }
    }
}

/// The texts joined end to end.
pub open spec fn concat(ts: Seq<Seq<char>>) -> Seq<char>
    decreases ts.len(),
{
    if ts.len() == 0 {
        seq![]
    } else {
        concat(ts.drop_last()) + ts.last()
    }
}

/// A stream in progress, as a value.
pub struct StreamView {
    pub parser: SseState,
    pub text: Seq<char>,
    pub error: Option<Seq<char>>,
    pub cancelled: bool,
    pub done: bool,
}

/// A streamed reply in progress.
pub struct ChatStream {
    parser: SseParser,
    result: StreamResult,
    done: bool,
}

impl View for ChatStream {
    type V = StreamView;

    closed spec fn view(&self) -> StreamView {
        StreamView {
            parser: self.parser@,
            text: self.result.text@,
            error: opt_string_view(self.result.error),
            cancelled: self.result.cancelled,
            done: self.done,
        }
    }
}

/// Appends each non-empty delta to `text` and to the list handed back.
fn take_deltas(payloads: &Vec<String>, stop_at_done: bool, text: &mut String) -> (r: (Vec<String>, bool))
    ensures
        forall|j: int| 0 <= j < r.0@.len() ==> (#[trigger] r.0@[j])@.len() > 0,
        stop_at_done ==> views(r.0@) == deltas_until_done(views(payloads@)).0 && r.1
            == deltas_until_done(views(payloads@)).1,
        !stop_at_done ==> views(r.0@) == all_deltas(views(payloads@)) && !r.1,
        final(text)@ == old(text)@ + concat(views(r.0@)),
{
    let ghost ps = views(payloads@);
    let mut out: Vec<String> = Vec::new();
    let mut i: usize = 0;
    assert(ps.skip(0) =~= ps);
    assert(views(out@) =~= Seq::<Seq<char>>::empty());
    while i < payloads.len()
        invariant
            ps == views(payloads@),
            i <= payloads@.len(),
            text@ == old(text)@ + concat(views(out@)),
            forall|j: int| 0 <= j < out@.len() ==> (#[trigger] out@[j])@.len() > 0,
            stop_at_done ==> forall|j: int| 0 <= j < i ==> ps[j] != "[DONE]"@,
            stop_at_done ==> deltas_until_done(ps) == (
                views(out@) + deltas_until_done(ps.skip(i as int)).0,
                deltas_until_done(ps.skip(i as int)).1,
            ),
            !stop_at_done ==> all_deltas(ps) == views(out@) + all_deltas(ps.skip(i as int)),
        decreases payloads.len() - i,
    {
        let ghost t = ps.skip(i as int);
        let ghost before = out@;
        assert(t[0] == payloads@[i as int]@);
        assert(t.drop_first() =~= ps.skip(i + 1));
        let p = payloads[i].as_str();
        if stop_at_done && str_eq(p, "[DONE]") {
            assert(views(out@) + Seq::<Seq<char>>::empty() =~= views(out@));
            return (out, true);
        }
        match extract_delta(p) {
            Some(d) => if !d.as_str().is_empty() {
                push_str(text, d.as_str());
                out.push(d);
                assert(views(out@) =~= views(before).push(views(out@).last()));
                assert(views(out@).drop_last() =~= views(before));
                assert(seq![views(out@).last()] + deltas_until_done(t.drop_first()).0
                    == seq![views(out@).last()] + deltas_until_done(t.drop_first()).0);
                assert(views(before) + (seq![views(out@).last()] + deltas_until_done(t.drop_first()).0)
                    =~= views(out@) + deltas_until_done(t.drop_first()).0);
                assert(views(before) + (seq![views(out@).last()] + all_deltas(t.drop_first()))
                    =~= views(out@) + all_deltas(t.drop_first()));
            },
            Some(_) => {},
            None => {},
        }
        i = i + 1;
    }
    assert(ps.skip(i as int).len() == 0);
    assert(views(out@) + Seq::<Seq<char>>::empty() =~= views(out@));
    (out, false)
}

impl ChatStream {
    /// A stream before any event.
    pub fn new() -> (s: ChatStream)
        ensures
            s@.parser == (SseState { buf: seq![], data: seq![] }),
            s@.text == Seq::<char>::empty(),
            s@.error is None,
            !s@.cancelled,
            !s@.done,
    {
        let s = ChatStream {
            parser: SseParser::new(),
            result: StreamResult { text: String::new(), error: None, cancelled: false },
            done: false,
        };
        s
    }

    /// Whether the stream has ended (`[DONE]`, an error, a cancellation or
    /// the end of the body).
    pub fn is_done(&self) -> (r: bool)
        ensures
            r == self@.done,
    {
        self.done
    }

    /// Bytes arrived: the non-empty deltas of the complete events, in order, up to
    /// the first `[DONE]` (which ends the stream; what follows it in the
    /// same bytes is dropped). The deltas are added to the text.
    pub fn on_bytes(&mut self, bytes: &[u8]) -> (deltas: Vec<String>)
        ensures
            forall|i: int| 0 <= i < deltas@.len() ==> (#[trigger] deltas@[i])@.len() > 0,
            ({
                let (events, st) = push_result(old(self)@.parser, bytes@);
                let (ds, saw_done) = deltas_until_done(events);
                &&& views(deltas@) == ds
                &&& final(self)@ == (StreamView {
                    parser: st,
                    text: old(self)@.text + concat(ds),
                    done: old(self)@.done || saw_done,
                    ..old(self)@
                })
            }),
    {
        let payloads = self.parser.push(bytes);
        let (deltas, saw_done) = take_deltas(&payloads, true, &mut self.result.text);
        if saw_done {
            self.done = true;
        }
        deltas
    }

    /// The connection failed: the stream ends with the error.
    pub fn on_error(&mut self, e: &str)
        ensures
            final(self)@ == (StreamView {
                error: Some("网络中断: "@ + e@),
                done: true,
                ..old(self)@
            }),
    {
        let mut m = String::new();
        push_str(&mut m, "网络中断: ");
        push_str(&mut m, e);
        self.result.error = Some(m);
        self.done = true;
    }

    /// The user cancelled: the stream ends as cancelled.
    pub fn on_cancel(&mut self)
        ensures
            final(self)@ == (StreamView { cancelled: true, done: true, ..old(self)@ }),
    {
        self.result.cancelled = true;
        self.done = true;
    }

    /// The body ended (without `[DONE]` this is still a normal end).
    pub fn on_eof(&mut self)
        ensures
            final(self)@ == (StreamView { done: true, ..old(self)@ }),
    {
        self.done = true;
    }

    /// Flushes what the parser still holds (an event without its final
    /// blank line) and hands back its non-empty deltas and the result; `[DONE]` is
    /// skipped here.
    pub fn finish(self) -> (r: (Vec<String>, StreamResult))
        ensures
            forall|i: int| 0 <= i < r.0@.len() ==> (#[trigger] r.0@[i])@.len() > 0,
            ({
                let (events, st) = finish_result(self@.parser);
                let ds = all_deltas(events);
                &&& views(r.0@) == ds
                &&& r.1.text@ == self@.text + concat(ds)
                &&& opt_string_view(r.1.error) == self@.error
                &&& r.1.cancelled == self@.cancelled
            }),
    {
        let mut s = self;
        let payloads = s.parser.finish();
        let (deltas, _) = take_deltas(&payloads, false, &mut s.result.text);
        (deltas, s.result)
    }
}

/// The stream failed to start: a result with no text and the error.
pub fn failed_result(message: String) -> (r: StreamResult)
    ensures
        r.text@ == Seq::<char>::empty(),
        r.error == Some(message),
        !r.cancelled,
{
    StreamResult { text: String::new(), error: Some(message), cancelled: false }
}

} // verus!
