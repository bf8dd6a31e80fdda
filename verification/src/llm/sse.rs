//! Server-sent-events parser: only `data:` lines count, a blank line ends
//! an event, lines may be split across chunks, CRLF is accepted, several
//! `data:` lines join with a newline, and `finish` flushes what is left.

use vstd::prelude::*;
use vstd::utf8::{decode_utf8, encode_utf8, valid_utf8};

use crate::json::{jv_array, jv_get, jv_index, jv_str, parse_json_text, parsed_json, Json, JsonV};
use crate::text::{join, push_chars, push_str, str_eq, views};

verus! {

/// Payload limit for one event: beyond it the buffers are dropped.
pub const MAX_EVENT_BYTES: usize = 262144;

/// What `String::from_utf8_lossy` makes of bytes that are not valid UTF-8
/// (each invalid sequence replaced by U+FFFD).
pub uninterp spec fn utf8_lossy_invalid(b: Seq<u8>) -> Seq<char>;

/// `String::from_utf8_lossy`: valid UTF-8 decodes as it is.
pub open spec fn utf8_lossy(b: Seq<u8>) -> Seq<char> {
    if valid_utf8(b) {
        decode_utf8(b)
    } else {
        utf8_lossy_invalid(b)
    }
}

/// Calls `String::from_utf8_lossy(b).into_owned()`. Claimed: valid UTF-8
/// gives the characters it encodes; what invalid bytes give (replacement
/// characters) is left to the name `utf8_lossy_invalid`.
#[verifier::external_body]
pub(crate) fn lossy_string(b: &[u8]) -> (s: String)
    ensures
        s@ == utf8_lossy(b@),
        !valid_utf8(b@) ==> s@ == utf8_lossy_invalid(b@),
{
    String::from_utf8_lossy(b).into_owned()
}

/// Parser state as a value: the unfinished line and the data lines of the
/// current event.
pub struct SseState {
    pub buf: Seq<u8>,
    pub data: Seq<Seq<char>>,
}

/// The bytes `data:`.
pub open spec fn data_prefix() -> Seq<u8> {
    seq![100u8, 97u8, 116u8, 97u8, 58u8]
}

/// The payload of one completed event.
pub open spec fn event_payload(data: Seq<Seq<char>>) -> Seq<char> {
    join(data, seq!['\n'])
}

/// One complete line: a blank line ends the event, a `data:` line adds its
/// value (one leading space dropped), any other line is ignored.
pub open spec fn line_event(line: Seq<u8>, data: Seq<Seq<char>>) -> (Seq<Seq<char>>, Seq<Seq<char>>) {
    if line.len() == 0 {
        if data.len() > 0 {
            (seq![event_payload(data)], seq![])
        } else {
            (seq![], data)
        }
    } else if line.len() >= 5 && line.take(5) == data_prefix() {
        let rest = line.skip(5);
        let value = if rest.len() > 0 && rest[0] == 32u8 {
            rest.skip(1)
        } else {
            rest
        };
        (seq![], data.push(utf8_lossy(value)))
    } else {
        (seq![], data)
    }
}

/// A line without its trailing carriage return.
pub open spec fn strip_cr(line: Seq<u8>) -> Seq<u8> {
    if line.len() > 0 && line.last() == 13u8 {
        line.drop_last()
    } else {
        line
    }
}

/// Feeds one byte.
pub open spec fn step(st: SseState, b: u8) -> (Seq<Seq<char>>, SseState) {
    if b == 10u8 {
        let (ev, data) = line_event(strip_cr(st.buf), st.data);
        (ev, SseState { buf: seq![], data })
    } else {
        (seq![], SseState { buf: st.buf.push(b), data: st.data })
    }
}

/// Feeds a run of bytes, collecting the completed events.
pub open spec fn run(st: SseState, bytes: Seq<u8>) -> (Seq<Seq<char>>, SseState)
    decreases bytes.len(),
{
    if bytes.len() == 0 {
        (seq![], st)
    } else {
        let (e1, s1) = run(st, bytes.drop_last());
        let (e2, s2) = step(s1, bytes.last());
        (e1 + e2, s2)
    }
}

/// Byte length of a text, as `str::len` reports it.
pub open spec fn byte_len(t: Seq<char>) -> int {
    (encode_utf8(t).len() as usize) as int
}

/// Bytes held for the current event: the open line plus each data line
/// and two bytes of framing per line.
pub open spec fn data_bytes(data: Seq<Seq<char>>) -> int
    decreases data.len(),
{
    if data.len() == 0 {
        0
    } else {
        data_bytes(data.drop_last()) + byte_len(data.last()) + 2
    }
}

/// Whether pushing `n` more bytes would exceed the event limit.
pub open spec fn over_limit(st: SseState, n: int) -> bool {
    st.buf.len() + data_bytes(st.data) + n > MAX_EVENT_BYTES
}

/// What `push` does: past the limit everything buffered is dropped and no
/// event comes out; otherwise the bytes are fed one by one.
pub open spec fn push_result(st: SseState, bytes: Seq<u8>) -> (Seq<Seq<char>>, SseState) {
    if over_limit(st, bytes.len() as int) {
        (seq![], SseState { buf: seq![], data: seq![] })
    } else {
        run(st, bytes)
    }
}

/// What `finish` does: the open line (if any) is handled without a line
/// end, then a pending event is emitted.
pub open spec fn finish_result(st: SseState) -> (Seq<Seq<char>>, SseState) {
    let (e1, d1) = if st.buf.len() > 0 {
        line_event(st.buf, st.data)
    } else {
        (seq![], st.data)
    };
    if d1.len() > 0 {
        (e1.push(event_payload(d1)), SseState { buf: seq![], data: seq![] })
    } else {
        (e1, SseState { buf: seq![], data: seq![] })
    }
}

/// Incremental SSE parser.
pub struct SseParser {
    buf: Vec<u8>,
    data_lines: Vec<String>,
}

impl View for SseParser {
    type V = SseState;

    closed spec fn view(&self) -> SseState {
        SseState { buf: self.buf@, data: views(self.data_lines@) }
    }
}


/// The payload of the pending event.
fn join_lines(data: &Vec<String>) -> (r: String)
    ensures
        r@ == event_payload(views(data@)),
{
    let ghost parts = views(data@);
    let mut out = String::new();
    let mut i: usize = 0;
    while i < data.len()
        invariant
            parts == views(data@),
            0 <= i <= data.len(),
            out@ == join(parts.take(i as int), seq!['\n']),
        decreases data.len() - i,
    {
        let ghost before = out@;
        if i > 0 {
            push_chars(&mut out, &['\n']);
        }
        push_str(&mut out, data[i].as_str());
        proof {
            let t = parts.take(i + 1);
            assert(t.drop_last() =~= parts.take(i as int));
            assert(t.last() == data@[i as int]@);
            if i == 0 {
                assert(out@ =~= data@[0]@);
            } else {
                assert(out@ =~= before + seq!['\n'] + data@[i as int]@);
            }
        }
        i = i + 1;
    }
    assert(parts.take(data.len() as int) =~= parts);
    out
}

/// A copy of `b` from index `k` on.
fn bytes_from(b: &[u8], k: usize) -> (r: Vec<u8>)
    requires
        k <= b@.len(),
    ensures
        r@ == b@.skip(k as int),
{
    let mut r: Vec<u8> = Vec::new();
    let mut i = k;
    while i < b.len()
        invariant
            k <= i <= b.len(),
            r@ == b@.subrange(k as int, i as int),
        decreases b.len() - i,
    {
        r.push(b[i]);
        assert(b@.subrange(k as int, i as int).push(b@[i as int]) =~= b@.subrange(k as int, i + 1));
        i = i + 1;
    }
    assert(b@.subrange(k as int, b.len() as int) =~= b@.skip(k as int));
    r
}

/// Capped byte count: the exact count when it is at most `cap`, else `cap`.
pub open spec fn capped(n: int, cap: int) -> int {
    if n <= cap {
        n
    } else {
        cap
    }
}

impl Default for SseParser {
    fn default() -> (p: SseParser)
        ensures
            p@.buf == Seq::<u8>::empty(),
            p@.data == Seq::<Seq<char>>::empty(),
    {
        SseParser::new()
    }
}

impl SseParser {
    /// An empty parser.
    pub fn new() -> (p: SseParser)
        ensures
            p@.buf == Seq::<u8>::empty(),
            p@.data == Seq::<Seq<char>>::empty(),
    {
        let p = SseParser { buf: Vec::new(), data_lines: Vec::new() };
        assert(views(p.data_lines@) =~= Seq::<Seq<char>>::empty());
        p
    }

    /// Handles one complete line.
    fn feed_line(&mut self, line: &[u8], events: &mut Vec<String>)
        ensures
            final(self)@.buf == old(self)@.buf,
            final(self)@.data == line_event(line@, old(self)@.data).1,
            views(final(events)@) == views(old(events)@) + line_event(
                line@,
                old(self)@.data,
            ).0,
    {
        let ghost ev0 = views(events@);
        if line.len() == 0 {
            if self.data_lines.len() > 0 {
                let payload = join_lines(&self.data_lines);
                events.push(payload);
                self.data_lines = Vec::new();
                assert(views(events@) =~= ev0 + seq![event_payload(old(self)@.data)]);
                assert(views(self.data_lines@) =~= Seq::<Seq<char>>::empty());
            } else {
                assert(views(events@) =~= ev0 + Seq::<Seq<char>>::empty());
            }
            return;
        }
        let is_data = line.len() >= 5 && line[0] == 100u8 && line[1] == 97u8 && line[2] == 116u8
            && line[3] == 97u8 && line[4] == 58u8;
        assert(is_data == (line@.len() >= 5 && line@.take(5) == data_prefix())) by {
            if line@.len() >= 5 && line@.take(5) == data_prefix() {
                assert(line@.take(5)[0] == line@[0]);
                assert(line@.take(5)[1] == line@[1]);
                assert(line@.take(5)[2] == line@[2]);
                assert(line@.take(5)[3] == line@[3]);
                assert(line@.take(5)[4] == line@[4]);
            }
            if is_data {
                assert(line@.take(5) =~= data_prefix());
            }
        }
        if is_data {
            let start: usize = if line.len() > 5 && line[5] == 32u8 { 6 } else { 5 };
            let value = bytes_from(line, start);
            assert(value@ =~= if line@.skip(5).len() > 0 && line@.skip(5)[0] == 32u8 {
                line@.skip(5).skip(1)
            } else {
                line@.skip(5)
            });
            let text = lossy_string(value.as_slice());
            let ghost d0 = views(self.data_lines@);
            self.data_lines.push(text);
            assert(views(self.data_lines@) =~= d0.push(utf8_lossy(value@)));
        }
        assert(views(events@) =~= ev0 + line_event(line@, old(self)@.data).0);
    }

    /// Bytes held for the current event, capped just above the limit.
    fn pending_bytes(&self) -> (n: usize)
        ensures
            n == capped(self@.buf.len() + data_bytes(self@.data), MAX_EVENT_BYTES + 1),
    {
        let cap: usize = MAX_EVENT_BYTES + 1;
        let mut acc: usize = if self.buf.len() > cap { cap } else { self.buf.len() };
        let ghost d = self@.data;
        let mut i: usize = 0;
        proof {
            assert(d.take(0) =~= Seq::<Seq<char>>::empty());
        }
        while i < self.data_lines.len()
            invariant
                d == self@.data,
                d == views(self.data_lines@),
                cap == MAX_EVENT_BYTES + 1,
                0 <= i <= self.data_lines.len(),
                acc == capped(self@.buf.len() + data_bytes(d.take(i as int)), cap as int),
            decreases self.data_lines.len() - i,
        {
            let l = self.data_lines[i].as_str().len();
            proof {
                assert(d.take(i + 1).drop_last() =~= d.take(i as int));
                assert(d.take(i + 1).last() == self.data_lines@[i as int]@);
                assert(data_bytes(d.take(i as int)) >= 0) by {
                    lemma_data_bytes_nonneg(d.take(i as int));
                }
            }
            if acc == cap || l >= cap - acc || 2 > cap - acc - l {
                acc = cap;
            } else {
                acc = acc + l + 2;
            }
            i = i + 1;
        }
        assert(d.take(self.data_lines.len() as int) =~= d);
        acc
    }

    /// Pushes bytes and returns the payloads of the events they complete.
    pub fn push(&mut self, bytes: &[u8]) -> (events: Vec<String>)
        ensures
            (views(events@), final(self)@) == push_result(old(self)@, bytes@),
    {
        let pending = self.pending_bytes();
        if pending > MAX_EVENT_BYTES || bytes.len() > MAX_EVENT_BYTES - pending {
            self.buf = Vec::new();
            self.data_lines = Vec::new();
            let events: Vec<String> = Vec::new();
            assert(views(events@) =~= Seq::<Seq<char>>::empty());
            assert(views(self.data_lines@) =~= Seq::<Seq<char>>::empty());
            assert(self@.buf =~= Seq::<u8>::empty());
            return events;
        }
        let ghost st0 = self@;
        let mut events: Vec<String> = Vec::new();
        let mut i: usize = 0;
        assert(bytes@.take(0) =~= Seq::<u8>::empty());
        assert(views(events@) =~= Seq::<Seq<char>>::empty());
        while i < bytes.len()
            invariant
                0 <= i <= bytes.len(),
                (views(events@), self@) == run(st0, bytes@.take(i as int)),
            decreases bytes.len() - i,
        {
            let b = bytes[i];
            proof {
                assert(bytes@.take(i + 1).drop_last() =~= bytes@.take(i as int));
                assert(bytes@.take(i + 1).last() == b);
            }
            let ghost ev_before = views(events@);
            let ghost st_before = self@;
            if b == 10u8 {
                let mut line: Vec<u8> = Vec::new();
                core::mem::swap(&mut line, &mut self.buf);
                if line.len() > 0 && line[line.len() - 1] == 13u8 {
                    line.pop();
                }
                assert(line@ =~= strip_cr(st_before.buf));
                self.feed_line(line.as_slice(), &mut events);
                assert(self@.buf =~= Seq::<u8>::empty());
            } else {
                self.buf.push(b);
                assert(views(events@) =~= ev_before + Seq::<Seq<char>>::empty());
            }
            i = i + 1;
        }
        assert(bytes@.take(bytes.len() as int) =~= bytes@);
        events
    }

    /// End of stream: handles the unterminated last line and emits the
    /// pending event.
    pub fn finish(&mut self) -> (events: Vec<String>)
        ensures
            (views(events@), final(self)@) == finish_result(old(self)@),
    {
        let ghost st0 = self@;
        let mut events: Vec<String> = Vec::new();
        if self.buf.len() > 0 {
            let mut line: Vec<u8> = Vec::new();
            core::mem::swap(&mut line, &mut self.buf);
            self.feed_line(line.as_slice(), &mut events);
        }
        assert(views(events@) =~= (if st0.buf.len() > 0 {
            line_event(st0.buf, st0.data)
        } else {
            (seq![], st0.data)
        }).0);
        if self.data_lines.len() > 0 {
            let payload = join_lines(&self.data_lines);
            let ghost ev1 = views(events@);
            events.push(payload);
            assert(views(events@) =~= ev1.push(event_payload(self@.data)));
        }
        self.data_lines = Vec::new();
        self.buf = Vec::new();
        assert(views(self.data_lines@) =~= Seq::<Seq<char>>::empty());
        assert(self@.buf =~= Seq::<u8>::empty());
        events
    }
}

proof fn lemma_data_bytes_nonneg(d: Seq<Seq<char>>)
    ensures
        data_bytes(d) >= 0,
    decreases d.len(),
{
    if d.len() > 0 {
        lemma_data_bytes_nonneg(d.drop_last());
    }
}


/// Feeding `a` and then `b` gives the same events and state as feeding
/// `a + b` at once.
pub proof fn lemma_run_concat(st: SseState, a: Seq<u8>, b: Seq<u8>)
    ensures
        run(st, a + b) == ({
            let (e1, s1) = run(st, a);
            let (e2, s2) = run(s1, b);
            (e1 + e2, s2)
        }),
    decreases b.len(),
{
    if b.len() == 0 {
        assert(a + b =~= a);
        let (e1, s1) = run(st, a);
        assert(e1 + Seq::<Seq<char>>::empty() =~= e1);
    } else {
        lemma_run_concat(st, a, b.drop_last());
        assert((a + b).drop_last() =~= a + b.drop_last());
        assert((a + b).last() == b.last());
        let (e1, s1) = run(st, a);
        let (e2, s2) = run(s1, b.drop_last());
        let (e3, s3) = step(s2, b.last());
        assert(e1 + e2 + e3 =~= e1 + (e2 + e3));
    }
}

/// Chunk boundaries do not matter: when neither push nor the combined push
/// reaches the event limit, pushing `a` then `b` yields the events of
/// pushing `a + b`, and leaves the same state.
pub proof fn lemma_push_split(st: SseState, a: Seq<u8>, b: Seq<u8>)
    requires
        !over_limit(st, a.len() as int),
        !over_limit(push_result(st, a).1, b.len() as int),
        !over_limit(st, (a + b).len() as int),
    ensures
        push_result(st, a + b) == ({
            let (e1, s1) = push_result(st, a);
            let (e2, s2) = push_result(s1, b);
            (e1 + e2, s2)
        }),
{
    lemma_run_concat(st, a, b);
}


/// A stretch of valid UTF-8 that starts and ends where no continuation
/// byte stands is valid UTF-8 itself.
proof fn lemma_valid_range(w: Seq<u8>, p: int, q: int)
    requires
        valid_utf8(w),
        0 <= p <= q <= w.len(),
        p < q ==> !vstd::utf8::is_continuation_byte(w[p]),
        q < w.len() ==> !vstd::utf8::is_continuation_byte(w[q]),
    ensures
        valid_utf8(w.subrange(p, q)),
{
    if p == q {
        assert(w.subrange(p, q).len() == 0);
    } else {
        vstd::utf8::is_char_boundary_start_end_of_seq(w);
        if q < w.len() {
            vstd::utf8::is_char_boundary_iff_not_is_continuation_byte(w, q);
        }
        vstd::utf8::valid_utf8_split(w, q);
        let u = w.subrange(0, q);
        assert(u[p] == w[p]);
        vstd::utf8::is_char_boundary_iff_not_is_continuation_byte(u, p);
        vstd::utf8::valid_utf8_split(u, p);
        assert(u.subrange(p, u.len() as int) =~= w.subrange(p, q));
    }
}

/// Dropping ASCII bytes from the front of valid UTF-8 leaves valid UTF-8.
proof fn lemma_skip_ascii(l: Seq<u8>, n: int)
    requires
        valid_utf8(l),
        0 <= n <= l.len(),
        forall|i: int| 0 <= i < n ==> #[trigger] l[i] < 0x80,
    ensures
        valid_utf8(l.skip(n)),
    decreases n,
{
    if n == 0 {
        assert(l.skip(0) =~= l);
    } else {
        assert(l[0] < 0x80);
        assert(vstd::utf8::length_of_first_scalar(l) == 1);
        let t = vstd::utf8::pop_first_scalar(l);
        assert(t =~= l.skip(1));
        assert forall|i: int| 0 <= i < n - 1 implies #[trigger] t[i] < 0x80 by {
            assert(t[i] == l[i + 1]);
        }
        lemma_skip_ascii(t, n - 1);
        assert(t.skip(n - 1) =~= l.skip(n));
    }
}

/// The empty parser state.
pub open spec fn empty_state() -> SseState {
    SseState { buf: seq![], data: seq![] }
}

/// Feeding a prefix of valid UTF-8 to a fresh parser: the open line is the
/// tail of the prefix, and what is held for the event is no more than the
/// bytes fed.
proof fn lemma_run_held(w: Seq<u8>, k: int)
    requires
        valid_utf8(w),
        w.len() <= MAX_EVENT_BYTES,
        0 <= k <= w.len(),
    ensures
        ({
            let s = run(empty_state(), w.take(k)).1;
            &&& s.buf.len() <= k
            &&& s.buf =~= w.subrange(k - s.buf.len(), k)
            &&& s.buf.len() + data_bytes(s.data) <= k
        }),
    decreases k,
{
    let x = w.take(k);
    if k == 0 {
        assert(x.len() == 0);
    } else {
        lemma_run_held(w, k - 1);
        assert(x.drop_last() =~= w.take(k - 1));
        assert(x.last() == w[k - 1]);
        let s1 = run(empty_state(), w.take(k - 1)).1;
        let b = w[k - 1];
        let n1 = s1.buf.len() as int;
        let s0 = k - 1 - n1;
        lemma_data_bytes_nonneg(s1.data);
        if b != 10u8 {
            assert(s1.buf.push(b) =~= w.subrange(k - (n1 + 1), k));
        } else {
            let line = strip_cr(s1.buf);
            let q = s0 + line.len();
            assert(line =~= w.subrange(s0, q));
            if line.len() >= 5 && line.take(5) == data_prefix() {
                assert(line[0] == 100u8);
                assert(w[s0] == line[0]);
                assert(q == k - 1 || (q == k - 2 && w[q] == 13u8));
                lemma_valid_range(w, s0, q);
                let rest = line.skip(5);
                let m: int = if rest.len() > 0 && rest[0] == 32u8 { 6 } else { 5 };
                let value = line.skip(m);
                assert forall|i: int| 0 <= i < m implies #[trigger] line[i] < 0x80 by {
                    if i < 5 {
                        assert(line[i] == line.take(5)[i]);
                    } else {
                        assert(line[i] == rest[0]);
                    }
                }
                lemma_skip_ascii(line, m);
                assert(value =~= if rest.len() > 0 && rest[0] == 32u8 { rest.skip(1) } else { rest });
                vstd::utf8::decode_utf8_encode_utf8(value);
                assert(utf8_lossy(value) == decode_utf8(value));
                assert(encode_utf8(decode_utf8(value)).len() == value.len());
                assert(byte_len(utf8_lossy(value)) == value.len());
                let d2 = s1.data.push(utf8_lossy(value));
                assert(d2.drop_last() =~= s1.data);
                assert(data_bytes(d2) == data_bytes(s1.data) + value.len() + 2);
            }
        }
    }
}

/// Chunk boundaries do not matter for a fresh parser fed valid UTF-8 that
/// fits the event limit: pushing `a` then `b` yields the events of pushing
/// `a + b`, and leaves the same state.
pub proof fn lemma_push_split_fresh(a: Seq<u8>, b: Seq<u8>)
    requires
        valid_utf8(a + b),
        (a + b).len() <= MAX_EVENT_BYTES,
    ensures
        push_result(empty_state(), a + b) == ({
            let (e1, s1) = push_result(empty_state(), a);
            let (e2, s2) = push_result(s1, b);
            (e1 + e2, s2)
        }),
{
    let w = a + b;
    lemma_run_held(w, a.len() as int);
    assert(w.take(a.len() as int) =~= a);
    lemma_data_bytes_nonneg(empty_state().data);
    lemma_push_split(empty_state(), a, b);
}

/// `choices[0].delta.content` of a parsed chunk, when it is a string.
pub open spec fn delta_of(v: JsonV) -> Option<Seq<char>> {
    match jv_array(jv_index(v, "choices"@)) {
        Some(a) => if a.len() > 0 {
            match jv_get(a[0], "delta"@) {
                Some(d) => match jv_get(d, "content"@) {
                    Some(c) => jv_str(c),
                    None => None,
                },
                None => None,
            }
        } else {
            None
        },
        None => None,
    }
}

/// The content delta of an event payload: none for `[DONE]`, for text that
/// does not parse, and for chunks without `choices[0].delta.content`.
pub open spec fn payload_delta(payload: Seq<char>) -> Option<Seq<char>> {
    if payload == "[DONE]"@ {
        None
    } else {
        match parsed_json(payload) {
            Some(v) => delta_of(v),
            None => None,
        }
    }
}

/// `choices[0].delta.content` of a parsed chunk (role-only and
/// finish-reason chunks have none).
pub fn delta_from_json(v: &Json) -> (r: Option<String>)
    ensures
        match r {
            Some(s) => delta_of(v@) == Some(s@),
            None => delta_of(v@) is None,
        },
{
    broadcast use crate::json::lemma_seq_view;

    let choices = match v.get("choices") {
        Some(c) => c,
        None => {
            return None;
        },
    };
    let arr = match choices.as_array() {
        Some(a) => a,
        None => {
            return None;
        },
    };
    proof {
        crate::json::lemma_seq_view(arr@);
    }
    if arr.len() == 0 {
        return None;
    }
    assert(crate::json::seq_view(arr@)[0] == arr@[0]@);
    let delta = match arr[0].get("delta") {
        Some(d) => d,
        None => {
            return None;
        },
    };
    let content = match delta.get("content") {
        Some(c) => c,
        None => {
            return None;
        },
    };
    match content.as_str() {
        Some(s) => Some(s.clone()),
        None => None,
    }
}

/// The content delta carried by an event payload.
pub fn extract_delta(payload: &str) -> (r: Option<String>)
    ensures
        match r {
            Some(s) => payload_delta(payload@) == Some(s@),
            None => payload_delta(payload@) is None,
        },
{
    if str_eq(payload, "[DONE]") {
        return None;
    }
    match parse_json_text(payload) {
        Ok(v) => delta_from_json(&v),
        Err(_) => None,
    }
}

} // verus!
