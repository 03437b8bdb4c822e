//! Server-Sent Events decoding for the OpenAI streaming dialect.
//!
//! A stream is a sequence of events, each `data: <json>` followed by a blank
//! line, terminated by `data: [DONE]`.  The decoder is a pure function of the
//! bytes it was fed: a frame split across reads (even inside a multi-byte
//! character) is only decoded once its blank-line terminator has arrived,
//! and only `data:` lines carry payload — `event:`, `id:`, `retry:` and
//! comment lines are ignored.

use vstd::prelude::*;
use crate::text::{lossy_utf8, utf8_lossy};
use crate::scan::{chars_of, copy_range, trim, trim_exec, find_char, string_of, equals_str};
use vstd::string::StrSliceExecFns;

verus! {

broadcast use vstd::string::group_string_axioms;

/// One decoded event.
#[derive(Debug, Clone, PartialEq, Eq)]
pub enum SseEvent {
    /// A `data:` payload that was not the `[DONE]` sentinel.
    Data(String),
    /// The `data: [DONE]` sentinel: the stream is complete.
    Done,
}

/// The content of an [`SseEvent`].
pub enum SseItem {
    Data(Seq<char>),
    Done,
}

/// The content of an event.
pub open spec fn event_item(e: SseEvent) -> SseItem {
    match e {
        SseEvent::Data(s) => SseItem::Data(s@),
        SseEvent::Done => SseItem::Done,
    }
}

/// The contents of a list of events.
pub open spec fn event_items(v: Seq<SseEvent>) -> Seq<SseItem> {
    Seq::new(v.len(), |i: int| event_item(v[i]))
}

// ----------------------------------------------------------- framing ---

/// Length of the frame terminator starting at `i` (0 when there is none):
/// `\n\n`, `\n\r\n`, `\r\n\r\n` or `\r\r`.
pub open spec fn terminator_len(b: Seq<u8>, i: int) -> nat {
    if b[i] == 10u8 {
        if i + 1 < b.len() && b[i + 1] == 10u8 {
            2
        } else if i + 2 < b.len() && b[i + 1] == 13u8 && b[i + 2] == 10u8 {
            3
        } else {
            0
        }
    } else if b[i] == 13u8 {
        if i + 2 < b.len() && b[i + 1] == 10u8 && b[i + 2] == 13u8 {
            if i + 3 < b.len() && b[i + 3] == 10u8 {
                4
            } else {
                0
            }
        } else if i + 1 < b.len() && b[i + 1] == 13u8 {
            2
        } else {
            0
        }
    } else {
        0
    }
}

/// The first complete frame at or after `i`: where it ends and where the
/// next one starts.
pub open spec fn first_frame(b: Seq<u8>, i: int) -> Option<(int, int)>
    decreases b.len() - i,
{
    if i < 0 || i >= b.len() {
        None
    } else if terminator_len(b, i) > 0 {
        Some((i, i + terminator_len(b, i)))
    } else {
        first_frame(b, i + 1)
    }
}

pub proof fn lemma_first_frame(b: Seq<u8>, i: int)
    requires
        0 <= i,
    ensures
        first_frame(b, i) matches Some((e, n)) ==> i <= e && e + 2 <= n <= b.len()
            && terminator_len(b, e) == n - e,
    decreases b.len() - i,
{
    if i < b.len() && terminator_len(b, i) == 0 {
        lemma_first_frame(b, i + 1);
    }
}

fn terminator_len_exec(b: &Vec<u8>, i: usize) -> (r: usize)
    requires
        i < b.len(),
    ensures
        r == terminator_len(b@, i as int),
{
    let n = b.len();
    if b[i] == 10u8 {
        if n - i > 1 && b[i + 1] == 10u8 {
            2
        } else if n - i > 2 && b[i + 1] == 13u8 && b[i + 2] == 10u8 {
            3
        } else {
            0
        }
    } else if b[i] == 13u8 {
        if n - i > 2 && b[i + 1] == 10u8 && b[i + 2] == 13u8 {
            if n - i > 3 && b[i + 3] == 10u8 {
                4
            } else {
                0
            }
        } else if n - i > 1 && b[i + 1] == 13u8 {
            2
        } else {
            0
        }
    } else {
        0
    }
}

/// The first complete frame in `bytes`: `(frame_end, next_start)`.
pub fn find_frame_end(bytes: &Vec<u8>) -> (r: Option<(usize, usize)>)
    ensures
        match first_frame(bytes@, 0) {
            Some((e, n)) => r matches Some((a, b)) && a == e && b == n,
            None => r is None,
        },
{
    let mut i: usize = 0;
    while i < bytes.len()
        invariant
            i <= bytes.len(),
            first_frame(bytes@, i as int) == first_frame(bytes@, 0),
        decreases bytes.len() - i,
    {
        let t = terminator_len_exec(bytes, i);
        if t > 0 {
            return Some((i, i + t));
        }
        i = i + 1;
    }
    None
}

// ------------------------------------------------------------ frames ---

/// The pieces of `s[i..]` between `\n` separators (`str::split('\n')`):
/// one more piece than there are separators.
pub open spec fn split_lines(s: Seq<char>, i: int) -> Seq<Seq<char>>
    decreases s.len() - i,
    when 0 <= i <= s.len()
{
    let e = find_char(s, '\n', i);
    proof {
        crate::scan::lemma_find_char(s, '\n', i);
    }
    if e >= s.len() {
        seq![s.subrange(i, s.len() as int)]
    } else {
        seq![s.subrange(i, e)] + split_lines(s, e + 1)
    }
}

/// `line` without one trailing `\r`.
pub open spec fn strip_cr(line: Seq<char>) -> Seq<char> {
    if line.len() > 0 && line.last() == '\r' {
        line.drop_last()
    } else {
        line
    }
}

/// The payload a line contributes: `Some` for a `data:` line (one optional
/// leading space removed), `None` for blank, comment and other field lines.
pub open spec fn data_of_line(line: Seq<char>) -> Option<Seq<char>> {
    let l = strip_cr(line);
    if l.len() == 0 || l[0] == ':' {
        None
    } else if l.len() >= 5 && l.take(5) == "data:"@ {
        let rest = l.skip(5);
        if rest.len() > 0 && rest[0] == ' ' {
            Some(rest.skip(1))
        } else {
            Some(rest)
        }
    } else {
        None
    }
}

/// The `data:` payloads of the lines from `k` on.
pub open spec fn data_lines(lines: Seq<Seq<char>>, k: int) -> Seq<Seq<char>>
    decreases lines.len() - k,
{
    if k < 0 || k >= lines.len() {
        Seq::empty()
    } else {
        match data_of_line(lines[k]) {
            Some(d) => seq![d] + data_lines(lines, k + 1),
            None => data_lines(lines, k + 1),
        }
    }
}

/// The pieces joined with `\n` between them.
pub open spec fn join_lines(parts: Seq<Seq<char>>) -> Seq<char>
    decreases parts.len(),
{
    if parts.len() == 0 {
        Seq::empty()
    } else if parts.len() == 1 {
        parts[0]
    } else {
        join_lines(parts.drop_last()) + seq!['\n'] + parts.last()
    }
}

/// The event one frame decodes to, or `None` when it carries no payload.
pub open spec fn frame_event(frame: Seq<u8>) -> Option<SseItem> {
    let data = data_lines(split_lines(lossy_utf8(frame), 0), 0);
    if data.len() == 0 {
        None
    } else if trim(join_lines(data)) == "[DONE]"@ {
        Some(SseItem::Done)
    } else {
        Some(SseItem::Data(join_lines(data)))
    }
}

/// Drains every complete frame out of `b`: the events in order, what is
/// left buffered, and whether `[DONE]` closed the stream (in which case
/// nothing stays buffered).
pub open spec fn drain(b: Seq<u8>) -> (Seq<SseItem>, Seq<u8>, bool)
    decreases b.len(),
{
    match first_frame(b, 0) {
        None => (Seq::empty(), b, false),
        Some((e, n)) => {
            proof {
                lemma_first_frame(b, 0);
            }
            if n <= 0 || n > b.len() {
                (Seq::empty(), b, false)
            } else {
                let rest = b.skip(n);
                match frame_event(b.take(e)) {
                    Some(SseItem::Done) => (seq![SseItem::Done], Seq::empty(), true),
                    Some(item) => {
                        let (more, left, done) = drain(rest);
                        (seq![item] + more, left, done)
                    },
                    None => drain(rest),
                }
            }
        },
    }
}

fn line_data(line: &Vec<char>) -> (r: Option<Vec<char>>)
    ensures
        match data_of_line(line@) {
            Some(d) => r matches Some(v) && v@ == d,
            None => r is None,
        },
{
    let l = if line.len() > 0 && line[line.len() - 1] == '\r' {
        copy_range(line, 0, line.len() - 1)
    } else {
        copy_range(line, 0, line.len())
    };
    assert(l@ =~= strip_cr(line@));
    if l.len() == 0 || l[0] == ':' {
        return None;
    }
    proof {
        reveal_strlit("data:");
    }
    if crate::scan::has_prefix(&l, "data:") {
        let rest = copy_range(&l, 5, l.len());
        assert(rest@ =~= l@.skip(5));
        if rest.len() > 0 && rest[0] == ' ' {
            let r = copy_range(&rest, 1, rest.len());
            assert(r@ =~= rest@.skip(1));
            Some(r)
        } else {
            Some(rest)
        }
    } else {
        None
    }
}

/// Decodes one frame, or `None` for a frame without payload.
pub fn decode_frame(frame: &[u8]) -> (r: Option<SseEvent>)
    ensures
        match frame_event(frame@) {
            Some(item) => r matches Some(e) && event_item(e) == item,
            None => r is None,
        },
{
    let text = utf8_lossy(frame);
    let chars = chars_of(text.as_str());
    let ghost s = chars@;
    let mut data: Vec<Vec<char>> = Vec::new();
    let mut start: usize = 0;
    let ghost mut pieces: Seq<Seq<char>> = Seq::empty();
    loop
        invariant_except_break
            pieces + split_lines(s, start as int) == split_lines(s, 0),
            data.deep_view() + data_lines(split_lines(s, start as int), 0) == data_lines(
                split_lines(s, 0),
                0,
            ),
        invariant
            start <= chars.len(),
            s == chars@,
            s == lossy_utf8(frame@),
        ensures
            data.deep_view() == data_lines(split_lines(s, 0), 0),
        decreases chars.len() - start,
    {
        let mut e = start;
        while e < chars.len() && chars[e] != '\n'
            invariant
                start <= e <= chars.len(),
                find_char(s, '\n', e as int) == find_char(s, '\n', start as int),
                s == chars@,
            decreases chars.len() - e,
        {
            e = e + 1;
        }
        let line = copy_range(&chars, start, e);
        let ghost rest_pieces = split_lines(s, start as int);
        let ghost old_data = data.deep_view();
        proof {
            crate::scan::lemma_find_char(s, '\n', start as int);
            if e < chars.len() {
                assert(rest_pieces == seq![s.subrange(start as int, e as int)] + split_lines(
                    s,
                    e + 1,
                ));
                assert(data_lines(rest_pieces, 0) == match data_of_line(rest_pieces[0]) {
                    Some(d) => seq![d] + data_lines(rest_pieces, 1),
                    None => data_lines(rest_pieces, 1),
                });
                lemma_data_lines_shift(
                    seq![s.subrange(start as int, e as int)],
                    split_lines(s, e + 1),
                );
            } else {
                assert(rest_pieces == seq![s.subrange(start as int, s.len() as int)]);
            }
        }
        match line_data(&line) {
            Some(d) => {
                let ghost dv = d@;
                data.push(d);
                assert forall|k: int| 0 <= k < data.len() implies #[trigger] data.deep_view()[k]
                    == old_data.push(dv)[k] by {
                    if k < old_data.len() {
                    }
                }
                assert(data.deep_view() =~= old_data.push(dv));
            },
            None => {},
        }
        if e >= chars.len() {
            assert(data_lines(rest_pieces, 1) =~= Seq::<Seq<char>>::empty());
            assert(data.deep_view() =~= data_lines(split_lines(s, 0), 0));
            break;
        }
        proof {
            pieces = pieces.push(s.subrange(start as int, e as int));
            assert(pieces + split_lines(s, e + 1) =~= split_lines(s, 0));
            assert(data.deep_view() + data_lines(split_lines(s, e + 1), 0) =~= data_lines(
                split_lines(s, 0),
                0,
            ));
        }
        start = e + 1;
    }
    if data.len() == 0 {
        return None;
    }
    let payload = join_exec(&data);
    let trimmed = trim_exec(&payload);
    if equals_str(&trimmed, "[DONE]") {
        Some(SseEvent::Done)
    } else {
        Some(SseEvent::Data(string_of(&payload)))
    }
}

proof fn lemma_data_lines_shift(a: Seq<Seq<char>>, b: Seq<Seq<char>>)
    requires
        a.len() == 1,
    ensures
        data_lines(a + b, 1) == data_lines(b, 0),
{
    lemma_data_lines_offset(a + b, b, 1, 0);
}

proof fn lemma_data_lines_offset(x: Seq<Seq<char>>, y: Seq<Seq<char>>, k: int, j: int)
    requires
        0 <= j <= y.len(),
        k - j == x.len() - y.len(),
        k >= 0,
        forall|t: int| 0 <= t < y.len() ==> #[trigger] y[t] == x[t + k - j],
    ensures
        data_lines(x, k) == data_lines(y, j),
    decreases y.len() - j,
{
    if j < y.len() {
        assert(x[k] == y[j]);
        lemma_data_lines_offset(x, y, k + 1, j + 1);
    }
}

fn join_exec(parts: &Vec<Vec<char>>) -> (r: Vec<char>)
    requires
        parts.len() > 0,
    ensures
        r@ == join_lines(parts.deep_view()),
{
    let ghost pv = parts.deep_view();
    let mut out = copy_range(&parts[0], 0, parts[0].len());
    assert(pv.take(1).len() == 1);
    assert(out@ =~= join_lines(pv.take(1)));
    let mut k: usize = 1;
    while k < parts.len()
        invariant
            1 <= k <= parts.len(),
            pv == parts.deep_view(),
            out@ == join_lines(pv.take(k as int)),
        decreases parts.len() - k,
    {
        let ghost before = out@;
        out.push('\n');
        let mut j: usize = 0;
        let part = &parts[k];
        while j < part.len()
            invariant
                j <= part.len(),
                out@ == before + seq!['\n'] + part@.take(j as int),
            decreases part.len() - j,
        {
            out.push(part[j]);
            j = j + 1;
            assert(out@ =~= before + seq!['\n'] + part@.take(j as int));
        }
        assert(pv.take(k + 1).drop_last() =~= pv.take(k as int));
        assert(pv.take(k + 1).last() == part@);
        assert(part@.take(j as int) =~= part@);
        k = k + 1;
    }
    assert(pv.take(parts.len() as int) =~= pv);
    out
}

/// Incremental decoder: feed it bytes, get whole events back.
#[derive(Debug, Default)]
pub struct SseDecoder {
    /// Bytes not yet terminated by a blank line, kept as bytes so a
    /// character split across two reads survives.
    buffer: Vec<u8>,
    done: bool,
}

impl View for SseDecoder {
    /// What is buffered, and whether `[DONE]` has been seen.
    type V = (Seq<u8>, bool);

    closed spec fn view(&self) -> (Seq<u8>, bool) {
        (self.buffer@, self.done)
    }
}

/// What one `push` of `bytes` does to a decoder in state `state`: the events
/// it returns and the next state.  A closed decoder ignores everything.
pub open spec fn push_step(state: (Seq<u8>, bool), bytes: Seq<u8>) -> (Seq<SseItem>, (Seq<u8>, bool)) {
    if state.1 {
        (Seq::empty(), state)
    } else {
        let (items, left, done) = drain(state.0 + bytes);
        (items, (left, done))
    }
}

impl SseDecoder {
    /// An empty, open decoder.
    pub fn new() -> (d: Self)
        ensures
            d@ == (Seq::<u8>::empty(), false),
    {
        SseDecoder { buffer: Vec::new(), done: false }
    }

    /// True once `data: [DONE]` has been seen: whatever arrives afterwards is
    /// not part of this completion.
    pub fn is_done(&self) -> (r: bool)
        ensures
            r == self@.1,
    {
        self.done
    }

    /// Feeds one read; returns every event it completed.  Once `[DONE]` has
    /// been seen the decoder is closed and later bytes produce nothing.
    pub fn push(&mut self, bytes: &[u8]) -> (out: Vec<SseEvent>)
        ensures
            event_items(out@) == push_step(old(self)@, bytes@).0,
            final(self)@ == push_step(old(self)@, bytes@).1,
    {
        if self.done {
            let empty: Vec<SseEvent> = Vec::new();
            assert(event_items(empty@) =~= Seq::<SseItem>::empty());
            return empty;
        }
        let ghost start = self.buffer@;
        let mut k: usize = 0;
        while k < bytes.len()
            invariant
                k <= bytes.len(),
                self.buffer@ == start + bytes@.take(k as int),
                !self.done,
            decreases bytes.len() - k,
        {
            self.buffer.push(bytes[k]);
            k = k + 1;
            assert(self.buffer@ =~= start + bytes@.take(k as int));
        }
        assert(bytes@.take(bytes.len() as int) =~= bytes@);
        let ghost whole = drain(start + bytes@);
        let mut out: Vec<SseEvent> = Vec::new();
        loop
            invariant_except_break
                !self.done,
                event_items(out@) + drain(self.buffer@).0 == whole.0,
                drain(self.buffer@).1 == whole.1,
                drain(self.buffer@).2 == whole.2,
            invariant
                whole == drain(start + bytes@),
            ensures
                event_items(out@) == whole.0,
                self.buffer@ == whole.1,
                self.done == whole.2,
            decreases self.buffer@.len(),
        {
            proof {
                lemma_first_frame(self.buffer@, 0);
            }
            match find_frame_end(&self.buffer) {
                None => {
                    assert(event_items(out@) =~= event_items(out@) + Seq::<SseItem>::empty());
                    break;
                },
                Some((e, n)) => {
                    let ghost b = self.buffer@;
                    assert(e + 2 <= n <= b.len());
                    let mut rest = self.buffer.split_off(n);
                    assert(self.buffer@ =~= b.take(n as int));
                    self.buffer.truncate(e);
                    core::mem::swap(&mut self.buffer, &mut rest);
                    let frame = rest;
                    assert(frame@ =~= b.take(e as int));
                    assert(self.buffer@ =~= b.skip(n as int));
                    let ghost before = event_items(out@);
                    match decode_frame(frame.as_slice()) {
                        Some(event) => {
                            let closing = match event {
                                SseEvent::Done => true,
                                SseEvent::Data(_) => false,
                            };
                            let ghost item = event_item(event);
                            out.push(event);
                            assert(event_items(out@) =~= before.push(item));
                            if closing {
                                self.done = true;
                                self.buffer.clear();
                                assert(event_items(out@) =~= before + seq![SseItem::Done]);
                                break;
                            }
                            assert(item is Data);
                            assert(frame_event(b.take(e as int)) == Some(item));
                            assert(drain(b) == {
                                let (more, left, done) = drain(b.skip(n as int));
                                (seq![item] + more, left, done)
                            });
                            assert(drain(b).0 == seq![item] + drain(self.buffer@).0);
                            assert(event_items(out@) + drain(self.buffer@).0 =~= before + drain(
                                b,
                            ).0);
                        },
                        None => {},
                    }
                },
            }
        }
        out
    }

    /// Flushes a stream that ended without a trailing blank line: whatever
    /// the buffer holds is decoded as one last frame.  `[DONE]` there is
    /// returned but does not close the decoder.
    pub fn finish(&mut self) -> (out: Vec<SseEvent>)
        ensures
            final(self)@ == (Seq::<u8>::empty(), old(self)@.1),
            old(self)@.0.len() == 0 ==> out@.len() == 0,
            old(self)@.0.len() > 0 ==> match frame_event(old(self)@.0) {
                Some(item) => out@.len() == 1 && event_item(out@[0]) == item,
                None => out@.len() == 0,
            },
    {
        if self.buffer.len() == 0 {
            return Vec::new();
        }
        let mut frame: Vec<u8> = Vec::new();
        core::mem::swap(&mut self.buffer, &mut frame);
        let mut out = Vec::new();
        match decode_frame(frame.as_slice()) {
            Some(event) => {
                out.push(event);
            },
            None => {},
        }
        out
    }
}

// ------------------------------------------------------- stream objects ---

/// The `choices[].delta` half of a streaming chunk.
#[derive(Debug, Clone, Default)]
pub struct ChunkDelta {
    pub content: Option<String>,
    /// Reasoning models stream their scratchpad here, kept apart from the
    /// answer.
    pub reasoning_content: Option<String>,
}

/// One `choices[]` entry.
#[derive(Debug, Clone)]
pub struct ChunkChoice {
    pub delta: Option<ChunkDelta>,
    /// Some servers put the text here instead of in `delta`.
    pub text: Option<String>,
    pub finish_reason: Option<String>,
}

/// One streamed `chat.completion.chunk`.
#[derive(Debug, Clone, Default)]
pub struct ChatCompletionChunk {
    pub id: Option<String>,
    pub model: Option<String>,
    pub choices: Vec<ChunkChoice>,
    /// Present on the last chunk when the server honours
    /// `stream_options: {"include_usage": true}`.
    pub usage: Option<StreamUsage>,
}

/// Token accounting as the provider reports it.
#[derive(Debug, Clone, Copy, Default)]
pub struct StreamUsage {
    pub prompt_tokens: u64,
    pub completion_tokens: u64,
    /// `total_tokens` as sent (0 when absent).
    pub total_tokens_field: u64,
}

/// Token accounting in the form the event stream carries.
#[derive(Debug, Clone, Copy, Default, PartialEq, Eq)]
pub struct AiUsage {
    pub prompt_tokens: u64,
    pub completion_tokens: u64,
    pub total_tokens: u64,
}

/// `total_tokens` when the provider sent it, else the sum of the halves.
pub open spec fn spec_usage_total(u: StreamUsage) -> int {
    if u.total_tokens_field != 0 {
        u.total_tokens_field as int
    } else {
        u.prompt_tokens + u.completion_tokens
    }
}

impl StreamUsage {
    /// `total_tokens` when the provider sent it, else the sum of the two
    /// halves; a provider that reports nothing yields zero.
    pub fn total(&self) -> (t: u64)
        requires
            spec_usage_total(*self) <= u64::MAX,
        ensures
            t == spec_usage_total(*self),
    {
        if self.total_tokens_field != 0 {
            self.total_tokens_field
        } else {
            self.prompt_tokens + self.completion_tokens
        }
    }

    /// The usage as the event stream reports it.
    pub fn to_ai_usage(self) -> (u: AiUsage)
        requires
            spec_usage_total(self) <= u64::MAX,
        ensures
            u.prompt_tokens == self.prompt_tokens,
            u.completion_tokens == self.completion_tokens,
            u.total_tokens == spec_usage_total(self),
    {
        AiUsage {
            prompt_tokens: self.prompt_tokens,
            completion_tokens: self.completion_tokens,
            total_tokens: self.total(),
        }
    }
}

/// The text one choice contributes: its delta's content, then its `text`.
pub open spec fn choice_text(c: ChunkChoice) -> Seq<char> {
    let from_delta = match c.delta {
        Some(d) => match d.content {
            Some(t) => t@,
            None => Seq::empty(),
        },
        None => Seq::empty(),
    };
    let from_text = match c.text {
        Some(t) => t@,
        None => Seq::empty(),
    };
    from_delta + from_text
}

/// The text of the choices from `k` on, concatenated.
pub open spec fn choices_text(choices: Seq<ChunkChoice>, k: int) -> Seq<char>
    decreases choices.len() - k,
{
    if k < 0 || k >= choices.len() {
        Seq::empty()
    } else {
        choice_text(choices[k]) + choices_text(choices, k + 1)
    }
}

/// The text (if any) one chunk contributes to the answer.  A chunk that only
/// carries a role, a finish reason or usage contributes nothing, so it must
/// not become an empty chunk event.
pub fn chunk_text(chunk: &ChatCompletionChunk) -> (r: Option<String>)
    ensures
        ({
            let t = choices_text(chunk.choices@, 0);
            if t.len() == 0 {
                r is None
            } else {
                r matches Some(s) && s@ == t
            }
        }),
{
    let mut out = String::new();
    let mut k: usize = 0;
    while k < chunk.choices.len()
        invariant
            k <= chunk.choices.len(),
            out@ + choices_text(chunk.choices@, k as int) == choices_text(chunk.choices@, 0),
        decreases chunk.choices.len() - k,
    {
        let choice = &chunk.choices[k];
        let ghost before = out@;
        match &choice.delta {
            Some(delta) => match &delta.content {
                Some(content) => {
                    crate::text::push_str(&mut out, content.as_str());
                },
                None => {},
            },
            None => {},
        }
        match &choice.text {
            Some(text) => {
                crate::text::push_str(&mut out, text.as_str());
            },
            None => {},
        }
        assert(out@ =~= before + choice_text(chunk.choices@[k as int]));
        assert(out@ + choices_text(chunk.choices@, k + 1) =~= before + choices_text(
            chunk.choices@,
            k as int,
        ));
        k = k + 1;
    }
    assert(out@ =~= choices_text(chunk.choices@, 0));
    if out.as_str().unicode_len() == 0 {
        None
    } else {
        Some(out)
    }
}

// --------------------------------------------------------------- laws ---

/// A terminator found inside `x` is found the same way in `x + y`, and no
/// earlier position turns into a terminator when more bytes arrive.
proof fn lemma_terminator_stable(x: Seq<u8>, y: Seq<u8>, i: int, e: int)
    requires
        0 <= i <= e < x.len(),
        terminator_len(x, e) > 0,
        e + terminator_len(x, e) <= x.len(),
        i < e ==> terminator_len(x, i) == 0,
    ensures
        terminator_len(x + y, i) == terminator_len(x, i),
{
    let z = x + y;
    assert(z[i] == x[i]);
    if i + 1 < x.len() {
        assert(z[i + 1] == x[i + 1]);
    }
    if i + 2 < x.len() {
        assert(z[i + 2] == x[i + 2]);
    }
    if i + 3 < x.len() {
        assert(z[i + 3] == x[i + 3]);
    }
    if e + 1 < x.len() {
        assert(x[e + 1] == z[e + 1]);
    }
    if e + 2 < x.len() {
        assert(x[e + 2] == z[e + 2]);
    }
}

proof fn lemma_first_frame_stable(x: Seq<u8>, y: Seq<u8>, i: int)
    requires
        0 <= i,
        first_frame(x, i) is Some,
    ensures
        first_frame(x + y, i) == first_frame(x, i),
    decreases x.len() - i,
{
    lemma_first_frame(x, i);
    let (e, _) = first_frame(x, i)->0;
    if i < x.len() {
        if terminator_len(x, i) > 0 {
            lemma_terminator_stable(x, y, i, i);
        } else {
            lemma_terminator_stable(x, y, i, e);
            lemma_first_frame_stable(x, y, i + 1);
        }
    }
}

/// What a second read adds to the outcome `d` of draining the first.
pub open spec fn drain_more(d: (Seq<SseItem>, Seq<u8>, bool), y: Seq<u8>) -> (
    Seq<SseItem>,
    Seq<u8>,
    bool,
) {
    if d.2 {
        (d.0, Seq::empty(), true)
    } else {
        let (more, left, done) = drain(d.1 + y);
        (d.0 + more, left, done)
    }
}

proof fn lemma_drain_append(x: Seq<u8>, y: Seq<u8>)
    ensures
        drain(x + y) == drain_more(drain(x), y),
    decreases x.len(),
{
    lemma_first_frame(x, 0);
    match first_frame(x, 0) {
        None => {
            assert(Seq::<SseItem>::empty() + drain(x + y).0 =~= drain(x + y).0);
        },
        Some((e, n)) => {
            lemma_first_frame_stable(x, y, 0);
            assert((x + y).take(e) =~= x.take(e));
            assert((x + y).skip(n) =~= x.skip(n) + y);
            lemma_drain_append(x.skip(n), y);
            match frame_event(x.take(e)) {
                Some(SseItem::Done) => {},
                Some(item) => {
                    let (more, left, done) = drain(x.skip(n));
                    if !done {
                        let (m2, l2, d2) = drain(left + y);
                        assert(seq![item] + (more + m2) =~= (seq![item] + more) + m2);
                    }
                },
                None => {},
            }
        },
    }
}

/// Feeding a stream in two reads gives the same events, and leaves the
/// decoder in the same state, as feeding it in one read: a frame split
/// across reads (even inside a multi-byte character) is decoded exactly
/// once, after its terminator arrives.
pub proof fn law_split_reads_decode_once(state: (Seq<u8>, bool), a: Seq<u8>, b: Seq<u8>)
    ensures
        push_step(push_step(state, a).1, b).1 == push_step(state, a + b).1,
        push_step(state, a).0 + push_step(push_step(state, a).1, b).0 == push_step(state, a + b).0,
{
    if state.1 {
        assert(Seq::<SseItem>::empty() + Seq::<SseItem>::empty() =~= Seq::<SseItem>::empty());
    } else {
        lemma_drain_append(state.0 + a, b);
        assert(state.0 + (a + b) =~= (state.0 + a) + b);
        let d = drain(state.0 + a);
        law_done_is_last(state.0 + a);
        if d.2 {
            assert(d.0 + Seq::<SseItem>::empty() =~= d.0);
            assert(d.1 =~= Seq::<u8>::empty());
        }
    }
}

/// Nothing comes out of a closed decoder, and it stays closed.
pub proof fn law_nothing_after_done(buffer: Seq<u8>, bytes: Seq<u8>)
    ensures
        push_step((buffer, true), bytes).0.len() == 0,
        push_step((buffer, true), bytes).1 == (buffer, true),
{
}

/// When `[DONE]` closes the stream, it is the last event and nothing stays
/// buffered.
pub proof fn law_done_is_last(b: Seq<u8>)
    ensures
        drain(b).2 ==> drain(b).0.len() > 0 && drain(b).0.last() == SseItem::Done && drain(b).1.len()
            == 0,
    decreases b.len(),
{
    lemma_first_frame(b, 0);
    match first_frame(b, 0) {
        None => {},
        Some((e, n)) => {
            law_done_is_last(b.skip(n));
        },
    }
}

} // verus!
