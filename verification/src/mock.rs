//! What a local mock OpenAI-compatible server is told to answer: a status,
//! a body, and how to deliver it, and the exact script of writes and pauses
//! that delivery comes to.  The server itself (sockets, threads) runs
//! outside the library and follows the script.

use vstd::prelude::*;
use vstd::utf8::encode_utf8;
use crate::text::{push_str, push_hex, push_decimal, spec_hex, spec_decimal, lossy_utf8, utf8_lossy};
use crate::scan::{
    ascii_lower, ascii_lower_exec, chars_of, copy_range, find_char, find_char_exec, line_end,
    lemma_line_end, parse_unsigned, parse_unsigned_exec, rstrip_newline, trim, trim_exec,
};

verus! {

broadcast use vstd::string::group_string_axioms;

/// How the mock delivers the body it was given.  Durations are in
/// milliseconds.
#[derive(Debug, Clone, PartialEq, Eq)]
pub enum Delivery {
    /// One write with everything.
    Whole,
    /// Write the bytes, then stall before closing.
    WholeThenStall(u64),
    /// Stall before sending anything at all.
    DelayBeforeHeaders(u64),
    /// `Transfer-Encoding: chunked`, one SSE line per chunk.
    ChunkedSse,
    /// Advertise more `Content-Length` than will ever be sent, then close.
    Truncated(usize),
    /// Refuse the connection instead of accepting it.
    Refuse,
    /// One SSE line per write with a pause between lines, then hold the
    /// connection open for `tail`.
    SlowSse { per_line: u64, tail: u64 },
}

/// What the mock answers with.
#[derive(Debug, Clone)]
pub struct MockResponse {
    pub status: u16,
    pub reason: String,
    pub content_type: String,
    pub body: Vec<u8>,
    pub delivery: Delivery,
}

fn text_from(s: &str) -> (r: String)
    ensures
        r@ == s@,
{
    let mut r = String::new();
    push_str(&mut r, s);
    r
}

/// The reason phrase the mock prints for a status.
pub open spec fn spec_reason_for(status: u16) -> Seq<char> {
    if status == 200 {
        "OK"@
    } else if status == 401 {
        "Unauthorized"@
    } else if status == 403 {
        "Forbidden"@
    } else if status == 404 {
        "Not Found"@
    } else if status == 408 {
        "Request Timeout"@
    } else if status == 429 {
        "Too Many Requests"@
    } else if status == 500 {
        "Internal Server Error"@
    } else if status == 502 {
        "Bad Gateway"@
    } else if status == 503 {
        "Service Unavailable"@
    } else {
        "Unknown"@
    }
}

/// The reason phrase for a status.
pub fn reason_for(status: u16) -> (r: &'static str)
    ensures
        r@ == spec_reason_for(status),
{
    match status {
        200 => "OK",
        401 => "Unauthorized",
        403 => "Forbidden",
        404 => "Not Found",
        408 => "Request Timeout",
        429 => "Too Many Requests",
        500 => "Internal Server Error",
        502 => "Bad Gateway",
        503 => "Service Unavailable",
        _ => "Unknown",
    }
}

impl MockResponse {
    /// `200 OK`, an event-stream body, delivered whole.
    pub fn ok_sse(body: Vec<u8>) -> (r: Self)
        ensures
            r.status == 200,
            r.reason@ == "OK"@,
            r.content_type@ == "text/event-stream"@,
            r.body@ == body@,
            r.delivery == Delivery::Whole,
    {
        MockResponse {
            status: 200,
            reason: text_from("OK"),
            content_type: text_from("text/event-stream"),
            body,
            delivery: Delivery::Whole,
        }
    }

    /// An event-stream body whose lines arrive one at a time, `per_line`
    /// apart, the connection then held open for `tail`.
    pub fn slow_sse(body: Vec<u8>, per_line: u64, tail: u64) -> (r: Self)
        ensures
            r.status == 200,
            r.reason@ == "OK"@,
            r.content_type@ == "text/event-stream"@,
            r.body@ == body@,
            r.delivery == (Delivery::SlowSse { per_line, tail }),
    {
        MockResponse {
            status: 200,
            reason: text_from("OK"),
            content_type: text_from("text/event-stream"),
            body,
            delivery: Delivery::SlowSse { per_line, tail },
        }
    }

    /// A JSON body with the given status and its reason phrase.
    pub fn json(status: u16, body: String) -> (r: Self)
        ensures
            r.status == status,
            r.reason@ == spec_reason_for(status),
            r.content_type@ == "application/json"@,
            r.body@ == vstd::utf8::encode_utf8(body@),
            r.delivery == Delivery::Whole,
    {
        let encoded = body.as_str().as_bytes();
        let mut bytes: Vec<u8> = Vec::new();
        let mut i: usize = 0;
        while i < encoded.len()
            invariant
                i <= encoded.len(),
                bytes@ == encoded@.take(i as int),
            decreases encoded.len() - i,
        {
            bytes.push(encoded[i]);
            i = i + 1;
            assert(bytes@ =~= encoded@.take(i as int));
        }
        assert(encoded@.take(encoded.len() as int) =~= encoded@);
        MockResponse {
            status,
            reason: text_from(reason_for(status)),
            content_type: text_from("application/json"),
            body: bytes,
            delivery: Delivery::Whole,
        }
    }

    /// The same response delivered another way.
    pub fn with_delivery(self, delivery: Delivery) -> (r: Self)
        ensures
            r.status == self.status,
            r.reason@ == self.reason@,
            r.content_type@ == self.content_type@,
            r.body@ == self.body@,
            r.delivery == delivery,
    {
        MockResponse { delivery, ..self }
    }
}

// ---------------------------------------------------------------- script ---

/// One step of serving a connection.
#[derive(Debug, Clone, PartialEq, Eq)]
pub enum WireStep {
    /// Write these bytes (and flush); a failed write ends the connection.
    Write(Vec<u8>),
    /// Sleep this many milliseconds.
    PauseMillis(u64),
    /// Sleep this many microseconds.
    PauseMicros(u64),
    /// Keep the connection open until this many milliseconds have passed.
    Hold(u64),
    /// Shut the connection down.
    Close,
}

/// The content of a step.
pub enum WireView {
    Write(Seq<u8>),
    PauseMillis(u64),
    PauseMicros(u64),
    Hold(u64),
    Close,
}

impl View for WireStep {
    type V = WireView;

    open spec fn view(&self) -> WireView {
        match self {
            WireStep::Write(b) => WireView::Write(b@),
            WireStep::PauseMillis(n) => WireView::PauseMillis(*n),
            WireStep::PauseMicros(n) => WireView::PauseMicros(*n),
            WireStep::Hold(n) => WireView::Hold(*n),
            WireStep::Close => WireView::Close,
        }
    }
}

/// The contents of a script.
pub open spec fn wire_views(v: Seq<WireStep>) -> Seq<WireView> {
    Seq::new(v.len(), |i: int| v[i]@)
}

/// Where the line starting at `i` ends: just past its `\n`, or at the end.
pub open spec fn line_stop(b: Seq<u8>, i: int) -> int
    decreases b.len() - i,
{
    if i >= b.len() {
        b.len() as int
    } else if b[i] == 10 {
        i + 1
    } else {
        line_stop(b, i + 1)
    }
}

/// The lines of `b` from `i`, each with its `\n` (`split_inclusive`).
pub open spec fn lines_from(b: Seq<u8>, i: int) -> Seq<Seq<u8>>
    decreases b.len() - i,
{
    if i < 0 || i >= b.len() {
        Seq::empty()
    } else {
        let j = line_stop(b, i);
        if j <= i || j > b.len() {
            Seq::empty()
        } else {
            seq![b.subrange(i, j)] + lines_from(b, j)
        }
    }
}

/// The 64-byte pieces of `b` from `i` (the last one shorter).
pub open spec fn pieces_from(b: Seq<u8>, i: int) -> Seq<Seq<u8>>
    decreases b.len() - i,
{
    if i < 0 || i >= b.len() {
        Seq::empty()
    } else {
        let j = if i + 64 < b.len() {
            i + 64
        } else {
            b.len() as int
        };
        seq![b.subrange(i, j)] + pieces_from(b, j)
    }
}

/// `text`'s bytes.
pub open spec fn ascii_bytes(text: Seq<char>) -> Seq<u8> {
    encode_utf8(text)
}

/// One chunked frame per line: its size in hex, the line, a CRLF.
pub open spec fn chunk_frames(lines: Seq<Seq<u8>>) -> Seq<WireView>
    decreases lines.len(),
{
    if lines.len() == 0 {
        Seq::empty()
    } else {
        chunk_frames(lines.drop_last()) + seq![
            WireView::Write(ascii_bytes(spec_hex(lines.last().len()) + "\r\n"@)),
            WireView::Write(lines.last()),
            WireView::Write(ascii_bytes("\r\n"@)),
        ]
    }
}

/// Each piece written, then a pause.
pub open spec fn paced(pieces: Seq<Seq<u8>>, pause: WireView) -> Seq<WireView>
    decreases pieces.len(),
{
    if pieces.len() == 0 {
        Seq::empty()
    } else {
        paced(pieces.drop_last(), pause) + seq![WireView::Write(pieces.last()), pause]
    }
}

/// The response head the mock sends.
pub open spec fn head_text(status: u16, reason: Seq<char>, content_type: Seq<char>, body_len: nat, delivery: Delivery) -> Seq<char> {
    "HTTP/1.1 "@ + spec_decimal(status as nat) + " "@ + reason + "\r\nContent-Type: "@ + content_type
        + match delivery {
        Delivery::ChunkedSse => "\r\nTransfer-Encoding: chunked"@,
        Delivery::Truncated(advertised) => "\r\nContent-Length: "@ + spec_decimal(advertised as nat),
        _ => "\r\nContent-Length: "@ + spec_decimal(body_len),
    } + "\r\nConnection: close\r\n\r\n"@
}

/// The pause between 64-byte pieces of a stalled body: a twentieth of the
/// stall, at least 5 ms, in microseconds (sticking at `u64::MAX`).
pub open spec fn stall_pause(delay: u64) -> u64 {
    let us = if delay * 50 > u64::MAX { u64::MAX as int } else { delay * 50 };
    if us < 5000 {
        5000
    } else {
        us as u64
    }
}

/// What is written after the head, by delivery.
pub open spec fn body_steps(body: Seq<u8>, delivery: Delivery) -> Seq<WireView> {
    match delivery {
        Delivery::ChunkedSse => chunk_frames(lines_from(body, 0)) + seq![
            WireView::Write(ascii_bytes("0\r\n\r\n"@)),
        ],
        Delivery::Truncated(advertised) => {
            let limit = if advertised == 0 { 0 } else { advertised - 1 };
            seq![WireView::Write(body.take(if body.len() < limit { body.len() as int } else { limit }))]
        },
        Delivery::WholeThenStall(delay) => paced(
            pieces_from(body, 0),
            WireView::PauseMicros(stall_pause(delay)),
        ) + seq![WireView::Hold(delay)],
        Delivery::SlowSse { per_line, tail } => paced(
            lines_from(body, 0),
            WireView::PauseMillis(per_line),
        ) + seq![WireView::Hold(tail)],
        _ => seq![WireView::Write(body)],
    }
}

/// The whole script for one connection: an optional wait before the head,
/// a refusal, or the head, the body as the delivery shapes it, and the
/// shutdown.
pub open spec fn spec_script(
    status: u16,
    reason: Seq<char>,
    content_type: Seq<char>,
    body: Seq<u8>,
    delivery: Delivery,
) -> Seq<WireView> {
    let before = match delivery {
        Delivery::DelayBeforeHeaders(d) => seq![WireView::PauseMillis(d)],
        _ => Seq::empty(),
    };
    if delivery is Refuse {
        before + seq![WireView::Close]
    } else {
        before + seq![
            WireView::Write(ascii_bytes(head_text(status, reason, content_type, body.len(), delivery))),
        ] + body_steps(body, delivery) + seq![WireView::Close]
    }
}

fn bytes_of(text: &str) -> (r: Vec<u8>)
    ensures
        r@ == encode_utf8(text@),
{
    let encoded = text.as_bytes();
    let mut bytes: Vec<u8> = Vec::new();
    let mut i: usize = 0;
    while i < encoded.len()
        invariant
            i <= encoded.len(),
            bytes@ == encoded@.take(i as int),
        decreases encoded.len() - i,
    {
        bytes.push(encoded[i]);
        i = i + 1;
        assert(bytes@ =~= encoded@.take(i as int));
    }
    assert(encoded@.take(encoded.len() as int) =~= encoded@);
    bytes
}

fn copy_bytes(b: &Vec<u8>, lo: usize, hi: usize) -> (r: Vec<u8>)
    requires
        lo <= hi <= b@.len(),
    ensures
        r@ == b@.subrange(lo as int, hi as int),
{
    let mut out: Vec<u8> = Vec::new();
    let mut i = lo;
    while i < hi
        invariant
            lo <= i <= hi,
            hi <= b@.len(),
            out@ == b@.subrange(lo as int, i as int),
        decreases hi - i,
    {
        out.push(b[i]);
        i = i + 1;
        assert(out@ =~= b@.subrange(lo as int, i as int));
    }
    out
}

fn next_line_stop(b: &Vec<u8>, i: usize) -> (j: usize)
    requires
        i < b@.len(),
    ensures
        j == line_stop(b@, i as int),
        i < j <= b@.len(),
{
    let mut k = i;
    while k < b.len() && b[k] != 10
        invariant
            i <= k <= b@.len(),
            line_stop(b@, k as int) == line_stop(b@, i as int),
        decreases b.len() - k,
    {
        k = k + 1;
    }
    if k < b.len() {
        k + 1
    } else {
        k
    }
}

proof fn lemma_views_push(v: Seq<WireStep>, s: WireStep)
    ensures
        wire_views(v.push(s)) == wire_views(v).push(s@),
{
    assert(wire_views(v.push(s)) =~= wire_views(v).push(s@));
}

/// The exact writes and pauses that serve `response` (see [`spec_script`]).
pub fn script(response: &MockResponse) -> (r: Vec<WireStep>)
    ensures
        wire_views(r@) == spec_script(
            response.status,
            response.reason@,
            response.content_type@,
            response.body@,
            response.delivery,
        ),
{
    let mut out: Vec<WireStep> = Vec::new();
    assert(wire_views(out@) =~= Seq::<WireView>::empty());
    match response.delivery {
        Delivery::DelayBeforeHeaders(d) => {
            proof { lemma_views_push(out@, WireStep::PauseMillis(d)); }
            out.push(WireStep::PauseMillis(d));
        },
        _ => {},
    }
    if let Delivery::Refuse = response.delivery {
        proof { lemma_views_push(out@, WireStep::Close); }
        out.push(WireStep::Close);
        return out;
    }
    let mut head = String::new();
    push_str(&mut head, "HTTP/1.1 ");
    push_decimal(&mut head, response.status as u64);
    push_str(&mut head, " ");
    push_str(&mut head, response.reason.as_str());
    push_str(&mut head, "\r\nContent-Type: ");
    push_str(&mut head, response.content_type.as_str());
    match response.delivery {
        Delivery::ChunkedSse => {
            push_str(&mut head, "\r\nTransfer-Encoding: chunked");
        },
        Delivery::Truncated(advertised) => {
            push_str(&mut head, "\r\nContent-Length: ");
            push_decimal(&mut head, advertised as u64);
        },
        _ => {
            push_str(&mut head, "\r\nContent-Length: ");
            push_decimal(&mut head, response.body.len() as u64);
        },
    }
    push_str(&mut head, "\r\nConnection: close\r\n\r\n");
    assert(head@ =~= head_text(
        response.status,
        response.reason@,
        response.content_type@,
        response.body@.len(),
        response.delivery,
    ));
    let head_step = WireStep::Write(bytes_of(head.as_str()));
    proof { lemma_views_push(out@, head_step); }
    out.push(head_step);
    let body = &response.body;
    let mut steps: Vec<WireStep> = Vec::new();
    match response.delivery {
        Delivery::ChunkedSse => {
            let mut i: usize = 0;
            let mut lines: Ghost<Seq<Seq<u8>>> = Ghost(Seq::empty());
            while i < body.len()
                invariant
                    i <= body@.len(),
                    lines@ + lines_from(body@, i as int) == lines_from(body@, 0),
                    wire_views(steps@) == chunk_frames(lines@),
                decreases body.len() - i,
            {
                let j = next_line_stop(body, i);
                let line = copy_bytes(body, i, j);
                let mut size = String::new();
                push_hex(&mut size, (j - i) as u64);
                push_str(&mut size, "\r\n");
                let ghost l = body@.subrange(i as int, j as int);
                steps.push(WireStep::Write(bytes_of(size.as_str())));
                steps.push(WireStep::Write(line));
                steps.push(WireStep::Write(bytes_of("\r\n")));
                proof {
                    let nl = lines@.push(l);
                    assert(nl.drop_last() =~= lines@);
                    assert(wire_views(steps@) =~= chunk_frames(lines@) + seq![
                        WireView::Write(ascii_bytes(spec_hex(l.len()) + "\r\n"@)),
                        WireView::Write(l),
                        WireView::Write(ascii_bytes("\r\n"@)),
                    ]);
                    assert(lines_from(body@, i as int) == seq![l] + lines_from(body@, j as int));
                    assert(nl + lines_from(body@, j as int) =~= lines@ + lines_from(body@, i as int));
                    lines@ = nl;
                }
                i = j;
            }
            assert(lines@ =~= lines_from(body@, 0));
            let end = WireStep::Write(bytes_of("0\r\n\r\n"));
            proof { lemma_views_push(steps@, end); }
            steps.push(end);
        },
        Delivery::Truncated(advertised) => {
            let limit = if advertised == 0 { 0 } else { advertised - 1 };
            let take = if body.len() < limit { body.len() } else { limit };
            let piece = copy_bytes(body, 0, take);
            assert(piece@ =~= body@.take(take as int));
            let step = WireStep::Write(piece);
            proof { lemma_views_push(steps@, step); }
            steps.push(step);
        },
        Delivery::WholeThenStall(delay) => {
            let us: u64 = if delay > u64::MAX / 50 { u64::MAX } else { delay * 50 };
            let pause = if us < 5000 { 5000 } else { us };
            assert(pause == stall_pause(delay));
            let mut i: usize = 0;
            let mut pieces: Ghost<Seq<Seq<u8>>> = Ghost(Seq::empty());
            while i < body.len()
                invariant
                    i <= body@.len(),
                    pieces@ + pieces_from(body@, i as int) == pieces_from(body@, 0),
                    wire_views(steps@) == paced(pieces@, WireView::PauseMicros(pause)),
                decreases body.len() - i,
            {
                let j = if body.len() - i > 64 { i + 64 } else { body.len() };
                let piece = copy_bytes(body, i, j);
                let ghost p = body@.subrange(i as int, j as int);
                steps.push(WireStep::Write(piece));
                steps.push(WireStep::PauseMicros(pause));
                proof {
                    let np = pieces@.push(p);
                    assert(np.drop_last() =~= pieces@);
                    assert(wire_views(steps@) =~= paced(pieces@, WireView::PauseMicros(pause)) + seq![
                        WireView::Write(p),
                        WireView::PauseMicros(pause),
                    ]);
                    assert(pieces_from(body@, i as int) == seq![p] + pieces_from(body@, j as int));
                    assert(np + pieces_from(body@, j as int) =~= pieces@ + pieces_from(body@, i as int));
                    pieces@ = np;
                }
                i = j;
            }
            assert(pieces@ =~= pieces_from(body@, 0));
            proof { lemma_views_push(steps@, WireStep::Hold(delay)); }
            steps.push(WireStep::Hold(delay));
        },
        Delivery::SlowSse { per_line, tail } => {
            let mut i: usize = 0;
            let mut lines: Ghost<Seq<Seq<u8>>> = Ghost(Seq::empty());
            while i < body.len()
                invariant
                    i <= body@.len(),
                    lines@ + lines_from(body@, i as int) == lines_from(body@, 0),
                    wire_views(steps@) == paced(lines@, WireView::PauseMillis(per_line)),
                decreases body.len() - i,
            {
                let j = next_line_stop(body, i);
                let line = copy_bytes(body, i, j);
                let ghost l = body@.subrange(i as int, j as int);
                steps.push(WireStep::Write(line));
                steps.push(WireStep::PauseMillis(per_line));
                proof {
                    let nl = lines@.push(l);
                    assert(nl.drop_last() =~= lines@);
                    assert(wire_views(steps@) =~= paced(lines@, WireView::PauseMillis(per_line)) + seq![
                        WireView::Write(l),
                        WireView::PauseMillis(per_line),
                    ]);
                    assert(lines_from(body@, i as int) == seq![l] + lines_from(body@, j as int));
                    assert(nl + lines_from(body@, j as int) =~= lines@ + lines_from(body@, i as int));
                    lines@ = nl;
                }
                i = j;
            }
            assert(lines@ =~= lines_from(body@, 0));
            proof { lemma_views_push(steps@, WireStep::Hold(tail)); }
            steps.push(WireStep::Hold(tail));
        },
        _ => {
            let all = copy_bytes(body, 0, body.len());
            assert(all@ =~= body@);
            let step = WireStep::Write(all);
            proof { lemma_views_push(steps@, step); }
            steps.push(step);
        },
    }
    assert(wire_views(steps@) == body_steps(response.body@, response.delivery));
    out.append(&mut steps);
    proof { lemma_views_push(out@, WireStep::Close); }
    out.push(WireStep::Close);
    out
}

// --------------------------------------------------------------- request ---

/// Where the request head ends: just past the first `\r\n\r\n` at or
/// after `i`, if there is one.
pub open spec fn head_end_from(b: Seq<u8>, i: int) -> Option<int>
    decreases b.len() - i,
{
    if i < 0 || i + 4 > b.len() {
        None
    } else if b[i] == 13 && b[i + 1] == 10 && b[i + 2] == 13 && b[i + 3] == 10 {
        Some(i + 4)
    } else {
        head_end_from(b, i + 1)
    }
}

/// The value of the first header line from `i` on that is
/// `content-length` (ASCII case-insensitively) with a value that parses as
/// a `usize` once trimmed; 0 when there is none.
pub open spec fn declared_length_from(s: Seq<char>, i: int) -> nat
    decreases s.len() - i,
{
    if i < 0 || i >= s.len() {
        0
    } else {
        let e = line_end(s, i);
        if e <= i || e > s.len() {
            0
        } else {
            let line = s.subrange(i, rstrip_newline(s, i, e));
            let colon = find_char(line, ':', 0);
            let found = if colon < line.len() && ascii_lower(line.take(colon)) == "content-length"@ {
                parse_unsigned(trim(line.skip(colon + 1)), 10, usize::MAX as nat)
            } else {
                Err(crate::scan::IntErrorKind::Empty)
            };
            match found {
                Ok(n) => n,
                Err(_) => declared_length_from(s, e),
            }
        }
    }
}

/// A request is complete once its head has ended and the body its
/// `Content-Length` declares has arrived (the head read as lossy UTF-8).
pub open spec fn spec_request_complete(b: Seq<u8>) -> bool {
    match head_end_from(b, 0) {
        Some(end) => b.len() >= end + declared_length_from(lossy_utf8(b.take(end)), 0),
        None => false,
    }
}

fn rstrip_newline_exec(v: &Vec<char>, lo: usize, j: usize) -> (r: usize)
    requires
        lo <= j <= v@.len(),
    ensures
        r == rstrip_newline(v@, lo as int, j as int),
        lo <= r <= j,
{
    let mut k = j;
    while k > lo && (v[k - 1] == '\n' || v[k - 1] == '\r')
        invariant
            lo <= k <= j,
            j <= v@.len(),
            rstrip_newline(v@, lo as int, k as int) == rstrip_newline(v@, lo as int, j as int),
        decreases k - lo,
    {
        k = k - 1;
    }
    k
}

fn declared_length(s: &Vec<char>) -> (r: u64)
    ensures
        r == declared_length_from(s@, 0),
{
    let mut i: usize = 0;
    while i < s.len()
        invariant
            i <= s@.len(),
            declared_length_from(s@, i as int) == declared_length_from(s@, 0),
        decreases s.len() - i,
    {
        proof {
            lemma_line_end(s@, i as int);
        }
        let mut e = i;
        while e < s.len() && s[e] != '\n'
            invariant
                i <= e <= s@.len(),
                line_end(s@, e as int) == line_end(s@, i as int),
            decreases s.len() - e,
        {
            e = e + 1;
        }
        let e = if e < s.len() {
            e + 1
        } else {
            e
        };
        let stop = rstrip_newline_exec(s, i, e);
        let line = copy_range(s, i, stop);
        match find_char_exec(&line, ':') {
            Some(colon) => {
                let name = ascii_lower_exec(&copy_range(&line, 0, colon));
                assert(line@.take(colon as int) =~= line@.subrange(0, colon as int));
                if crate::scan::equals_str(&name, "content-length") {
                    let value = trim_exec(&copy_range(&line, colon + 1, line.len()));
                    assert(line@.skip(colon + 1) =~= line@.subrange(colon + 1, line@.len() as int));
                    match parse_unsigned_exec(&value, 10, usize::MAX as u64) {
                        Ok(n) => {
                            return n;
                        },
                        Err(_) => {},
                    }
                }
            },
            None => {},
        }
        i = e;
    }
    0
}

fn find_head_end(buf: &Vec<u8>) -> (r: Option<usize>)
    ensures
        match r {
            Some(e) => head_end_from(buf@, 0) == Some(e as int) && e <= buf@.len(),
            None => head_end_from(buf@, 0) is None,
        },
{
    let mut i: usize = 0;
    while i < buf.len() && buf.len() - i >= 4
        invariant
            i <= buf@.len(),
            head_end_from(buf@, i as int) == head_end_from(buf@, 0),
        decreases buf.len() - i,
    {
        if buf[i] == 13 && buf[i + 1] == 10 && buf[i + 2] == 13 && buf[i + 3] == 10 {
            return Some(i + 4);
        }
        i = i + 1;
    }
    None
}

/// Has `buf` received a whole request (see [`spec_request_complete`])?
pub fn request_complete(buf: &Vec<u8>) -> (r: bool)
    ensures
        r == spec_request_complete(buf@),
{
    match find_head_end(buf) {
        None => false,
        Some(end) => {
            let head = copy_bytes(buf, 0, end);
            assert(head@ =~= buf@.take(end as int));
            let text = utf8_lossy(head.as_slice());
            let n = declared_length(&chars_of(text.as_str()));
            ((buf.len() - end) as u64) >= n
        },
    }
}

} // verus!
