//! Reading an HTTP/1.1 response one socket read at a time.
//!
//! The socket belongs to the caller: it hands every read to
//! [`ResponseReader::on_read`] (and the end of the stream to
//! [`ResponseReader::on_close`]) and is told whether more bytes are needed,
//! what the body bytes of that read were, and, at the end, the response or
//! the failure.  The framing decisions live here: where the header block
//! ends, how large it may grow, the body's framing (`chunked`,
//! `Content-Length`, or "until the peer closes"), and the ceiling on the
//! whole response.

use vstd::prelude::*;
use crate::contract::{ErrorCode, PrincessError, Failure};
use crate::http::{
    find_blank_line, find_header_end, parse_response_head, spec_response_head, chunked_from,
    chunked_partial_from, decode_chunked, decode_chunked_partial, ChunkedOutcome, ChunkedState,
    HttpResponse, ResponseHead, MAX_RESPONSE_BYTES,
};
use crate::monitor::pairs_view;
use crate::text::{push_str, push_decimal, spec_decimal};
use crate::error_map::{for_malformed, for_transport};

verus! {

broadcast use vstd::string::group_string_axioms;

/// Largest header block accepted before the reply is called malformed.
pub const MAX_HEADER_BYTES: usize = 262144;

/// What a parsed head says: status, reason, headers, chunked framing, and
/// the declared `Content-Length`.
pub type HeadFacts = (u16, Seq<char>, Seq<(Seq<char>, Seq<char>)>, bool, Option<nat>);

/// The failure for a reply this engine cannot parse.
pub open spec fn malformed_reply(context: Seq<char>, detail: Seq<char>) -> Failure {
    Failure {
        code: ErrorCode::AiUnavailable,
        message: "AI provider sent a reply this engine cannot parse ("@ + context + ")"@,
        detail: Some(detail),
    }
}

/// The failure for a transport that ended too early.
pub open spec fn unreachable_provider(context: Seq<char>, detail: Seq<char>) -> Failure {
    Failure {
        code: ErrorCode::AiUnavailable,
        message: "AI provider is unreachable ("@ + context + ")"@,
        detail: Some(detail),
    }
}

/// The failure for a response larger than [`MAX_RESPONSE_BYTES`].
pub open spec fn over_ceiling(context: Seq<char>) -> Failure {
    malformed_reply(
        context,
        "response exceeds the "@ + spec_decimal(MAX_RESPONSE_BYTES as nat)
            + "-byte ceiling this engine allows"@,
    )
}

/// What a step of the reader answers.
pub enum ReadAnswer {
    /// Read again.
    NeedMore,
    /// The response is complete, with this body.
    Done(Seq<u8>),
    /// The exchange failed.
    Failed(Failure),
}

/// Is the body complete, given the head?  A chunked body is complete once
/// the zero-size chunk arrived (a bad size line fails it), a body with a
/// `Content-Length` once that many bytes arrived (extra bytes are dropped),
/// and any other body only when the peer closes.
pub open spec fn body_answer(h: HeadFacts, body: Seq<u8>) -> ReadAnswer {
    if h.3 {
        match chunked_from(body, 0, Seq::empty()) {
            ChunkedOutcome::Complete(d) => ReadAnswer::Done(d),
            ChunkedOutcome::NeedMore => ReadAnswer::NeedMore,
            ChunkedOutcome::Malformed(m) => ReadAnswer::Failed(
                malformed_reply("chunked response body"@, m),
            ),
        }
    } else if h.4 is Some && body.len() >= h.4->0 {
        ReadAnswer::Done(body.take(h.4->0 as int))
    } else {
        ReadAnswer::NeedMore
    }
}

/// The reader's state: before the head, the header bytes so far; after it,
/// the parsed head and the body bytes so far.
pub struct ReaderView {
    pub head: Option<HeadFacts>,
    pub bytes: Seq<u8>,
    pub finished: bool,
}

/// One read of `bytes`: the reader after it, its answer, and the body bytes
/// that read contributed (all the body bytes that came with the head, when
/// the head completes in it).
pub open spec fn read_step(v: ReaderView, bytes: Seq<u8>) -> (ReaderView, ReadAnswer, Seq<u8>) {
    match v.head {
        None => if v.bytes.len() + bytes.len() > MAX_RESPONSE_BYTES {
            (
                ReaderView { finished: true, ..v },
                ReadAnswer::Failed(over_ceiling("reading the response headers"@)),
                Seq::empty(),
            )
        } else {
            let b = v.bytes + bytes;
            let e = find_blank_line(b, 0);
            if e >= b.len() {
                if b.len() > MAX_HEADER_BYTES {
                    (
                        ReaderView { head: None, bytes: b, finished: true },
                        ReadAnswer::Failed(
                            malformed_reply("response headers"@, "header block exceeds 256 KiB"@),
                        ),
                        Seq::empty(),
                    )
                } else {
                    (ReaderView { head: None, bytes: b, finished: false }, ReadAnswer::NeedMore, Seq::empty())
                }
            } else {
                match spec_response_head(b, e) {
                    Err(f) => (
                        ReaderView { head: None, bytes: b, finished: true },
                        ReadAnswer::Failed(f),
                        Seq::empty(),
                    ),
                    Ok(h) => {
                        let body = b.skip(e + 4);
                        let a = body_answer(h, body);
                        (ReaderView { head: Some(h), bytes: body, finished: !(a is NeedMore) }, a, body)
                    },
                }
            }
        },
        Some(h) => if v.bytes.len() + bytes.len() > MAX_RESPONSE_BYTES {
            (
                ReaderView { finished: true, ..v },
                ReadAnswer::Failed(over_ceiling("reading the response body"@)),
                Seq::empty(),
            )
        } else {
            let body = v.bytes + bytes;
            let a = body_answer(h, body);
            (ReaderView { head: Some(h), bytes: body, finished: !(a is NeedMore) }, a, bytes)
        },
    }
}

/// What the peer closing the connection means: before the head, a
/// transport failure; for a chunked body, the chunks that arrived whole;
/// for a body short of its `Content-Length`, a transport failure naming both
/// counts; otherwise the body as it stands.
pub open spec fn close_answer(v: ReaderView) -> ReadAnswer {
    match v.head {
        None => ReadAnswer::Failed(
            unreachable_provider(
                "reading the response headers"@,
                "the provider closed the connection before sending a complete response"@,
            ),
        ),
        Some(h) => if h.3 {
            ReadAnswer::Done(chunked_partial_from(v.bytes, 0, Seq::empty()))
        } else if h.4 is Some {
            if v.bytes.len() >= h.4->0 {
                ReadAnswer::Done(v.bytes.take(h.4->0 as int))
            } else {
                ReadAnswer::Failed(
                    unreachable_provider(
                        "reading the response body"@,
                        "stream ended after "@ + spec_decimal(v.bytes.len()) + " of "@
                            + spec_decimal(h.4->0) + " declared bytes"@,
                    ),
                )
            }
        } else {
            ReadAnswer::Done(v.bytes)
        },
    }
}

/// A blank line found in the bytes stays where it is whatever follows.
proof fn lemma_blank_line_extend(s: Seq<u8>, t: Seq<u8>, i: int)
    requires
        0 <= i,
        find_blank_line(s, i) < s.len(),
    ensures
        find_blank_line(s + t, i) == find_blank_line(s, i),
        i <= find_blank_line(s, i),
        find_blank_line(s, i) + 4 <= s.len(),
    decreases s.len() - i,
{
    assert((s + t)[i] == s[i]);
    assert((s + t)[i + 1] == s[i + 1]);
    assert((s + t)[i + 2] == s[i + 2]);
    assert((s + t)[i + 3] == s[i + 3]);
    if !(s[i] == 13u8 && s[i + 1] == 10u8 && s[i + 2] == 13u8 && s[i + 3] == 10u8) {
        lemma_blank_line_extend(s, t, i + 1);
    }
}

/// A read that asks for more, followed by a read of `b`, leaves the reader
/// as one read of both would, with the same answer, and the body bytes the
/// two reads report make up those the one read reports.  This holds while
/// the whole response stays under [`MAX_RESPONSE_BYTES`]: the ceiling counts
/// header bytes only until the head is complete.
pub proof fn law_reads_split_anywhere(v: ReaderView, a: Seq<u8>, b: Seq<u8>)
    requires
        read_step(v, a).1 is NeedMore,
        v.bytes.len() + a.len() + b.len() <= MAX_RESPONSE_BYTES,
    ensures
        ({
            let (v1, _, added1) = read_step(v, a);
            let (v2, answer2, added2) = read_step(v1, b);
            let (v12, answer12, added12) = read_step(v, a + b);
            &&& v12 == v2
            &&& answer12 == answer2
            &&& added12 == added1 + added2
        }),
{
    assert(v.bytes + (a + b) =~= (v.bytes + a) + b);
    match v.head {
        None => {
            let b1 = v.bytes + a;
            let e1 = find_blank_line(b1, 0);
            if e1 >= b1.len() {
                let added2 = read_step(read_step(v, a).0, b).2;
                assert(Seq::<u8>::empty() + added2 =~= added2);
            } else {
                lemma_blank_line_extend(b1, b, 0);
                assert((b1 + b).take(e1) =~= b1.take(e1));
                assert((b1 + b).skip(e1 + 4) =~= b1.skip(e1 + 4) + b);
            }
        },
        Some(h) => {},
    }
}

/// The facts of a parsed head.
pub open spec fn head_facts(h: ResponseHead) -> HeadFacts {
    (
        h.status,
        h.reason@,
        pairs_view(h.headers@),
        h.chunked,
        match h.declared_len {
            Some(n) => Some(n as nat),
            None => None,
        },
    )
}

/// What a step of the reader tells its caller.
#[derive(Debug)]
pub enum ReadStep {
    NeedMore,
    Done(HttpResponse),
    Failed(PrincessError),
}

/// The step says what the answer says, with the response built from `head`.
pub open spec fn step_is(r: ReadStep, a: ReadAnswer, head: Option<HeadFacts>) -> bool {
    match a {
        ReadAnswer::NeedMore => r is NeedMore,
        ReadAnswer::Done(body) => match head {
            Some((status, reason, headers, _, _)) => r matches ReadStep::Done(resp) && resp.status
                == status && resp.reason@ == reason && pairs_view(resp.headers@) == headers
                && resp.body@ == body,
            None => false,
        },
        ReadAnswer::Failed(f) => r matches ReadStep::Failed(e) && e@ == f,
    }
}

/// A response being read.
pub struct ResponseReader {
    head: Option<ResponseHead>,
    bytes: Vec<u8>,
    finished: bool,
}

impl View for ResponseReader {
    type V = ReaderView;

    closed spec fn view(&self) -> ReaderView {
        ReaderView {
            head: match self.head {
                Some(h) => Some(head_facts(h)),
                None => None,
            },
            bytes: self.bytes@,
            finished: self.finished,
        }
    }
}

fn copy_pairs(v: &Vec<(String, String)>) -> (r: Vec<(String, String)>)
    ensures
        pairs_view(r@) == pairs_view(v@),
{
    let mut r: Vec<(String, String)> = Vec::new();
    let mut i: usize = 0;
    while i < v.len()
        invariant
            i <= v.len(),
            r@ == v@.take(i as int),
        decreases v.len() - i,
    {
        let pair = (v[i].0.clone(), v[i].1.clone());
        r.push(pair);
        i = i + 1;
        assert(r@ =~= v@.take(i as int));
    }
    assert(v@.take(v.len() as int) =~= v@);
    r
}

fn copy_bytes(v: &Vec<u8>, from: usize, to: usize) -> (r: Vec<u8>)
    requires
        from <= to <= v.len(),
    ensures
        r@ == v@.subrange(from as int, to as int),
{
    let mut r: Vec<u8> = Vec::new();
    let mut i = from;
    while i < to
        invariant
            from <= i <= to <= v.len(),
            r@ == v@.subrange(from as int, i as int),
        decreases to - i,
    {
        r.push(v[i]);
        i = i + 1;
        assert(r@ =~= v@.subrange(from as int, i as int));
    }
    r
}

fn append_bytes(dst: &mut Vec<u8>, src: &[u8])
    ensures
        final(dst)@ == old(dst)@ + src@,
{
    let mut i: usize = 0;
    let ghost start = dst@;
    while i < src.len()
        invariant
            i <= src.len(),
            dst@ == start + src@.take(i as int),
        decreases src.len() - i,
    {
        dst.push(src[i]);
        i = i + 1;
        assert(dst@ =~= start + src@.take(i as int));
    }
    assert(src@.take(src.len() as int) =~= src@);
}

fn ceiling_error(context: &str) -> (e: PrincessError)
    ensures
        e@ == over_ceiling(context@),
{
    let mut detail = String::new();
    push_str(&mut detail, "response exceeds the ");
    push_decimal(&mut detail, MAX_RESPONSE_BYTES as u64);
    push_str(&mut detail, "-byte ceiling this engine allows");
    for_malformed(context, detail.as_str())
}

fn respond(head: &ResponseHead, body: Vec<u8>) -> (r: HttpResponse)
    ensures
        r.status == head.status,
        r.reason@ == head.reason@,
        pairs_view(r.headers@) == pairs_view(head.headers@),
        r.body@ == body@,
{
    HttpResponse {
        status: head.status,
        reason: head.reason.clone(),
        headers: copy_pairs(&head.headers),
        body,
    }
}

fn body_step(head: &ResponseHead, body: &Vec<u8>) -> (r: ReadStep)
    ensures
        step_is(r, body_answer(head_facts(*head), body@), Some(head_facts(*head))),
{
    if head.chunked {
        match decode_chunked(body.as_slice()) {
            ChunkedState::Complete(decoded) => ReadStep::Done(respond(head, decoded)),
            ChunkedState::NeedMore => ReadStep::NeedMore,
            ChunkedState::Malformed(detail) => ReadStep::Failed(
                for_malformed("chunked response body", detail.as_str()),
            ),
        }
    } else {
        match head.declared_len {
            Some(n) => if body.len() >= n {
                let kept = copy_bytes(body, 0, n);
                assert(kept@ =~= body@.take(n as int));
                ReadStep::Done(respond(head, kept))
            } else {
                ReadStep::NeedMore
            },
            None => ReadStep::NeedMore,
        }
    }
}

impl ResponseReader {
    /// Nothing read yet.
    pub fn new() -> (r: Self)
        ensures
            r@.head is None,
            r@.bytes.len() == 0,
            !r@.finished,
    {
        ResponseReader { head: None, bytes: Vec::new(), finished: false }
    }

    /// The head, once it has been parsed.
    pub fn head(&self) -> (r: Option<&ResponseHead>)
        ensures
            match r {
                Some(h) => self@.head == Some(head_facts(*h)),
                None => self@.head is None,
            },
    {
        match &self.head {
            Some(h) => Some(h),
            None => None,
        }
    }

    /// Has the reader given its final answer?
    pub fn is_finished(&self) -> (r: bool)
        ensures
            r == self@.finished,
    {
        self.finished
    }

    /// One read's bytes: the next step, and the body bytes the read added
    /// (for a streaming consumer).  See [`read_step`].
    pub fn on_read(&mut self, bytes: &[u8]) -> (r: (ReadStep, Vec<u8>))
        requires
            !old(self)@.finished,
            old(self)@.bytes.len() <= MAX_RESPONSE_BYTES,
        ensures
            ({
                let (nv, a, added) = read_step(old(self)@, bytes@);
                &&& final(self)@ == nv
                &&& r.1@ == added
                &&& step_is(r.0, a, nv.head)
            }),
            final(self)@.bytes.len() <= MAX_RESPONSE_BYTES,
    {
        let ghost v = self@;
        if bytes.len() > MAX_RESPONSE_BYTES - self.bytes.len() {
            self.finished = true;
            let context = if self.head.is_some() {
                "reading the response body"
            } else {
                "reading the response headers"
            };
            proof {
                reveal_strlit("reading the response body");
                reveal_strlit("reading the response headers");
            }
            return (ReadStep::Failed(ceiling_error(context)), Vec::new());
        }
        let mut all: Vec<u8> = Vec::new();
        std::mem::swap(&mut all, &mut self.bytes);
        append_bytes(&mut all, bytes);
        let head = self.head.take();
        match head {
            Some(h) => {
                let step = body_step(&h, &all);
                self.finished = !matches!(step, ReadStep::NeedMore);
                self.bytes = all;
                self.head = Some(h);
                let mut added: Vec<u8> = Vec::new();
                append_bytes(&mut added, bytes);
                assert(added@ =~= bytes@);
                (step, added)
            },
            None => {
                match find_header_end(all.as_slice()) {
                    None => {
                        if all.len() > MAX_HEADER_BYTES {
                            self.finished = true;
                            self.bytes = all;
                            (
                                ReadStep::Failed(
                                    for_malformed("response headers", "header block exceeds 256 KiB"),
                                ),
                                Vec::new(),
                            )
                        } else {
                            self.bytes = all;
                            (ReadStep::NeedMore, Vec::new())
                        }
                    },
                    Some(end) => {
                        match parse_response_head(all.as_slice(), end) {
                            Err(e) => {
                                self.finished = true;
                                self.bytes = all;
                                (ReadStep::Failed(e), Vec::new())
                            },
                            Ok(h) => {
                                let body = copy_bytes(&all, end + 4, all.len());
                                assert(body@ =~= all@.skip(end + 4));
                                let step = body_step(&h, &body);
                                let added = copy_bytes(&body, 0, body.len());
                                assert(added@ =~= body@);
                                self.finished = !matches!(step, ReadStep::NeedMore);
                                self.bytes = body;
                                self.head = Some(h);
                                (step, added)
                            },
                        }
                    },
                }
            },
        }
    }

    /// The peer closed the connection.  See [`close_answer`].
    pub fn on_close(&mut self) -> (r: ReadStep)
        requires
            !old(self)@.finished,
        ensures
            step_is(r, close_answer(old(self)@), old(self)@.head),
            final(self)@ == (ReaderView { finished: true, ..old(self)@ }),
    {
        self.finished = true;
        match &self.head {
            None => ReadStep::Failed(
                for_transport(
                    "reading the response headers",
                    "the provider closed the connection before sending a complete response",
                ),
            ),
            Some(h) => {
                if h.chunked {
                    let partial = decode_chunked_partial(self.bytes.as_slice());
                    ReadStep::Done(respond(h, partial))
                } else {
                    match h.declared_len {
                        Some(n) => if self.bytes.len() >= n {
                            let kept = copy_bytes(&self.bytes, 0, n);
                            assert(kept@ =~= self.bytes@.take(n as int));
                            ReadStep::Done(respond(h, kept))
                        } else {
                            let mut detail = String::new();
                            push_str(&mut detail, "stream ended after ");
                            push_decimal(&mut detail, self.bytes.len() as u64);
                            push_str(&mut detail, " of ");
                            push_decimal(&mut detail, n as u64);
                            push_str(&mut detail, " declared bytes");
                            ReadStep::Failed(
                                for_transport("reading the response body", detail.as_str()),
                            )
                        },
                        None => {
                            let all = copy_bytes(&self.bytes, 0, self.bytes.len());
                            assert(all@ =~= self.bytes@);
                            ReadStep::Done(respond(h, all))
                        },
                    }
                }
            },
        }
    }
}

} // verus!
