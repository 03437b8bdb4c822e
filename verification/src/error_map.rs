//! Failure classification for the AI layer.
//!
//! The contract's error-code set is closed, so every way the AI layer can
//! fail lands on one of its codes, written down here:
//!
//! | situation | code |
//! |---|---|
//! | transport failure, unparseable reply, HTTP 401/403/404/429/5xx/other | `E_AI_UNAVAILABLE` |
//! | HTTP 408, a deadline that fired | `E_TIMEOUT` |
//! | cancellation | `E_CANCELLED` |
//!
//! `E_AI_UNAVAILABLE` is the widest bucket on purpose: an AI failure must
//! never turn into an engine error (`E_INTERNAL`).

use vstd::prelude::*;
use crate::contract::{ErrorCode, PrincessError};
use crate::scan::{chars_of, trim, trim_exec, string_of, utf8_len, utf8_width_exec, utf8_width};
use vstd::string::StrSliceExecFns;
use crate::text::{push_str, push_decimal, spec_decimal};

verus! {

broadcast use vstd::string::group_string_axioms;

/// The code and message an HTTP status maps to.
pub open spec fn spec_http_status(status: u16) -> (ErrorCode, Seq<char>) {
    let s = spec_decimal(status as nat);
    if status == 401 || status == 403 {
        (
            ErrorCode::AiUnavailable,
            "AI provider rejected the credentials (HTTP "@ + s + ")"@,
        )
    } else if status == 404 {
        (
            ErrorCode::AiUnavailable,
            "AI provider endpoint not found (HTTP "@ + s + "); check `[ai].base_url`"@,
        )
    } else if status == 408 {
        (ErrorCode::Timeout, "AI provider timed out the request (HTTP "@ + s + ")"@)
    } else if status == 429 {
        (ErrorCode::AiUnavailable, "AI provider rate-limited the request (HTTP "@ + s + ")"@)
    } else if 500 <= status < 600 {
        (ErrorCode::AiUnavailable, "AI provider failed server-side (HTTP "@ + s + ")"@)
    } else {
        (ErrorCode::AiUnavailable, "AI provider returned an unexpected status (HTTP "@ + s + ")"@)
    }
}

/// Classifies a non-2xx HTTP status.  `body` (the provider's error object)
/// is attached, trimmed and bounded, as the detail; a blank body attaches
/// none.
pub fn for_http_status(status: u16, body: &str) -> (e: PrincessError)
    ensures
        e.code == spec_http_status(status).0,
        e.message@ == spec_http_status(status).1,
        spec_truncated(body@).len() == 0 ==> e.detail is None,
        spec_truncated(body@).len() > 0 ==> (e.detail matches Some(d) && d@ == spec_truncated(
            body@,
        )),
{
    let snippet = truncate_for_detail(body);
    let mut message = String::new();
    let code = if status == 401 || status == 403 {
        push_str(&mut message, "AI provider rejected the credentials (HTTP ");
        push_decimal(&mut message, status as u64);
        push_str(&mut message, ")");
        ErrorCode::AiUnavailable
    } else if status == 404 {
        push_str(&mut message, "AI provider endpoint not found (HTTP ");
        push_decimal(&mut message, status as u64);
        push_str(&mut message, "); check `[ai].base_url`");
        ErrorCode::AiUnavailable
    } else if status == 408 {
        push_str(&mut message, "AI provider timed out the request (HTTP ");
        push_decimal(&mut message, status as u64);
        push_str(&mut message, ")");
        ErrorCode::Timeout
    } else if status == 429 {
        push_str(&mut message, "AI provider rate-limited the request (HTTP ");
        push_decimal(&mut message, status as u64);
        push_str(&mut message, ")");
        ErrorCode::AiUnavailable
    } else if 500 <= status && status < 600 {
        push_str(&mut message, "AI provider failed server-side (HTTP ");
        push_decimal(&mut message, status as u64);
        push_str(&mut message, ")");
        ErrorCode::AiUnavailable
    } else {
        push_str(&mut message, "AI provider returned an unexpected status (HTTP ");
        push_decimal(&mut message, status as u64);
        push_str(&mut message, ")");
        ErrorCode::AiUnavailable
    };
    let err = PrincessError::new(code, message);
    if snippet.as_str().unicode_len() > 0 {
        err.with_detail(snippet)
    } else {
        err
    }
}

/// A transport-level failure (DNS, refused connection, early EOF): the
/// provider is unavailable; `error_text` is the underlying error's text.
pub fn for_transport(context: &str, error_text: &str) -> (e: PrincessError)
    ensures
        e.code == ErrorCode::AiUnavailable,
        e.message@ == "AI provider is unreachable ("@ + context@ + ")"@,
        e.detail matches Some(d) && d@ == error_text@,
{
    let mut message = String::new();
    push_str(&mut message, "AI provider is unreachable (");
    push_str(&mut message, context);
    push_str(&mut message, ")");
    let mut detail = String::new();
    push_str(&mut detail, error_text);
    PrincessError::new(ErrorCode::AiUnavailable, message).with_detail(detail)
}

/// The request deadline fired.
pub fn for_timeout(timeout_ms: u64) -> (e: PrincessError)
    ensures
        e.code == ErrorCode::Timeout,
        e.message@ == "AI request exceeded its "@ + spec_decimal(timeout_ms as nat)
            + " ms deadline"@,
        e.detail is None,
{
    let mut message = String::new();
    push_str(&mut message, "AI request exceeded its ");
    push_decimal(&mut message, timeout_ms);
    push_str(&mut message, " ms deadline");
    PrincessError::new(ErrorCode::Timeout, message)
}

/// The caller cancelled.
pub fn for_cancelled(request_id: &str) -> (e: PrincessError)
    ensures
        e.code == ErrorCode::Cancelled,
        e.message@ == "AI request "@ + request_id@ + " was cancelled"@,
        e.detail is None,
{
    let mut message = String::new();
    push_str(&mut message, "AI request ");
    push_str(&mut message, request_id);
    push_str(&mut message, " was cancelled");
    PrincessError::new(ErrorCode::Cancelled, message)
}

/// The provider answered, but not with a stream this engine understands.
pub fn for_malformed(context: &str, error_text: &str) -> (e: PrincessError)
    ensures
        e.code == ErrorCode::AiUnavailable,
        e.message@ == "AI provider sent a reply this engine cannot parse ("@ + context@ + ")"@,
        e.detail matches Some(d) && d@ == error_text@,
{
    let mut message = String::new();
    push_str(&mut message, "AI provider sent a reply this engine cannot parse (");
    push_str(&mut message, context);
    push_str(&mut message, ")");
    let mut detail = String::new();
    push_str(&mut detail, error_text);
    PrincessError::new(ErrorCode::AiUnavailable, message).with_detail(detail)
}

/// A failed socket operation: a deadline expressed as `TimedOut` /
/// `WouldBlock` is a timeout, anything else is a transport failure.
pub fn for_io(context: &str, timed_out: bool, error_text: &str) -> (e: PrincessError)
    ensures
        timed_out ==> e.code == ErrorCode::Timeout && e.message@ == "AI provider "@ + context@
            + " timed out"@,
        !timed_out ==> e.code == ErrorCode::AiUnavailable && e.message@
            == "AI provider is unreachable ("@ + context@ + ")"@,
        e.detail matches Some(d) && d@ == error_text@,
{
    if timed_out {
        let mut message = String::new();
        push_str(&mut message, "AI provider ");
        push_str(&mut message, context);
        push_str(&mut message, " timed out");
        let mut detail = String::new();
        push_str(&mut detail, error_text);
        PrincessError::new(ErrorCode::Timeout, message).with_detail(detail)
    } else {
        for_transport(context, error_text)
    }
}

/// Largest number of leading characters of `s` whose encoding fits in
/// `limit` bytes.
pub open spec fn fitting_prefix(s: Seq<char>, limit: nat) -> nat
    decreases s.len(),
{
    if s.len() == 0 || utf8_width(s[0]) > limit {
        0
    } else {
        1 + fitting_prefix(s.drop_first(), (limit - utf8_width(s[0])) as nat)
    }
}

/// The bounded detail for an error body: the trimmed body when it is at
/// most 2048 bytes, else its longest prefix of at most 2048 bytes that ends
/// on a character boundary, followed by `… [N bytes total]`.
pub open spec fn spec_truncated(body: Seq<char>) -> Seq<char> {
    let t = trim(body);
    if utf8_len(t) <= 2048 {
        t
    } else {
        t.take(fitting_prefix(t, 2048) as int) + "\u{2026} ["@ + spec_decimal(utf8_len(t))
            + " bytes total]"@
    }
}

proof fn lemma_fitting_prefix(s: Seq<char>, limit: nat, k: int)
    requires
        0 <= k <= s.len(),
        utf8_len(s.take(k)) <= limit,
        k == s.len() || utf8_len(s.take(k)) + utf8_width(s[k]) > limit,
    ensures
        fitting_prefix(s, limit) == k,
    decreases s.len(),
{
    if k == 0 {
        if s.len() > 0 {
            assert(s.take(0) =~= Seq::<char>::empty());
        }
    } else {
        assert(s.take(k)[0] == s[0]);
        assert(s.take(k).drop_first() =~= s.drop_first().take(k - 1));
        assert(utf8_len(s.take(k)) == utf8_width(s[0]) + utf8_len(s.drop_first().take(k - 1)));
        if k < s.len() {
            assert(s.drop_first()[k - 1] == s[k]);
        }
        lemma_fitting_prefix(s.drop_first(), (limit - utf8_width(s[0])) as nat, k - 1);
    }
}

/// Bounds a provider error body for the `detail` field (see
/// [`spec_truncated`]); the cut never splits a character.
pub fn truncate_for_detail(body: &str) -> (r: String)
    ensures
        r@ == spec_truncated(body@),
{
    let chars = chars_of(body);
    let bytes = body.as_bytes();
    let _n = bytes.len();
    proof {
        crate::scan::lemma_utf8_len_is_encoded_len(body@);
    }
    let t = trim_exec(&chars);
    let ghost ts = t@;
    let mut total: usize = 0;
    let mut fit: usize = 0;
    let mut k: usize = 0;
    proof {
        crate::scan::lemma_utf8_len_trim_le(body@);
    }
    while k < t.len()
        invariant
            k <= t.len(),
            ts == t@,
            total == utf8_len(ts.take(k as int)),
            utf8_len(ts) <= usize::MAX,
            fit <= k,
            utf8_len(ts.take(fit as int)) <= 2048,
            fit == k ==> total <= 2048,
            fit < k ==> utf8_len(ts.take(fit as int)) + utf8_width(ts[fit as int]) > 2048,
        decreases t.len() - k,
    {
        proof {
            crate::scan::lemma_utf8_len_take_step(ts, k as int);
            crate::scan::lemma_utf8_len_take_le(ts, k + 1);
        }
        let w = utf8_width_exec(t[k]);
        total = total + w;
        if fit == k && total <= 2048 {
            fit = k + 1;
        }
        k = k + 1;
    }
    assert(ts.take(k as int) =~= ts);
    if total <= 2048 {
        return string_of(&t);
    }
    proof {
        lemma_fitting_prefix(ts, 2048, fit as int);
    }
    let head = crate::scan::copy_range(&t, 0, fit);
    let mut out = string_of(&head);
    push_str(&mut out, "\u{2026} [");
    push_decimal(&mut out, total as u64);
    push_str(&mut out, " bytes total]");
    out
}

/// The line a failed generation leaves in the log:
/// `ai {code}: {message} ({detail})`, without the parentheses when there is
/// no detail.
pub fn generation_error_line(err: &PrincessError) -> (r: String)
    ensures
        r@ == "ai "@ + crate::contract::spec_error_code_str(err.code) + ": "@ + err.message@ + match err.detail {
            Some(d) => " ("@ + d@ + ")\n"@,
            None => "\n"@,
        },
{
    let mut line = String::new();
    push_str(&mut line, "ai ");
    push_str(&mut line, err.code.as_str());
    push_str(&mut line, ": ");
    push_str(&mut line, err.message.as_str());
    match &err.detail {
        Some(d) => {
            push_str(&mut line, " (");
            push_str(&mut line, d.as_str());
            push_str(&mut line, ")\n");
        },
        None => {
            push_str(&mut line, "\n");
        },
    }
    line
}

} // verus!
