//! The HTTP/1.1 pieces of the AI transport that are pure functions: URL
//! splitting, the request bytes, the status line and header block of a
//! response, and `Transfer-Encoding: chunked` decoding.
//!
//! Only `http://` is spoken; an `https://` URL is reported (`tls`) so the
//! caller can refuse it loudly instead of downgrading.

use vstd::prelude::*;
use crate::contract::{ErrorCode, PrincessError, Failure};
use crate::scan::{
    chars_of, copy_range, string_of, find_char, find_char_exec, lemma_find_char, trim,
    trim_exec, starts_with, has_prefix, decimal_value, parse_unsigned_exec, parse_unsigned,
    ascii_lower, ascii_lower_exec, equals_str, contains_seq, contains_str, find_seq, find_str,
    lemma_find_seq, IntErrorKind,
};
use crate::text::{
    push_str, push_decimal, spec_decimal, debug_quoted, debug_quote, lossy_utf8, utf8_lossy,
};
use crate::error_map::for_malformed;
use crate::monitor::pairs_view;
use crate::events::clock_since_epoch;

verus! {

broadcast use vstd::string::group_string_axioms;

/// Hard ceiling on a response body.
pub const MAX_RESPONSE_BYTES: usize = 33554432;

/// Default connect deadline when the caller does not set one.
pub const DEFAULT_CONNECT_TIMEOUT_MS: u64 = 5000;

/// A fully described HTTP request.  The wall-clock deadline and the abort
/// predicate are attached by the transport when the request is sent.
#[derive(Debug, Clone)]
pub struct HttpRequest {
    pub url: String,
    pub method: String,
    pub headers: Vec<(String, String)>,
    pub body: Vec<u8>,
    /// Connect-only ceiling inside the overall budget, in milliseconds.
    pub connect_timeout_ms: u64,
    /// The overall budget for the whole exchange, in milliseconds.
    pub budget_ms: u64,
    /// When the whole exchange must be over: milliseconds since the Unix
    /// epoch by the system clock (the moment the request was built plus the
    /// budget, saturating).
    pub deadline_ms: u64,
}

impl HttpRequest {
    /// A JSON `POST` that accepts an event stream, built at `now_ms`
    /// (milliseconds since the Unix epoch) and bounded by `timeout_ms`.
    pub fn post_json_at(url: String, body: Vec<u8>, timeout_ms: u64, now_ms: u64) -> (r: Self)
        ensures
            r.url@ == url@,
            r.method@ == "POST"@,
            r.headers@.len() == 2,
            r.headers@[0].0@ == "Content-Type"@ && r.headers@[0].1@ == "application/json"@,
            r.headers@[1].0@ == "Accept"@ && r.headers@[1].1@ == "text/event-stream"@,
            r.body@ == body@,
            r.budget_ms == timeout_ms,
            r.connect_timeout_ms == if timeout_ms < DEFAULT_CONNECT_TIMEOUT_MS {
                timeout_ms
            } else {
                DEFAULT_CONNECT_TIMEOUT_MS
            },
            r.deadline_ms == saturated(now_ms + timeout_ms),
    {
        let mut method = String::new();
        push_str(&mut method, "POST");
        let mut ct = String::new();
        push_str(&mut ct, "Content-Type");
        let mut json = String::new();
        push_str(&mut json, "application/json");
        let mut accept = String::new();
        push_str(&mut accept, "Accept");
        let mut stream = String::new();
        push_str(&mut stream, "text/event-stream");
        let headers = vec![(ct, json), (accept, stream)];
        HttpRequest {
            url,
            method,
            headers,
            body,
            connect_timeout_ms: if timeout_ms < DEFAULT_CONNECT_TIMEOUT_MS {
                timeout_ms
            } else {
                DEFAULT_CONNECT_TIMEOUT_MS
            },
            budget_ms: timeout_ms,
            deadline_ms: now_ms.saturating_add(timeout_ms),
        }
    }

    /// A JSON `POST` that accepts an event stream, bounded by `timeout_ms`
    /// from now: as [`HttpRequest::post_json_at`] at the system clock's
    /// reading.  What the clock reads is not stated, only that the deadline
    /// is that reading plus the budget.
    pub fn post_json(url: String, body: Vec<u8>, timeout_ms: u64) -> (r: Self)
        ensures
            r.url@ == url@,
            r.method@ == "POST"@,
            r.headers@.len() == 2,
            r.headers@[0].0@ == "Content-Type"@ && r.headers@[0].1@ == "application/json"@,
            r.headers@[1].0@ == "Accept"@ && r.headers@[1].1@ == "text/event-stream"@,
            r.body@ == body@,
            r.budget_ms == timeout_ms,
            r.connect_timeout_ms == if timeout_ms < DEFAULT_CONNECT_TIMEOUT_MS {
                timeout_ms
            } else {
                DEFAULT_CONNECT_TIMEOUT_MS
            },
            exists|now: nat| #[trigger] saturated(now + timeout_ms) == r.deadline_ms,
    {
        let (secs, millis) = clock_since_epoch();
        let now_ms = if secs > (u64::MAX - 999) / 1000 {
            u64::MAX
        } else {
            secs * 1000 + millis as u64
        };
        let r = HttpRequest::post_json_at(url, body, timeout_ms, now_ms);
        assert(saturated(now_ms as nat + timeout_ms) == r.deadline_ms);
        r
    }
}

/// `n`, or `u64::MAX` when it does not fit.
pub open spec fn saturated(n: int) -> u64 {
    if n > u64::MAX {
        u64::MAX
    } else {
        n as u64
    }
}

// ------------------------------------------------------------ responses ---

/// A parsed response, fully read into memory.
#[derive(Debug, Clone)]
pub struct HttpResponse {
    pub status: u16,
    pub reason: String,
    pub headers: Vec<(String, String)>,
    pub body: Vec<u8>,
}

/// Index of the first header at or after `i` whose name equals `name`
/// ignoring ASCII case.
pub open spec fn header_index(headers: Seq<(Seq<char>, Seq<char>)>, name: Seq<char>, i: int) -> int
    decreases headers.len() - i,
{
    if i < 0 || i >= headers.len() {
        headers.len() as int
    } else if ascii_lower(headers[i].0) == ascii_lower(name) {
        i
    } else {
        header_index(headers, name, i + 1)
    }
}

proof fn lemma_header_index(headers: Seq<(Seq<char>, Seq<char>)>, name: Seq<char>, i: int)
    requires
        0 <= i,
    ensures
        i <= header_index(headers, name, i) || header_index(headers, name, i) == headers.len(),
        0 <= header_index(headers, name, i) <= headers.len(),
    decreases headers.len() - i,
{
    if i < headers.len() && ascii_lower(headers[i].0) != ascii_lower(name) {
        lemma_header_index(headers, name, i + 1);
    }
}

fn header_position(headers: &Vec<(String, String)>, name: &str) -> (r: Option<usize>)
    ensures
        match r {
            Some(i) => i < headers.len() && i == header_index(pairs_view(headers@), name@, 0),
            None => header_index(pairs_view(headers@), name@, 0) == headers.len(),
        },
{
    let wanted = ascii_lower_exec(&chars_of(name));
    let mut i: usize = 0;
    while i < headers.len()
        invariant
            i <= headers.len(),
            wanted@ == ascii_lower(name@),
            header_index(pairs_view(headers@), name@, i as int) == header_index(
                pairs_view(headers@),
                name@,
                0,
            ),
        decreases headers.len() - i,
    {
        let key = ascii_lower_exec(&chars_of(headers[i].0.as_str()));
        if key.len() == wanted.len() {
            let mut j: usize = 0;
            let mut same = true;
            while j < key.len()
                invariant
                    j <= key.len(),
                    key.len() == wanted.len(),
                    same == (forall|t: int| 0 <= t < j ==> key@[t] == wanted@[t]),
                decreases key.len() - j,
            {
                if key[j] != wanted[j] {
                    same = false;
                }
                j = j + 1;
            }
            if same {
                assert(key@ =~= wanted@);
                return Some(i);
            }
            proof {
                let t = choose|t: int| 0 <= t < key.len() && key@[t] != wanted@[t];
                assert(key@[t] != wanted@[t]);
            }
        }
        i = i + 1;
    }
    None
}

impl HttpResponse {
    /// The first header named `name`, ignoring ASCII case.
    pub fn header(&self, name: &str) -> (r: Option<&str>)
        ensures
            ({
                let i = header_index(pairs_view(self.headers@), name@, 0);
                if i < self.headers@.len() {
                    r matches Some(v) && v@ == self.headers@[i].1@
                } else {
                    r is None
                }
            }),
    {
        match header_position(&self.headers, name) {
            Some(i) => Some(self.headers[i].1.as_str()),
            None => None,
        }
    }

    /// The body decoded as UTF-8, invalid sequences replaced.
    pub fn body_text(&self) -> (r: String)
        ensures
            r@ == lossy_utf8(self.body@),
    {
        utf8_lossy(self.body.as_slice())
    }

    /// A 2xx status.
    pub fn is_success(&self) -> (r: bool)
        ensures
            r == (200 <= self.status < 300),
    {
        200 <= self.status && self.status < 300
    }
}

// ------------------------------------------------------------------ URLs ---

/// `host:port` plus the request target of an absolute URL.
#[derive(Debug, Clone, PartialEq, Eq)]
pub struct ParsedUrl {
    pub host: String,
    pub port: u16,
    /// Path plus query, always starting with `/`.
    pub target: String,
    /// The URL asked for TLS, which this client does not speak.
    pub tls: bool,
}

/// The content of a [`ParsedUrl`].
pub struct UrlParts {
    pub host: Seq<char>,
    pub port: u16,
    pub target: Seq<char>,
    pub tls: bool,
}

impl View for ParsedUrl {
    type V = UrlParts;

    open spec fn view(&self) -> UrlParts {
        UrlParts { host: self.host@, port: self.port, target: self.target@, tls: self.tls }
    }
}

/// Host and port of a non-empty authority: a bracketed IPv6 literal with an
/// optional `:port`, else `host:port` split at the last colon when the port
/// is a valid `u16`, else the whole authority on port 80.
pub open spec fn split_authority(a: Seq<char>) -> (Seq<char>, u16) {
    let close = find_char(a, ']', 0);
    let last_colon = last_index_of(a, ':');
    if a.len() > 0 && a[0] == '[' && close < a.len() {
        let after = a.skip(close + 1);
        let port = if after.len() > 0 && after[0] == ':' && decimal_value(after.skip(1), 65535) is Some {
            decimal_value(after.skip(1), 65535)->0 as u16
        } else {
            80u16
        };
        (a.subrange(1, close), port)
    } else if last_colon >= 0 {
        match decimal_value(a.skip(last_colon + 1), 65535) {
            Some(p) => (a.take(last_colon), p as u16),
            None => (a, 80u16),
        }
    } else {
        (a, 80u16)
    }
}

/// Index of the last `c` in `s`, or -1.
pub open spec fn last_index_of(s: Seq<char>, c: char) -> int
    decreases s.len(),
{
    if s.len() == 0 {
        -1
    } else if s.last() == c {
        s.len() - 1
    } else {
        last_index_of(s.drop_last(), c)
    }
}

proof fn lemma_last_index_of(s: Seq<char>, c: char)
    ensures
        -1 <= last_index_of(s, c) < s.len(),
        last_index_of(s, c) >= 0 ==> s[last_index_of(s, c)] == c,
        forall|k: int| last_index_of(s, c) < k < s.len() ==> s[k] != c,
    decreases s.len(),
{
    if s.len() > 0 && s.last() != c {
        lemma_last_index_of(s.drop_last(), c);
        assert forall|k: int| last_index_of(s, c) < k < s.len() implies s[k] != c by {
            if k < s.len() - 1 {
                assert(s.drop_last()[k] == s[k]);
            }
        }
    }
}

/// What `parse_url` answers for `url`.
pub open spec fn spec_parse_url(url: Seq<char>) -> Result<UrlParts, Failure> {
    let sep = find_seq(url, "://"@, 0);
    let scheme = ascii_lower(url.take(sep));
    let rest = url.skip(sep + 3);
    let slash = find_char(rest, '/', 0);
    let authority = rest.take(slash);
    let target = if slash < rest.len() {
        rest.skip(slash)
    } else {
        "/"@
    };
    if sep >= url.len() {
        Err(
            Failure {
                code: ErrorCode::InvalidConfig,
                message: "AI base_url is not an absolute URL: "@ + debug_quoted(url),
                detail: Some("expected `http://host[:port]/path` (this build speaks plain HTTP only)"@),
            },
        )
    } else if scheme != "http"@ && scheme != "https"@ {
        Err(
            Failure {
                code: ErrorCode::InvalidConfig,
                message: "unsupported AI endpoint scheme "@ + debug_quoted(scheme),
                detail: Some("URL: "@ + url),
            },
        )
    } else if authority.len() == 0 {
        Err(
            Failure {
                code: ErrorCode::InvalidConfig,
                message: "AI endpoint has no host: "@ + debug_quoted(url),
                detail: None,
            },
        )
    } else {
        Ok(
            UrlParts {
                host: split_authority(authority).0,
                port: split_authority(authority).1,
                target,
                tls: scheme == "https"@,
            },
        )
    }
}

fn last_index_exec(v: &Vec<char>, c: char) -> (r: Option<usize>)
    ensures
        match r {
            Some(k) => k < v.len() && k == last_index_of(v@, c),
            None => last_index_of(v@, c) == -1,
        },
{
    let mut j = v.len();
    assert(v@.take(j as int) =~= v@);
    while j > 0
        invariant
            j <= v.len(),
            last_index_of(v@.take(j as int), c) == last_index_of(v@, c),
        decreases j,
    {
        assert(v@.take(j as int).last() == v@[j - 1]);
        assert(v@.take(j as int).drop_last() =~= v@.take(j - 1));
        if v[j - 1] == c {
            return Some(j - 1);
        }
        j = j - 1;
    }
    None
}

fn text_from(s: &str) -> (r: String)
    ensures
        r@ == s@,
{
    let mut r = String::new();
    push_str(&mut r, s);
    r
}

fn quoted(v: &Vec<char>) -> (r: String)
    ensures
        r@ == debug_quoted(v@),
{
    let s = string_of(v);
    debug_quote(s.as_str())
}

fn split_authority_exec(a: &Vec<char>) -> (r: (String, u16))
    ensures
        r.0@ == split_authority(a@).0,
        r.1 == split_authority(a@).1,
{
    proof {
        lemma_find_char(a@, ']', 0);
        lemma_last_index_of(a@, ':');
    }
    let close = find_char_exec(a, ']');
    if a.len() > 0 && a[0] == '[' && close.is_some() {
        let close = close.unwrap();
        let host = copy_range(a, 1, close);
        let after = copy_range(a, close + 1, a.len());
        assert(after@ =~= a@.skip(close + 1));
        let mut port: u16 = 80;
        if after.len() > 0 && after[0] == ':' {
            let digits = copy_range(&after, 1, after.len());
            assert(digits@ =~= after@.skip(1));
            match parse_unsigned_exec(&digits, 10, 65535) {
                Ok(p) => {
                    port = p as u16;
                },
                Err(_) => {},
            }
        }
        return (string_of(&host), port);
    }
    match last_index_exec(a, ':') {
        Some(k) => {
            let digits = copy_range(a, k + 1, a.len());
            assert(digits@ =~= a@.skip(k + 1));
            match parse_unsigned_exec(&digits, 10, 65535) {
                Ok(p) => {
                    let host = copy_range(a, 0, k);
                    assert(host@ =~= a@.take(k as int));
                    (string_of(&host), p as u16)
                },
                Err(_) => (string_of(a), 80),
            }
        },
        None => (string_of(a), 80),
    }
}

/// Splits an absolute `http://host[:port]/path` URL.  A URL without `://`,
/// with a scheme other than `http`/`https`, or without a host is an
/// `E_INVALID_CONFIG` failure.
pub fn parse_url(url: &str) -> (r: Result<ParsedUrl, PrincessError>)
    ensures
        match spec_parse_url(url@) {
            Ok(parts) => r matches Ok(p) && p@ == parts,
            Err(f) => r matches Err(e) && e@ == f,
        },
{
    let chars = chars_of(url);
    proof {
        lemma_find_seq(url@, "://"@, 0);
        reveal_strlit("://");
    }
    let sep = match find_str(&chars, "://", 0) {
        Some(k) => k,
        None => {
            let mut message = text_from("AI base_url is not an absolute URL: ");
            let q = debug_quote(url);
            push_str(&mut message, q.as_str());
            return Err(
                PrincessError::new(ErrorCode::InvalidConfig, message).with_detail(
                    text_from(
                        "expected `http://host[:port]/path` (this build speaks plain HTTP only)",
                    ),
                ),
            );
        },
    };
    let scheme_raw = copy_range(&chars, 0, sep);
    assert(scheme_raw@ =~= url@.take(sep as int));
    let scheme = ascii_lower_exec(&scheme_raw);
    let tls = if equals_str(&scheme, "http") {
        false
    } else if equals_str(&scheme, "https") {
        true
    } else {
        let mut message = text_from("unsupported AI endpoint scheme ");
        let q = quoted(&scheme);
        push_str(&mut message, q.as_str());
        let mut detail = text_from("URL: ");
        push_str(&mut detail, url);
        return Err(PrincessError::new(ErrorCode::InvalidConfig, message).with_detail(detail));
    };
    let rest = copy_range(&chars, sep + 3, chars.len());
    assert(rest@ =~= url@.skip(sep + 3));
    proof {
        lemma_find_char(rest@, '/', 0);
    }
    let (authority, target) = match find_char_exec(&rest, '/') {
        Some(k) => {
            let a = copy_range(&rest, 0, k);
            assert(a@ =~= rest@.take(k as int));
            let t = copy_range(&rest, k, rest.len());
            assert(t@ =~= rest@.skip(k as int));
            (a, string_of(&t))
        },
        None => {
            assert(rest@.take(rest.len() as int) =~= rest@);
            (copy_range(&rest, 0, rest.len()), text_from("/"))
        },
    };
    if authority.len() == 0 {
        let mut message = text_from("AI endpoint has no host: ");
        let q = debug_quote(url);
        push_str(&mut message, q.as_str());
        return Err(PrincessError::new(ErrorCode::InvalidConfig, message));
    }
    let (host, port) = split_authority_exec(&authority);
    proof {
        reveal_strlit("http");
        reveal_strlit("https");
        let rs = url@.skip(sep + 3);
        assert(rest@ == rs);
        assert(authority@ == rs.take(find_char(rs, '/', 0)));
        assert(target@ == (if find_char(rs, '/', 0) < rs.len() {
            rs.skip(find_char(rs, '/', 0))
        } else {
            "/"@
        }));
        assert("http"@.len() == 4);
        assert("https"@.len() == 5);
        assert("http"@ != "https"@);
        assert(tls == (scheme@ == "https"@));
        assert(scheme@ == ascii_lower(url@.take(sep as int)));
        assert(sep < url@.len());
        assert(authority@.len() > 0);
        assert(spec_parse_url(url@) is Ok);
        assert(spec_parse_url(url@)->Ok_0.host == host@);
        assert(spec_parse_url(url@)->Ok_0.port == port);
        assert(spec_parse_url(url@)->Ok_0.target == target@);
        assert(spec_parse_url(url@)->Ok_0.tls == tls);
    }
    Ok(ParsedUrl { host, port, target, tls })
}

// ------------------------------------------------------- request bytes ---

/// The `Host` header value: the host alone on port 80, else `host:port`.
pub open spec fn spec_host_header(p: UrlParts) -> Seq<char> {
    if p.port == 80 {
        p.host
    } else {
        p.host + ":"@ + spec_decimal(p.port as nat)
    }
}

/// The `Host` header value for a parsed URL.
pub fn host_header(parsed: &ParsedUrl) -> (r: String)
    ensures
        r@ == spec_host_header(parsed@),
{
    let mut out = String::new();
    push_str(&mut out, parsed.host.as_str());
    if parsed.port != 80 {
        push_str(&mut out, ":");
        push_decimal(&mut out, parsed.port as u64);
    }
    out
}

/// `name: value\r\n` for each header from `k` on.
pub open spec fn header_lines(headers: Seq<(String, String)>, k: int) -> Seq<char>
    decreases headers.len() - k,
{
    if k < 0 || k >= headers.len() {
        Seq::empty()
    } else {
        headers[k].0@ + ": "@ + headers[k].1@ + "\r\n"@ + header_lines(headers, k + 1)
    }
}

/// The request line and header block of a request.
pub open spec fn request_head(r: HttpRequest, p: UrlParts) -> Seq<char> {
    r.method@ + " "@ + p.target + " HTTP/1.1\r\nHost: "@ + spec_host_header(p)
        + "\r\nConnection: close\r\nContent-Length: "@ + spec_decimal(r.body@.len()) + "\r\n"@
        + header_lines(r.headers@, 0) + "\r\n"@
}

/// The bytes sent for a request: the UTF-8 encoded head, then the body.
pub fn build_request_bytes(request: &HttpRequest, parsed: &ParsedUrl) -> (bytes: Vec<u8>)
    ensures
        bytes@ == vstd::utf8::encode_utf8(request_head(*request, parsed@)) + request.body@,
{
    let mut head = String::new();
    push_str(&mut head, request.method.as_str());
    push_str(&mut head, " ");
    push_str(&mut head, parsed.target.as_str());
    push_str(&mut head, " HTTP/1.1\r\nHost: ");
    let host = host_header(parsed);
    push_str(&mut head, host.as_str());
    push_str(&mut head, "\r\nConnection: close\r\nContent-Length: ");
    push_decimal(&mut head, request.body.len() as u64);
    push_str(&mut head, "\r\n");
    let ghost before = head@;
    let mut k: usize = 0;
    while k < request.headers.len()
        invariant
            k <= request.headers.len(),
            head@ + header_lines(request.headers@, k as int) == before + header_lines(
                request.headers@,
                0,
            ),
        decreases request.headers.len() - k,
    {
        let ghost h = head@;
        push_str(&mut head, request.headers[k].0.as_str());
        push_str(&mut head, ": ");
        push_str(&mut head, request.headers[k].1.as_str());
        push_str(&mut head, "\r\n");
        assert(head@ + header_lines(request.headers@, k + 1) =~= h + header_lines(
            request.headers@,
            k as int,
        ));
        k = k + 1;
    }
    assert(header_lines(request.headers@, k as int) =~= Seq::<char>::empty());
    push_str(&mut head, "\r\n");
    assert(head@ =~= request_head(*request, parsed@));
    let encoded = head.as_str().as_bytes();
    let mut bytes: Vec<u8> = Vec::new();
    let mut i: usize = 0;
    while i < encoded.len()
        invariant
            i <= encoded.len(),
            bytes@ == encoded@.take(i as int),
        decreases encoded.len() - i,
    {
        bytes.push(encoded[i]);
        i = i + 1;
        assert(bytes@ =~= encoded@.take(i as int));
    }
    assert(encoded@.take(encoded.len() as int) =~= encoded@);
    let ghost head_bytes = bytes@;
    let mut j: usize = 0;
    while j < request.body.len()
        invariant
            j <= request.body.len(),
            bytes@ == head_bytes + request.body@.take(j as int),
        decreases request.body.len() - j,
    {
        bytes.push(request.body[j]);
        j = j + 1;
        assert(bytes@ =~= head_bytes + request.body@.take(j as int));
    }
    assert(request.body@.take(request.body.len() as int) =~= request.body@);
    bytes
}

/// The failure for a URL that asks for TLS, which this client does not
/// speak: reported, never silently downgraded to plain HTTP.
pub open spec fn tls_refusal(url: Seq<char>) -> Failure {
    Failure {
        code: ErrorCode::AiUnavailable,
        message: "this build cannot speak HTTPS to an AI provider"@,
        detail: Some(
            url
                + " \u{2014} link a TLS client and re-point this crate's transport, or use a local http endpoint"@,
        ),
    }
}

/// Everything decided before a socket is opened: the URL is parsed, a TLS
/// URL is refused, and the request bytes are built.
pub fn prepare_request(request: &HttpRequest) -> (r: Result<(ParsedUrl, Vec<u8>), PrincessError>)
    ensures
        match spec_parse_url(request.url@) {
            Err(f) => r matches Err(e) && e@ == f,
            Ok(parts) => if parts.tls {
                r matches Err(e) && e@ == tls_refusal(request.url@)
            } else {
                r matches Ok((p, bytes)) && p@ == parts && bytes@ == vstd::utf8::encode_utf8(
                    request_head(*request, parts),
                ) + request.body@
            },
        },
{
    let parsed = match parse_url(request.url.as_str()) {
        Ok(p) => p,
        Err(e) => {
            return Err(e);
        },
    };
    if parsed.tls {
        let message = text_from("this build cannot speak HTTPS to an AI provider");
        let mut detail = text_from(request.url.as_str());
        push_str(
            &mut detail,
            " \u{2014} link a TLS client and re-point this crate's transport, or use a local http endpoint",
        );
        return Err(PrincessError::new(ErrorCode::AiUnavailable, message).with_detail(detail));
    }
    let bytes = build_request_bytes(request, &parsed);
    Ok((parsed, bytes))
}

// -------------------------------------------------------- status lines ---

/// `splitn(3, ' ')` of a status line: version, status text, reason.
pub open spec fn status_parts(line: Seq<char>) -> (Seq<char>, Seq<char>, Seq<char>) {
    let p1 = find_char(line, ' ', 0);
    let p2 = find_char(line, ' ', p1 + 1);
    if p1 >= line.len() {
        (line, Seq::empty(), Seq::empty())
    } else if p2 >= line.len() {
        (line.take(p1), line.skip(p1 + 1), Seq::empty())
    } else {
        (line.take(p1), line.subrange(p1 + 1, p2), line.skip(p2 + 1))
    }
}

/// What `parse_status_line` answers: the status and reason, or the
/// malformed-reply failure quoting the line.
pub open spec fn spec_status_line(line: Seq<char>) -> Result<(u16, Seq<char>), Failure> {
    let (version, status, reason) = status_parts(line);
    if decimal_value(status, 65535) is Some && starts_with(version, "HTTP/"@) {
        Ok((decimal_value(status, 65535)->0 as u16, reason))
    } else {
        Err(
            Failure {
                code: ErrorCode::AiUnavailable,
                message: "AI provider sent a reply this engine cannot parse ("@ + "HTTP status line"@
                    + ")"@,
                detail: Some(line),
            },
        )
    }
}

/// Parses `HTTP/1.1 200 OK` strictly: the version must start with `HTTP/`
/// and the status must be a `u16`.
pub fn parse_status_line(line: &str) -> (r: Result<(u16, String), PrincessError>)
    ensures
        match spec_status_line(line@) {
            Ok((status, reason)) => r matches Ok((s, t)) && s == status && t@ == reason,
            Err(f) => r matches Err(e) && e@ == f,
        },
{
    let v = chars_of(line);
    proof {
        lemma_find_char(v@, ' ', 0);
    }
    let (version, status, reason) = match find_char_exec(&v, ' ') {
        None => {
            assert(v@.take(v.len() as int) =~= v@);
            (copy_range(&v, 0, v.len()), Vec::new(), Vec::new())
        },
        Some(p1) => {
            let version = copy_range(&v, 0, p1);
            assert(version@ =~= v@.take(p1 as int));
            let tail = copy_range(&v, p1 + 1, v.len());
            proof {
                lemma_find_char(v@, ' ', p1 + 1);
            }
            let mut p2 = p1 + 1;
            while p2 < v.len() && v[p2] != ' '
                invariant
                    p1 < p2 <= v.len(),
                    find_char(v@, ' ', p2 as int) == find_char(v@, ' ', p1 + 1),
                decreases v.len() - p2,
            {
                p2 = p2 + 1;
            }
            if p2 >= v.len() {
                assert(tail@ =~= v@.skip(p1 + 1));
                (version, tail, Vec::new())
            } else {
                let status = copy_range(&v, p1 + 1, p2);
                let reason = copy_range(&v, p2 + 1, v.len());
                assert(reason@ =~= v@.skip(p2 + 1));
                (version, status, reason)
            }
        },
    };
    proof {
        reveal_strlit("HTTP/");
    }
    let status_value = parse_unsigned_exec(&status, 10, 65535);
    if status_value.is_ok() && has_prefix(&version, "HTTP/") {
        Ok((status_value.unwrap() as u16, string_of(&reason)))
    } else {
        Err(for_malformed("HTTP status line", line))
    }
}

// --------------------------------------------------------- header block ---

/// First index of `\r\n\r\n` in `b` at or after `i` (or `b.len()`).
pub open spec fn find_blank_line(b: Seq<u8>, i: int) -> int
    decreases b.len() - i,
{
    if i < 0 || i + 4 > b.len() {
        b.len() as int
    } else if b[i] == 13u8 && b[i + 1] == 10u8 && b[i + 2] == 13u8 && b[i + 3] == 10u8 {
        i
    } else {
        find_blank_line(b, i + 1)
    }
}

/// End of the header block: the index of the first `\r\n\r\n`.
pub fn find_header_end(buf: &[u8]) -> (r: Option<usize>)
    ensures
        match r {
            Some(k) => k == find_blank_line(buf@, 0) && k + 4 <= buf.len(),
            None => find_blank_line(buf@, 0) == buf.len(),
        },
{
    let n = buf.len();
    let mut i: usize = 0;
    while n >= 4 && i <= n - 4
        invariant
            find_blank_line(buf@, i as int) == find_blank_line(buf@, 0),
            n == buf.len(),
        decreases n - i,
    {
        if buf[i] == 13u8 && buf[i + 1] == 10u8 && buf[i + 2] == 13u8 && buf[i + 3] == 10u8 {
            return Some(i);
        }
        i = i + 1;
    }
    None
}

/// First index of `\r\n` in `b` at or after `i` (or `b.len()`).
pub open spec fn find_crlf_from(b: Seq<u8>, i: int) -> int
    decreases b.len() - i,
{
    if i < 0 || i + 2 > b.len() {
        b.len() as int
    } else if b[i] == 13u8 && b[i + 1] == 10u8 {
        i
    } else {
        find_crlf_from(b, i + 1)
    }
}

pub proof fn lemma_find_crlf(b: Seq<u8>, i: int)
    requires
        0 <= i,
    ensures
        i <= find_crlf_from(b, i) || find_crlf_from(b, i) == b.len(),
        find_crlf_from(b, i) <= b.len(),
        find_crlf_from(b, i) < b.len() ==> find_crlf_from(b, i) + 2 <= b.len() && i <= find_crlf_from(b, i),
    decreases b.len() - i,
{
    if i + 2 <= b.len() && !(b[i] == 13u8 && b[i + 1] == 10u8) {
        lemma_find_crlf(b, i + 1);
    }
}

/// Position of the first `\r\n` at or after `from`.
pub fn find_crlf(buf: &[u8], from: usize) -> (r: Option<usize>)
    requires
        from <= buf.len(),
    ensures
        match r {
            Some(k) => k == find_crlf_from(buf@, from as int) && from <= k && k + 2 <= buf.len(),
            None => find_crlf_from(buf@, from as int) == buf.len(),
        },
{
    let n = buf.len();
    let mut i = from;
    while n >= 2 && i <= n - 2
        invariant
            from <= i,
            n == buf.len(),
            find_crlf_from(buf@, i as int) == find_crlf_from(buf@, from as int),
        decreases n - i,
    {
        if buf[i] == 13u8 && buf[i + 1] == 10u8 {
            return Some(i);
        }
        i = i + 1;
    }
    None
}

// ------------------------------------------------------ chunked bodies ---

/// Outcome of decoding a `Transfer-Encoding: chunked` body.
#[derive(Debug)]
pub enum ChunkedState {
    /// The zero-size chunk arrived: the decoded body.
    Complete(Vec<u8>),
    /// More bytes are needed.
    NeedMore,
    /// A chunk-size line is not hexadecimal.
    Malformed(String),
}

/// The size text of a chunk-size line: up to the first `;`, trimmed.
pub open spec fn chunk_size_text(line: Seq<char>) -> Seq<char> {
    trim(line.take(find_char(line, ';', 0)))
}

/// The content of a [`ChunkedState`].
pub enum ChunkedOutcome {
    Complete(Seq<u8>),
    NeedMore,
    Malformed(Seq<char>),
}

/// Decoding from byte `pos` on, with `decoded` already produced.
pub open spec fn chunked_from(body: Seq<u8>, pos: int, decoded: Seq<u8>) -> ChunkedOutcome
    decreases body.len() - pos,
{
    if pos < 0 || pos > body.len() {
        ChunkedOutcome::NeedMore
    } else {
        let line_end = find_crlf_from(body, pos);
        proof {
            lemma_find_crlf(body, pos);
        }
        let line = lossy_utf8(body.subrange(pos, line_end));
        let size = parse_unsigned(chunk_size_text(line), 16, usize::MAX as nat);
        let data_start = line_end + 2;
        if line_end >= body.len() {
            ChunkedOutcome::NeedMore
        } else if size is Err {
            ChunkedOutcome::Malformed("bad chunk size line: "@ + debug_quoted(line))
        } else if size->Ok_0 == 0 {
            ChunkedOutcome::Complete(decoded)
        } else if body.len() < data_start + size->Ok_0 + 2 {
            ChunkedOutcome::NeedMore
        } else {
            chunked_from(
                body,
                data_start + size->Ok_0 + 2,
                decoded + body.subrange(data_start, data_start + size->Ok_0),
            )
        }
    }
}

/// Best-effort decoding of a transfer that ended early: the chunks that
/// arrived whole, stopping at the first incomplete or malformed one.
pub open spec fn chunked_partial_from(body: Seq<u8>, pos: int, decoded: Seq<u8>) -> Seq<u8>
    decreases body.len() - pos,
{
    if pos < 0 || pos > body.len() {
        decoded
    } else {
        let line_end = find_crlf_from(body, pos);
        proof {
            lemma_find_crlf(body, pos);
        }
        let line = lossy_utf8(body.subrange(pos, line_end));
        let size = parse_unsigned(chunk_size_text(line), 16, usize::MAX as nat);
        let data_start = line_end + 2;
        if line_end >= body.len() || size is Err || size->Ok_0 == 0 || body.len() < data_start
            + size->Ok_0 + 2 {
            decoded
        } else {
            chunked_partial_from(
                body,
                data_start + size->Ok_0 + 2,
                decoded + body.subrange(data_start, data_start + size->Ok_0),
            )
        }
    }
}

proof fn lemma_partial_agrees(body: Seq<u8>, pos: int, decoded: Seq<u8>)
    ensures
        chunked_from(body, pos, decoded) matches ChunkedOutcome::Complete(d) ==> chunked_partial_from(
            body,
            pos,
            decoded,
        ) == d,
    decreases body.len() - pos,
{
    if 0 <= pos <= body.len() {
        lemma_find_crlf(body, pos);
        let line_end = find_crlf_from(body, pos);
        let line = lossy_utf8(body.subrange(pos, line_end));
        let size = parse_unsigned(chunk_size_text(line), 16, usize::MAX as nat);
        let data_start = line_end + 2;
        if line_end < body.len() && size is Ok && size->Ok_0 != 0 && body.len() >= data_start
            + size->Ok_0 + 2 {
            lemma_partial_agrees(
                body,
                data_start + size->Ok_0 + 2,
                decoded + body.subrange(data_start, data_start + size->Ok_0),
            );
        }
    }
}

/// On a complete chunked body, best-effort decoding gives exactly the bytes
/// that full decoding gives.
pub proof fn law_partial_decoding_of_a_complete_body(body: Seq<u8>)
    ensures
        chunked_from(body, 0, Seq::empty()) matches ChunkedOutcome::Complete(d) ==> chunked_partial_from(
            body,
            0,
            Seq::empty(),
        ) == d,
{
    lemma_partial_agrees(body, 0, Seq::empty());
}

/// One step of chunked decoding at `pos`: `Err` for the end of decoding
/// (with its outcome), `Ok((data_start, size))` for a whole chunk.
fn chunk_at(body: &[u8], pos: usize) -> (r: Result<(usize, usize), ChunkedState>)
    requires
        pos <= body.len(),
    ensures
        ({
            let line_end = find_crlf_from(body@, pos as int);
            let line = lossy_utf8(body@.subrange(pos as int, line_end));
            let size = parse_unsigned(chunk_size_text(line), 16, usize::MAX as nat);
            match r {
                Ok((start, n)) => line_end < body.len() && size == Ok::<nat, IntErrorKind>(n as nat)
                    && n > 0 && start == line_end + 2 && start + n + 2 <= body.len() && pos + 2
                    <= start,
                Err(ChunkedState::NeedMore) => line_end >= body.len() || (size is Ok && size->Ok_0
                    > 0 && body.len() < line_end + 2 + size->Ok_0 + 2),
                Err(ChunkedState::Malformed(m)) => line_end < body.len() && size is Err && m@ == (
                "bad chunk size line: "@ + debug_quoted(line)),
                Err(ChunkedState::Complete(d)) => line_end < body.len() && size == Ok::<
                    nat,
                    IntErrorKind,
                >(0nat) && d@.len() == 0,
            }
        }),
{
    proof {
        lemma_find_crlf(body@, pos as int);
    }
    let line_end = match find_crlf(body, pos) {
        Some(k) => k,
        None => {
            return Err(ChunkedState::NeedMore);
        },
    };
    let mut raw: Vec<u8> = Vec::new();
    let mut i = pos;
    while i < line_end
        invariant
            pos <= i <= line_end,
            line_end + 2 <= body.len(),
            raw@ == body@.subrange(pos as int, i as int),
        decreases line_end - i,
    {
        raw.push(body[i]);
        i = i + 1;
        assert(raw@ =~= body@.subrange(pos as int, i as int));
    }
    let line = utf8_lossy(raw.as_slice());
    let chars = chars_of(line.as_str());
    proof {
        lemma_find_char(chars@, ';', 0);
    }
    let cut = match find_char_exec(&chars, ';') {
        Some(k) => k,
        None => chars.len(),
    };
    let head = copy_range(&chars, 0, cut);
    let size_text = trim_exec(&head);
    match parse_unsigned_exec(&size_text, 16, usize::MAX as u64) {
        Err(_) => {
            let mut message = text_from("bad chunk size line: ");
            let q = debug_quote(line.as_str());
            push_str(&mut message, q.as_str());
            Err(ChunkedState::Malformed(message))
        },
        Ok(size) => {
            if size == 0 {
                return Err(ChunkedState::Complete(Vec::new()));
            }
            let size = size as usize;
            let data_start = line_end + 2;
            if body.len() - data_start < size || body.len() - data_start - size < 2 {
                return Err(ChunkedState::NeedMore);
            }
            Ok((data_start, size))
        },
    }
}

/// Decodes a chunked body: `Complete` once the zero-size chunk has arrived,
/// `NeedMore` while a size line or a chunk (with its CRLF) is still
/// incomplete, `Malformed` for a size line that is not hexadecimal.
pub fn decode_chunked(body: &[u8]) -> (r: ChunkedState)
    ensures
        match chunked_from(body@, 0, Seq::empty()) {
            ChunkedOutcome::Complete(d) => r matches ChunkedState::Complete(v) && v@ == d,
            ChunkedOutcome::NeedMore => r is NeedMore,
            ChunkedOutcome::Malformed(m) => r matches ChunkedState::Malformed(s) && s@ == m,
        },
{
    let mut decoded: Vec<u8> = Vec::new();
    let mut pos: usize = 0;
    loop
        invariant
            pos <= body.len(),
            chunked_from(body@, pos as int, decoded@) == chunked_from(body@, 0, Seq::empty()),
        decreases body.len() - pos,
    {
        match chunk_at(body, pos) {
            Err(ChunkedState::Complete(_)) => {
                return ChunkedState::Complete(decoded);
            },
            Err(other) => {
                return other;
            },
            Ok((start, size)) => {
                let ghost before = decoded@;
                let mut k = start;
                while k < start + size
                    invariant
                        start <= k <= start + size,
                        start + size + 2 <= body.len(),
                        decoded@ == before + body@.subrange(start as int, k as int),
                    decreases start + size - k,
                {
                    decoded.push(body[k]);
                    k = k + 1;
                    assert(decoded@ =~= before + body@.subrange(start as int, k as int));
                }
                pos = start + size + 2;
            },
        }
    }
}

/// Best-effort decoding of a chunked transfer that ended early.
pub fn decode_chunked_partial(body: &[u8]) -> (r: Vec<u8>)
    ensures
        r@ == chunked_partial_from(body@, 0, Seq::empty()),
{
    let mut decoded: Vec<u8> = Vec::new();
    let mut pos: usize = 0;
    loop
        invariant
            pos <= body.len(),
            chunked_partial_from(body@, pos as int, decoded@) == chunked_partial_from(
                body@,
                0,
                Seq::empty(),
            ),
        decreases body.len() - pos,
    {
        match chunk_at(body, pos) {
            Err(_) => {
                return decoded;
            },
            Ok((start, size)) => {
                let ghost before = decoded@;
                let mut k = start;
                while k < start + size
                    invariant
                        start <= k <= start + size,
                        start + size + 2 <= body.len(),
                        decoded@ == before + body@.subrange(start as int, k as int),
                    decreases start + size - k,
                {
                    decoded.push(body[k]);
                    k = k + 1;
                    assert(decoded@ =~= before + body@.subrange(start as int, k as int));
                }
                pos = start + size + 2;
            },
        }
    }
}

/// The pieces of `s[i..]` between `\r\n` separators (`str::split("\r\n")`).
pub open spec fn split_crlf(s: Seq<char>, i: int) -> Seq<Seq<char>>
    decreases s.len() - i,
    when 0 <= i <= s.len()
{
    let e = find_seq(s, seq!['\r', '\n'], i);
    proof {
        lemma_find_seq(s, seq!['\r', '\n'], i);
    }
    if e >= s.len() {
        seq![s.subrange(i, s.len() as int)]
    } else {
        seq![s.subrange(i, e)] + split_crlf(s, e + 2)
    }
}

/// The `name: value` pairs of header lines from `k` on: blank lines and
/// lines without a colon are skipped; both halves are trimmed.
pub open spec fn header_pairs(lines: Seq<Seq<char>>, k: int) -> Seq<(Seq<char>, Seq<char>)>
    decreases lines.len() - k,
{
    if k < 0 || k >= lines.len() {
        Seq::empty()
    } else {
        let line = lines[k];
        let colon = find_char(line, ':', 0);
        if line.len() == 0 || colon >= line.len() {
            header_pairs(lines, k + 1)
        } else {
            seq![(trim(line.take(colon)), trim(line.skip(colon + 1)))] + header_pairs(lines, k + 1)
        }
    }
}

/// The value of the first header named `name` (ignoring ASCII case).
pub open spec fn header_value(headers: Seq<(Seq<char>, Seq<char>)>, name: Seq<char>) -> Option<
    Seq<char>,
> {
    let i = header_index(headers, name, 0);
    if i < headers.len() {
        Some(headers[i].1)
    } else {
        None
    }
}

/// What the status line and headers of a response say.
#[derive(Debug, Clone)]
pub struct ResponseHead {
    pub status: u16,
    pub reason: String,
    pub headers: Vec<(String, String)>,
    /// `Transfer-Encoding` mentions `chunked`.
    pub chunked: bool,
    /// `Content-Length`, when present and a valid number.
    pub declared_len: Option<usize>,
    /// Where the body starts in the buffer.
    pub body_start: usize,
}

/// The meaning of a header block that ends at `header_end` in `buf`.
pub open spec fn spec_response_head(buf: Seq<u8>, header_end: int) -> Result<
    (u16, Seq<char>, Seq<(Seq<char>, Seq<char>)>, bool, Option<nat>),
    Failure,
> {
    let lines = split_crlf(lossy_utf8(buf.take(header_end)), 0);
    let headers = header_pairs(lines, 1);
    let encoding = header_value(headers, "Content-Encoding"@);
    let transfer = header_value(headers, "Transfer-Encoding"@);
    let length = header_value(headers, "Content-Length"@);
    match spec_status_line(lines[0]) {
        Err(f) => Err(f),
        Ok((status, reason)) => if encoding is Some && ascii_lower(trim(encoding->0))
            != "identity"@ {
            Err(
                Failure {
                    code: ErrorCode::AiUnavailable,
                    message: "AI provider used an unsupported Content-Encoding: "@ + ascii_lower(
                        trim(encoding->0),
                    ),
                    detail: Some("this build speaks uncompressed HTTP only"@),
                },
            )
        } else {
            Ok(
                (
                    status,
                    reason,
                    headers,
                    transfer is Some && contains_seq(ascii_lower(transfer->0), "chunked"@),
                    if length is Some {
                        decimal_value(trim(length->0), usize::MAX as nat)
                    } else {
                        None
                    },
                ),
            )
        },
    }
}

fn split_crlf_exec(v: &Vec<char>) -> (r: Vec<Vec<char>>)
    ensures
        r.deep_view() == split_crlf(v@, 0),
        r.len() > 0,
{
    let mut out: Vec<Vec<char>> = Vec::new();
    let mut start: usize = 0;
    let ghost mut done: Seq<Seq<char>> = Seq::empty();
    proof {
        reveal_strlit("\r\n");
        assert("\r\n"@ =~= seq!['\r', '\n']);
    }
    loop
        invariant
            start <= v.len(),
            "\r\n"@ == seq!['\r', '\n'],
            out.deep_view() + split_crlf(v@, start as int) == split_crlf(v@, 0),
        decreases v.len() - start,
    {
        proof {
            lemma_find_seq(v@, seq!['\r', '\n'], start as int);
        }
        let ghost before = out.deep_view();
        let ghost old_out = out@;
        match find_str(v, "\r\n", start) {
            None => {
                let piece = copy_range(v, start, v.len());
                out.push(piece);
                assert forall|k: int| 0 <= k < out.len() implies #[trigger] out.deep_view()[k]
                    == before.push(v@.subrange(start as int, v.len() as int))[k] by {
                    if k < old_out.len() {
                        assert(out@[k] == old_out[k]);
                    }
                }
                assert(out.deep_view() =~= before.push(v@.subrange(start as int, v.len() as int)));
                assert(out.deep_view() =~= split_crlf(v@, 0));
                return out;
            },
            Some(e) => {
                let piece = copy_range(v, start, e);
                out.push(piece);
                assert forall|k: int| 0 <= k < out.len() implies #[trigger] out.deep_view()[k]
                    == before.push(v@.subrange(start as int, e as int))[k] by {
                    if k < old_out.len() {
                        assert(out@[k] == old_out[k]);
                    }
                }
                assert(out.deep_view() =~= before.push(v@.subrange(start as int, e as int)));
                assert(out.deep_view() + split_crlf(v@, e + 2) =~= before + split_crlf(
                    v@,
                    start as int,
                ));
                start = e + 2;
            },
        }
    }
}

fn header_pairs_exec(lines: &Vec<Vec<char>>) -> (r: Vec<(String, String)>)
    ensures
        pairs_view(r@) == header_pairs(lines.deep_view(), 1),
{
    let ghost lv = lines.deep_view();
    let mut out: Vec<(String, String)> = Vec::new();
    let mut k: usize = 1;
    assert(pairs_view(out@) =~= Seq::<(Seq<char>, Seq<char>)>::empty());
    while k < lines.len()
        invariant
            1 <= k <= lines.len() || lines.len() == 0,
            lv == lines.deep_view(),
            pairs_view(out@) + header_pairs(lv, k as int) == header_pairs(lv, 1),
        decreases lines.len() - k,
    {
        let line = &lines[k];
        assert(line@ == lv[k as int]);
        let ghost before = pairs_view(out@);
        proof {
            lemma_find_char(line@, ':', 0);
        }
        match find_char_exec(line, ':') {
            Some(colon) => {
                if line.len() > 0 {
                    let name = trim_exec(&copy_range(line, 0, colon));
                    let value = trim_exec(&copy_range(line, colon + 1, line.len()));
                    assert(line@.subrange(0, colon as int) =~= line@.take(colon as int));
                    assert(line@.subrange(colon + 1, line.len() as int) =~= line@.skip(colon + 1));
                    out.push((string_of(&name), string_of(&value)));
                    assert(pairs_view(out@) =~= before.push((name@, value@)));
                }
            },
            None => {},
        }
        assert(pairs_view(out@) + header_pairs(lv, k + 1) =~= before + header_pairs(lv, k as int));
        k = k + 1;
    }
    if lines.len() == 0 {
        assert(header_pairs(lv, 1) =~= Seq::<(Seq<char>, Seq<char>)>::empty());
    }
    assert(header_pairs(lv, k as int) =~= Seq::<(Seq<char>, Seq<char>)>::empty());
    out
}

/// Parses the status line and headers of a response whose header block
/// ends at `header_end`: a bad status line is a malformed reply, a
/// `Content-Encoding` other than `identity` is refused, and the framing
/// (`chunked`, `Content-Length`) is reported for the body reader.
pub fn parse_response_head(buf: &[u8], header_end: usize) -> (r: Result<ResponseHead, PrincessError>)
    requires
        header_end + 4 <= buf.len(),
    ensures
        match spec_response_head(buf@, header_end as int) {
            Ok((status, reason, headers, chunked, len)) => r matches Ok(h) && h.status == status
                && h.reason@ == reason && pairs_view(h.headers@) == headers && h.chunked == chunked
                && h.body_start == header_end + 4 && match len {
                Some(n) => h.declared_len matches Some(m) && m == n,
                None => h.declared_len is None,
            },
            Err(f) => r matches Err(e) && e@ == f,
        },
{
    let mut raw: Vec<u8> = Vec::new();
    let mut i: usize = 0;
    while i < header_end
        invariant
            i <= header_end,
            header_end + 4 <= buf.len(),
            raw@ == buf@.take(i as int),
        decreases header_end - i,
    {
        raw.push(buf[i]);
        i = i + 1;
        assert(raw@ =~= buf@.take(i as int));
    }
    let head = utf8_lossy(raw.as_slice());
    let chars = chars_of(head.as_str());
    let lines = split_crlf_exec(&chars);
    let ghost lv = lines.deep_view();
    let status_line = string_of(&lines[0]);
    assert(status_line@ == lv[0]);
    let (status, reason) = match parse_status_line(status_line.as_str()) {
        Ok(p) => p,
        Err(e) => {
            return Err(e);
        },
    };
    let headers = header_pairs_exec(&lines);
    let probe = HttpResponse { status, reason: String::new(), headers, body: Vec::new() };
    let ghost spec_lines = split_crlf(lossy_utf8(buf@.take(header_end as int)), 0);
    assert(raw@ == buf@.take(header_end as int));
    assert(lv == spec_lines);
    assert(pairs_view(probe.headers@) == header_pairs(spec_lines, 1));
    assert(spec_status_line(spec_lines[0]) == Ok::<(u16, Seq<char>), Failure>((status, reason@)));
    proof {
        reveal_strlit("identity");
        reveal_strlit("chunked");
    }
    let ghost hv = pairs_view(probe.headers@);
    let content_encoding = probe.header("Content-Encoding");
    proof {
        let i = header_index(hv, "Content-Encoding"@, 0);
        lemma_header_index(hv, "Content-Encoding"@, 0);
        if i < hv.len() {
            assert(hv[i].1 == probe.headers@[i].1@);
        }
    }
    assert(match content_encoding {
        Some(v) => header_value(hv, "Content-Encoding"@) == Some(v@),
        None => header_value(hv, "Content-Encoding"@) is None,
    });
    match content_encoding {
        Some(encoding) => {
            let lowered = ascii_lower_exec(&trim_exec(&chars_of(encoding)));
            if !equals_str(&lowered, "identity") {
                let mut message = text_from("AI provider used an unsupported Content-Encoding: ");
                let lowered_text = string_of(&lowered);
                push_str(&mut message, lowered_text.as_str());
                return Err(
                    PrincessError::new(ErrorCode::AiUnavailable, message).with_detail(
                        text_from("this build speaks uncompressed HTTP only"),
                    ),
                );
            }
        },
        None => {},
    }
    let transfer = probe.header("Transfer-Encoding");
    proof {
        let i = header_index(hv, "Transfer-Encoding"@, 0);
        lemma_header_index(hv, "Transfer-Encoding"@, 0);
        if i < hv.len() {
            assert(hv[i].1 == probe.headers@[i].1@);
        }
    }
    let chunked = match transfer {
        Some(t) => contains_str(&ascii_lower_exec(&chars_of(t)), "chunked"),
        None => false,
    };
    let length = probe.header("Content-Length");
    proof {
        let i = header_index(hv, "Content-Length"@, 0);
        lemma_header_index(hv, "Content-Length"@, 0);
        if i < hv.len() {
            assert(hv[i].1 == probe.headers@[i].1@);
        }
    }
    let declared_len = match length {
        Some(t) => match parse_unsigned_exec(&trim_exec(&chars_of(t)), 10, usize::MAX as u64) {
            Ok(n) => Some(n as usize),
            Err(_) => None,
        },
        None => None,
    };
    Ok(
        ResponseHead {
            status,
            reason,
            headers: probe.headers,
            chunked,
            declared_len,
            body_start: header_end + 4,
        },
    )
}

} // verus!
