//! The OpenAI-compatible provider: its resolved settings, the decisions it
//! makes before any socket is opened, the state it keeps while a stream is
//! decoded, and the requests it can cancel.
//!
//! A provider that is switched off, unreachable or half-broken answers an
//! ordinary `E_AI_UNAVAILABLE` (or `E_TIMEOUT` / `E_CANCELLED`) failure and
//! never affects any other part of the IDE.

use vstd::prelude::*;
use crate::contract::{ErrorCode, PrincessError, Failure};
use crate::config::{chat_completions_url, spec_chat_completions_url, not_configured, non_blank};
use crate::scan::{chars_of, trim, trim_exec, string_of, ascii_lower, ascii_lower_exec, contains_seq,
    contains_str};
use crate::sse::{
    AiUsage, ChatCompletionChunk, StreamUsage, SseEvent, SseItem, chunk_text, choices_text,
    spec_usage_total, event_items,
};
use crate::text::{push_str, push_decimal, spec_decimal, debug_quoted, debug_quote};
use crate::error_map::{for_http_status, for_cancelled, spec_http_status, spec_truncated};
use crate::doctor::texts;

verus! {

broadcast use vstd::string::group_string_axioms;

/// Default end-to-end deadline for one completion, in milliseconds.
pub const DEFAULT_TIMEOUT_MS: u64 = 120000;

/// The provider's resolved settings.
#[derive(Debug, Clone, PartialEq, Eq)]
pub struct AiConfig {
    /// Normalised endpoint, e.g. `http://127.0.0.1:11434/v1`.
    pub base_url: String,
    pub model: String,
    /// From `OPENAI_API_KEY` only.
    pub api_key: Option<String>,
}

fn text_from(s: &str) -> (r: String)
    ensures
        r@ == s@,
{
    let mut r = String::new();
    push_str(&mut r, s);
    r
}

impl AiConfig {
    /// The full `chat/completions` URL.
    pub fn endpoint(&self) -> (r: String)
        ensures
            r@ == spec_chat_completions_url(self.base_url@),
    {
        chat_completions_url(self.base_url.as_str())
    }

    /// `Authorization: Bearer <key>`, or `None` for a keyless local server
    /// (no key, or a blank one).
    pub fn authorization_header(&self) -> (r: Option<(String, String)>)
        ensures
            match self.api_key {
                Some(k) => if non_blank(k@) {
                    r matches Some(h) && h.0@ == "Authorization"@ && h.1@ == "Bearer "@ + trim(k@)
                } else {
                    r is None
                },
                None => r is None,
            },
    {
        match &self.api_key {
            Some(key) => {
                let trimmed = trim_exec(&chars_of(key.as_str()));
                if trimmed.len() == 0 {
                    return None;
                }
                let mut value = text_from("Bearer ");
                let t = string_of(&trimmed);
                push_str(&mut value, t.as_str());
                Some((text_from("Authorization"), value))
            },
            None => None,
        }
    }
}

/// How the provider bounds and shapes a request.
#[derive(Debug, Clone, Copy)]
pub struct ProviderOptions {
    /// End-to-end deadline in milliseconds.
    pub timeout_ms: u64,
    /// Ask the server to include a usage block in the stream.
    pub include_usage: bool,
}

impl Default for ProviderOptions {
    fn default() -> (o: Self)
        ensures
            o.timeout_ms == DEFAULT_TIMEOUT_MS,
            o.include_usage,
    {
        ProviderOptions { timeout_ms: DEFAULT_TIMEOUT_MS, include_usage: true }
    }
}

/// A cheap snapshot of the provider, made without touching the network.
#[derive(Debug, Clone, PartialEq, Eq)]
pub struct AiStatus {
    /// Configured (reachability is only learnt from a request).
    pub available: bool,
    pub provider: String,
    pub base_url: Option<String>,
    pub model: Option<String>,
    pub has_api_key: bool,
    pub timeout_ms: u64,
    /// Extra notes, by name (none are produced today).
    pub notes: Vec<(String, String)>,
}

/// A request that can still be cancelled.
#[derive(Debug, Clone)]
pub struct LiveRequest {
    pub request_id: String,
    /// Set by a cancel; the transport consults it on every socket wait.
    pub stopped: bool,
}

/// The OpenAI-compatible provider.  `config` is `None` when it is switched
/// off: every request then answers `E_AI_UNAVAILABLE` at once.
pub struct OpenAiProvider {
    id: String,
    config: Option<AiConfig>,
    options: ProviderOptions,
    live: Vec<LiveRequest>,
}

/// The detail of the switched-off failure.
pub open spec fn unavailable_detail() -> Seq<char> {
    "[ai].provider is not \"openai-compatible\", or no base_url/model was configured (project manifest, PRINCESSIDE_AI_BASE_URL / OPENAI_BASE_URL, or the global setting)"@
}

/// What `preflight` answers for a request.
pub open spec fn spec_preflight(
    config: Option<AiConfig>,
    cancelled: bool,
    request_id: Seq<char>,
    stream: bool,
) -> Result<(), Failure> {
    if cancelled {
        Err(
            Failure {
                code: ErrorCode::Cancelled,
                message: "operation "@ + request_id + " was cancelled"@,
                detail: None,
            },
        )
    } else if config is None {
        Err(
            Failure {
                code: ErrorCode::AiUnavailable,
                message: "no AI provider is configured for this project"@,
                detail: Some(unavailable_detail()),
            },
        )
    } else if !non_blank(config->0.base_url@) || !non_blank(config->0.model@) {
        Err(
            Failure {
                code: ErrorCode::AiUnavailable,
                message: "no AI provider is configured for this project"@,
                detail: Some(
                    "base_url="@ + debug_quoted(config->0.base_url@) + " model="@ + debug_quoted(
                        config->0.model@,
                    ),
                ),
            },
        )
    } else if !stream {
        Err(
            Failure {
                code: ErrorCode::AiUnavailable,
                message: "this provider implements streaming chat/completions only"@,
                detail: Some(
                    "set `stream = true` on the request (contract \u{a7}5: v1 always streams)"@,
                ),
            },
        )
    } else {
        Ok(())
    }
}

impl OpenAiProvider {
    /// The provider's configuration, when it has one.
    pub closed spec fn spec_config(&self) -> Option<AiConfig> {
        self.config
    }

    /// Its options.
    pub closed spec fn spec_options(&self) -> ProviderOptions {
        self.options
    }

    /// The ids of its live requests, with their stop flags.
    pub closed spec fn spec_live(&self) -> Seq<(Seq<char>, bool)> {
        live_view(self.live@)
    }

    /// Its id.
    pub closed spec fn spec_id(&self) -> Seq<char> {
        self.id@
    }

    /// A provider that is explicitly switched off.
    pub fn unconfigured() -> (p: Self)
        ensures
            p.spec_config() is None,
            p.spec_id() == "openai-compatible"@,
            p.spec_options().timeout_ms == DEFAULT_TIMEOUT_MS && p.spec_options().include_usage,
            p.spec_live().len() == 0,
    {
        let p = OpenAiProvider {
            id: text_from("openai-compatible"),
            config: None,
            options: ProviderOptions::default(),
            live: Vec::new(),
        };
        assert(p.spec_live() =~= Seq::<(Seq<char>, bool)>::empty());
        p
    }

    /// A configured provider.
    pub fn new(config: AiConfig) -> (p: Self)
        ensures
            p.spec_config() == Some(config),
            p.spec_id() == "openai-compatible"@,
            p.spec_options().timeout_ms == DEFAULT_TIMEOUT_MS && p.spec_options().include_usage,
            p.spec_live().len() == 0,
    {
        let p = OpenAiProvider {
            id: text_from("openai-compatible"),
            config: Some(config),
            options: ProviderOptions::default(),
            live: Vec::new(),
        };
        assert(p.spec_live() =~= Seq::<(Seq<char>, bool)>::empty());
        p
    }

    /// The same provider with other options.
    pub fn with_options(self, options: ProviderOptions) -> (p: Self)
        ensures
            p.spec_config() == self.spec_config(),
            p.spec_id() == self.spec_id(),
            p.spec_options() == options,
            p.spec_live() == self.spec_live(),
    {
        OpenAiProvider { id: self.id, config: self.config, options, live: self.live }
    }

    /// The resolved configuration, or `None` when switched off.
    pub fn config(&self) -> (r: Option<&AiConfig>)
        ensures
            match self.spec_config() {
                Some(c) => r matches Some(x) && *x == c,
                None => r is None,
            },
    {
        match &self.config {
            Some(c) => Some(c),
            None => None,
        }
    }

    /// How requests are bounded and shaped.
    pub fn options(&self) -> (r: ProviderOptions)
        ensures
            r == self.spec_options(),
    {
        self.options
    }

    /// True when this provider cannot serve requests at all.
    pub fn is_unconfigured(&self) -> (r: bool)
        ensures
            r == self.spec_config() is None,
    {
        self.config.is_none()
    }

    /// The fail-fast failure of a switched-off provider.
    pub fn unavailable_error(&self) -> (e: PrincessError)
        ensures
            e.code == ErrorCode::AiUnavailable,
            e.message@ == "no AI provider is configured for this project"@,
            e.detail matches Some(d) && d@ == unavailable_detail(),
    {
        not_configured(
            text_from(
                "[ai].provider is not \"openai-compatible\", or no base_url/model was configured (project manifest, PRINCESSIDE_AI_BASE_URL / OPENAI_BASE_URL, or the global setting)",
            ),
        )
    }

    /// The checks made before any socket is opened, in order: a cancelled
    /// operation, a switched-off provider, a blank endpoint or model, and a
    /// request that does not ask for a stream are all refused.
    pub fn preflight(&self, cancelled: bool, request_id: &str, stream: bool) -> (r: Result<
        (),
        PrincessError,
    >)
        ensures
            match spec_preflight(self.spec_config(), cancelled, request_id@, stream) {
                Ok(()) => r is Ok,
                Err(f) => r matches Err(e) && e@ == f,
            },
    {
        if cancelled {
            let mut message = text_from("operation ");
            push_str(&mut message, request_id);
            push_str(&mut message, " was cancelled");
            return Err(PrincessError::new(ErrorCode::Cancelled, message));
        }
        let config = match &self.config {
            Some(c) => c,
            None => {
                return Err(self.unavailable_error());
            },
        };
        let base_blank = trim_exec(&chars_of(config.base_url.as_str())).len() == 0;
        let model_blank = trim_exec(&chars_of(config.model.as_str())).len() == 0;
        if base_blank || model_blank {
            let mut detail = text_from("base_url=");
            let q1 = debug_quote(config.base_url.as_str());
            push_str(&mut detail, q1.as_str());
            push_str(&mut detail, " model=");
            let q2 = debug_quote(config.model.as_str());
            push_str(&mut detail, q2.as_str());
            return Err(not_configured(detail));
        }
        if !stream {
            return Err(
                PrincessError::new(
                    ErrorCode::AiUnavailable,
                    text_from("this provider implements streaming chat/completions only"),
                ).with_detail(
                    text_from("set `stream = true` on the request (contract \u{a7}5: v1 always streams)"),
                ),
            );
        }
        Ok(())
    }

    /// Describes the provider without touching the network.
    pub fn status(&self) -> (s: AiStatus)
        ensures
            s.available == self.spec_config() is Some,
            s.provider@ == self.spec_id(),
            s.timeout_ms == self.spec_options().timeout_ms,
            s.notes@.len() == 0,
            match self.spec_config() {
                Some(c) => (s.base_url matches Some(b) && b@ == c.base_url@) && (s.model matches Some(
                    m,
                ) && m@ == c.model@) && s.has_api_key == (c.api_key matches Some(k) && non_blank(
                    k@,
                )),
                None => s.base_url is None && s.model is None && !s.has_api_key,
            },
    {
        match &self.config {
            Some(config) => AiStatus {
                available: true,
                provider: self.id.clone(),
                base_url: Some(config.base_url.clone()),
                model: Some(config.model.clone()),
                has_api_key: config.authorization_header().is_some(),
                timeout_ms: self.options.timeout_ms,
                notes: Vec::new(),
            },
            None => AiStatus {
                available: false,
                provider: self.id.clone(),
                base_url: None,
                model: None,
                has_api_key: false,
                timeout_ms: self.options.timeout_ms,
                notes: Vec::new(),
            },
        }
    }

    /// Registers a request as live.
    pub fn add_live_request(&mut self, request_id: String)
        ensures
            final(self).spec_live() == old(self).spec_live().push((request_id@, false)),
            final(self).spec_config() == old(self).spec_config(),
            final(self).spec_options() == old(self).spec_options(),
            final(self).spec_id() == old(self).spec_id(),
    {
        self.live.push(LiveRequest { request_id, stopped: false });
        assert(self.spec_live() =~= old(self).spec_live().push((request_id@, false)));
    }

    /// Stops every live request with this id.  Cancelling an unknown or
    /// finished request is not a failure: there is nothing to stop.
    pub fn cancel(&mut self, request_id: &str) -> (r: Result<(), PrincessError>)
        ensures
            r is Ok,
            final(self).spec_live().len() == old(self).spec_live().len(),
            forall|i: int|
                0 <= i < old(self).spec_live().len() ==> #[trigger] final(self).spec_live()[i] == (
                old(self).spec_live()[i].0,
                old(self).spec_live()[i].1 || old(self).spec_live()[i].0 == request_id@,
            ),
            final(self).spec_config() == old(self).spec_config(),
            final(self).spec_options() == old(self).spec_options(),
            final(self).spec_id() == old(self).spec_id(),
    {
        let key = text_from(request_id);
        let mut i: usize = 0;
        while i < self.live.len()
            invariant
                i <= self.live.len(),
                key@ == request_id@,
                self.live@.len() == old(self).live@.len(),
                self.config == old(self).config,
                self.options == old(self).options,
                self.id == old(self).id,
                forall|j: int|
                    0 <= j < self.live@.len() ==> #[trigger] self.live@[j].request_id@ == old(
                        self,
                    ).live@[j].request_id@,
                forall|j: int|
                    0 <= j < i ==> #[trigger] self.live@[j].stopped == (old(self).live@[j].stopped
                        || old(self).live@[j].request_id@ == request_id@),
                forall|j: int|
                    i <= j < self.live@.len() ==> #[trigger] self.live@[j].stopped == old(
                        self,
                    ).live@[j].stopped,
            decreases self.live.len() - i,
        {
            if self.live[i].request_id == key {
                let id = self.live[i].request_id.clone();
                self.live.set(i, LiveRequest { request_id: id, stopped: true });
            }
            i = i + 1;
        }
        Ok(())
    }

    /// Has a cancel reached request `request_id`?
    pub fn is_stopped(&self, request_id: &str) -> (r: bool)
        ensures
            r == exists|i: int|
                0 <= i < self.spec_live().len() && #[trigger] self.spec_live()[i].0 == request_id@
                    && self.spec_live()[i].1,
    {
        let key = text_from(request_id);
        let mut i: usize = 0;
        while i < self.live.len()
            invariant
                i <= self.live.len(),
                key@ == request_id@,
                forall|j: int|
                    0 <= j < i ==> !(#[trigger] self.spec_live()[j].0 == request_id@ && self.spec_live()[j].1),
            decreases self.live.len() - i,
        {
            if self.live[i].request_id == key && self.live[i].stopped {
                assert(self.spec_live()[i as int].0 == request_id@ && self.spec_live()[i as int].1);
                return true;
            }
            i = i + 1;
        }
        false
    }

    /// Forgets every live request with this id (idempotent).
    pub fn remove_live_request(&mut self, request_id: &str)
        ensures
            final(self).spec_live() == old(self).spec_live().filter(
                |e: (Seq<char>, bool)| e.0 != request_id@,
            ),
            final(self).spec_config() == old(self).spec_config(),
            final(self).spec_options() == old(self).spec_options(),
            final(self).spec_id() == old(self).spec_id(),
    {
        let key = text_from(request_id);
        let ghost old_live = self.spec_live();
        let ghost keep = |e: (Seq<char>, bool)| e.0 != request_id@;
        let mut kept: Vec<LiveRequest> = Vec::new();
        let mut i: usize = 0;
        proof {
            reveal(Seq::filter);
            assert(old_live.take(0) =~= Seq::<(Seq<char>, bool)>::empty());
            assert(live_view(kept@) =~= Seq::<(Seq<char>, bool)>::empty());
        }
        while i < self.live.len()
            invariant
                i <= self.live.len(),
                key@ == request_id@,
                old_live == self.spec_live(),
                old_live == live_view(self.live@),
                keep == (|e: (Seq<char>, bool)| e.0 != request_id@),
                live_view(kept@) == old_live.take(i as int).filter(keep),
            decreases self.live.len() - i,
        {
            let ghost before = live_view(kept@);
            let entry = &self.live[i];
            if entry.request_id != key {
                kept.push(LiveRequest { request_id: entry.request_id.clone(), stopped: entry.stopped });
                assert(live_view(kept@) =~= before.push((entry.request_id@, entry.stopped)));
            }
            proof {
                reveal(Seq::filter);
                let tk = old_live.take(i + 1);
                assert(tk.drop_last() =~= old_live.take(i as int));
                assert(tk.last() == old_live[i as int]);
                assert(old_live[i as int] == (entry.request_id@, entry.stopped));
            }
            i = i + 1;
        }
        assert(old_live.take(i as int) =~= old_live);
        self.live = kept;
    }
}

/// The ids and stop flags of live requests.
pub open spec fn live_view(v: Seq<LiveRequest>) -> Seq<(Seq<char>, bool)> {
    Seq::new(v.len(), |i: int| (v[i].request_id@, v[i].stopped))
}

/// A failure that says the provider rejected `stream_options`: a 4xx for
/// the body sent, with a detail that mentions the option, an unknown field
/// or something unsupported.
pub open spec fn spec_unknown_option_rejection(e: Failure) -> bool {
    e.code == ErrorCode::AiUnavailable && e.detail is Some && ({
        let lowered = ascii_lower(e.detail->0);
        contains_seq(lowered, "stream_options"@) || contains_seq(lowered, "unknown field"@)
            || contains_seq(lowered, "unsupported"@)
    })
}

/// Should the request be retried once without `stream_options`?
pub fn is_unknown_option_rejection(err: &PrincessError) -> (r: bool)
    ensures
        r == spec_unknown_option_rejection(err@),
{
    if err.code != ErrorCode::AiUnavailable {
        return false;
    }
    match &err.detail {
        None => false,
        Some(detail) => {
            let lowered = ascii_lower_exec(&chars_of(detail.as_str()));
            contains_str(&lowered, "stream_options") || contains_str(&lowered, "unknown field")
                || contains_str(&lowered, "unsupported")
        },
    }
}

/// What a streaming completion has seen so far.
#[derive(Debug, Clone, Copy)]
pub struct StreamProgress {
    pub usage: AiUsage,
    pub saw_content: bool,
    pub saw_done: bool,
}

impl StreamProgress {
    /// Nothing seen yet.
    pub fn new() -> (p: Self)
        ensures
            p.usage == (AiUsage { prompt_tokens: 0, completion_tokens: 0, total_tokens: 0 }),
            !p.saw_content,
            !p.saw_done,
    {
        StreamProgress {
            usage: AiUsage { prompt_tokens: 0, completion_tokens: 0, total_tokens: 0 },
            saw_content: false,
            saw_done: false,
        }
    }

    /// Folds one parsed chunk in: its usage block (when present) replaces
    /// the usage, and its text (when there is any) is what to emit.
    pub fn on_chunk(&mut self, chunk: &ChatCompletionChunk) -> (text: Option<String>)
        requires
            chunk.usage matches Some(u) ==> spec_usage_total(u) <= u64::MAX,
        ensures
            match chunk.usage {
                Some(u) => final(self).usage == (AiUsage {
                    prompt_tokens: u.prompt_tokens,
                    completion_tokens: u.completion_tokens,
                    total_tokens: spec_usage_total(u) as u64,
                }),
                None => final(self).usage == old(self).usage,
            },
            choices_text(chunk.choices@, 0).len() == 0 ==> text is None && final(self).saw_content
                == old(self).saw_content,
            choices_text(chunk.choices@, 0).len() > 0 ==> (text matches Some(t) && t@
                == choices_text(chunk.choices@, 0)) && final(self).saw_content,
            final(self).saw_done == old(self).saw_done,
    {
        match chunk.usage {
            Some(u) => {
                self.usage = u.to_ai_usage();
            },
            None => {},
        }
        let text = chunk_text(chunk);
        if text.is_some() {
            self.saw_content = true;
        }
        text
    }

    /// The `[DONE]` sentinel arrived.
    pub fn on_done(&mut self)
        ensures
            final(self).saw_done,
            final(self).usage == old(self).usage,
            final(self).saw_content == old(self).saw_content,
    {
        self.saw_done = true;
    }

    /// The stream produced nothing at all: no content and no reported
    /// tokens (worth a diagnostic line, never an error).
    pub fn is_empty_answer(&self) -> (r: bool)
        ensures
            r == (!self.saw_content && self.usage.total_tokens == 0),
    {
        !self.saw_content && self.usage.total_tokens == 0
    }
}


/// The headers of a completion request: JSON in, an event stream out, the
/// engine's user agent, and the bearer token when there is a key.
pub open spec fn spec_request_headers(config: AiConfig, engine_version: Seq<char>) -> Seq<
    (Seq<char>, Seq<char>),
> {
    let base = seq![
        ("Content-Type"@, "application/json"@),
        ("Accept"@, "text/event-stream"@),
        ("User-Agent"@, "PrincessIDE/"@ + engine_version),
    ];
    match config.api_key {
        Some(k) => if non_blank(k@) {
            base.push(("Authorization"@, "Bearer "@ + trim(k@)))
        } else {
            base
        },
        None => base,
    }
}

/// Builds the request headers (see [`spec_request_headers`]).
pub fn request_headers(config: &AiConfig, engine_version: &str) -> (r: Vec<(String, String)>)
    ensures
        crate::monitor::pairs_view(r@) == spec_request_headers(*config, engine_version@),
{
    let mut agent = text_from("PrincessIDE/");
    push_str(&mut agent, engine_version);
    let mut r: Vec<(String, String)> = Vec::new();
    r.push((text_from("Content-Type"), text_from("application/json")));
    r.push((text_from("Accept"), text_from("text/event-stream")));
    r.push((text_from("User-Agent"), agent));
    match config.authorization_header() {
        Some(h) => {
            r.push(h);
        },
        None => {},
    }
    proof {
        reveal_strlit("Content-Type");
        reveal_strlit("application/json");
        reveal_strlit("Accept");
        reveal_strlit("text/event-stream");
    }
    assert(crate::monitor::pairs_view(r@) =~= spec_request_headers(*config, engine_version@));
    r
}

/// The failure of a request stopped mid-stream: the caller's own token
/// reads as the operation being cancelled; a stop through the provider's
/// `cancel` uses the AI wording.
pub open spec fn spec_stream_cancelled(token_cancelled: bool, request_id: Seq<char>) -> Failure {
    if token_cancelled {
        Failure {
            code: ErrorCode::Cancelled,
            message: "operation "@ + request_id + " was cancelled"@,
            detail: None,
        }
    } else {
        Failure {
            code: ErrorCode::Cancelled,
            message: "AI request "@ + request_id + " was cancelled"@,
            detail: None,
        }
    }
}

/// Builds the mid-stream cancellation failure (see [`spec_stream_cancelled`]).
pub fn stream_cancelled(token_cancelled: bool, request_id: &str) -> (e: PrincessError)
    ensures
        e@ == spec_stream_cancelled(token_cancelled, request_id@),
{
    if token_cancelled {
        let mut message = text_from("operation ");
        push_str(&mut message, request_id);
        push_str(&mut message, " was cancelled");
        PrincessError::new(ErrorCode::Cancelled, message)
    } else {
        for_cancelled(request_id)
    }
}

/// The payloads of the events before the first `[DONE]`, in order.
pub open spec fn payloads_before_done(items: Seq<SseItem>) -> Seq<Seq<char>>
    decreases items.len(),
{
    if items.len() == 0 {
        Seq::empty()
    } else {
        match items[0] {
            SseItem::Done => Seq::empty(),
            SseItem::Data(d) => seq![d] + payloads_before_done(items.drop_first()),
        }
    }
}

/// Does the batch hold the `[DONE]` sentinel?
pub open spec fn has_done(items: Seq<SseItem>) -> bool {
    exists|i: int| 0 <= i < items.len() && #[trigger] items[i] is Done
}

/// How a streamed exchange ends once the response is complete: a non-2xx
/// status is the mapped HTTP failure (with a log line naming it); a 2xx is
/// the usage, with a diagnostic line when nothing at all came back.
pub open spec fn spec_conclusion(
    p: StreamProgress,
    request_id: Seq<char>,
    status: u16,
    reason: Seq<char>,
    body_text: Seq<char>,
) -> (Result<AiUsage, Failure>, Option<Seq<char>>) {
    if !(200 <= status < 300) {
        let mapped = spec_http_status(status);
        let t = spec_truncated(body_text);
        (
            Err(
                Failure {
                    code: mapped.0,
                    message: mapped.1,
                    detail: if t.len() > 0 {
                        Some(t)
                    } else {
                        None
                    },
                },
            ),
            Some("ai: provider answered HTTP "@ + spec_decimal(status as nat) + " "@ + reason + "\n"@),
        )
    } else if !p.saw_content && p.usage.total_tokens == 0 {
        (
            Ok(p.usage),
            Some(
                "ai: provider returned no content for request "@ + request_id + " (done="@ + (if p.saw_done {
                    "true"@
                } else {
                    "false"@
                }) + ")\n"@,
            ),
        )
    } else {
        (Ok(p.usage), None)
    }
}

/// The end of an exchange and the log line that goes with it.
#[derive(Debug)]
pub struct Conclusion {
    pub result: Result<AiUsage, PrincessError>,
    pub log: Option<String>,
}

impl StreamProgress {
    /// Takes the events one socket read produced.  When the request was
    /// stopped before that read, any event it produced ends the exchange
    /// (`None`, nothing of the batch is used); otherwise the data payloads up
    /// to a `[DONE]` are returned, in order, for parsing.
    pub fn take_batch(&mut self, events: Vec<SseEvent>, stopped: bool) -> (r: Option<Vec<String>>)
        ensures
            stopped && events@.len() > 0 ==> r is None && *final(self) == *old(self),
            !(stopped && events@.len() > 0) ==> (r matches Some(p) && texts(p@)
                == payloads_before_done(event_items(events@))) && final(self).saw_done == (old(
                self,
            ).saw_done || has_done(event_items(events@))) && final(self).usage == old(self).usage
                && final(self).saw_content == old(self).saw_content,
    {
        if stopped && events.len() > 0 {
            return None;
        }
        let ghost items = event_items(events@);
        let mut out: Vec<String> = Vec::new();
        let mut i: usize = 0;
        let mut done = false;
        assert(items.skip(0) =~= items);
        assert(texts(out@) + payloads_before_done(items.skip(0)) =~= payloads_before_done(items));
        while i < events.len() && !done
            invariant
                i <= events.len(),
                items == event_items(events@),
                !done ==> forall|j: int| 0 <= j < i ==> !(#[trigger] items[j] is Done),
                done ==> i > 0 && items[i - 1] is Done,
                !done ==> texts(out@) + payloads_before_done(items.skip(i as int))
                    == payloads_before_done(items),
                done ==> texts(out@) == payloads_before_done(items),
            decreases events.len() - i,
        {
            let ghost before = texts(out@);
            assert(items.skip(i as int)[0] == items[i as int]);
            assert(items.skip(i as int).drop_first() =~= items.skip(i + 1));
            match &events[i] {
                SseEvent::Done => {
                    done = true;
                },
                SseEvent::Data(d) => {
                    out.push(d.clone());
                    assert(texts(out@) =~= before.push(d@));
                    assert(texts(out@) + payloads_before_done(items.skip(i + 1)) =~= before
                        + payloads_before_done(items.skip(i as int)));
                },
            }
            i = i + 1;
        }
        if !done {
            assert(items.skip(i as int) =~= Seq::<SseItem>::empty());
            assert(texts(out@) =~= texts(out@) + payloads_before_done(items.skip(i as int)));
            assert(!has_done(items));
        } else {
            self.saw_done = true;
        }
        Some(out)
    }

    /// How the exchange ends (see [`spec_conclusion`]).
    pub fn conclude(&self, request_id: &str, status: u16, reason: &str, body_text: &str) -> (r:
        Conclusion)
        ensures
            ({
                let (result, log) = spec_conclusion(*self, request_id@, status, reason@, body_text@);
                &&& match result {
                    Ok(u) => r.result == Ok::<AiUsage, PrincessError>(u),
                    Err(f) => r.result matches Err(e) && e@ == f,
                }
                &&& match log {
                    Some(l) => r.log matches Some(t) && t@ == l,
                    None => r.log is None,
                }
            }),
    {
        if !(200 <= status && status < 300) {
            let mut line = text_from("ai: provider answered HTTP ");
            push_decimal(&mut line, status as u64);
            push_str(&mut line, " ");
            push_str(&mut line, reason);
            push_str(&mut line, "\n");
            return Conclusion { result: Err(for_http_status(status, body_text)), log: Some(line) };
        }
        if !self.saw_content && self.usage.total_tokens == 0 {
            let mut line = text_from("ai: provider returned no content for request ");
            push_str(&mut line, request_id);
            push_str(&mut line, " (done=");
            if self.saw_done {
                push_str(&mut line, "true");
            } else {
                push_str(&mut line, "false");
            }
            push_str(&mut line, ")\n");
            return Conclusion { result: Ok(self.usage), log: Some(line) };
        }
        Conclusion { result: Ok(self.usage), log: None }
    }
}

impl OpenAiProvider {
    /// A failed first attempt is retried once without `stream_options` when
    /// usage was asked for and the server rejected the option.
    pub fn should_retry_without_usage(&self, err: &PrincessError) -> (r: bool)
        ensures
            r == (self.spec_options().include_usage && spec_unknown_option_rejection(err@)),
    {
        self.options.include_usage && is_unknown_option_rejection(err)
    }
}

} // verus!
