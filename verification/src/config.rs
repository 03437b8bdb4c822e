//! `[ai]` configuration resolution.
//!
//! Precedence, first non-blank wins: the project manifest's `[ai].base_url`
//! / `[ai].model`, then the environment (`PRINCESSIDE_AI_BASE_URL`, then
//! `OPENAI_BASE_URL`, then `OPENAI_API_BASE`; `PRINCESSIDE_AI_MODEL`, then
//! `OPENAI_MODEL`), then the global application setting.  The API key only
//! ever comes from `OPENAI_API_KEY`.  A `base_url` without a scheme gets
//! `http://`, which is what makes `localhost:11434/v1` work for local
//! inference servers.

use vstd::prelude::*;
use crate::contract::{ErrorCode, PrincessError};
use crate::openai::AiConfig;
use crate::scan::{
    chars_of, trim, trim_exec, string_of, equals_str, contains_seq, contains_str, ends_with,
    ends_with_str, copy_range, is_ws, skip_ws, rskip_ws, lemma_skip_ws, lemma_rskip_ws,
};
use crate::text::push_str;

verus! {

broadcast use vstd::string::group_string_axioms;

/// Environment variable consulted first for the endpoint.
pub const ENV_BASE_URL: &'static str = "PRINCESSIDE_AI_BASE_URL";
/// Environment variable consulted first for the model name.
pub const ENV_MODEL: &'static str = "PRINCESSIDE_AI_MODEL";
/// Vendor-standard endpoint variable, consulted second.
pub const ENV_OPENAI_BASE_URL: &'static str = "OPENAI_BASE_URL";
/// Vendor-standard endpoint variable, consulted third.
pub const ENV_OPENAI_API_BASE: &'static str = "OPENAI_API_BASE";
/// Vendor-standard model variable.
pub const ENV_OPENAI_MODEL: &'static str = "OPENAI_MODEL";
/// The API key; never read from the project manifest.
pub const ENV_API_KEY: &'static str = "OPENAI_API_KEY";
/// Default endpoint path appended to `base_url`.
pub const DEFAULT_CHAT_PATH: &'static str = "/chat/completions";

/// `[ai].provider`.
#[derive(Debug, Clone, Copy, PartialEq, Eq, Structural)]
pub enum AiProviderKind {
    OpenAiCompatible,
    /// `provider = "none"`: AI is switched off.
    Disabled,
}

/// The manifest's `[ai]` section.
#[derive(Debug, Clone, PartialEq, Eq)]
pub struct AiSection {
    pub provider: AiProviderKind,
    pub base_url: String,
    pub model: String,
}

/// The global application setting; empty means "not set".
#[derive(Debug, Clone, Default, PartialEq, Eq)]
pub struct GlobalAiSettings {
    pub base_url: Option<String>,
    pub model: Option<String>,
}

/// Not blank: something other than whitespace.
pub open spec fn non_blank(s: Seq<char>) -> bool {
    trim(s).len() > 0
}

/// A set value that is not blank.
pub open spec fn set_value(o: Option<String>) -> Option<Seq<char>> {
    match o {
        Some(s) => if non_blank(s@) {
            Some(s@)
        } else {
            None
        },
        None => None,
    }
}

fn non_blank_exec(s: &str) -> (r: bool)
    ensures
        r == non_blank(s@),
{
    let t = trim_exec(&chars_of(s));
    t.len() > 0
}

fn set_value_exec(o: &Option<String>) -> (r: Option<String>)
    ensures
        match set_value(*o) {
            Some(v) => r matches Some(s) && s@ == v,
            None => r is None,
        },
{
    match o {
        Some(s) => if non_blank_exec(s.as_str()) {
            Some(s.clone())
        } else {
            None
        },
        None => None,
    }
}

impl GlobalAiSettings {
    /// Both settings given.
    pub fn new(base_url: String, model: String) -> (g: Self)
        ensures
            g.base_url matches Some(b) && b@ == base_url@,
            g.model matches Some(m) && m@ == model@,
    {
        GlobalAiSettings { base_url: Some(base_url), model: Some(model) }
    }
}

/// The environment variables the resolution reads, as plain values.
#[derive(Debug, Clone, Default, PartialEq, Eq)]
pub struct AiEnvironment {
    pub princesside_base_url: Option<String>,
    pub openai_base_url: Option<String>,
    pub openai_api_base: Option<String>,
    pub princesside_model: Option<String>,
    pub openai_model: Option<String>,
    pub api_key: Option<String>,
}

impl AiEnvironment {
    /// No variable set.
    pub fn new() -> (e: Self)
        ensures
            e.princesside_base_url is None && e.openai_base_url is None && e.openai_api_base is None
                && e.princesside_model is None && e.openai_model is None && e.api_key is None,
    {
        AiEnvironment {
            princesside_base_url: None,
            openai_base_url: None,
            openai_api_base: None,
            princesside_model: None,
            openai_model: None,
            api_key: None,
        }
    }

    /// Records variable `name` as `value`; names the resolution does not
    /// read are ignored.
    pub fn with(self, name: &str, value: String) -> (e: Self)
        ensures
            e == env_with(self, name@, value),
    {
        let n = chars_of(name);
        proof {
            reveal_strlit("PRINCESSIDE_AI_BASE_URL");
            reveal_strlit("OPENAI_BASE_URL");
            reveal_strlit("OPENAI_API_BASE");
            reveal_strlit("PRINCESSIDE_AI_MODEL");
            reveal_strlit("OPENAI_MODEL");
            reveal_strlit("OPENAI_API_KEY");
        }
        let mut e = self;
        if equals_str(&n, ENV_BASE_URL) {
            e.princesside_base_url = Some(value);
        } else if equals_str(&n, ENV_OPENAI_BASE_URL) {
            e.openai_base_url = Some(value);
        } else if equals_str(&n, ENV_OPENAI_API_BASE) {
            e.openai_api_base = Some(value);
        } else if equals_str(&n, ENV_MODEL) {
            e.princesside_model = Some(value);
        } else if equals_str(&n, ENV_OPENAI_MODEL) {
            e.openai_model = Some(value);
        } else if equals_str(&n, ENV_API_KEY) {
            e.api_key = Some(value);
        }
        e
    }
}

/// The environment with variable `name` set to `value` (unread names
/// change nothing).
pub open spec fn env_with(env: AiEnvironment, name: Seq<char>, value: String) -> AiEnvironment {
    if name == ENV_BASE_URL@ {
        AiEnvironment { princesside_base_url: Some(value), ..env }
    } else if name == ENV_OPENAI_BASE_URL@ {
        AiEnvironment { openai_base_url: Some(value), ..env }
    } else if name == ENV_OPENAI_API_BASE@ {
        AiEnvironment { openai_api_base: Some(value), ..env }
    } else if name == ENV_MODEL@ {
        AiEnvironment { princesside_model: Some(value), ..env }
    } else if name == ENV_OPENAI_MODEL@ {
        AiEnvironment { openai_model: Some(value), ..env }
    } else if name == ENV_API_KEY@ {
        AiEnvironment { api_key: Some(value), ..env }
    } else {
        env
    }
}

/// The endpoint the environment names: the first of the three endpoint
/// variables that is set and not blank.
pub open spec fn env_base_url(env: AiEnvironment) -> Option<Seq<char>> {
    if set_value(env.princesside_base_url) is Some {
        set_value(env.princesside_base_url)
    } else if set_value(env.openai_base_url) is Some {
        set_value(env.openai_base_url)
    } else {
        set_value(env.openai_api_base)
    }
}

/// The model the environment names: the first of `PRINCESSIDE_AI_MODEL`
/// and `OPENAI_MODEL` that is set and not blank.
pub open spec fn env_model(env: AiEnvironment) -> Option<Seq<char>> {
    if set_value(env.princesside_model) is Some {
        set_value(env.princesside_model)
    } else {
        set_value(env.openai_model)
    }
}

/// The first non-blank candidate, trimmed.
pub open spec fn pick3(a: Option<Seq<char>>, b: Option<Seq<char>>, c: Option<Seq<char>>) -> Option<
    Seq<char>,
> {
    if a is Some && non_blank(a->0) {
        Some(trim(a->0))
    } else if b is Some && non_blank(b->0) {
        Some(trim(b->0))
    } else if c is Some && non_blank(c->0) {
        Some(trim(c->0))
    } else {
        None
    }
}

/// `s` without its trailing `/` characters.
pub open spec fn strip_trailing_slashes(s: Seq<char>) -> Seq<char>
    decreases s.len(),
{
    if s.len() > 0 && s.last() == '/' {
        strip_trailing_slashes(s.drop_last())
    } else {
        s
    }
}

/// A user-supplied endpoint, normalised: trimmed, trailing slashes dropped,
/// and `http://` prepended when there is no scheme.
pub open spec fn spec_normalize_base_url(raw: Seq<char>) -> Seq<char> {
    let t = strip_trailing_slashes(trim(raw));
    if contains_seq(t, "://"@) {
        t
    } else {
        "http://"@ + t
    }
}

proof fn lemma_strip_prefix(s: Seq<char>)
    ensures
        strip_trailing_slashes(s).len() <= s.len(),
        strip_trailing_slashes(s) == s.take(strip_trailing_slashes(s).len() as int),
        strip_trailing_slashes(s).len() > 0 ==> strip_trailing_slashes(s).last() != '/',
    decreases s.len(),
{
    if s.len() > 0 && s.last() == '/' {
        lemma_strip_prefix(s.drop_last());
        let t = strip_trailing_slashes(s.drop_last());
        assert(s.drop_last().take(t.len() as int) =~= s.take(t.len() as int));
    } else {
        assert(s.take(s.len() as int) =~= s);
    }
}

proof fn lemma_trim_identity(s: Seq<char>)
    requires
        s.len() > 0,
        !is_ws(s[0]),
        !is_ws(s.last()),
    ensures
        trim(s) == s,
{
    assert(skip_ws(s, 0) == 0);
    assert(rskip_ws(s, s.len() as int) == s.len());
    assert(s.subrange(0, s.len() as int) =~= s);
}

/// A normalised endpoint is its own normalisation and never ends in `/`,
/// whenever what is left of the input after trimming and dropping trailing
/// slashes is not empty and does not end in whitespace.
pub proof fn law_normalized_base_url_is_stable(raw: Seq<char>)
    requires
        strip_trailing_slashes(trim(raw)).len() > 0,
        !is_ws(strip_trailing_slashes(trim(raw)).last()),
    ensures
        ({
            let t = strip_trailing_slashes(trim(raw));
            let n = spec_normalize_base_url(raw);
            &&& n == (if contains_seq(t, "://"@) { t } else { "http://"@ + t })
            &&& spec_normalize_base_url(n) == n
            &&& n.last() != '/'
        }),
{
    let r = trim(raw);
    let t = strip_trailing_slashes(r);
    let n = spec_normalize_base_url(raw);
    lemma_strip_prefix(r);
    lemma_skip_ws(raw, 0);
    lemma_rskip_ws(raw, raw.len() as int);
    assert(r[0] == t[0]);
    assert(!is_ws(t[0]));
    reveal_strlit("http://");
    reveal_strlit("://");
    if !contains_seq(t, "://"@) {
        assert(n.subrange(4, 7) =~= "://"@);
        assert(n.subrange(4int, 4int + "://"@.len()) == "://"@);
        assert(contains_seq(n, "://"@));
        assert(n.last() == t.last());
        assert(!is_ws('h'));
    }
    assert(n.len() > 0 && !is_ws(n[0]) && !is_ws(n.last()) && n.last() != '/');
    lemma_trim_identity(n);
    assert(strip_trailing_slashes(n) == n);
    assert(contains_seq(n, "://"@));
}

/// The chat-completions URL for a base URL: the normalised base, with
/// `/chat/completions` appended unless it already ends with it.
pub open spec fn spec_chat_completions_url(base: Seq<char>) -> Seq<char> {
    let b = spec_normalize_base_url(base);
    if ends_with(b, "/chat/completions"@) {
        b
    } else {
        b + "/chat/completions"@
    }
}

/// A resolved configuration.
pub struct ResolvedAi {
    pub base_url: Seq<char>,
    pub model: Seq<char>,
    pub api_key: Option<Seq<char>>,
}

/// What `resolve_ai_config` answers: `None` when the provider is switched
/// off or no endpoint or no model can be found anywhere.
pub open spec fn spec_resolve(
    manifest: AiSection,
    global: GlobalAiSettings,
    env: AiEnvironment,
) -> Option<ResolvedAi> {
    let base = pick3(Some(manifest.base_url@), env_base_url(env), set_value(global.base_url));
    let model = pick3(Some(manifest.model@), env_model(env), set_value(global.model));
    if manifest.provider == AiProviderKind::Disabled || base is None || model is None {
        None
    } else {
        Some(
            ResolvedAi {
                base_url: spec_normalize_base_url(base->0),
                model: model->0,
                api_key: match env.api_key {
                    Some(k) => Some(k@),
                    None => None,
                },
            },
        )
    }
}

fn pick3_exec(a: Option<String>, b: Option<String>, c: Option<String>) -> (r: Option<String>)
    ensures
        match pick3(opt_chars(a), opt_chars(b), opt_chars(c)) {
            Some(v) => r matches Some(s) && s@ == v,
            None => r is None,
        },
{
    if let Some(x) = a {
        if non_blank_exec(x.as_str()) {
            return Some(string_of(&trim_exec(&chars_of(x.as_str()))));
        }
    }
    if let Some(x) = b {
        if non_blank_exec(x.as_str()) {
            return Some(string_of(&trim_exec(&chars_of(x.as_str()))));
        }
    }
    if let Some(x) = c {
        if non_blank_exec(x.as_str()) {
            return Some(string_of(&trim_exec(&chars_of(x.as_str()))));
        }
    }
    None
}

/// The view of an optional string.
pub open spec fn opt_chars(o: Option<String>) -> Option<Seq<char>> {
    match o {
        Some(s) => Some(s@),
        None => None,
    }
}

fn env_base_url_exec(env: &AiEnvironment) -> (r: Option<String>)
    ensures
        opt_chars(r) == env_base_url(*env),
{
    let a = set_value_exec(&env.princesside_base_url);
    if a.is_some() {
        return a;
    }
    let b = set_value_exec(&env.openai_base_url);
    if b.is_some() {
        return b;
    }
    set_value_exec(&env.openai_api_base)
}

fn env_model_exec(env: &AiEnvironment) -> (r: Option<String>)
    ensures
        opt_chars(r) == env_model(*env),
{
    let a = set_value_exec(&env.princesside_model);
    if a.is_some() {
        return a;
    }
    set_value_exec(&env.openai_model)
}

/// Resolves the manifest section, the environment and the global setting
/// into a provider configuration; `None` means "AI is off" (the caller then
/// answers `E_AI_UNAVAILABLE`).  Nothing is invented: no endpoint or no
/// model anywhere is `None`.
pub fn resolve_ai_config(manifest: &AiSection, global: &GlobalAiSettings, env: &AiEnvironment) -> (r:
    Option<AiConfig>)
    ensures
        match spec_resolve(*manifest, *global, *env) {
            Some(res) => r matches Some(c) && c.base_url@ == res.base_url && c.model@ == res.model
                && opt_chars(c.api_key) == res.api_key,
            None => r is None,
        },
{
    if manifest.provider == AiProviderKind::Disabled {
        return None;
    }
    let base = pick3_exec(
        Some(manifest.base_url.clone()),
        env_base_url_exec(env),
        set_value_exec(&global.base_url),
    );
    let base = match base {
        Some(b) => b,
        None => {
            return None;
        },
    };
    let model = pick3_exec(
        Some(manifest.model.clone()),
        env_model_exec(env),
        set_value_exec(&global.model),
    );
    let model = match model {
        Some(m) => m,
        None => {
            return None;
        },
    };
    Some(
        AiConfig {
            base_url: normalize_base_url(base.as_str()),
            model,
            api_key: env.api_key.clone(),
        },
    )
}

/// Normalises a user-supplied endpoint (see [`spec_normalize_base_url`]).
pub fn normalize_base_url(raw: &str) -> (r: String)
    ensures
        r@ == spec_normalize_base_url(raw@),
{
    let t = trim_exec(&chars_of(raw));
    let mut end = t.len();
    assert(t@.take(end as int) =~= t@);
    while end > 0 && t[end - 1] == '/'
        invariant
            end <= t.len(),
            strip_trailing_slashes(t@.take(end as int)) == strip_trailing_slashes(t@),
        decreases end,
    {
        assert(t@.take(end as int).drop_last() =~= t@.take(end - 1));
        end = end - 1;
    }
    let stripped = copy_range(&t, 0, end);
    assert(stripped@ =~= t@.take(end as int));
    assert(strip_trailing_slashes(stripped@) == stripped@);
    assert(t@.take(t.len() as int) =~= t@);
    if contains_str(&stripped, "://") {
        string_of(&stripped)
    } else {
        let mut out = String::new();
        push_str(&mut out, "http://");
        let body = string_of(&stripped);
        push_str(&mut out, body.as_str());
        out
    }
}

/// Appends the chat-completions path to a base URL, unless it is already
/// there.
pub fn chat_completions_url(base_url: &str) -> (r: String)
    ensures
        r@ == spec_chat_completions_url(base_url@),
{
    let base = normalize_base_url(base_url);
    if ends_with_str(&chars_of(base.as_str()), "/chat/completions") {
        base
    } else {
        let mut out = base;
        push_str(&mut out, DEFAULT_CHAT_PATH);
        out
    }
}

/// The `E_AI_UNAVAILABLE` failure every "no provider" path produces.
pub fn unavailable(message: String) -> (e: PrincessError)
    ensures
        e.code == ErrorCode::AiUnavailable,
        e.message@ == message@,
        e.detail is None,
{
    PrincessError::new(ErrorCode::AiUnavailable, message)
}

/// "AI is switched off in this project", with the evidence as detail.
pub fn not_configured(detail: String) -> (e: PrincessError)
    ensures
        e.code == ErrorCode::AiUnavailable,
        e.message@ == "no AI provider is configured for this project"@,
        e.detail matches Some(d) && d@ == detail@,
{
    let mut message = String::new();
    push_str(&mut message, "no AI provider is configured for this project");
    unavailable(message).with_detail(detail)
}

/// `provider = "none"` never resolves, whatever the environment holds.
pub proof fn law_provider_none_never_resolves(
    manifest: AiSection,
    global: GlobalAiSettings,
    env: AiEnvironment,
)
    requires
        manifest.provider == AiProviderKind::Disabled,
    ensures
        spec_resolve(manifest, global, env) is None,
{
}

/// A non-blank manifest field beats the environment, which beats the
/// global setting.
pub proof fn law_manifest_beats_environment_beats_global(
    manifest: AiSection,
    global: GlobalAiSettings,
    env: AiEnvironment,
)
    requires
        manifest.provider == AiProviderKind::OpenAiCompatible,
        spec_resolve(manifest, global, env) is Some,
    ensures
        non_blank(manifest.base_url@) ==> spec_resolve(manifest, global, env)->0.base_url
            == spec_normalize_base_url(trim(manifest.base_url@)),
        !non_blank(manifest.base_url@) && env_base_url(env) is Some ==> spec_resolve(
            manifest,
            global,
            env,
        )->0.base_url == spec_normalize_base_url(trim(env_base_url(env)->0)),
        non_blank(manifest.model@) ==> spec_resolve(manifest, global, env)->0.model == trim(
            manifest.model@,
        ),
        !non_blank(manifest.model@) && env_model(env) is Some ==> spec_resolve(
            manifest,
            global,
            env,
        )->0.model == trim(env_model(env)->0),
{
}

/// The API key comes from the environment and nowhere else.
pub proof fn law_api_key_only_from_environment(
    manifest: AiSection,
    global: GlobalAiSettings,
    env: AiEnvironment,
)
    requires
        spec_resolve(manifest, global, env) is Some,
    ensures
        spec_resolve(manifest, global, env)->0.api_key == opt_chars(env.api_key),
{
}

} // verus!
