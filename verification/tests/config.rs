use princess::config::{
    chat_completions_url, normalize_base_url, not_configured, resolve_ai_config, AiEnvironment,
    AiProviderKind, AiSection, GlobalAiSettings, ENV_API_KEY, ENV_BASE_URL, ENV_MODEL,
};
use princess::contract::ErrorCode;

fn env_of(pairs: &[(&str, &str)]) -> AiEnvironment {
    let mut env = AiEnvironment::new();
    for (name, value) in pairs {
        env = env.with(name, value.to_string());
    }
    env
}

fn manifest(provider: AiProviderKind, base_url: &str, model: &str) -> AiSection {
    AiSection { provider, base_url: base_url.to_string(), model: model.to_string() }
}

fn global(base_url: &str, model: &str) -> GlobalAiSettings {
    GlobalAiSettings::new(base_url.to_string(), model.to_string())
}

#[test]
fn provider_none_never_resolves_even_with_a_full_environment() {
    let env = env_of(&[
        (ENV_BASE_URL, "http://127.0.0.1:9/v1"),
        (ENV_MODEL, "m"),
        (ENV_API_KEY, "k"),
    ]);
    let resolved = resolve_ai_config(
        &manifest(AiProviderKind::Disabled, "http://127.0.0.1:1/v1", "model"),
        &global("http://127.0.0.1:3/v1", "g"),
        &env,
    );
    assert_eq!(resolved, None);
}

#[test]
fn manifest_beats_environment_beats_global() {
    let env = env_of(&[(ENV_BASE_URL, "http://127.0.0.1:2/v1"), (ENV_MODEL, "env-model")]);
    let global = global("http://127.0.0.1:3/v1", "global-model");

    let from_manifest = resolve_ai_config(
        &manifest(AiProviderKind::OpenAiCompatible, "http://127.0.0.1:1/v1", "manifest-model"),
        &global,
        &env,
    )
    .unwrap();
    assert_eq!(from_manifest.base_url, "http://127.0.0.1:1/v1");
    assert_eq!(from_manifest.model, "manifest-model");

    let from_env =
        resolve_ai_config(&manifest(AiProviderKind::OpenAiCompatible, "", ""), &global, &env).unwrap();
    assert_eq!(from_env.base_url, "http://127.0.0.1:2/v1");
    assert_eq!(from_env.model, "env-model");

    let from_global = resolve_ai_config(
        &manifest(AiProviderKind::OpenAiCompatible, "  ", ""),
        &global,
        &env_of(&[]),
    )
    .unwrap();
    assert_eq!(from_global.base_url, "http://127.0.0.1:3/v1");
    assert_eq!(from_global.model, "global-model");
}

#[test]
fn a_missing_model_degrades_instead_of_guessing_one() {
    let resolved = resolve_ai_config(
        &manifest(AiProviderKind::OpenAiCompatible, "http://127.0.0.1:1/v1", ""),
        &GlobalAiSettings::default(),
        &env_of(&[]),
    );
    assert_eq!(resolved, None, "the engine must not invent a model name");
}

#[test]
fn a_missing_base_url_invents_nothing_and_env_only_cannot_resolve() {
    let resolved = resolve_ai_config(
        &manifest(AiProviderKind::OpenAiCompatible, "", "some-model"),
        &GlobalAiSettings::default(),
        &env_of(&[(ENV_MODEL, "from-env")]),
    );
    assert_eq!(resolved, None);
}

#[test]
fn globally_configured_provider_with_no_project_fields_still_resolves() {
    let resolved = resolve_ai_config(
        &manifest(AiProviderKind::OpenAiCompatible, "", ""),
        &global("http://127.0.0.1:11434/v1", "llama3"),
        &env_of(&[]),
    )
    .unwrap();
    assert_eq!(resolved.base_url, "http://127.0.0.1:11434/v1");
    assert_eq!(resolved.model, "llama3");
}

#[test]
fn base_url_is_normalised_for_local_servers() {
    assert_eq!(normalize_base_url("127.0.0.1:11434/v1/"), "http://127.0.0.1:11434/v1");
    assert_eq!(normalize_base_url("  http://x/v1/  "), "http://x/v1");
    assert_eq!(normalize_base_url("https://api.example.com/v1"), "https://api.example.com/v1");
    assert_eq!(
        chat_completions_url("http://127.0.0.1:11434/v1"),
        "http://127.0.0.1:11434/v1/chat/completions"
    );
    assert_eq!(
        chat_completions_url("http://x/v1/chat/completions"),
        "http://x/v1/chat/completions",
        "an already-complete endpoint must not be doubled"
    );
}

#[test]
fn the_api_key_only_ever_comes_from_the_environment() {
    let env = env_of(&[
        (ENV_BASE_URL, "http://127.0.0.1:1/v1"),
        (ENV_MODEL, "m"),
        (ENV_API_KEY, "sk-test"),
    ]);
    let resolved = resolve_ai_config(
        &manifest(AiProviderKind::OpenAiCompatible, "", ""),
        &GlobalAiSettings::default(),
        &env,
    )
    .unwrap();
    assert_eq!(resolved.api_key.as_deref(), Some("sk-test"));

    let no_key = resolve_ai_config(
        &manifest(AiProviderKind::OpenAiCompatible, "", ""),
        &global("http://127.0.0.1:1/v1", "m"),
        &env_of(&[]),
    )
    .unwrap();
    assert!(no_key.api_key.is_none());
    assert!(!no_key.authorization_header().is_some());
}

#[test]
fn vendor_standard_openai_variables_are_honoured() {
    let env = env_of(&[("OPENAI_BASE_URL", "http://127.0.0.1:7/v1"), ("OPENAI_MODEL", "vendor-model")]);
    let resolved = resolve_ai_config(
        &manifest(AiProviderKind::OpenAiCompatible, "", ""),
        &GlobalAiSettings::default(),
        &env,
    )
    .unwrap();
    assert_eq!(resolved.base_url, "http://127.0.0.1:7/v1");
    assert_eq!(resolved.model, "vendor-model");
}

#[test]
fn the_unavailable_error_carries_the_contract_code() {
    let err = not_configured("[ai].provider = \"none\"".to_string());
    assert_eq!(err.code, ErrorCode::AiUnavailable);
    assert_eq!(err.code.as_str(), "E_AI_UNAVAILABLE");
    assert_eq!(err.detail.as_deref(), Some("[ai].provider = \"none\""));
}

#[test]
fn openai_api_base_is_the_last_environment_fallback() {
    let env = env_of(&[("OPENAI_API_BASE", "10.0.0.2:8080/v1/"), (ENV_MODEL, "m")]);
    let resolved = resolve_ai_config(
        &manifest(AiProviderKind::OpenAiCompatible, "", ""),
        &GlobalAiSettings::default(),
        &env,
    )
    .unwrap();
    assert_eq!(resolved.base_url, "http://10.0.0.2:8080/v1");
    let with_key = resolve_ai_config(
        &manifest(AiProviderKind::OpenAiCompatible, "", ""),
        &GlobalAiSettings::default(),
        &env.with(ENV_API_KEY, "  sk-x ".to_string()),
    )
    .unwrap();
    assert_eq!(
        with_key.authorization_header(),
        Some(("Authorization".to_string(), "Bearer sk-x".to_string()))
    );
    assert_eq!(with_key.endpoint(), "http://10.0.0.2:8080/v1/chat/completions");
}

#[test]
fn a_blank_model_variable_falls_through_to_the_next() {
    let env = env_of(&[(ENV_BASE_URL, "http://127.0.0.1:2/v1"), (ENV_MODEL, "  "), ("OPENAI_MODEL", "vendor-model")]);
    let resolved = resolve_ai_config(
        &manifest(AiProviderKind::OpenAiCompatible, "", ""),
        &GlobalAiSettings { base_url: None, model: None },
        &env,
    )
    .unwrap();
    assert_eq!(resolved.model, "vendor-model");
}

#[test]
fn a_normalised_base_url_normalises_to_itself() {
    for raw in ["127.0.0.1:11434/v1/", "  http://x/v1/  ", "https://api.example.com/v1", "localhost///"] {
        let n = normalize_base_url(raw);
        assert!(!n.ends_with('/'));
        assert_eq!(normalize_base_url(&n), n);
    }
    assert_eq!(normalize_base_url("127.0.0.1:11434/v1/"), "http://127.0.0.1:11434/v1");
    assert_eq!(normalize_base_url("  http://x/v1/  "), "http://x/v1");
}
