use princess::contract::{ErrorCode, PrincessError};
use princess::openai::{
    is_unknown_option_rejection, request_headers, stream_cancelled, AiConfig, OpenAiProvider, ProviderOptions,
    StreamProgress,
};
use princess::sse::{ChatCompletionChunk, ChunkChoice, ChunkDelta, SseEvent, StreamUsage};

fn local_config(api_key: Option<&str>) -> AiConfig {
    AiConfig { base_url: "http://127.0.0.1:1/v1".into(), model: "m".into(), api_key: api_key.map(str::to_string) }
}

#[test]
fn cancellation_is_idempotent_and_silent_for_unknown_ids() {
    let mut provider = OpenAiProvider::unconfigured();
    assert!(provider.cancel("never-started").is_ok());
    assert!(provider.cancel("never-started").is_ok());
    assert!(!provider.is_stopped("never-started"));
}

#[test]
fn cancelling_a_live_request_stops_only_that_request() {
    let mut provider = OpenAiProvider::new(local_config(None));
    provider.add_live_request("r1".to_string());
    provider.add_live_request("r2".to_string());
    assert!(provider.cancel("r1").is_ok());
    assert!(provider.is_stopped("r1"));
    assert!(!provider.is_stopped("r2"));
    assert!(provider.cancel("r1").is_ok());
    assert!(provider.is_stopped("r1"));
    provider.remove_live_request("r1");
    assert!(!provider.is_stopped("r1"), "a finished request leaves no live state behind");
}

#[test]
fn status_never_probes_the_network() {
    let configured = OpenAiProvider::new(local_config(Some("k")));
    let started = std::time::Instant::now();
    let status = configured.status();
    assert!(started.elapsed() < std::time::Duration::from_millis(50));
    assert!(status.available);
    assert!(status.has_api_key);
    assert_eq!(status.model.as_deref(), Some("m"));

    let off = OpenAiProvider::unconfigured().status();
    assert!(!off.available);
    assert!(!off.has_api_key);
}

#[test]
fn an_unconfigured_provider_fails_fast_with_the_contract_code() {
    let provider = OpenAiProvider::unconfigured();
    assert!(provider.is_unconfigured());
    let err = provider.preflight(false, "r1", true).unwrap_err();
    assert_eq!(err.code, ErrorCode::AiUnavailable);
    assert_eq!(err.code.as_str(), "E_AI_UNAVAILABLE");
    assert!(err.detail.is_some(), "the detail must say why");
}

#[test]
fn a_pre_cancelled_token_stops_before_any_socket_is_opened() {
    let provider = OpenAiProvider::new(local_config(None));
    let err = provider.preflight(true, "r1", true).unwrap_err();
    assert_eq!(err.code, ErrorCode::Cancelled);
    assert_eq!(err.message, "operation r1 was cancelled");
}

#[test]
fn a_stream_that_is_not_requested_is_refused_explicitly() {
    let provider = OpenAiProvider::new(local_config(None));
    let err = provider.preflight(false, "r1", false).unwrap_err();
    assert_eq!(err.code, ErrorCode::AiUnavailable);
    assert!(provider.preflight(false, "r1", true).is_ok());
}

#[test]
fn a_blank_model_is_reported_with_both_values_quoted() {
    let provider = OpenAiProvider::new(AiConfig { base_url: "http://h/v1".into(), model: " ".into(), api_key: None });
    let err = provider.preflight(false, "r1", true).unwrap_err();
    assert_eq!(err.code, ErrorCode::AiUnavailable);
    assert_eq!(err.detail.as_deref(), Some("base_url=\"http://h/v1\" model=\" \""));
}

#[test]
fn options_are_kept_and_reported() {
    let provider = OpenAiProvider::new(local_config(None))
        .with_options(ProviderOptions { timeout_ms: 2_000, include_usage: false });
    assert_eq!(provider.status().timeout_ms, 2_000);
    assert_eq!(ProviderOptions::default().timeout_ms, 120_000);
    assert_eq!(provider.config().unwrap().endpoint(), "http://127.0.0.1:1/v1/chat/completions");
}

#[test]
fn an_option_rejection_is_recognised_for_the_single_retry() {
    let rejected = PrincessError::new(ErrorCode::AiUnavailable, "AI provider returned HTTP 400".to_string())
        .with_detail("{\"error\":\"Unknown field: stream_options\"}".to_string());
    assert!(is_unknown_option_rejection(&rejected));
    let other = PrincessError::new(ErrorCode::AiUnavailable, "AI provider returned HTTP 401".to_string())
        .with_detail("bad key".to_string());
    assert!(!is_unknown_option_rejection(&other));
}

#[test]
fn stream_progress_counts_content_and_usage() {
    let mut progress = StreamProgress::new();
    assert!(progress.is_empty_answer());
    let chunk = ChatCompletionChunk {
        id: None,
        model: None,
        choices: vec![ChunkChoice {
            delta: Some(ChunkDelta { content: Some("hi".into()), reasoning_content: None }),
            text: None,
            finish_reason: None,
        }],
        usage: None,
    };
    assert_eq!(progress.on_chunk(&chunk).as_deref(), Some("hi"));
    let usage_only = ChatCompletionChunk {
        usage: Some(StreamUsage { prompt_tokens: 5, completion_tokens: 2, total_tokens_field: 0 }),
        ..ChatCompletionChunk::default()
    };
    assert_eq!(progress.on_chunk(&usage_only), None);
    progress.on_done();
    assert!(progress.saw_done);
    assert!(progress.saw_content);
    assert_eq!(progress.usage.total_tokens, 7);
    assert!(!progress.is_empty_answer());
}

#[test]
fn request_headers_carry_the_agent_and_only_a_real_key() {
    let headers = request_headers(&local_config(Some(" sk-1 ")), "0.7.0");
    assert_eq!(
        headers,
        vec![
            ("Content-Type".to_string(), "application/json".to_string()),
            ("Accept".to_string(), "text/event-stream".to_string()),
            ("User-Agent".to_string(), "PrincessIDE/0.7.0".to_string()),
            ("Authorization".to_string(), "Bearer sk-1".to_string()),
        ]
    );
    assert_eq!(request_headers(&local_config(Some("  ")), "0.7.0").len(), 3);
    assert_eq!(request_headers(&local_config(None), "0.7.0").len(), 3);
}

#[test]
fn a_stopped_batch_drops_every_event_it_produced() {
    let mut progress = StreamProgress::new();
    let events = vec![SseEvent::Data("{}".to_string()), SseEvent::Done];
    assert_eq!(progress.take_batch(events.clone(), true), None);
    assert!(!progress.saw_done);
    assert_eq!(progress.take_batch(Vec::new(), true), Some(Vec::new()));
    let payloads = progress.take_batch(
        vec![SseEvent::Data("a".to_string()), SseEvent::Data("b".to_string()), SseEvent::Done, SseEvent::Data("late".to_string())],
        false,
    );
    assert_eq!(payloads, Some(vec!["a".to_string(), "b".to_string()]));
    assert!(progress.saw_done);
}

#[test]
fn the_conclusion_maps_the_status_and_notes_an_empty_answer() {
    let progress = StreamProgress::new();
    let failed = progress.conclude("r1", 401, "Unauthorized", "{\"error\":\"bad key\"}");
    let err = failed.result.unwrap_err();
    assert_eq!(err.code, ErrorCode::AiUnavailable);
    assert_eq!(err.detail.as_deref(), Some("{\"error\":\"bad key\"}"));
    assert_eq!(failed.log.as_deref(), Some("ai: provider answered HTTP 401 Unauthorized\n"));

    let empty = progress.conclude("r1", 200, "OK", "");
    assert_eq!(empty.result.unwrap().total_tokens, 0);
    assert_eq!(empty.log.as_deref(), Some("ai: provider returned no content for request r1 (done=false)\n"));

    let mut answered = StreamProgress::new();
    answered.on_done();
    answered.saw_content = true;
    let ok = answered.conclude("r2", 200, "OK", "");
    assert!(ok.result.is_ok());
    assert_eq!(ok.log, None);
}

#[test]
fn cancellation_wording_depends_on_who_stopped_the_stream() {
    assert_eq!(stream_cancelled(true, "r9").message, "operation r9 was cancelled");
    let provider_stop = stream_cancelled(false, "r9");
    assert_eq!(provider_stop.code, ErrorCode::Cancelled);
    assert_eq!(provider_stop.message, "AI request r9 was cancelled");
}

#[test]
fn only_an_option_rejection_with_usage_requested_is_retried() {
    let rejected = PrincessError::new(ErrorCode::AiUnavailable, "HTTP 400".to_string())
        .with_detail("unsupported parameter".to_string());
    let asking = OpenAiProvider::new(local_config(None));
    assert!(asking.should_retry_without_usage(&rejected));
    let not_asking = OpenAiProvider::new(local_config(None))
        .with_options(ProviderOptions { timeout_ms: 1_000, include_usage: false });
    assert!(!not_asking.should_retry_without_usage(&rejected));
}
