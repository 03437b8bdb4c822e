use princess::contract::{error_codes, ErrorCode};
use princess::error_map::{
    for_cancelled, for_http_status, for_io, for_malformed, for_timeout, for_transport,
    truncate_for_detail,
};

#[test]
fn http_statuses_map_to_the_contract_codes() {
    let cases = [
        (401, ErrorCode::AiUnavailable),
        (403, ErrorCode::AiUnavailable),
        (404, ErrorCode::AiUnavailable),
        (408, ErrorCode::Timeout),
        (429, ErrorCode::AiUnavailable),
        (500, ErrorCode::AiUnavailable),
        (502, ErrorCode::AiUnavailable),
        (503, ErrorCode::AiUnavailable),
        (418, ErrorCode::AiUnavailable),
    ];
    for (status, expected) in cases {
        let err = for_http_status(status, "{\"error\":{\"message\":\"nope\"}}");
        assert_eq!(err.code, expected, "HTTP {status}");
        assert!(err.message.contains(&status.to_string()), "the status must be visible: {}", err.message);
        assert_eq!(err.detail.as_deref(), Some("{\"error\":{\"message\":\"nope\"}}"));
    }
}

#[test]
fn a_bodyless_error_still_maps_and_carries_no_empty_detail() {
    let err = for_http_status(500, "   \n ");
    assert_eq!(err.code, ErrorCode::AiUnavailable);
    assert!(err.detail.is_none(), "empty detail is not evidence");
}

#[test]
fn a_huge_error_page_is_truncated_on_a_char_boundary() {
    let body = format!("{}é{}", "a".repeat(2047), "b".repeat(100));
    let detail = truncate_for_detail(&body);
    assert!(detail.contains("bytes total"), "{detail}");
    assert!(detail.len() < body.len());
    assert!(detail.chars().count() > 0);
}

#[test]
fn truncation_keeps_whole_characters_and_reports_the_full_size() {
    let body = format!("{}é{}", "a".repeat(2047), "b".repeat(100));
    let detail = truncate_for_detail(&body);
    assert_eq!(detail, format!("{}… [{} bytes total]", "a".repeat(2047), body.len()));
    assert_eq!(truncate_for_detail("  short  "), "short");
    let exact = "x".repeat(2048);
    assert_eq!(truncate_for_detail(&exact), exact);
}

#[test]
fn every_ai_failure_lands_on_a_closed_set_code() {
    let codes = [
        for_http_status(401, "").code,
        for_transport("connect", "refused").code,
        for_timeout(1500).code,
        for_cancelled("req-1").code,
        for_malformed("sse", "bad").code,
        for_io("read", true, "x").code,
    ];
    let all = error_codes();
    for code in codes {
        assert!(all.contains(&code.as_str()), "{} is not part of the frozen contract set", code.as_str());
    }
    assert_eq!(for_timeout(1).code, ErrorCode::Timeout);
    assert_eq!(for_cancelled("r").code, ErrorCode::Cancelled);
    assert_eq!(for_malformed("sse", "x").code, ErrorCode::AiUnavailable);
}

#[test]
fn api_errors_are_never_internal_errors() {
    for err in [
        for_http_status(500, "boom"),
        for_transport("connect", "refused"),
        for_malformed("json", "bad"),
    ] {
        assert_ne!(err.code, ErrorCode::Internal);
    }
}

#[test]
fn the_messages_name_their_context() {
    assert_eq!(for_timeout(1500).message, "AI request exceeded its 1500 ms deadline");
    assert_eq!(for_cancelled("req-9").message, "AI request req-9 was cancelled");
    let io = for_io("read", false, "broken pipe");
    assert_eq!(io.code, ErrorCode::AiUnavailable);
    assert_eq!(io.detail.as_deref(), Some("broken pipe"));
    let timed = for_io("read", true, "would block");
    assert_eq!(timed.message, "AI provider read timed out");
    assert_eq!(for_transport("connect", "refused").message, "AI provider is unreachable (connect)");
}
