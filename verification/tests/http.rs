use princess::contract::ErrorCode;
use princess::response::{ReadStep, ResponseReader};
use princess::http::{
    build_request_bytes, decode_chunked, decode_chunked_partial, find_header_end, parse_response_head,
    parse_status_line, parse_url, prepare_request, ChunkedState, HttpRequest, HttpResponse,
};

#[test]
fn urls_are_split_into_authority_and_target() {
    let parsed = parse_url("http://127.0.0.1:11434/v1/chat/completions").unwrap();
    assert_eq!(parsed.host, "127.0.0.1");
    assert_eq!(parsed.port, 11434);
    assert_eq!(parsed.target, "/v1/chat/completions");
    assert!(!parsed.tls);

    let default_port = parse_url("http://example.invalid/v1").unwrap();
    assert_eq!(default_port.port, 80);

    let no_path = parse_url("http://example.invalid").unwrap();
    assert_eq!(no_path.target, "/");

    let query = parse_url("http://h:1/v1?a=b").unwrap();
    assert_eq!(query.target, "/v1?a=b");

    let v6 = parse_url("http://[::1]:8080/v1").unwrap();
    assert_eq!(v6.host, "::1");
    assert_eq!(v6.port, 8080);
}

#[test]
fn https_is_reported_as_unsupported_not_silently_downgraded() {
    let parsed = parse_url("https://api.example.com/v1").unwrap();
    assert!(parsed.tls);
    let err = prepare_request(&HttpRequest::post_json(
        "https://api.example.com/v1/chat/completions".to_string(),
        b"{}".to_vec(),
        1_000,
    ))
    .unwrap_err();
    assert_eq!(err.code, ErrorCode::AiUnavailable);
    assert!(err.message.contains("HTTPS"), "{}", err.message);
    assert!(err.detail.unwrap().starts_with("https://api.example.com/v1/chat/completions"));
}

#[test]
fn a_schemeless_url_is_refused_as_a_config_problem() {
    let err = parse_url("127.0.0.1:11434/v1").unwrap_err();
    assert_eq!(err.code, ErrorCode::InvalidConfig);
}

#[test]
fn chunked_bodies_decode_and_report_incompleteness() {
    let complete = b"4\r\nWiki\r\n5\r\npedia\r\n0\r\n\r\n";
    match decode_chunked(complete) {
        ChunkedState::Complete(decoded) => assert_eq!(decoded, b"Wikipedia"),
        other => panic!("{other:?}"),
    }

    let partial = b"4\r\nWiki\r\n5\r\nped";
    match decode_chunked(partial) {
        ChunkedState::NeedMore => {}
        other => panic!("{other:?}"),
    }
    assert_eq!(decode_chunked_partial(partial), b"Wiki");

    match decode_chunked(b"zz\r\n") {
        ChunkedState::Malformed(detail) => assert!(detail.contains("bad chunk size"), "{detail}"),
        other => panic!("{other:?}"),
    }
}

#[test]
fn chunk_extensions_are_ignored_and_sizes_are_hex() {
    match decode_chunked(b"a;ext=1\r\n0123456789\r\n0\r\n\r\n") {
        ChunkedState::Complete(decoded) => assert_eq!(decoded, b"0123456789"),
        other => panic!("{other:?}"),
    }
}

#[test]
fn status_lines_are_parsed_strictly() {
    assert_eq!(parse_status_line("HTTP/1.1 200 OK").unwrap(), (200, "OK".into()));
    assert_eq!(parse_status_line("HTTP/1.1 500 Internal Server Error").unwrap().0, 500);
    assert!(parse_status_line("garbage").is_err());
    let err = parse_status_line("ICY 200 OK").unwrap_err();
    assert_eq!(err.code, ErrorCode::AiUnavailable);
    assert_eq!(err.detail.as_deref(), Some("ICY 200 OK"));
}

#[test]
fn the_request_bytes_carry_the_contract_headers() {
    let request = HttpRequest::post_json("http://127.0.0.1:1/v1/x".to_string(), b"{}".to_vec(), 1_000);
    let parsed = parse_url(&request.url).unwrap();
    let bytes = String::from_utf8(build_request_bytes(&request, &parsed)).unwrap();
    assert!(bytes.starts_with("POST /v1/x HTTP/1.1\r\n"), "{bytes}");
    assert!(bytes.contains("Host: 127.0.0.1:1\r\n"), "{bytes}");
    assert!(bytes.contains("Content-Length: 2\r\n"), "{bytes}");
    assert!(bytes.contains("Accept: text/event-stream\r\n"), "{bytes}");
    assert!(bytes.ends_with("\r\n\r\n{}"), "{bytes}");

    let (prepared_url, prepared) = prepare_request(&request).unwrap();
    assert_eq!(prepared_url, parsed);
    assert_eq!(String::from_utf8(prepared).unwrap(), bytes);
}

#[test]
fn a_response_head_reports_its_framing() {
    let raw = b"HTTP/1.1 200 OK\r\nContent-Type: text/event-stream\r\ntransfer-encoding: Chunked\r\n\r\n4\r\nWiki";
    let end = find_header_end(raw).unwrap();
    let head = parse_response_head(raw, end).unwrap();
    assert_eq!(head.status, 200);
    assert_eq!(head.reason, "OK");
    assert!(head.chunked);
    assert_eq!(head.declared_len, None);
    assert_eq!(&raw[head.body_start..], b"4\r\nWiki");

    let raw = b"HTTP/1.1 404 Not Found\r\nContent-Length:  12 \r\n\r\n";
    let head = parse_response_head(raw, find_header_end(raw).unwrap()).unwrap();
    assert_eq!(head.status, 404);
    assert_eq!(head.declared_len, Some(12));
    assert!(!head.chunked);

    let raw = b"HTTP/1.1 200 OK\r\nContent-Encoding: GZIP\r\n\r\n";
    let err = parse_response_head(raw, find_header_end(raw).unwrap()).unwrap_err();
    assert_eq!(err.message, "AI provider used an unsupported Content-Encoding: gzip");
    assert!(find_header_end(b"HTTP/1.1 200 OK\r\n").is_none());
}

#[test]
fn headers_are_found_ignoring_case() {
    let response = HttpResponse {
        status: 200,
        reason: "OK".to_string(),
        headers: vec![
            ("Content-Type".to_string(), "application/json".to_string()),
            ("X-Id".to_string(), "7".to_string()),
        ],
        body: b"{\"a\":1}".to_vec(),
    };
    assert_eq!(response.header("content-type"), Some("application/json"));
    assert_eq!(response.header("x-id"), Some("7"));
    assert_eq!(response.header("missing"), None);
    assert!(response.is_success());
    assert_eq!(response.body_text(), "{\"a\":1}");
}

#[test]
fn lossy_body_text_replaces_invalid_bytes() {
    let response = HttpResponse { status: 500, reason: String::new(), headers: vec![], body: vec![b'a', 0xff, b'b'] };
    assert_eq!(response.body_text(), "a\u{fffd}b");
    assert!(!response.is_success());
}

fn feed(reader: &mut ResponseReader, parts: &[&str]) -> (Vec<ReadStep>, Vec<u8>) {
    let mut steps = Vec::new();
    let mut streamed = Vec::new();
    for part in parts {
        let (step, added) = reader.on_read(part.as_bytes());
        streamed.extend_from_slice(&added);
        steps.push(step);
    }
    (steps, streamed)
}

#[test]
fn a_chunked_response_split_across_reads_is_reassembled() {
    let mut reader = ResponseReader::new();
    let (steps, streamed) = feed(&mut reader, &["HTTP/1.1 200 OK\r\nTransfer-Enc", "oding: chunked\r\n\r\n4\r\nWi", "ki\r\n5\r\npedia\r\n0\r\n\r\n"]);
    assert!(matches!(steps[0], ReadStep::NeedMore));
    assert!(matches!(steps[1], ReadStep::NeedMore));
    match &steps[2] {
        ReadStep::Done(response) => {
            assert_eq!(response.status, 200);
            assert_eq!(response.body, b"Wikipedia");
            assert_eq!(response.header("transfer-encoding"), Some("chunked"));
        }
        other => panic!("{other:?}"),
    }
    assert_eq!(streamed, b"4\r\nWiki\r\n5\r\npedia\r\n0\r\n\r\n");
    assert!(reader.is_finished());
}

#[test]
fn a_content_length_body_stops_at_the_declared_length() {
    let mut reader = ResponseReader::new();
    let (steps, _) = feed(&mut reader, &["HTTP/1.1 200 OK\r\nContent-Length: 5\r\n\r\nhel", "loEXTRA"]);
    assert!(matches!(steps[0], ReadStep::NeedMore));
    match &steps[1] {
        ReadStep::Done(response) => assert_eq!(response.body, b"hello"),
        other => panic!("{other:?}"),
    }
}

#[test]
fn a_short_content_length_body_is_a_transport_failure() {
    let mut reader = ResponseReader::new();
    let (steps, _) = feed(&mut reader, &["HTTP/1.1 200 OK\r\nContent-Length: 10\r\n\r\nabc"]);
    assert!(matches!(steps[0], ReadStep::NeedMore));
    match reader.on_close() {
        ReadStep::Failed(err) => {
            assert_eq!(err.code, ErrorCode::AiUnavailable);
            assert_eq!(err.detail.as_deref(), Some("stream ended after 3 of 10 declared bytes"));
        }
        other => panic!("{other:?}"),
    }
}

#[test]
fn an_unframed_body_ends_when_the_peer_closes() {
    let mut reader = ResponseReader::new();
    let (steps, streamed) = feed(&mut reader, &["HTTP/1.1 500 Oops\r\n\r\npart one,", " part two"]);
    assert!(steps.iter().all(|s| matches!(s, ReadStep::NeedMore)));
    assert_eq!(streamed, b"part one, part two");
    match reader.on_close() {
        ReadStep::Done(response) => {
            assert_eq!(response.status, 500);
            assert_eq!(response.reason, "Oops");
            assert_eq!(response.body_text(), "part one, part two");
        }
        other => panic!("{other:?}"),
    }
}

#[test]
fn a_truncated_chunked_body_keeps_the_whole_chunks() {
    let mut reader = ResponseReader::new();
    feed(&mut reader, &["HTTP/1.1 200 OK\r\nTransfer-Encoding: chunked\r\n\r\n4\r\nWiki\r\n5\r\nped"]);
    match reader.on_close() {
        ReadStep::Done(response) => assert_eq!(response.body, b"Wiki"),
        other => panic!("{other:?}"),
    }
}

#[test]
fn a_close_before_the_head_is_a_transport_failure() {
    let mut reader = ResponseReader::new();
    feed(&mut reader, &["HTTP/1.1 200 OK\r\n"]);
    match reader.on_close() {
        ReadStep::Failed(err) => assert_eq!(err.message, "AI provider is unreachable (reading the response headers)"),
        other => panic!("{other:?}"),
    }
}

#[test]
fn an_endless_header_block_is_refused() {
    let mut reader = ResponseReader::new();
    let filler = "a".repeat(300 * 1024);
    let (steps, _) = feed(&mut reader, &["HTTP/1.1 200 OK\r\nX: ", &filler]);
    match &steps[1] {
        ReadStep::Failed(err) => assert_eq!(err.detail.as_deref(), Some("header block exceeds 256 KiB")),
        other => panic!("{other:?}"),
    }
}

#[test]
fn a_bad_chunk_size_fails_the_response() {
    let mut reader = ResponseReader::new();
    let (steps, _) = feed(&mut reader, &["HTTP/1.1 200 OK\r\nTransfer-Encoding: chunked\r\n\r\nzz\r\n"]);
    match &steps[0] {
        ReadStep::Failed(err) => {
            assert_eq!(err.message, "AI provider sent a reply this engine cannot parse (chunked response body)");
            assert!(err.detail.as_deref().unwrap().contains("bad chunk size"));
        }
        other => panic!("{other:?}"),
    }
    let mut reader = ResponseReader::new();
    let (steps, _) = feed(&mut reader, &["SPDY/3 200 OK\r\n\r\n"]);
    assert!(matches!(&steps[0], ReadStep::Failed(err) if err.detail.as_deref() == Some("SPDY/3 200 OK")));
}

#[test]
fn a_response_read_in_two_parts_matches_one_read_at_every_split() {
    let whole = "HTTP/1.1 200 OK\r\nContent-Length: 5\r\n\r\nhello";
    let mut one = ResponseReader::new();
    let (one_step, one_added) = one.on_read(whole.as_bytes());
    let one_body = match one_step {
        ReadStep::Done(response) => response.body,
        other => panic!("{other:?}"),
    };
    assert_eq!(one_body, b"hello");
    assert_eq!(one_added, b"hello");
    for cut in 1..whole.len() {
        let mut two = ResponseReader::new();
        let (first, mut added) = two.on_read(&whole.as_bytes()[..cut]);
        assert!(matches!(first, ReadStep::NeedMore));
        let (second, more) = two.on_read(&whole.as_bytes()[cut..]);
        added.extend_from_slice(&more);
        match second {
            ReadStep::Done(response) => assert_eq!(response.body, one_body),
            other => panic!("{other:?}"),
        }
        assert_eq!(added, one_added);
        assert!(two.is_finished());
    }
}

#[test]
fn a_request_built_at_a_moment_ends_its_budget_later() {
    let r = HttpRequest::post_json_at("http://x/v1".to_string(), b"{}".to_vec(), 30_000, 1_000);
    assert_eq!(r.deadline_ms, 31_000);
    assert_eq!(r.budget_ms, 30_000);
    assert_eq!(r.connect_timeout_ms, 5_000);
    let late = HttpRequest::post_json_at("http://x/v1".to_string(), Vec::new(), 10, u64::MAX - 5);
    assert_eq!(late.deadline_ms, u64::MAX);
    let now = HttpRequest::post_json("http://x/v1".to_string(), Vec::new(), 2_000);
    assert!(now.deadline_ms >= 2_000);
}
