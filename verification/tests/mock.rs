use princess::mock::{request_complete, script, Delivery, MockResponse, WireStep};

fn write(text: &str) -> WireStep {
    WireStep::Write(text.as_bytes().to_vec())
}

#[test]
fn a_whole_body_is_one_write_after_a_content_length_head() {
    let response = MockResponse::ok_sse(b"data: x\n\n".to_vec());
    assert_eq!(
        script(&response),
        vec![
            write("HTTP/1.1 200 OK\r\nContent-Type: text/event-stream\r\nContent-Length: 9\r\nConnection: close\r\n\r\n"),
            write("data: x\n\n"),
            WireStep::Close,
        ]
    );
}

#[test]
fn chunked_delivery_frames_one_line_per_chunk() {
    let response = MockResponse::ok_sse(b"data: a\n\ndata: [DONE]\n".to_vec())
        .with_delivery(Delivery::ChunkedSse);
    assert_eq!(
        script(&response),
        vec![
            write("HTTP/1.1 200 OK\r\nContent-Type: text/event-stream\r\nTransfer-Encoding: chunked\r\nConnection: close\r\n\r\n"),
            write("8\r\n"),
            write("data: a\n"),
            write("\r\n"),
            write("1\r\n"),
            write("\n"),
            write("\r\n"),
            write("d\r\n"),
            write("data: [DONE]\n"),
            write("\r\n"),
            write("0\r\n\r\n"),
            WireStep::Close,
        ]
    );
}

#[test]
fn a_truncated_body_advertises_more_than_it_sends() {
    let response = MockResponse::json(200, "{\"a\":1}".to_string()).with_delivery(Delivery::Truncated(5));
    assert_eq!(
        script(&response),
        vec![
            write("HTTP/1.1 200 OK\r\nContent-Type: application/json\r\nContent-Length: 5\r\nConnection: close\r\n\r\n"),
            write("{\"a\""),
            WireStep::Close,
        ]
    );
    let short = MockResponse::json(404, "x".to_string()).with_delivery(Delivery::Truncated(0));
    assert_eq!(script(&short)[1], write(""));
}

#[test]
fn a_refused_connection_is_closed_without_a_head() {
    let response = MockResponse::ok_sse(Vec::new()).with_delivery(Delivery::Refuse);
    assert_eq!(script(&response), vec![WireStep::Close]);
}

#[test]
fn a_delayed_head_waits_first() {
    let response = MockResponse::json(503, "busy".to_string())
        .with_delivery(Delivery::DelayBeforeHeaders(250));
    let steps = script(&response);
    assert_eq!(steps[0], WireStep::PauseMillis(250));
    assert_eq!(
        steps[1],
        write("HTTP/1.1 503 Service Unavailable\r\nContent-Type: application/json\r\nContent-Length: 4\r\nConnection: close\r\n\r\n")
    );
    assert_eq!(steps[2], write("busy"));
    assert_eq!(steps[3], WireStep::Close);
}

#[test]
fn a_stalled_body_is_paced_in_pieces_then_held() {
    let body = vec![7u8; 130];
    let response = MockResponse::ok_sse(body).with_delivery(Delivery::WholeThenStall(1000));
    let steps = script(&response);
    assert_eq!(steps.len(), 1 + 6 + 1 + 1);
    assert_eq!(steps[1], WireStep::Write(vec![7u8; 64]));
    assert_eq!(steps[2], WireStep::PauseMicros(50_000), "a twentieth of a second");
    assert_eq!(steps[5], WireStep::Write(vec![7u8; 2]));
    assert_eq!(steps[7], WireStep::Hold(1000));
    let quick = MockResponse::ok_sse(vec![1u8]).with_delivery(Delivery::WholeThenStall(20));
    assert_eq!(script(&quick)[2], WireStep::PauseMicros(5_000), "never less than 5 ms");
}

#[test]
fn a_slow_stream_pauses_after_every_line() {
    let response = MockResponse::slow_sse(b"a\nb\n".to_vec(), 30, 400);
    assert_eq!(
        &script(&response)[1..],
        &[
            write("a\n"),
            WireStep::PauseMillis(30),
            write("b\n"),
            WireStep::PauseMillis(30),
            WireStep::Hold(400),
            WireStep::Close,
        ]
    );
}

#[test]
fn a_request_is_complete_once_its_declared_body_arrived() {
    let head = b"POST /v1/chat/completions HTTP/1.1\r\nHost: x\r\nContent-LENGTH:  5 \r\n\r\n".to_vec();
    assert!(!request_complete(&head[..head.len() - 2].to_vec()), "head not finished");
    assert!(!request_complete(&head));
    let mut full = head.clone();
    full.extend_from_slice(b"hello");
    assert!(request_complete(&full));
    let no_length = b"GET / HTTP/1.1\r\nHost: x\r\n\r\n".to_vec();
    assert!(request_complete(&no_length), "no Content-Length means no body");
    let bad_length = b"GET / HTTP/1.1\r\nContent-Length: lots\r\nContent-Length: 2\r\n\r\n".to_vec();
    assert!(!request_complete(&bad_length), "the first parseable value counts");
    assert!(!request_complete(&Vec::new()));
}
