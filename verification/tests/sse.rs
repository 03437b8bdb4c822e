use princess::sse::{
    chunk_text, decode_frame, find_frame_end, AiUsage, ChatCompletionChunk, ChunkChoice, ChunkDelta,
    SseDecoder, SseEvent, StreamUsage,
};

fn data_of(events: &[SseEvent]) -> Vec<String> {
    events
        .iter()
        .filter_map(|e| match e {
            SseEvent::Data(d) => Some(d.clone()),
            SseEvent::Done => None,
        })
        .collect()
}

fn delta_chunk(content: Option<&str>, finish: Option<&str>) -> ChatCompletionChunk {
    ChatCompletionChunk {
        id: None,
        model: None,
        choices: vec![ChunkChoice {
            delta: Some(ChunkDelta { content: content.map(str::to_string), reasoning_content: None }),
            text: None,
            finish_reason: finish.map(str::to_string),
        }],
        usage: None,
    }
}

#[test]
fn decodes_a_plain_stream_terminated_by_done() {
    let mut decoder = SseDecoder::new();
    let events = decoder.push(
        b"data: {\"choices\":[{\"delta\":{\"content\":\"Hel\"}}]}\n\n\
          data: {\"choices\":[{\"delta\":{\"content\":\"lo\"}}]}\n\n\
          data: [DONE]\n\n",
    );
    assert_eq!(data_of(&events).len(), 2);
    assert_eq!(events.last(), Some(&SseEvent::Done));
    assert!(decoder.is_done());
}

#[test]
fn a_frame_split_across_reads_is_reassembled_exactly_once() {
    let mut decoder = SseDecoder::new();
    let whole = b"data: {\"choices\":[{\"delta\":{\"content\":\"hello\"}}]}\n\n";
    let mut seen = Vec::new();
    for byte in whole {
        seen.extend(decoder.push(&[*byte]));
    }
    assert_eq!(seen.len(), 1, "one complete frame in, one event out");
    assert_eq!(data_of(&seen)[0], "{\"choices\":[{\"delta\":{\"content\":\"hello\"}}]}");
}

#[test]
fn a_multibyte_character_split_across_reads_is_not_corrupted() {
    let mut decoder = SseDecoder::new();
    let frame = "data: {\"choices\":[{\"delta\":{\"content\":\"世界\"}}]}\n\n".as_bytes().to_vec();
    let split = frame.iter().position(|b| *b >= 0x80).unwrap() + 1;
    assert!(decoder.push(&frame[..split]).is_empty());
    let events = decoder.push(&frame[split..]);
    assert!(data_of(&events)[0].contains("世界"));
    let chunk = delta_chunk(Some("世界"), None);
    assert_eq!(chunk_text(&chunk).as_deref(), Some("世界"));
}

#[test]
fn comments_and_metadata_lines_are_ignored_not_reported_as_json() {
    let mut decoder = SseDecoder::new();
    let events = decoder.push(
        b": keep-alive\n\n\
          event: message\nid: 42\nretry: 100\ndata: {\"choices\":[]}\n\n\
          data: [DONE]\n\n",
    );
    assert_eq!(events, vec![SseEvent::Data("{\"choices\":[]}".into()), SseEvent::Done]);
}

#[test]
fn crlf_framing_is_accepted() {
    let mut decoder = SseDecoder::new();
    let events = decoder.push(b"data: {\"choices\":[]}\r\n\r\ndata: [DONE]\r\n\r\n");
    assert_eq!(events, vec![SseEvent::Data("{\"choices\":[]}".into()), SseEvent::Done]);
}

#[test]
fn everything_after_done_is_discarded() {
    let mut decoder = SseDecoder::new();
    let events = decoder.push(b"data: [DONE]\n\ndata: {\"choices\":[{\"delta\":{\"content\":\"late\"}}]}\n\n");
    assert_eq!(events, vec![SseEvent::Done]);
    assert!(decoder.push(b"data: {\"more\":1}\n\n").is_empty());
}

#[test]
fn finish_flushes_a_stream_that_died_mid_frame() {
    let mut decoder = SseDecoder::new();
    assert!(decoder.push(b"data: {\"choices\":[{\"delta\":{\"content\":\"cut\"}}]}").is_empty());
    let tail = decoder.finish();
    assert_eq!(data_of(&tail).len(), 1);
    assert!(!decoder.is_done(), "no [DONE] was seen; the caller must notice");
}

#[test]
fn chunk_text_collects_deltas_and_skips_empty_chunks() {
    let role_only = delta_chunk(None, None);
    assert_eq!(chunk_text(&role_only), None);

    let finish = delta_chunk(None, Some("stop"));
    assert_eq!(chunk_text(&finish), None);

    let text = delta_chunk(Some("hi"), None);
    assert_eq!(chunk_text(&text).as_deref(), Some("hi"));
}

#[test]
fn empty_content_is_not_a_chunk() {
    let empty_delta = delta_chunk(Some(""), None);
    assert_eq!(chunk_text(&empty_delta), None);
}

#[test]
fn usage_totals_are_taken_or_summed_but_never_invented() {
    let given = StreamUsage { prompt_tokens: 3, completion_tokens: 4, total_tokens_field: 7 };
    assert_eq!(given.total(), 7);
    let summed = StreamUsage { prompt_tokens: 3, completion_tokens: 4, total_tokens_field: 0 };
    assert_eq!(summed.total(), 7);
    assert_eq!(StreamUsage::default().total(), 0);
    assert_eq!(
        summed.to_ai_usage(),
        AiUsage { prompt_tokens: 3, completion_tokens: 4, total_tokens: 7 }
    );
}

#[test]
fn multi_line_data_is_joined_with_newlines() {
    assert_eq!(decode_frame(b"data: a\ndata:b"), Some(SseEvent::Data("a\nb".to_string())));
    assert_eq!(decode_frame(b"data: [DONE]"), Some(SseEvent::Done));
    assert_eq!(decode_frame(b": comment"), None);
    assert_eq!(find_frame_end(&b"data: x\r\n\r\nrest".to_vec()), Some((7, 11)));
    assert_eq!(find_frame_end(&b"data: x\n".to_vec()), None);
}

#[test]
fn legacy_text_choices_and_several_choices_concatenate() {
    let chunk = ChatCompletionChunk {
        id: Some("c1".to_string()),
        model: None,
        choices: vec![
            ChunkChoice { delta: None, text: Some("a".to_string()), finish_reason: None },
            ChunkChoice {
                delta: Some(ChunkDelta { content: Some("b".to_string()), reasoning_content: None }),
                text: None,
                finish_reason: None,
            },
        ],
        usage: None,
    };
    assert_eq!(chunk_text(&chunk).as_deref(), Some("ab"));
}
