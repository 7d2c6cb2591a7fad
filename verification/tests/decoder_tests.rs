use audio_chat::{StreamDecoder, StreamEvent};

fn b64(bytes: &[u8]) -> String {
    base64::Engine::encode(&base64::engine::general_purpose::STANDARD, bytes)
}

#[test]
fn text_then_stop_then_done_yields_hi_and_stops_early() {
    let mut d = StreamDecoder::new();
    let input = "data: {\"choices\":[{\"delta\":{\"content\":\"Hi\"}}]}\ndata: {\"choices\":[{\"delta\":{},\"finish_reason\":\"stop\"}]}\ndata: [DONE]\n";
    let events = d.push_chunk(input.as_bytes());
    assert_eq!(events.len(), 1);
    match &events[0] {
        StreamEvent::TextDelta(s) => assert_eq!(s, "Hi"),
        _ => panic!("expected a text delta"),
    }
    assert!(d.is_complete());
    // The [DONE] line was never consumed: decoding stopped at the stop line.
    assert_eq!(d.buffered_len(), "data: [DONE]\n".len());
    let (full, stats) = d.finish();
    assert_eq!(full, "Hi");
    assert!(stats.completed);
    assert_eq!(stats.text_chunk_count, 1);
    assert_eq!(stats.total_audio_samples, 0);
    assert!(stats.ttft_millis.is_some());
}

#[test]
fn malformed_line_is_skipped_without_affecting_counts() {
    let mut d = StreamDecoder::new();
    d.push_chunk(b"data: {\"choices\":[{\"delta\":{\"content\":\"a\"}}]}\n");
    d.push_chunk(b"data: {not json\n");
    d.push_chunk(b"data: {\"choices\":[{\"delta\":{\"content\":\"b\"}}]}\n");
    assert!(!d.is_complete());
    let (full, stats) = d.finish();
    assert_eq!(full, "ab");
    assert_eq!(stats.text_chunk_count, 2);
    assert!(!stats.completed);
}

#[test]
fn chunk_boundaries_do_not_change_the_outcome() {
    let input = "data: {\"choices\":[{\"delta\":{\"content\":\"He\"}}]}\ndata: {\"choices\":[{\"delta\":{\"content\":\"llo\"}}]}\ndata: {\"choices\":[{\"delta\":{},\"finish_reason\":\"stop\"}]}\n";
    let bytes = input.as_bytes();

    let mut whole = StreamDecoder::new();
    whole.push_chunk(bytes);
    let (full_whole, stats_whole) = whole.finish();

    let mut split = StreamDecoder::new();
    // Feed byte by byte: boundaries fall inside lines and inside the marker.
    for b in bytes {
        split.push_chunk(std::slice::from_ref(b));
    }
    let (full_split, stats_split) = split.finish();

    assert_eq!(full_whole, "Hello");
    assert_eq!(full_split, full_whole);
    assert_eq!(stats_split.text_chunk_count, stats_whole.text_chunk_count);
    assert_eq!(stats_split.completed, stats_whole.completed);
    assert!(stats_whole.completed);
}

#[test]
fn audio_delta_is_decoded_into_sample_words() {
    let mut d = StreamDecoder::new();
    // Two little-endian IEEE-754 floats: 1.0 and -0.5.
    let payload: Vec<u8> = [1.0f32, -0.5f32]
        .iter()
        .flat_map(|s| s.to_le_bytes())
        .collect();
    let line = format!(
        "data: {{\"choices\":[{{\"delta\":{{\"audio_chunk\":{{\"data\":\"{}\"}}}}}}]}}\n",
        b64(&payload)
    );
    let events = d.push_chunk(line.as_bytes());
    assert_eq!(events.len(), 1);
    match &events[0] {
        StreamEvent::AudioDelta(words) => {
            assert_eq!(words.len(), 2);
            assert_eq!(f32::from_bits(words[0]), 1.0);
            assert_eq!(f32::from_bits(words[1]), -0.5);
        }
        _ => panic!("expected an audio delta"),
    }
    let (full, stats) = d.finish();
    assert_eq!(full, "");
    assert_eq!(stats.total_audio_samples, 2);
    assert_eq!(stats.text_chunk_count, 0);
    assert!(stats.ttft_millis.is_some());
}

#[test]
fn trailing_partial_audio_bytes_are_discarded() {
    // 4k + r decoded bytes yield exactly k samples: 7 bytes give 1 sample.
    let mut d = StreamDecoder::new();
    let payload: Vec<u8> = vec![1, 2, 3, 4, 5, 6, 7];
    let line = format!(
        "data: {{\"choices\":[{{\"delta\":{{\"audio_chunk\":{{\"data\":\"{}\"}}}}}}]}}\n",
        b64(&payload)
    );
    let events = d.push_chunk(line.as_bytes());
    assert_eq!(events.len(), 1);
    match &events[0] {
        StreamEvent::AudioDelta(words) => {
            assert_eq!(words.len(), 1);
            assert_eq!(words[0], 0x04030201);
        }
        _ => panic!("expected an audio delta"),
    }
    let (_, stats) = d.finish();
    assert_eq!(stats.total_audio_samples, 1);
}

#[test]
fn eventless_delta_line_sets_no_ttft() {
    // A delta with empty content and no audio carries no text or audio
    // delta, so it leaves time-to-first-token unset.
    let mut d = StreamDecoder::new();
    let events = d.push_chunk(b"data: {\"choices\":[{\"delta\":{\"content\":\"\"}}]}\n");
    assert_eq!(events.len(), 0);
    let (full, stats) = d.finish();
    assert_eq!(full, "");
    assert_eq!(stats.text_chunk_count, 0);
    assert!(stats.ttft_millis.is_none());
}

#[test]
fn audio_shorter_than_one_sample_changes_no_stats() {
    // Three decoded bytes hold no whole sample: no event, no count, and
    // no time-to-first-token.
    let mut d = StreamDecoder::new();
    let line = format!(
        "data: {{\"choices\":[{{\"delta\":{{\"audio_chunk\":{{\"data\":\"{}\"}}}}}}]}}\n",
        b64(&[1, 2, 3])
    );
    let events = d.push_chunk(line.as_bytes());
    assert_eq!(events.len(), 0);
    let (_, stats) = d.finish();
    assert_eq!(stats.total_audio_samples, 0);
    assert!(stats.ttft_millis.is_none());
}

#[test]
fn the_field_marker_is_optional() {
    // A well-formed record line without the `data: ` marker is parsed
    // as-is, and so is an unmarked stop line.
    let mut d = StreamDecoder::new();
    d.push_chunk(b"{\"choices\":[{\"delta\":{\"content\":\"bare\"}}]}\n");
    assert!(!d.is_complete());
    d.push_chunk(b"{\"choices\":[{\"delta\":{},\"finish_reason\":\"stop\"}]}\n");
    assert!(d.is_complete());
    let (full, stats) = d.finish();
    assert_eq!(full, "bare");
    assert_eq!(stats.text_chunk_count, 1);
    assert!(stats.completed);
}

#[test]
fn no_delta_means_no_ttft() {
    let mut d = StreamDecoder::new();
    d.push_chunk(b"data: [DONE]\n");
    d.push_chunk(b"\n");
    d.push_chunk(b"not a data line\n");
    let (_, stats) = d.finish();
    assert!(stats.ttft_millis.is_none());
    assert!(!stats.completed);
}

#[test]
fn empty_choices_and_missing_choices_are_skipped() {
    let mut d = StreamDecoder::new();
    d.push_chunk(b"data: {\"choices\":[]}\n");
    d.push_chunk(b"data: {\"other\":1}\n");
    d.push_chunk(b"data: {\"choices\":[{\"delta\":{\"content\":\"x\"}}]}\n");
    let (full, stats) = d.finish();
    assert_eq!(full, "x");
    assert_eq!(stats.text_chunk_count, 1);
}

#[test]
fn line_with_both_text_and_audio_yields_two_events() {
    let mut d = StreamDecoder::new();
    let payload: Vec<u8> = 0.25f32.to_le_bytes().to_vec();
    let line = format!(
        "data: {{\"choices\":[{{\"delta\":{{\"content\":\"ok\",\"audio_chunk\":{{\"data\":\"{}\"}}}}}}]}}\n",
        b64(&payload)
    );
    let events = d.push_chunk(line.as_bytes());
    assert_eq!(events.len(), 2);
    assert!(matches!(&events[0], StreamEvent::TextDelta(s) if s == "ok"));
    assert!(matches!(&events[1], StreamEvent::AudioDelta(w) if w.len() == 1));
    let (full, stats) = d.finish();
    assert_eq!(full, "ok");
    assert_eq!(stats.text_chunk_count, 1);
    assert_eq!(stats.total_audio_samples, 1);
}

#[test]
fn carriage_returns_are_trimmed_off_lines() {
    let mut d = StreamDecoder::new();
    d.push_chunk(b"data: {\"choices\":[{\"delta\":{\"content\":\"crlf\"}}]}\r\n");
    let (full, _) = d.finish();
    assert_eq!(full, "crlf");
}

#[test]
fn bytes_after_stop_stay_buffered() {
    let mut d = StreamDecoder::new();
    d.push_chunk(b"data: {\"choices\":[{\"delta\":{},\"finish_reason\":\"stop\"}]}\n");
    assert!(d.is_complete());
    let before = d.buffered_len();
    let events = d.push_chunk(b"data: {\"choices\":[{\"delta\":{\"content\":\"late\"}}]}\n");
    assert_eq!(events.len(), 0);
    assert!(d.buffered_len() > before);
    let (full, stats) = d.finish();
    assert_eq!(full, "");
    assert!(stats.completed);
}
