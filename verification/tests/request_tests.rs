use audio_chat::{
    b64_decode_or_empty, chat_request, create_audio_message, parse_mode, single_shot_request,
    ChatMessage, RequestError, RequestMode,
};

#[test]
fn mode_words_map_to_the_closed_mode_set() {
    assert_eq!(parse_mode("asr"), Some(RequestMode::Transcribe));
    assert_eq!(parse_mode("tts"), Some(RequestMode::Synthesize));
    assert_eq!(parse_mode("interleaved"), Some(RequestMode::Chat));
    assert_eq!(parse_mode("other"), None);
    assert_eq!(parse_mode(""), None);
}

#[test]
fn audio_message_embeds_base64_in_one_content_entry() {
    let msg = create_audio_message(&[1, 2, 3]);
    assert_eq!(msg.role, "user");
    assert!(msg.content.is_none());
    let arr = msg.content_array.expect("structured content");
    assert_eq!(arr.len(), 1);
    assert_eq!(arr[0].data, "AQID");
    // Decoding the payload recovers the embedded bytes.
    assert_eq!(b64_decode_or_empty(&arr[0].data), vec![1, 2, 3]);
}

#[test]
fn transcription_request_carries_the_audio() {
    let body = single_shot_request(RequestMode::Transcribe, None, Some(&[9, 8, 7]), 512)
        .expect("single-shot");
    assert!(body.stream);
    assert_eq!(body.max_tokens, 512);
    assert_eq!(body.reset_context, Some(true));
    assert_eq!(body.model, "");
    assert_eq!(body.messages.len(), 2);
    assert_eq!(body.messages[0].role, "system");
    assert_eq!(body.messages[0].content.as_deref(), Some("Perform ASR."));
    assert_eq!(body.messages[1].role, "user");
    assert!(body.messages[1].content.is_none());
    assert!(body.messages[1].content_array.is_some());
}

#[test]
fn synthesis_request_carries_the_text() {
    let body = single_shot_request(RequestMode::Synthesize, Some("read this"), None, 64)
        .expect("single-shot");
    assert_eq!(body.messages.len(), 2);
    assert_eq!(
        body.messages[0].content.as_deref(),
        Some("Perform TTS. Use the UK female voice.")
    );
    assert_eq!(body.messages[1].content.as_deref(), Some("read this"));
    assert!(body.messages[1].content_array.is_none());
    assert_eq!(body.reset_context, Some(true));
}

#[test]
fn single_shot_without_input_has_only_the_system_message() {
    let body = single_shot_request(RequestMode::Transcribe, None, None, 16).expect("single-shot");
    assert_eq!(body.messages.len(), 1);
    let body = single_shot_request(RequestMode::Synthesize, None, None, 16).expect("single-shot");
    assert_eq!(body.messages.len(), 1);
}

#[test]
fn chat_mode_is_not_a_single_shot_mode() {
    let err = match single_shot_request(RequestMode::Chat, Some("x"), None, 8) {
        Err(e) => e,
        Ok(_) => panic!("chat mode must be rejected"),
    };
    assert_eq!(err, RequestError::InvalidMode);
    assert_eq!(err.message(), "invalid mode");
}

#[test]
fn chat_request_keeps_messages_and_reset_flag() {
    let messages = vec![
        ChatMessage {
            role: "system".to_owned(),
            content: Some("Respond with interleaved text and audio.".to_owned()),
            content_array: None,
        },
        ChatMessage {
            role: "user".to_owned(),
            content: Some("hello".to_owned()),
            content_array: None,
        },
    ];
    let body = chat_request(messages, 256, true);
    assert!(body.stream);
    assert_eq!(body.max_tokens, 256);
    assert_eq!(body.reset_context, Some(true));
    assert_eq!(body.messages.len(), 2);
    assert_eq!(body.messages[1].content.as_deref(), Some("hello"));

    let body = chat_request(Vec::new(), 1, false);
    assert_eq!(body.reset_context, Some(false));
    assert!(body.messages.is_empty());
}
