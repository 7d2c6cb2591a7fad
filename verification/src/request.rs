//! Request builder: turns a mode and optional text/audio inputs into the
//! ordered message list and request record sent to the server. Audio
//! enters a request only here, as a base64 payload inside a structured
//! content entry.

use vstd::prelude::*;

verus! {

use crate::codec::{b64_decode_of, b64_encode, b64_encode_of};
use crate::json::str_eq;

/// The closed set of request modes: the two single-shot modes and the
/// continuous chat mode.
#[derive(Clone, Copy, PartialEq, Eq, Structural, Debug)]
pub enum RequestMode {
    Transcribe,
    Synthesize,
    Chat,
}

/// One structured content entry embedding audio: the edge serializes it as
/// an `input_audio` entry with this base64 payload and the `wav` format
/// tag.
pub struct AudioContentPart {
    pub data: String,
}

/// One chat message: a role and either a plain text payload or a
/// structured content list (used only to embed audio).
pub struct ChatMessage {
    pub role: String,
    pub content: Option<String>,
    pub content_array: Option<Vec<AudioContentPart>>,
}

/// The outbound request record: the message list, the always-set streaming
/// flag, the token budget, and the explicit context-reset flag.
pub struct ChatRequestBody {
    pub model: String,
    pub messages: Vec<ChatMessage>,
    pub stream: bool,
    pub max_tokens: u32,
    pub reset_context: Option<bool>,
}

/// Why a request could not be built.
#[derive(PartialEq, Eq, Structural, Debug)]
pub enum RequestError {
    InvalidMode,
}

impl RequestError {
    pub fn message(&self) -> (r: String)
        ensures
            r@ == "invalid mode"@,
    {
        "invalid mode".to_owned()
    }
}

/// Map a mode word to the mode it names, if any.
pub fn parse_mode(s: &str) -> (r: Option<RequestMode>)
    ensures
        r == (if s@ == "asr"@ {
            Option::Some(RequestMode::Transcribe)
        } else if s@ == "tts"@ {
            Option::Some(RequestMode::Synthesize)
        } else if s@ == "interleaved"@ {
            Option::Some(RequestMode::Chat)
        } else {
            Option::<RequestMode>::None
        }),
{
    if str_eq(s, "asr") {
        Some(RequestMode::Transcribe)
    } else if str_eq(s, "tts") {
        Some(RequestMode::Synthesize)
    } else if str_eq(s, "interleaved") {
        Some(RequestMode::Chat)
    } else {
        None
    }
}

/// Wrap raw audio bytes as a user message whose only content is the bytes'
/// base64 encoding inside one structured entry; decoding that payload
/// recovers the bytes.
pub fn create_audio_message(wav_data: &[u8]) -> (r: ChatMessage)
    ensures
        r.role@ == "user"@,
        r.content is None,
        r.content_array matches Some(arr) && arr@.len() == 1 && arr@[0].data@ == b64_encode_of(
            wav_data@,
        ) && b64_decode_of(arr@[0].data@) == wav_data@,
{
    let encoded = b64_encode(wav_data);
    let mut arr: Vec<AudioContentPart> = Vec::new();
    arr.push(AudioContentPart { data: encoded });
    ChatMessage { role: "user".to_owned(), content: None, content_array: Some(arr) }
}

/// The system prompt of a single-shot mode.
pub open spec fn spec_system_prompt(mode: RequestMode) -> Seq<char> {
    if mode == RequestMode::Transcribe {
        "Perform ASR."@
    } else {
        "Perform TTS. Use the UK female voice."@
    }
}

/// Build a single-shot request: a system prompt for the mode, then the
/// audio (transcription) or the text (synthesis) as a user message, with
/// streaming on and the context always reset. The chat mode is not a
/// single-shot mode and is rejected.
pub fn single_shot_request(
    mode: RequestMode,
    text: Option<&str>,
    wav_data: Option<&[u8]>,
    max_tokens: u32,
) -> (r: Result<ChatRequestBody, RequestError>)
    ensures
        mode == RequestMode::Chat ==> r == Err::<ChatRequestBody, RequestError>(
            RequestError::InvalidMode,
        ),
        mode != RequestMode::Chat ==> (r matches Ok(body) && {
            &&& body.stream == true
            &&& body.max_tokens == max_tokens
            &&& body.reset_context == Option::Some(true)
            &&& body.model@ == Seq::<char>::empty()
            &&& body.messages@.len() >= 1
            &&& body.messages@[0].role@ == "system"@
            &&& body.messages@[0].content matches Some(c) && c@ == spec_system_prompt(mode)
            &&& body.messages@[0].content_array is None
            &&& (mode == RequestMode::Transcribe ==> (match wav_data {
                Option::Some(w) => body.messages@.len() == 2 && body.messages@[1].role@ == "user"@
                    && body.messages@[1].content is None
                    && (body.messages@[1].content_array matches Some(arr) && arr@.len() == 1
                    && arr@[0].data@ == b64_encode_of(w@)),
                Option::None => body.messages@.len() == 1,
            }))
            &&& (mode == RequestMode::Synthesize ==> (match text {
                Option::Some(t) => body.messages@.len() == 2 && body.messages@[1].role@ == "user"@
                    && (body.messages@[1].content matches Some(c) && c@ == t@)
                    && body.messages@[1].content_array is None,
                Option::None => body.messages@.len() == 1,
            }))
        }),
{
    let system: &str = match mode {
        RequestMode::Transcribe => "Perform ASR.",
        RequestMode::Synthesize => "Perform TTS. Use the UK female voice.",
        RequestMode::Chat => {
            return Err(RequestError::InvalidMode);
        },
    };
    let mut messages: Vec<ChatMessage> = Vec::new();
    messages.push(
        ChatMessage { role: "system".to_owned(), content: Some(system.to_owned()), content_array: None },
    );
    match mode {
        RequestMode::Transcribe => {
            if let Some(wav) = wav_data {
                messages.push(create_audio_message(wav));
            }
        },
        RequestMode::Synthesize => {
            if let Some(t) = text {
                messages.push(
                    ChatMessage { role: "user".to_owned(), content: Some(t.to_owned()), content_array: None },
                );
            }
        },
        RequestMode::Chat => {},
    }
    Ok(
        ChatRequestBody {
            model: String::new(),
            messages,
            stream: true,
            max_tokens,
            reset_context: Some(true),
        },
    )
}

/// Build a continuous-chat request from a caller-supplied message list:
/// streaming on, the reset flag as the caller decided it (true only for
/// the first turn of a session).
pub fn chat_request(messages: Vec<ChatMessage>, max_tokens: u32, reset_context: bool) -> (r:
    ChatRequestBody)
    ensures
        r.messages == messages,
        r.stream == true,
        r.max_tokens == max_tokens,
        r.reset_context == Option::Some(reset_context),
        r.model@ == Seq::<char>::empty(),
{
    ChatRequestBody {
        model: String::new(),
        messages,
        stream: true,
        max_tokens,
        reset_context: Some(reset_context),
    }
}

} // verus!
