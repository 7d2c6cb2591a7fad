//! Core of a streaming text-and-audio chat client: an incremental stream
//! decoder that turns raw network bytes into text/audio events with latency
//! telemetry, a real-time playback queue with leftover-carry draining, a
//! capture-to-WAV pipeline, and a request builder.

use vstd::prelude::*;

mod codec;
mod decoder;
mod json;
mod playback;
mod recorder;
mod records;
mod request;
mod wav;

pub use codec::{b64_decode_or_empty, b64_encode, samples_from_bytes};
pub use json::{parse_json, JsonNode};
pub use records::{chunk_of_json, AudioChunk, StreamChoice, StreamChunk, StreamDelta};
pub use decoder::{MonotonicClock, StreamDecoder, StreamEvent, StreamStats};
pub use playback::{
    open_playback, Leftover, PlaybackConsumer, PlaybackHandle, PLAYBACK_SAMPLE_RATE,
    QUEUE_CAPACITY,
};
pub use recorder::{AudioRecorder, CaptureError, RECORD_SAMPLE_RATE};
pub use request::{
    chat_request, create_audio_message, parse_mode, single_shot_request, AudioContentPart,
    ChatMessage, ChatRequestBody, RequestError, RequestMode,
};
pub use wav::{samples_to_wav_bytes, wav_channels, wav_sample_count, wav_sample_rate};
