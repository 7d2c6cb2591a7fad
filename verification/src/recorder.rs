//! Capture engine decisions: whether recording can start, and how a
//! finished capture is packaged. The device itself is driven by a thin
//! unverified edge that probes availability, accumulates samples from the
//! input callback, and converts them to 16-bit PCM.

use vstd::prelude::*;

verus! {

use crate::wav::{samples_to_wav_bytes, wav_bytes};

/// The fixed microphone capture rate, in samples per second.
pub const RECORD_SAMPLE_RATE: u32 = 16000;

/// Why a capture could not start.
#[derive(PartialEq, Eq, Structural, Debug)]
pub enum CaptureError {
    NoMicrophone,
}

impl CaptureError {
    pub fn message(&self) -> (r: String)
        ensures
            r@ == "no microphone"@,
    {
        "no microphone".to_owned()
    }
}

/// The microphone recorder: its fixed capture rate and whether a default
/// input device was found when it was probed.
pub struct AudioRecorder {
    pub sample_rate: u32,
    pub has_input: bool,
}

impl AudioRecorder {
    /// A recorder at the fixed capture rate; `has_input` is the device
    /// layer's probe of whether a default input device exists.
    pub fn new(has_input: bool) -> (r: Self)
        ensures
            r.sample_rate == RECORD_SAMPLE_RATE,
            r.has_input == has_input,
    {
        AudioRecorder { sample_rate: RECORD_SAMPLE_RATE, has_input }
    }

    /// Whether an input device exists to record from.
    pub fn available(&self) -> (r: bool)
        ensures
            r == self.has_input,
    {
        self.has_input
    }

    /// Decide whether a capture may start: without a microphone it is
    /// refused; with one, it runs at the capture rate.
    pub fn begin_capture(&self) -> (r: Result<u32, CaptureError>)
        ensures
            self.has_input ==> r == Ok::<u32, CaptureError>(self.sample_rate),
            !self.has_input ==> r == Err::<u32, CaptureError>(CaptureError::NoMicrophone),
    {
        if self.has_input {
            Ok(self.sample_rate)
        } else {
            Err(CaptureError::NoMicrophone)
        }
    }

    /// Package a finished capture: a capture stopped before any sample
    /// arrived yields an explicit empty result rather than a malformed
    /// container; anything else is encoded as WAV at the capture rate.
    pub fn finish_capture(&self, samples: &Vec<i16>) -> (r: Vec<u8>)
        requires
            samples@.len() * 2 + 36 <= u32::MAX,
            self.sample_rate * 2 <= u32::MAX,
        ensures
            samples@.len() == 0 ==> r@ == Seq::<u8>::empty(),
            samples@.len() > 0 ==> r@ == wav_bytes(samples@, self.sample_rate),
    {
        if samples.len() == 0 {
            Vec::new()
        } else {
            samples_to_wav_bytes(samples, self.sample_rate)
        }
    }
}

} // verus!
