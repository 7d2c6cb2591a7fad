use audio_chat::{
    b64_decode_or_empty, b64_encode, samples_from_bytes, samples_to_wav_bytes, wav_channels,
    wav_sample_count, wav_sample_rate, AudioRecorder, CaptureError,
};

#[test]
fn base64_round_trip_through_the_wrappers() {
    let encoded = b64_encode(&[1, 2, 3]);
    assert_eq!(encoded, "AQID");
    assert_eq!(b64_decode_or_empty("AQID"), vec![1, 2, 3]);
    assert_eq!(b64_encode(&[]), "");
    assert_eq!(b64_decode_or_empty(""), Vec::<u8>::new());
    // An invalid payload decodes to the empty sequence.
    assert_eq!(b64_decode_or_empty("!!!not base64!!!"), Vec::<u8>::new());
}

#[test]
fn sample_words_are_little_endian_and_remainders_drop() {
    assert_eq!(samples_from_bytes(&vec![1, 2, 3, 4]), vec![0x04030201]);
    assert_eq!(
        samples_from_bytes(&vec![1, 2, 3, 4, 5, 6, 7, 8, 9]),
        vec![0x04030201, 0x08070605]
    );
    assert_eq!(samples_from_bytes(&vec![1, 2, 3]), Vec::<u32>::new());
    assert_eq!(samples_from_bytes(&vec![]), Vec::<u32>::new());
}

#[test]
fn wav_container_fields_read_back_as_written() {
    let samples: Vec<i16> = vec![0, 100, -100, 32767, -32768];
    let bytes = samples_to_wav_bytes(&samples, 24000);
    assert_eq!(bytes.len(), 44 + 2 * samples.len());
    assert_eq!(&bytes[0..4], b"RIFF");
    assert_eq!(&bytes[8..12], b"WAVE");
    assert_eq!(&bytes[36..40], b"data");
    assert_eq!(wav_channels(&bytes), Some(1));
    assert_eq!(wav_sample_rate(&bytes), Some(24000));
    assert_eq!(wav_sample_count(&bytes), Some(samples.len() as u32));
}

#[test]
fn wav_container_is_readable_by_an_independent_reader() {
    let samples: Vec<i16> = (0..1000).map(|i| ((i * 37) % 65536 - 32768) as i16).collect();
    let bytes = samples_to_wav_bytes(&samples, 16000);
    let reader = hound::WavReader::new(std::io::Cursor::new(bytes)).expect("valid container");
    let spec = reader.spec();
    assert_eq!(spec.channels, 1);
    assert_eq!(spec.sample_rate, 16000);
    assert_eq!(spec.bits_per_sample, 16);
    assert_eq!(spec.sample_format, hound::SampleFormat::Int);
    let read: Vec<i16> = reader.into_samples::<i16>().map(|s| s.unwrap()).collect();
    assert_eq!(read, samples);
}

#[test]
fn empty_wav_is_a_bare_header() {
    let bytes = samples_to_wav_bytes(&Vec::new(), 16000);
    assert_eq!(bytes.len(), 44);
    assert_eq!(wav_sample_count(&bytes), Some(0));
    assert_eq!(wav_channels(&vec![1, 2, 3]), None);
}

#[test]
fn recorder_reports_availability_and_refuses_without_microphone() {
    let rec = AudioRecorder::new(false);
    assert!(!rec.available());
    let err = rec.begin_capture().unwrap_err();
    assert_eq!(err, CaptureError::NoMicrophone);
    assert_eq!(err.message(), "no microphone");

    let rec = AudioRecorder::new(true);
    assert!(rec.available());
    assert_eq!(rec.begin_capture().unwrap(), 16000);
}

#[test]
fn empty_capture_yields_an_explicit_empty_result() {
    let rec = AudioRecorder::new(true);
    assert_eq!(rec.finish_capture(&Vec::new()), Vec::<u8>::new());
}

#[test]
fn finished_capture_is_wav_at_the_capture_rate() {
    let rec = AudioRecorder::new(true);
    let samples: Vec<i16> = vec![1, -1, 2, -2];
    let bytes = rec.finish_capture(&samples);
    assert_eq!(wav_sample_rate(&bytes), Some(16000));
    assert_eq!(wav_sample_count(&bytes), Some(4));
    assert_eq!(wav_channels(&bytes), Some(1));
}
