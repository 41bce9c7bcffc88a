use std::io::Cursor;
use typezero_core::history::{HistoryManager, RetentionPolicy};

fn encode(samples: &Vec<i16>) -> Vec<u8> {
    let mut scratch = HistoryManager::new("recordings".to_string());
    scratch
        .save_transcription(samples, "t".to_string(), None, None, 0, RetentionPolicy::Never, 0)
        .wav_bytes
}

#[test]
fn encoded_audio_is_a_real_wav_container() {
    let samples: Vec<i16> = vec![0, 1, -1, 100, -100, 32767, -32768];
    let bytes = encode(&samples);

    assert_eq!(&bytes[0..4], b"RIFF");
    assert_eq!(&bytes[8..12], b"WAVE");
    assert_eq!(bytes.len(), 44 + 2 * samples.len());

    // an independent decoder reads back exactly what was written
    let mut reader = hound::WavReader::new(Cursor::new(&bytes)).expect("valid container");
    let spec = reader.spec();
    assert_eq!(spec.channels, 1);
    assert_eq!(spec.sample_rate, 16000);
    assert_eq!(spec.bits_per_sample, 16);
    let decoded: Vec<i16> = reader.samples::<i16>().map(|s| s.unwrap()).collect();
    assert_eq!(decoded, samples);
}

#[test]
fn empty_sample_buffer_encodes_to_a_bare_header() {
    let bytes = encode(&vec![]);
    assert_eq!(bytes.len(), 44);
    let mut reader = hound::WavReader::new(Cursor::new(&bytes)).expect("valid container");
    assert_eq!(reader.samples::<i16>().count(), 0);
}

#[test]
fn float_conversion_round_trips_within_one_quantization_step() {
    // the capture pipeline's conversion: scale normalized floats by the
    // maximum signed 16-bit magnitude, and divide on the way back
    let originals: Vec<f32> = vec![0.0, 0.5, -0.5, 0.25, -0.25, 1.0, -1.0, 0.123, -0.987];
    let as_pcm: Vec<i16> = originals.iter().map(|s| (s * i16::MAX as f32) as i16).collect();

    let bytes = encode(&as_pcm);
    let mut reader = hound::WavReader::new(Cursor::new(&bytes)).expect("valid container");
    let back: Vec<f32> = reader
        .samples::<i16>()
        .map(|s| s.unwrap() as f32 / i16::MAX as f32)
        .collect();

    assert_eq!(back.len(), originals.len());
    let step = 1.0f32 / i16::MAX as f32;
    for (orig, round) in originals.iter().zip(back.iter()) {
        assert!((orig - round).abs() <= step, "{} vs {}", orig, round);
    }
}

#[test]
fn history_save_reencodes_the_same_image() {
    let samples: Vec<i16> = vec![3, 1, 4, 1, 5, 9, 2, 6];
    let bytes = encode(&samples);

    let mut m = typezero_core::session::MeetingManager::new(HistoryManager::new(
        "recordings".to_string(),
    ));
    let saved = m
        .complete_history_save(&bytes, "pi digits".to_string(), 31, RetentionPolicy::Never, 0)
        .expect("well-formed bytes decode");
    // decode then re-encode of the same samples yields the same image
    assert_eq!(saved.wav_bytes, bytes);
    assert_eq!(m.history.get_latest_entry().unwrap().transcription_text, "pi digits");
}
