//! WAV codec tests, cross-checked against the hound crate.

use std::io::Cursor;

use wakascribe::error::AsrError;
use wakascribe::wav::{encode_wav_pcm16, parse_wav_pcm16};

#[test]
fn test_wav_roundtrip_samples() {
    let samples: Vec<i16> = vec![0, 1, -1, 32767, -32768, 12345, -12345];
    let bytes = encode_wav_pcm16(&samples, 16000);
    let parsed = parse_wav_pcm16(&bytes).unwrap();
    assert_eq!(parsed.sample_rate, 16000);
    assert_eq!(parsed.channels, 1);
    assert_eq!(parsed.samples, samples);
}

#[test]
fn test_wav_header_layout() {
    let bytes = encode_wav_pcm16(&vec![0i16; 4], 16000);
    assert_eq!(bytes.len(), 44 + 8);
    assert_eq!(&bytes[0..4], b"RIFF");
    assert_eq!(&bytes[8..12], b"WAVE");
    assert_eq!(&bytes[12..16], b"fmt ");
    assert_eq!(&bytes[36..40], b"data");
}

#[test]
fn test_wav_parse_rejects_garbage() {
    assert!(matches!(
        parse_wav_pcm16(&b"not audio at all".to_vec()),
        Err(AsrError::UnsupportedAudioFormat(_))
    ));
    assert!(matches!(parse_wav_pcm16(&vec![]), Err(AsrError::UnsupportedAudioFormat(_))));
}

#[test]
fn test_wav_readable_by_hound() {
    // The library's emitted bytes are a valid file for the hound crate.
    let samples: Vec<i16> = (0..1000).map(|i| ((i * 37) % 20000) as i16 - 10000).collect();
    let bytes = encode_wav_pcm16(&samples, 16000);
    let reader = hound::WavReader::new(Cursor::new(bytes)).unwrap();
    let spec = reader.spec();
    assert_eq!(spec.channels, 1);
    assert_eq!(spec.sample_rate, 16000);
    assert_eq!(spec.bits_per_sample, 16);
    assert_eq!(spec.sample_format, hound::SampleFormat::Int);
    let read: Vec<i16> = reader.into_samples::<i16>().map(|s| s.unwrap()).collect();
    assert_eq!(read, samples);
}

#[test]
fn test_wav_parses_hound_output() {
    // Bytes written by the hound crate parse to the same samples.
    let samples: Vec<i16> = vec![5, -5, 100, -100, 0, 30000];
    let spec = hound::WavSpec {
        channels: 1,
        sample_rate: 44100,
        bits_per_sample: 16,
        sample_format: hound::SampleFormat::Int,
    };
    let mut buffer = Cursor::new(Vec::new());
    {
        let mut writer = hound::WavWriter::new(&mut buffer, spec).unwrap();
        for &s in &samples {
            writer.write_sample(s).unwrap();
        }
        writer.finalize().unwrap();
    }
    let parsed = parse_wav_pcm16(&buffer.into_inner()).unwrap();
    assert_eq!(parsed.sample_rate, 44100);
    assert_eq!(parsed.channels, 1);
    assert_eq!(parsed.samples, samples);
}

#[test]
fn test_wav_rejects_float_pcm() {
    let spec = hound::WavSpec {
        channels: 1,
        sample_rate: 16000,
        bits_per_sample: 32,
        sample_format: hound::SampleFormat::Float,
    };
    let mut buffer = Cursor::new(Vec::new());
    {
        let mut writer = hound::WavWriter::new(&mut buffer, spec).unwrap();
        writer.write_sample(0.5f32).unwrap();
        writer.finalize().unwrap();
    }
    assert!(matches!(
        parse_wav_pcm16(&buffer.into_inner()),
        Err(AsrError::UnsupportedAudioFormat(_))
    ));
}
