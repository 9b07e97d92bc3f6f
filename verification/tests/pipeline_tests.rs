//! Orchestration, record, formatting, and sidecar-framing tests.

use wakascribe::duration_ms;
use wakascribe::engine::EngineBackend;
use wakascribe::error::AsrError;
use wakascribe::pipeline::{
    assemble_chunk_texts, clamp_encoder_valid_time, finish_transcription, mel_valid_frames,
    needs_chunking,
};
use wakascribe::records::{build_transcription, mock_transcription, Settings};
use wakascribe::sidecar::{sidecar_last_line, sidecar_outcome, CoreMLEngine};
use wakascribe::textfmt::{format_duration, format_timestamp};

#[test]
fn test_chunked_concatenation() {
    // Three chunks, the middle one empty: the survivors are joined with a
    // single space.
    let texts = vec![
        "bonjour monde".to_string(),
        "".to_string(),
        "test final".to_string(),
    ];
    let merged = assemble_chunk_texts(&texts).unwrap();
    assert_eq!(merged, "bonjour monde test final");
}

#[test]
fn test_chunked_concatenation_filters_hallucinations() {
    let texts = vec![". Ture. Règle du jeu".to_string(), ", 6. Hello".to_string()];
    let merged = assemble_chunk_texts(&texts).unwrap();
    assert_eq!(merged, "Règle du jeu Hello");
}

#[test]
fn test_all_chunks_failed() {
    let texts = vec!["".to_string(), "   ".to_string(), ". .".to_string()];
    match assemble_chunk_texts(&texts) {
        Err(AsrError::TranscriptionFailed(_)) => {}
        other => panic!("expected transcription failure, got {:?}", other),
    }
}

#[test]
fn test_needs_chunking_boundary() {
    assert!(!needs_chunking(240_000));
    assert!(needs_chunking(240_001));
}

#[test]
fn test_mel_valid_frames_boundaries() {
    // Shorter than one hop: no valid frame; the pipeline then yields empty
    // text rather than an error.
    assert_eq!(mel_valid_frames(100), 0);
    assert_eq!(mel_valid_frames(160), 1);
    assert_eq!(mel_valid_frames(240_000), 1500);
    assert_eq!(mel_valid_frames(1_000_000), 1500);
    assert_eq!(clamp_encoder_valid_time(42), 42);
    assert_eq!(clamp_encoder_valid_time(500), 188);
}

#[test]
fn test_duration_ms_values() {
    assert_eq!(duration_ms(16000, 16000), 1000);
    assert_eq!(duration_ms(0, 16000), 0);
    assert_eq!(duration_ms(8000, 16000), 500);
    assert_eq!(duration_ms(44100, 44100), 1000);
}

#[test]
fn test_build_transcription_record() {
    let record = build_transcription("bonjour", "dictation", None, 1500);
    assert_eq!(record.raw_text, "bonjour");
    assert_eq!(record.duration_ms, 1500);
    assert_eq!(record.source_type, "dictation");
    assert_eq!(record.language, "fr");
    assert_eq!(record.segments.len(), 1);
    assert_eq!(record.segments[0].start_ms, 0);
    assert_eq!(record.segments[0].end_ms, 1500);
    assert_eq!(record.segments[0].text, "bonjour");
    assert_eq!(record.segments[0].confidence_permille, 950);
    assert_eq!(record.created_at, record.updated_at);
    assert_eq!(record.id.len(), 36);
    assert!(!record.is_edited);
    assert!(record.edited_text.is_none());
}

#[test]
fn test_empty_samples_zero_duration_record() {
    let record = build_transcription("", "dictation", None, duration_ms(0, 16000));
    assert_eq!(record.duration_ms, 0);
    assert_eq!(record.raw_text, "");
}

#[test]
fn test_mock_transcription_record() {
    let record = mock_transcription("file", Some("a.wav".to_string()), 700);
    assert_eq!(record.raw_text, "[Moteur non charge - transcription simulee]");
    assert_eq!(record.segments[0].confidence_permille, 0);
    assert_eq!(record.source_name.as_deref(), Some("a.wav"));
}

#[test]
fn test_finish_transcription_degrades_gracefully() {
    let ok = finish_transcription(Some("texte".to_string()), "dictation", None, 100);
    assert_eq!(ok.raw_text, "texte");
    assert_eq!(ok.segments[0].confidence_permille, 950);
    let mock = finish_transcription(None, "dictation", None, 100);
    assert_eq!(mock.segments[0].confidence_permille, 0);
}

#[test]
fn test_engine_backend_names() {
    assert_eq!(EngineBackend::OpenVINO.model_subdir(), "openvino");
    assert_eq!(EngineBackend::OnnxRuntime.model_subdir(), "onnxruntime");
    assert_eq!(EngineBackend::CoreML.model_subdir(), "coreml");
    assert_eq!(EngineBackend::OpenVINO.display_name(), "OpenVINO");
    assert_eq!(EngineBackend::OnnxRuntime.display_name(), "ONNX Runtime");
    assert_eq!(EngineBackend::CoreML.display_name(), "CoreML");
    assert!(EngineBackend::OpenVINO.requires_reset());
    assert!(!EngineBackend::OnnxRuntime.requires_reset());
    assert_eq!(EngineBackend::default(), EngineBackend::OpenVINO);
}

#[test]
fn test_settings_defaults() {
    let settings = Settings::default();
    assert_eq!(settings.theme, "system");
    assert_eq!(settings.language, "fr");
    assert!(settings.input_device_id.is_none());
    assert_eq!(settings.shortcuts.toggle_recording, "CommandOrControl+Shift+R");
}

#[test]
fn test_format_duration_and_timestamp() {
    assert_eq!(format_duration(0), "0:00");
    assert_eq!(format_duration(65_000), "1:05");
    assert_eq!(format_duration(3_725_000), "62:05");
    assert_eq!(format_timestamp(0), "00:00");
    assert_eq!(format_timestamp(65_000), "01:05");
    assert_eq!(format_timestamp(754_000), "12:34");
}

#[test]
fn test_sidecar_last_line() {
    assert_eq!(sidecar_last_line("log line\n{\"text\": \"ok\"}\n"), "{\"text\": \"ok\"}");
    assert_eq!(sidecar_last_line("{\"text\": \"ok\"}"), "{\"text\": \"ok\"}");
    assert_eq!(sidecar_last_line("a\r\nb\r\n"), "b");
    assert_eq!(sidecar_last_line(""), "");
}

#[test]
fn test_sidecar_outcome_mapping() {
    assert_eq!(sidecar_outcome(true, Some("texte".to_string()), None).unwrap(), "texte");
    assert!(matches!(
        sidecar_outcome(true, None, None),
        Err(AsrError::TranscriptionFailed(_))
    ));
    match sidecar_outcome(false, None, Some("boom".to_string())) {
        Err(AsrError::TranscriptionFailed(m)) => assert_eq!(m, "boom"),
        other => panic!("unexpected {:?}", other),
    }
}

#[test]
fn test_sidecar_engine_state() {
    let mut engine = CoreMLEngine::new();
    assert!(!engine.is_loaded());
    assert_eq!(engine.name(), "CoreML");
    engine.configure("models/coreml".to_string(), "/usr/local/bin/helper".to_string());
    assert!(engine.is_loaded());
}
