//! Error taxonomy of the transcription core.

use vstd::prelude::*;

verus! {

/// Everything that can go wrong in the capture and transcription pipeline.
#[derive(Debug, Clone)]
pub enum AsrError {
    /// Device enumeration, default selection, or an unsupported sample format.
    AudioDevice(String),
    /// The capture worker crashed or its command channel closed.
    AudioWorkerUnavailable,
    /// Start while already recording, or stop while not recording.
    InvalidState(String),
    /// A non-WAV file or an unsupported PCM depth.
    UnsupportedAudioFormat(String),
    /// Resampler initialization or processing failure.
    Resample(String),
    /// A required file is absent from the configured model directory.
    ModelNotFound(String),
    /// Tensor-graph parsing, compilation, or handle creation failed.
    ModelLoadFailed(String),
    /// Neural-stage execution error, sidecar failure, or all chunks failed.
    TranscriptionFailed(String),
    /// Missing vocabulary file or unparseable vocabulary format.
    Vocabulary(String),
}

impl AsrError {
    /// A short stable label for the error kind.
    pub fn kind_label(&self) -> (r: &'static str)
        ensures
            r@.len() > 0,
    {
        proof {
            reveal_strlit("audio_device");
            reveal_strlit("audio_worker_unavailable");
            reveal_strlit("invalid_state");
            reveal_strlit("unsupported_audio_format");
            reveal_strlit("resample");
            reveal_strlit("model_not_found");
            reveal_strlit("model_load_failed");
            reveal_strlit("transcription_failed");
            reveal_strlit("vocabulary");
        }
        match self {
            AsrError::AudioDevice(_) => "audio_device",
            AsrError::AudioWorkerUnavailable => "audio_worker_unavailable",
            AsrError::InvalidState(_) => "invalid_state",
            AsrError::UnsupportedAudioFormat(_) => "unsupported_audio_format",
            AsrError::Resample(_) => "resample",
            AsrError::ModelNotFound(_) => "model_not_found",
            AsrError::ModelLoadFailed(_) => "model_load_failed",
            AsrError::TranscriptionFailed(_) => "transcription_failed",
            AsrError::Vocabulary(_) => "vocabulary",
        }
    }
}

} // verus!
