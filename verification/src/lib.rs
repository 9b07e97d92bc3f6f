//! Offline speech-to-text core: audio conditioning, voice-activity-based
//! chunking, capture-worker state, token-and-duration transducer decoding,
//! and assembly of transcription records.

pub mod capture;
pub mod chunker;
pub mod config;
pub mod decode;
pub mod decoder;
pub mod engine;
pub mod error;
pub mod halluc;
pub mod merger;
pub mod pipeline;
pub mod records;
pub mod sidecar;
pub mod text;
pub mod textfmt;
pub mod vad;
pub mod vocab;
pub mod wav;

use vstd::prelude::*;

verus! {

/// Samples are held as integer amplitudes in millionths of full scale,
/// so an amplitude of 1.0 is `SAMPLE_SCALE`.
pub const SAMPLE_SCALE: i32 = 1_000_000;

/// The fixed sample rate of the decoding pipeline, in Hz.
pub const PIPELINE_SAMPLE_RATE: u32 = 16_000;

/// Duration of a sample run in milliseconds: `floor(len / rate * 1000)`.
pub fn duration_ms(sample_count: usize, sample_rate: u32) -> (r: i64)
    requires
        sample_rate > 0,
        sample_count <= 0x7fff_ffff_ffff,
    ensures
        r == sample_count * 1000 / (sample_rate as int),
{
    ((sample_count as i64) * 1000) / (sample_rate as i64)
}

} // verus!
