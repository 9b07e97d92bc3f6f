//! Chunker, VAD, and capture-worker tests. Sample amplitudes are integers
//! in millionths of full scale: 0.3 is 300_000.

use wakascribe::capture::CaptureState;
use wakascribe::chunker::{split_audio, split_audio_smart, ChunkConfig, SmartChunkConfig};
use wakascribe::vad::{analyze_audio, find_best_cut_point, find_silence_regions, VadConfig};

#[test]
fn test_short_audio_single_chunk() {
    let samples = vec![0i32; 16000 * 5]; // 5 seconds
    let config = SmartChunkConfig::default();
    let chunks = split_audio_smart(&samples, &config);

    assert_eq!(chunks.len(), 1);
    assert_eq!(chunks[0].start_ms, 0);
    assert_eq!(chunks[0].end_ms, 5000);
}

#[test]
fn test_smart_chunking_finds_silence() {
    // 25 s of audio with silence at 10 s and 20 s.
    let mut samples = Vec::new();
    // 0-10 s: speech (high energy)
    samples.extend(vec![300_000i32; 16000 * 10]);
    // 10-10.2 s: silence
    samples.extend(vec![1_000i32; 16000 / 5]);
    // 10.2-20 s: speech
    samples.extend((0..16000 * 10 - 16000 / 5).map(|_| 300_000i32));
    // 20-20.2 s: silence
    samples.extend(vec![1_000i32; 16000 / 5]);
    // 20.2-25 s: speech
    samples.extend(vec![300_000i32; 16000 * 5 - 16000 / 5]);

    let config = SmartChunkConfig::default();
    let chunks = split_audio_smart(&samples, &config);

    // Should cut at silence points, creating 2-3 chunks.
    assert!(chunks.len() >= 2 && chunks.len() <= 3);

    // First chunk should be around 10 s (cut at the first silence):
    // between 9.5 s and 11.0 s of samples.
    let first_len = chunks[0].samples.len();
    assert!(
        first_len >= 152_000 && first_len <= 176_000,
        "First chunk should be ~10s, got {} samples",
        first_len
    );

    // The cut landed on silence, so no overlap was added: the next chunk
    // starts exactly where the first ends.
    assert_eq!(chunks[0].end_sample, chunks[1].start_sample);

    // The non-overlap prefixes reassemble the input in order.
    let mut reassembled: Vec<i32> = Vec::new();
    for (i, c) in chunks.iter().enumerate() {
        let prefix_end = if i + 1 < chunks.len() {
            chunks[i + 1].start_sample - c.start_sample
        } else {
            c.samples.len()
        };
        reassembled.extend_from_slice(&c.samples[..prefix_end]);
    }
    assert_eq!(reassembled, samples);
}

#[test]
fn test_legacy_chunking_with_overlap() {
    // 25 seconds of audio
    let samples = vec![0i32; 16000 * 25];
    let config = ChunkConfig::new(10, 2);
    let chunks = split_audio(&samples, &config);

    assert_eq!(chunks.len(), 3);
    assert_eq!(chunks[0].start_ms, 0);
    assert_eq!(chunks[0].end_ms, 10000);
    assert_eq!(chunks[1].start_ms, 8000);
    assert_eq!(chunks[1].end_ms, 18000);
}

#[test]
fn test_chunk_boundary_at_max() {
    // Exactly the maximum chunk size: one chunk.
    let config = SmartChunkConfig::default();
    let at_max = vec![0i32; 224_000];
    assert_eq!(split_audio_smart(&at_max, &config).len(), 1);
    // One sample more: two chunks.
    let over_max = vec![0i32; 224_001];
    assert_eq!(split_audio_smart(&over_max, &config).len(), 2);
}

#[test]
fn test_silence_detection() {
    // Audio with silence in the middle.
    let mut samples = vec![500_000i32; 16000]; // 1 s of loud audio
    samples.extend(vec![1_000i32; 8000]); // 0.5 s of silence
    samples.extend(vec![500_000i32; 16000]); // 1 s of loud audio

    let config = VadConfig::default();
    let frames = analyze_audio(&samples, &config);

    let silence_count = frames.iter().filter(|f| f.is_silence).count();
    assert!(silence_count > 0, "Should detect silence frames");
}

#[test]
fn test_find_best_cut_point() {
    // Audio with a clear silence point.
    let mut samples = vec![500_000i32; 16000]; // 1 s loud
    samples.extend(vec![1_000i32; 3200]); // 0.2 s silence at 1.0 s
    samples.extend(vec![500_000i32; 16000]); // 1 s loud

    let config = VadConfig::default();
    let (pos, _energy, is_silence) = find_best_cut_point(
        &samples, 8000,  // Search from 0.5 s
        24000, // To 1.5 s
        &config,
    );

    assert!(pos >= 15000 && pos <= 20000, "Should find cut point near silence");
    assert!(is_silence, "Should identify it as silence");
}

#[test]
fn test_find_best_cut_point_empty_range() {
    let samples = vec![500_000i32; 16000];
    let config = VadConfig::default();
    let (pos, energy, is_silence) = find_best_cut_point(&samples, 9000, 9000, &config);
    assert_eq!((pos, energy, is_silence), (9000, 0, true));
}

#[test]
fn test_find_silence_regions_middle() {
    let mut samples = vec![500_000i32; 16000];
    samples.extend(vec![0i32; 8000]);
    samples.extend(vec![500_000i32; 16000]);
    let config = VadConfig::default();
    let regions = find_silence_regions(&samples, &config);
    assert_eq!(regions.len(), 1);
    let (start, end) = regions[0];
    // The silent stretch spans samples 16000..24000; window granularity puts
    // the detected region within it.
    assert!(start >= 15_200 && start <= 16_800, "region starts near the silence: {}", start);
    assert!(end >= 22_400 && end <= 24_800, "region ends near the silence: {}", end);
}

#[test]
fn test_vad_custom_threshold() {
    // Amplitude 0.05 counts as silence only under a raised threshold.
    let samples = vec![50_000i32; 16000];
    let strict = VadConfig::default();
    assert_eq!(analyze_audio(&samples, &strict).iter().filter(|f| f.is_silence).count(), 0);
    let lenient = VadConfig::with_threshold(100_000);
    let frames = analyze_audio(&samples, &lenient);
    assert!(frames.iter().all(|f| f.is_silence));
}

#[test]
fn test_capture_lifecycle() {
    // Start, write 1 s of silence via the callback, stop.
    let mut state = CaptureState::new();
    let generation = state.start().unwrap();
    assert!(state.is_recording());

    let packet = vec![0i32; 16000];
    let accepted = state.callback(generation, &packet);
    assert!(accepted);

    let samples = state.stop().unwrap();
    assert_eq!(samples.len(), 16000);
    assert!(!state.is_recording());

    // Level of the silent packet: min(1, sqrt(10 * rms)) stays under 0.01.
    let (energy, len) = state.audio_level_data();
    let rms = ((energy as f64) / (len as f64)).sqrt() / 1_000_000.0;
    let level = (rms * 10.0).sqrt().min(1.0);
    assert!(level <= 0.01);
}

#[test]
fn test_stale_callback_rejected() {
    // Start, stage a callback's generation, stop, start again, fire the
    // staged callback: none of its samples may appear.
    let mut state = CaptureState::new();
    let staged_generation = state.start().unwrap();
    let _ = state.stop().unwrap();
    let new_generation = state.start().unwrap();
    assert!(new_generation > staged_generation);

    let staged_packet = vec![123_456i32; 100];
    let accepted = state.callback(staged_generation, &staged_packet);
    assert!(!accepted);

    let live_packet = vec![7i32; 50];
    assert!(state.callback(new_generation, &live_packet));

    let samples = state.stop().unwrap();
    assert_eq!(samples.len(), 50);
    assert!(samples.iter().all(|&s| s == 7));
}

#[test]
fn test_capture_pause_blocks_callbacks() {
    let mut state = CaptureState::new();
    let generation = state.start().unwrap();
    state.pause().unwrap();
    assert!(!state.callback(generation, &vec![1i32; 10]));
    state.resume().unwrap();
    assert!(state.callback(generation, &vec![1i32; 10]));
    let samples = state.stop().unwrap();
    assert_eq!(samples.len(), 10);
}

#[test]
fn test_capture_invalid_states() {
    let mut state = CaptureState::new();
    assert!(state.stop().is_err());
    assert!(state.pause().is_err());
    assert!(state.resume().is_err());
    state.start().unwrap();
    assert!(state.start().is_err());
}
