use wakascribe::merger::{merge_cleanup, merge_transcriptions, trim_overlap_end, trim_overlap_start, ChunkTranscription};

#[test]
fn test_single_chunk() {
    let chunks = vec![ChunkTranscription {
        text: "Hello world".to_string(),
        start_ms: 0,
        end_ms: 5000,
        index: 0,
    }];
    let result = merge_transcriptions(&chunks, 2000);
    assert_eq!(result, "Hello world");
}

#[test]
fn test_two_chunks_merge() {
    let chunks = vec![
        ChunkTranscription {
            text: "This is the first part of the sentence".to_string(),
            start_ms: 0,
            end_ms: 10000,
            index: 0,
        },
        ChunkTranscription {
            text: "part of the sentence and this continues".to_string(),
            start_ms: 8000,
            end_ms: 18000,
            index: 1,
        },
    ];
    let result = merge_transcriptions(&chunks, 2000);
    // Should trim overlap from both
    assert!(result.contains("first"));
    assert!(result.contains("continues"));
}

#[test]
fn test_cleanup() {
    assert_eq!(merge_cleanup("hello  world"), "hello world");
    assert_eq!(merge_cleanup("hello ."), "hello.");
    assert_eq!(merge_cleanup("what ?"), "what?");
}

#[test]
fn test_trim_overlap_end_words() {
    // Eight words, a fifth of the chunk overlapping: ceil(8 * 0.2 / 2) = 1
    // word trimmed from the end.
    let trimmed = trim_overlap_end("a b c d e f g h", 2000, 10000);
    assert_eq!(trimmed, "a b c d e f g");
}

#[test]
fn test_trim_overlap_start_words() {
    let trimmed = trim_overlap_start("a b c d e f g h", 2000, 10000);
    assert_eq!(trimmed, "b c d e f g h");
}

#[test]
fn test_trim_overlap_identity_without_overlap() {
    assert_eq!(trim_overlap_end("a b c", 0, 10000), "a b c");
    assert_eq!(trim_overlap_start("a b c", -5, 10000), "a b c");
}

#[test]
fn test_merge_skips_empty_chunks() {
    let chunks = vec![
        ChunkTranscription { text: "first part here okay".to_string(), start_ms: 0, end_ms: 10000, index: 0 },
        ChunkTranscription { text: "   ".to_string(), start_ms: 8000, end_ms: 18000, index: 1 },
        ChunkTranscription { text: "closing words now done".to_string(), start_ms: 16000, end_ms: 26000, index: 2 },
    ];
    let result = merge_transcriptions(&chunks, 0);
    assert_eq!(result, "first part here okay closing words now done");
}
