//! Vocabulary loading and token-to-text decoding tests.

use wakascribe::decoder::TDTDecoder;
use wakascribe::vocab::Vocabulary;

#[test]
fn test_load_txt_entries() {
    let content = "<unk> 0\n\u{2581}bon 1\njour 2\n<blk> 8192\n";
    let vocab = Vocabulary::load_txt(content);
    assert_eq!(vocab.vocab_size(), 8193);
    assert_eq!(vocab.decode_token(0), "<unk>");
    assert_eq!(vocab.decode_token(1), "\u{2581}bon");
    assert_eq!(vocab.decode_token(2), "jour");
    assert_eq!(vocab.decode_token(3), "");
    assert_eq!(vocab.decode_token(9999), "<unk>");
    assert_eq!(vocab.unk_id, 0);
    assert_eq!(vocab.blank_id, 8192);
    assert!(vocab.is_special_token(8192));
    assert!(!vocab.is_special_token(1));
}

#[test]
fn test_load_txt_tokens_with_spaces() {
    // The rightmost space separates the id; tokens may hold spaces.
    let content = "a b 3\n";
    let vocab = Vocabulary::load_txt(content);
    assert_eq!(vocab.vocab_size(), 4);
    assert_eq!(vocab.decode_token(3), "a b");
}

#[test]
fn test_load_txt_skips_bad_lines() {
    let content = "\nnospace\nword x\nok 1\n";
    let vocab = Vocabulary::load_txt(content);
    assert_eq!(vocab.vocab_size(), 2);
    assert_eq!(vocab.decode_token(1), "ok");
}

#[test]
fn test_load_json_entries() {
    let content = "{\"0\": \"<unk>\", \"1\": \"\u{2581}salut\", \"7\": \"monde\"}";
    let vocab = Vocabulary::load_json(content).unwrap();
    assert_eq!(vocab.vocab_size(), 8);
    assert_eq!(vocab.decode_token(1), "\u{2581}salut");
    assert_eq!(vocab.decode_token(7), "monde");
    assert_eq!(vocab.decode_token(3), "");
    assert_eq!(vocab.unk_id, 0);
    assert_eq!(vocab.blank_id, 8192);
}

#[test]
fn test_load_json_rejects_garbage() {
    assert!(Vocabulary::load_json("not json at all").is_err());
    assert!(Vocabulary::load_json("[1, 2, 3]").is_err());
}

#[test]
fn test_load_dispatches_on_suffix() {
    assert!(Vocabulary::load("vocab.txt", "hello 1\n").is_ok());
    assert!(Vocabulary::load("parakeet_v3_vocab.json", "{\"1\": \"a\"}").is_ok());
    assert!(Vocabulary::load("vocab.bin", "whatever").is_err());
}

#[test]
fn test_decode_single_tokens() {
    let vocab = Vocabulary::load_txt("<unk> 0\n\u{2581}bon 1\njour 2\n<blk> 8192\n");
    let decoder = TDTDecoder::new(vocab);
    assert_eq!(decoder.decode_single(1), " bon");
    assert_eq!(decoder.decode_single(2), "jour");
    assert_eq!(decoder.decode_single(8192), "");
    assert_eq!(decoder.decode_single(80000), "");
}

#[test]
fn test_tokens_to_text_trims_and_joins() {
    let vocab = Vocabulary::load_txt("<unk> 0\n\u{2581}bon 1\njour 2\n\u{2581}monde 3\n<blk> 8192\n");
    let decoder = TDTDecoder::new(vocab);
    let text = decoder.tokens_to_text(&vec![1, 2, 8192, 3]);
    assert_eq!(text, "bonjour monde");
}

#[test]
fn test_greedy_decode_segments() {
    let vocab = Vocabulary::load_txt("<unk> 0\n\u{2581}oui 1\n<blk> 8192\n");
    let decoder = TDTDecoder::new(vocab);
    let segments = decoder.greedy_decode(&vec![1, 8192], 2500);
    assert_eq!(segments.len(), 1);
    assert_eq!(segments[0].start_ms, 0);
    assert_eq!(segments[0].end_ms, 2500);
    assert_eq!(segments[0].text, "oui");
    assert_eq!(segments[0].confidence_permille, 900);
}

#[test]
fn test_greedy_decode_empty() {
    let vocab = Vocabulary::load_txt("<blk> 8192\n");
    let decoder = TDTDecoder::new(vocab);
    let segments = decoder.greedy_decode(&vec![8192, 8192], 1000);
    assert_eq!(segments.len(), 0);
}

#[test]
fn test_decode_with_durations() {
    let vocab = Vocabulary::load_txt("<unk> 0\n\u{2581}oui 1\n<blk> 8192\n");
    let decoder = TDTDecoder::new(vocab);
    // Two steps of duration 2 and 3: five frames, at 160-sample hops with
    // 8x subsampling: 5 * 160 * 8 * 1000 / 16000 = 400 ms.
    let segments = decoder.decode(&vec![1, 8192], &vec![2, 3], 16000, 160, 8);
    assert_eq!(segments.len(), 1);
    assert_eq!(segments[0].start_ms, 0);
    assert_eq!(segments[0].end_ms, 400);
    assert_eq!(segments[0].text, "oui");
}
