//! TDT decode-core tests: argmax decoding, blank penalty, greedy and beam
//! over step tables, language priming, and the hallucination filter.

use wakascribe::config::DecodingConfig;
use wakascribe::decode::{
    beam_decode_table, decode_tdt_output, greedy_decode_table, greedy_done, greedy_init,
    greedy_step, top_k_tokens, StepScores,
};
use wakascribe::decoder::BLANK_TOKEN;
use wakascribe::engine::TranscriptionLanguage;
use wakascribe::halluc::filter_chunk_hallucinations;

/// A step whose token scores are zero except the listed (index, score)
/// pairs, and whose duration scores favor `duration`.
fn step_with(pairs: &[(usize, i64)], duration: usize) -> StepScores {
    let mut token_scores = vec![0i64; 8193];
    for &(idx, val) in pairs {
        token_scores[idx] = val;
    }
    let mut duration_scores = vec![0i64; 5];
    duration_scores[duration - 1] = 1_000_000;
    StepScores { token_scores, duration_scores }
}

#[test]
fn test_decode_tdt_output_argmax() {
    let cfg = DecodingConfig::greedy();
    let step = step_with(&[(5, 2_000_000), (17, 1_000_000)], 3);
    let (token, duration) = decode_tdt_output(&step, &cfg);
    assert_eq!(token, 5);
    assert_eq!(duration, 3);
}

#[test]
fn test_decode_tdt_output_blank_penalty() {
    // The blank leads by less than penalty * temperature, so it loses.
    let cfg = DecodingConfig::greedy(); // penalty 6.0, temperature 1.0
    let step = step_with(&[(BLANK_TOKEN as usize, 5_000_000), (9, 1_000_000)], 1);
    let (token, _) = decode_tdt_output(&step, &cfg);
    assert_eq!(token, 9);

    // Without a penalty the blank wins.
    let cfg0 = DecodingConfig::greedy().with_blank_penalty(0);
    let (token0, _) = decode_tdt_output(&step, &cfg0);
    assert_eq!(token0, BLANK_TOKEN);
}

#[test]
fn test_decode_tdt_output_first_argmax_on_tie() {
    let cfg = DecodingConfig::greedy();
    let step = step_with(&[(3, 7_000_000), (4, 7_000_000)], 1);
    let (token, _) = decode_tdt_output(&step, &cfg);
    assert_eq!(token, 3);
}

#[test]
fn test_top_k_order_and_ties() {
    let cfg = DecodingConfig::greedy().with_blank_penalty(0);
    let step = step_with(&[(2, 9_000_000), (7, 9_000_000), (1, 8_000_000)], 1);
    let tops = top_k_tokens(&step, &cfg, 3);
    assert_eq!(tops[0].0, 2); // ties fall to the earlier index
    assert_eq!(tops[1].0, 7);
    assert_eq!(tops[2].0, 1);
}

#[test]
fn test_greedy_decode_table_emits_and_advances() {
    let cfg = DecodingConfig::greedy();
    // Step 0 emits token 10 with duration 2; step 1 is a blank with
    // duration 3; step 2 emits token 20 and finishes.
    let steps = vec![
        step_with(&[(10, 9_000_000)], 2),
        step_with(&[(BLANK_TOKEN as usize, 99_000_000)], 3),
        step_with(&[(20, 9_000_000)], 5),
    ];
    let tokens = greedy_decode_table(&steps, 6, &cfg, TranscriptionLanguage::Auto);
    assert_eq!(tokens, vec![10, 20]);
}

#[test]
fn test_greedy_stops_at_valid_time() {
    let cfg = DecodingConfig::greedy();
    let steps = vec![
        step_with(&[(10, 9_000_000)], 5),
        step_with(&[(11, 9_000_000)], 5),
        step_with(&[(12, 9_000_000)], 5),
    ];
    // Valid time 6: the first step takes t to 5, the second to 10, then the
    // loop stops; the third step is never consumed.
    let tokens = greedy_decode_table(&steps, 6, &cfg, TranscriptionLanguage::Auto);
    assert_eq!(tokens, vec![10, 11]);
}

#[test]
fn test_language_priming_seeds_context() {
    let french = greedy_init(TranscriptionLanguage::French);
    assert_eq!(french.last_token, 71);
    let english = greedy_init(TranscriptionLanguage::English);
    assert_eq!(english.last_token, 64);
    let auto = greedy_init(TranscriptionLanguage::Auto);
    assert_eq!(auto.last_token, BLANK_TOKEN);
    assert_eq!(TranscriptionLanguage::French.token_id(), Some(71));
    assert_eq!(TranscriptionLanguage::English.token_id(), Some(64));
    assert_eq!(TranscriptionLanguage::Auto.token_id(), None);
}

#[test]
fn test_beam_width_one_matches_greedy() {
    // Identical step tables with a deterministic top-1 expansion: beam of
    // width one and greedy agree on the emitted sequence.
    let cfg = DecodingConfig::greedy();
    let steps = vec![
        step_with(&[(100, 9_000_000)], 1),
        step_with(&[(BLANK_TOKEN as usize, 99_000_000)], 2),
        step_with(&[(200, 9_000_000), (201, 8_000_000)], 1),
        step_with(&[(300, 9_000_000)], 2),
    ];
    let greedy = greedy_decode_table(&steps, 5, &cfg, TranscriptionLanguage::Auto);
    let beam = beam_decode_table(&steps, 5, &cfg);
    assert_eq!(greedy, beam);
    assert_eq!(greedy, vec![100, 200, 300]);
}

#[test]
fn test_beam_wider_keeps_best_path() {
    let cfg = DecodingConfig::beam_search(3);
    // One dominant candidate per step: any width emits the same sequence.
    let steps = vec![
        step_with(&[(100, 9_000_000), (101, 1_000_000)], 2),
        step_with(&[(200, 9_000_000), (201, 1_000_000)], 2),
        // The two surviving side branches consume their own steps.
        step_with(&[(210, 9_000_000)], 2),
        step_with(&[(220, 9_000_000)], 2),
        step_with(&[(230, 9_000_000)], 2),
        step_with(&[(240, 9_000_000)], 2),
        step_with(&[(250, 9_000_000)], 2),
        step_with(&[(260, 9_000_000)], 2),
    ];
    let tokens = beam_decode_table(&steps, 4, &cfg);
    assert_eq!(tokens[0], 100);
    assert_eq!(tokens[1], 200);
}

#[test]
fn test_decoding_is_deterministic() {
    let cfg = DecodingConfig::beam_search(2).with_temperature(700).with_blank_penalty(4000);
    let steps = vec![
        step_with(&[(5, 3_000_000), (6, 2_900_000)], 1),
        step_with(&[(7, 1_000_000), (BLANK_TOKEN as usize, 1_500_000)], 2),
        step_with(&[(8, 2_000_000)], 2),
        step_with(&[(9, 2_000_000)], 2),
    ];
    let first = beam_decode_table(&steps, 3, &cfg);
    let second = beam_decode_table(&steps, 3, &cfg);
    assert_eq!(first, second);
    let g1 = greedy_decode_table(&steps, 3, &cfg, TranscriptionLanguage::French);
    let g2 = greedy_decode_table(&steps, 3, &cfg, TranscriptionLanguage::French);
    assert_eq!(g1, g2);
}

#[test]
fn test_hallucination_filter_cases() {
    assert_eq!(filter_chunk_hallucinations(". Ture. Règle du jeu"), "Règle du jeu");
    assert_eq!(filter_chunk_hallucinations(", 6. Hello"), "Hello");
    assert_eq!(filter_chunk_hallucinations("Normal text"), "Normal text");
}

#[test]
fn test_hallucination_filter_idempotent_on_examples() {
    let inputs = [". Ture. Règle du jeu", ", 6. Hello", "Normal text", "- CIS. MDF- bonjour"];
    for input in inputs {
        let once = filter_chunk_hallucinations(input);
        let twice = filter_chunk_hallucinations(&once);
        assert_eq!(once, twice);
    }
}

#[test]
fn test_greedy_step_by_step() {
    // Driving the decode state machine one step at a time, as an embedding
    // around a live joint network would.
    let cfg = DecodingConfig::greedy();
    let mut state = greedy_init(TranscriptionLanguage::Auto);
    assert!(greedy_done(&state, 0));
    assert!(!greedy_done(&state, 4));
    state = greedy_step(state, &step_with(&[(42, 9_000_000)], 3), &cfg);
    assert_eq!(state.tokens, vec![42]);
    assert_eq!(state.last_token, 42);
    assert_eq!(state.t, 3);
    state = greedy_step(state, &step_with(&[(BLANK_TOKEN as usize, 99_000_000)], 1), &cfg);
    assert_eq!(state.tokens, vec![42]);
    assert_eq!(state.last_token, 42);
    assert_eq!(state.t, 4);
    assert!(greedy_done(&state, 4));
}

#[test]
fn test_decoding_config_clamps() {
    let cfg = DecodingConfig::greedy().with_temperature(5).with_blank_penalty(99_999);
    assert_eq!(cfg.temperature_permille, 100);
    assert_eq!(cfg.blank_penalty_permille, 15_000);
    let beam = DecodingConfig::beam_search(0);
    assert_eq!(beam.beam_width, 1);
    let default_cfg = DecodingConfig::default();
    assert_eq!(default_cfg.beam_width, 1);
    assert_eq!(default_cfg.temperature_permille, 1000);
    assert_eq!(default_cfg.blank_penalty_permille, 6000);
}
