//! Orchestration of the per-chunk inference pipeline: fixed tensor shapes,
//! valid-length tracking, chunking decisions, assembly of per-chunk texts,
//! and the record built for the caller.

use vstd::prelude::*;

use crate::error::AsrError;
use crate::halluc::filter_hallucinations_spec;
use crate::records::{build_transcription, mock_transcription, Transcription};
use crate::text::{
    chars_of, is_trimmed, join_words, join_words_spec, string_from_chars, trim_spec,
    lemma_deep_view_chars, lemma_trim_is_trimmed, lemma_trimmed_fixed,
};

verus! {

/// The most samples a single inference takes: 15 s at 16 kHz.
pub const MAX_AUDIO_SAMPLES: usize = 240_000;

/// Samples per mel frame.
pub const HOP_LENGTH: usize = 160;

/// The fixed time dimension of the mel tensor.
pub const MAX_MEL_FRAMES: usize = 1501;

/// The fixed feature dimension of the mel tensor.
pub const MEL_FEATURES: usize = 128;

/// The fixed feature dimension of the encoder output.
pub const ENCODER_OUTPUT_DIM: usize = 1024;

/// The fixed time dimension of the encoder output tensor.
pub const MAX_ENCODER_TIME: usize = 188;

/// The hidden dimension of the decoder LSTM.
pub const DECODER_HIDDEN_DIM: usize = 640;

/// The number of decoder LSTM layers.
pub const DECODER_NUM_LAYERS: usize = 2;

/// The mel stage's configuration; frequencies in whole Hz.
#[derive(Debug, Clone)]
pub struct MelConfig {
    pub sample_rate: u32,
    pub n_fft: usize,
    pub hop_length: usize,
    pub n_mels: usize,
    pub fmin_hz: u32,
    pub fmax_hz: u32,
}

impl Default for MelConfig {
    /// 16 kHz input, 512-point transform, 10 ms hop, 128 mel features up to
    /// 8 kHz.
    fn default() -> (r: MelConfig)
        ensures
            r.sample_rate == 16000,
            r.n_fft == 512,
            r.hop_length == 160,
            r.n_mels == 128,
            r.fmin_hz == 0,
            r.fmax_hz == 8000,
    {
        MelConfig {
            sample_rate: 16000,
            n_fft: 512,
            hop_length: 160,
            n_mels: 128,
            fmin_hz: 0,
            fmax_hz: 8000,
        }
    }
}

/// Whether audio is too long for a single inference and must be chunked.
pub fn needs_chunking(sample_count: usize) -> (r: bool)
    ensures
        r == (sample_count > MAX_AUDIO_SAMPLES),
{
    sample_count > MAX_AUDIO_SAMPLES
}

/// How many mel frames a sample count actually fills: one frame per hop of
/// the truncated audio, clamped to the tensor's fixed time dimension. The
/// frames past this count are padding and must never be read downstream.
pub fn mel_valid_frames(audio_len: usize) -> (r: usize)
    ensures
        r as int == {
            let clamped = if audio_len <= MAX_AUDIO_SAMPLES {
                audio_len as int
            } else {
                MAX_AUDIO_SAMPLES as int
            };
            if clamped / (HOP_LENGTH as int) <= MAX_MEL_FRAMES as int {
                clamped / (HOP_LENGTH as int)
            } else {
                MAX_MEL_FRAMES as int
            }
        },
        r <= MAX_MEL_FRAMES,
{
    let clamped: usize = if audio_len <= MAX_AUDIO_SAMPLES {
        audio_len
    } else {
        MAX_AUDIO_SAMPLES
    };
    let frames: usize = clamped / HOP_LENGTH;
    if frames <= MAX_MEL_FRAMES {
        frames
    } else {
        MAX_MEL_FRAMES
    }
}

/// Clamps a reported valid encoder length to the tensor's fixed time
/// dimension: positions at or past the valid length are undefined and must
/// not be indexed.
pub fn clamp_encoder_valid_time(valid_time_steps: usize) -> (r: usize)
    ensures
        r as int == if valid_time_steps <= MAX_ENCODER_TIME {
            valid_time_steps as int
        } else {
            MAX_ENCODER_TIME as int
        },
        r <= MAX_ENCODER_TIME,
{
    if valid_time_steps <= MAX_ENCODER_TIME {
        valid_time_steps
    } else {
        MAX_ENCODER_TIME
    }
}

/// The surviving texts of a chunked run: each chunk's text through the
/// hallucination filter, empty results dropped.
pub open spec fn surviving_texts(texts: Seq<Seq<char>>, i: int) -> Seq<Seq<char>>
    decreases texts.len() - i,
    when 0 <= i <= texts.len()
{
    if i >= texts.len() {
        Seq::empty()
    } else {
        let t = filter_hallucinations_spec(texts[i]);
        if t.len() == 0 {
            surviving_texts(texts, i + 1)
        } else {
            seq![t] + surviving_texts(texts, i + 1)
        }
    }
}

/// Assembles the per-chunk texts of a chunked run: every chunk's text runs
/// through the hallucination filter, empty results are dropped, and the
/// survivors are joined with single spaces. When nothing survives, the run
/// failed.
pub fn assemble_chunk_texts(texts: &Vec<String>) -> (r: Result<String, AsrError>)
    ensures
        ({
            let survivors = surviving_texts(
                Seq::new(texts@.len(), |i: int| texts@[i]@),
                0,
            );
            &&& survivors.len() == 0 ==> (r matches Err(e) && e matches
                AsrError::TranscriptionFailed(_))
            &&& survivors.len() > 0 ==> (r matches Ok(t) && t@ == join_words_spec(survivors))
        }),
{
    let ghost tv = Seq::new(texts@.len(), |i: int| texts@[i]@);
    let n: usize = texts.len();
    let mut parts: Vec<Vec<char>> = Vec::new();
    let mut i: usize = 0;
    proof {
        lemma_deep_view_chars(&parts);
        assert(parts.deep_view() =~= Seq::<Seq<char>>::empty());
        assert(Seq::<Seq<char>>::empty() + surviving_texts(tv, 0) =~= surviving_texts(tv, 0));
    }
    while i < n
        invariant
            i <= n,
            n == texts@.len(),
            tv == Seq::new(texts@.len(), |k: int| texts@[k]@),
            parts.deep_view() + surviving_texts(tv, i as int) == surviving_texts(tv, 0),
        decreases n - i,
    {
        let filtered = crate::halluc::filter_chunk_hallucinations(texts[i].as_str());
        proof {
            assert(tv[i as int] == texts@[i as int]@);
        }
        if filtered.unicode_len() > 0 {
            let fchars = chars_of(filtered.as_str());
            let ghost old_dv = parts.deep_view();
            proof {
                lemma_deep_view_chars(&parts);
            }
            parts.push(fchars);
            proof {
                lemma_deep_view_chars(&parts);
                assert(parts.deep_view() =~= old_dv.push(filtered@)) by {
                    assert(forall|x: int|
                        0 <= x < old_dv.len() ==> parts.deep_view()[x] == old_dv[x]);
                }
                let rest = surviving_texts(tv, i + 1);
                assert(old_dv.push(filtered@) + rest =~= old_dv + (seq![filtered@] + rest));
            }
        }
        i = i + 1;
    }
    proof {
        assert(surviving_texts(tv, n as int) =~= Seq::<Seq<char>>::empty());
        assert(parts.deep_view() + Seq::<Seq<char>>::empty() =~= parts.deep_view());
    }
    if parts.len() == 0 {
        proof {
            assert(surviving_texts(tv, 0).len() == 0);
        }
        return Err(AsrError::TranscriptionFailed("all chunks failed to transcribe".to_owned()));
    }
    let joined = join_words(&parts);
    Ok(string_from_chars(&joined))
}

/// Joining non-empty trimmed pieces with single spaces yields a trimmed
/// text: the assembled transcription needs no further trimming.
pub proof fn lemma_join_of_trimmed_is_trimmed(ws: Seq<Seq<char>>)
    requires
        forall|i: int|
            0 <= i < ws.len() ==> (#[trigger] ws[i]).len() > 0 && is_trimmed(ws[i]),
    ensures
        is_trimmed(join_words_spec(ws)),
        trim_spec(join_words_spec(ws)) == join_words_spec(ws),
    decreases ws.len(),
{
    let j = join_words_spec(ws);
    if ws.len() == 0 {
    } else if ws.len() == 1 {
        assert(j == ws[0]);
    } else {
        let rest = ws.subrange(1, ws.len() as int);
        assert(forall|i: int|
            0 <= i < rest.len() ==> (#[trigger] rest[i]).len() > 0 && is_trimmed(rest[i])) by {
            assert(forall|i: int| 0 <= i < rest.len() ==> rest[i] == #[trigger] ws[i + 1]);
        }
        lemma_join_of_trimmed_is_trimmed(rest);
        let jr = join_words_spec(rest);
        assert(j == ws[0] + seq![' '] + jr);
        assert(j[0] == ws[0][0]);
        assert(jr.len() > 0) by {
            assert(rest[0].len() > 0);
            if rest.len() == 1 {
            } else {
                assert(jr == rest[0] + seq![' '] + join_words_spec(
                    rest.subrange(1, rest.len() as int),
                ));
            }
        }
        assert(j[j.len() - 1] == jr[jr.len() - 1]);
    }
    lemma_trimmed_fixed(j);
}

/// Every surviving chunk text is non-empty and trimmed: the filter's last
/// step is a trim, and empties are dropped.
proof fn lemma_survivors_trimmed(texts: Seq<Seq<char>>, i: int)
    requires
        0 <= i <= texts.len(),
    ensures
        forall|j: int|
            0 <= j < surviving_texts(texts, i).len() ==> (#[trigger] surviving_texts(
                texts,
                i,
            )[j]).len() > 0 && is_trimmed(surviving_texts(texts, i)[j]),
    decreases texts.len() - i,
{
    if i < texts.len() {
        lemma_survivors_trimmed(texts, i + 1);
        let t = crate::halluc::filter_hallucinations_spec(texts[i]);
        lemma_trim_is_trimmed(
            crate::halluc::strip_chain_spec(
                crate::halluc::strip_short_word_spec(
                    crate::halluc::strip_leading_punct_spec(trim_spec(texts[i])),
                ),
            ),
        );
        if t.len() != 0 {
            let sv = surviving_texts(texts, i);
            let rest = surviving_texts(texts, i + 1);
            assert forall|j: int| 0 <= j < sv.len() implies (#[trigger] sv[j]).len() > 0
                && is_trimmed(sv[j]) by {
                if j == 0 {
                    assert(sv[0] == t);
                } else {
                    assert(sv[j] == rest[j - 1]);
                }
            }
        }
    }
}

/// The assembled text of a chunked run is already trimmed: it is the
/// space-joined concatenation of the surviving, themselves trimmed,
/// per-chunk outputs.
pub proof fn lemma_assembled_text_is_trimmed(texts: Seq<Seq<char>>)
    ensures
        ({
            let joined = join_words_spec(surviving_texts(texts, 0));
            trim_spec(joined) == joined
        }),
{
    lemma_survivors_trimmed(texts, 0);
    lemma_join_of_trimmed_is_trimmed(surviving_texts(texts, 0));
}

/// Finishes a transcription: a successful inference yields the full record
/// around its text; a missing engine or failed inference yields the mock
/// record, never an error.
pub fn finish_transcription(
    inference: Option<String>,
    source_type: &str,
    source_name: Option<String>,
    duration_ms: i64,
) -> (r: Transcription)
    ensures
        inference matches Some(text) ==> r.raw_text@ == text@ && r.segments@.len() == 1
            && r.segments@[0].confidence_permille == 950 && r.segments@[0].end_ms == duration_ms,
        inference is None ==> r.raw_text@ == "[Moteur non charge - transcription simulee]"@
            && r.segments@.len() == 1 && r.segments@[0].confidence_permille == 0,
        r.duration_ms == duration_ms,
        r.source_type@ == source_type@,
        r.source_name == source_name,
        r.language@ == "fr"@,
        !r.is_edited,
        r.edited_text is None,
{
    match inference {
        Some(text) => build_transcription(text.as_str(), source_type, source_name, duration_ms),
        None => mock_transcription(source_type, source_name, duration_ms),
    }
}

} // verus!
