//! Conversion of decoded token ids to text and timed segments.

use vstd::prelude::*;

use crate::records::Segment;
use crate::text::{string_from_chars, trim_chars, trim_spec};
use crate::vocab::Vocabulary;

verus! {

/// The fixed vocabulary size of the model: token ids plus the blank.
pub const MODEL_VOCAB_SIZE: usize = 8193;

/// The blank token id.
pub const BLANK_TOKEN: u32 = 8192;

/// Every SentencePiece boundary marker replaced by a space.
pub open spec fn replace_marker_spec(s: Seq<char>) -> Seq<char> {
    s.map_values(
        |c: char|
            if c == '\u{2581}' {
                ' '
            } else {
                c
            },
    )
}

/// The token text an id decodes to, `<unk>` outside the table.
pub open spec fn token_text_spec(v: Vocabulary, t: int) -> Seq<char> {
    if 0 <= t < v.tokens@.len() {
        v.tokens@[t]@
    } else {
        "<unk>"@
    }
}

/// What a single token id contributes: nothing for the blank id or ids past
/// the model vocabulary, otherwise its text with boundary markers rendered
/// as spaces.
pub open spec fn decode_single_spec(v: Vocabulary, t: int) -> Seq<char> {
    if t == BLANK_TOKEN as int || t < 0 || t >= v.tokens@.len() {
        Seq::empty()
    } else {
        replace_marker_spec(v.tokens@[t]@)
    }
}

/// The piece a token contributes in segment decoding: the raw token text,
/// with markers rendered as spaces when the text opens with one.
pub open spec fn decode_piece_spec(v: Vocabulary, t: int) -> Seq<char> {
    let text = token_text_spec(v, t);
    if text.len() > 0 && text[0] == '\u{2581}' {
        replace_marker_spec(text)
    } else {
        text
    }
}

/// The text accumulated over a token sequence in segment decoding: blank
/// tokens contribute nothing, every other token its piece.
pub open spec fn decode_text_spec(v: Vocabulary, toks: Seq<i64>, i: int) -> Seq<char>
    decreases toks.len() - i,
    when 0 <= i <= toks.len()
{
    if i >= toks.len() {
        Seq::empty()
    } else if toks[i] == v.blank_id as i64 {
        decode_text_spec(v, toks, i + 1)
    } else {
        decode_piece_spec(v, toks[i] as int) + decode_text_spec(v, toks, i + 1)
    }
}

/// The total frame count over a token sequence, each token advancing by its
/// duration, or one frame where no duration is given.
pub open spec fn total_frames_spec(count: int, durs: Seq<i64>, i: int) -> int
    decreases count - i,
    when 0 <= i <= count
{
    if i >= count {
        0
    } else {
        (if i < durs.len() {
            durs[i] as int
        } else {
            1
        }) + total_frames_spec(count, durs, i + 1)
    }
}

/// The concatenation of single-token decodings over a `u32` token sequence,
/// skipping ids at or past the model vocabulary size.
pub open spec fn concat_decoded_spec(v: Vocabulary, toks: Seq<u32>, i: int) -> Seq<char>
    decreases toks.len() - i,
    when 0 <= i <= toks.len()
{
    if i >= toks.len() {
        Seq::empty()
    } else if toks[i] >= MODEL_VOCAB_SIZE as u32 {
        concat_decoded_spec(v, toks, i + 1)
    } else {
        decode_single_spec(v, toks[i] as int) + concat_decoded_spec(v, toks, i + 1)
    }
}

/// Replaces every boundary marker in a token's characters by a space.
fn replace_markers(token: &str) -> (r: Vec<char>)
    ensures
        r@ == replace_marker_spec(token@),
{
    let v = crate::text::chars_of(token);
    let n: usize = v.len();
    let mut r: Vec<char> = Vec::new();
    let mut i: usize = 0;
    while i < n
        invariant
            i <= n,
            n == v@.len(),
            v@ == token@,
            r@ == replace_marker_spec(token@.subrange(0, i as int)),
        decreases n - i,
    {
        let c = v[i];
        if c == '\u{2581}' {
            r.push(' ');
        } else {
            r.push(c);
        }
        proof {
            assert(r@ =~= replace_marker_spec(token@.subrange(0, i + 1))) by {
                assert(token@.subrange(0, i + 1) =~= token@.subrange(0, i as int).push(
                    token@[i as int],
                ));
                assert(replace_marker_spec(token@.subrange(0, i as int).push(token@[i as int]))
                    =~= replace_marker_spec(token@.subrange(0, i as int)).push(
                    if token@[i as int] == '\u{2581}' {
                        ' '
                    } else {
                        token@[i as int]
                    },
                ));
            }
        }
        i = i + 1;
    }
    proof {
        assert(token@.subrange(0, n as int) =~= token@);
    }
    r
}

/// Decodes token ids into text and timed segments.
#[derive(Debug)]
pub struct TDTDecoder {
    pub vocab: Vocabulary,
}

impl TDTDecoder {
    /// Wraps a vocabulary.
    pub fn new(vocab: Vocabulary) -> (r: TDTDecoder)
        ensures
            r.vocab == vocab,
    {
        TDTDecoder { vocab }
    }

    /// The wrapped vocabulary.
    pub fn vocab(&self) -> (r: &Vocabulary)
        ensures
            *r == self.vocab,
    {
        &self.vocab
    }

    /// Decodes one token id: empty for the blank id and ids outside the
    /// table, otherwise the token text with boundary markers as spaces.
    pub fn decode_single(&self, token_id: usize) -> (r: String)
        ensures
            r@ == decode_single_spec(self.vocab, token_id as int),
    {
        if token_id == BLANK_TOKEN as usize || token_id >= self.vocab.vocab_size() {
            return String::new();
        }
        let token = self.vocab.decode_token(token_id);
        let chars = replace_markers(token);
        string_from_chars(&chars)
    }

    /// Concatenates the decodings of a token sequence and trims the result.
    pub fn tokens_to_text(&self, tokens: &Vec<u32>) -> (r: String)
        ensures
            r@ == trim_spec(concat_decoded_spec(self.vocab, tokens@, 0)),
    {
        let n: usize = tokens.len();
        let mut text: Vec<char> = Vec::new();
        let ghost all = concat_decoded_spec(self.vocab, tokens@, 0);
        proof {
            assert(text@ + concat_decoded_spec(self.vocab, tokens@, 0) =~= all);
        }
        let mut i: usize = 0;
        while i < n
            invariant
                i <= n,
                n == tokens@.len(),
                all == concat_decoded_spec(self.vocab, tokens@, 0),
                text@ + concat_decoded_spec(self.vocab, tokens@, i as int) == all,
            decreases n - i,
        {
            let t: u32 = tokens[i];
            if t < MODEL_VOCAB_SIZE as u32 {
                let piece = self.decode_single(t as usize);
                let piece_chars = crate::text::chars_of(piece.as_str());
                let ghost old_text = text@;
                let m: usize = piece_chars.len();
                let mut k: usize = 0;
                while k < m
                    invariant
                        k <= m,
                        m == piece_chars@.len(),
                        text@ == old_text + piece_chars@.subrange(0, k as int),
                    decreases m - k,
                {
                    text.push(piece_chars[k]);
                    assert(text@ =~= old_text + piece_chars@.subrange(0, k + 1));
                    k = k + 1;
                }
                proof {
                    assert(piece_chars@.subrange(0, m as int) =~= piece_chars@);
                    assert(text@ =~= old_text + decode_single_spec(self.vocab, t as int));
                    assert((old_text + decode_single_spec(self.vocab, t as int))
                        + concat_decoded_spec(self.vocab, tokens@, i + 1) =~= old_text + (
                    decode_single_spec(self.vocab, t as int) + concat_decoded_spec(
                        self.vocab,
                        tokens@,
                        i + 1,
                    )));
                }
            }
            i = i + 1;
        }
        proof {
            assert(concat_decoded_spec(self.vocab, tokens@, n as int) =~= Seq::<char>::empty());
            assert(text@ + Seq::<char>::empty() =~= text@);
        }
        let trimmed = trim_chars(&text);
        string_from_chars(&trimmed)
    }

    /// Decodes a token sequence without durations: at most one segment
    /// spanning the given duration, with confidence 0.9.
    pub fn greedy_decode(&self, token_ids: &Vec<i64>, duration_ms: i64) -> (r: Vec<Segment>)
        ensures
            ({
                let text = trim_spec(decode_text_spec(self.vocab, token_ids@, 0));
                &&& text.len() == 0 ==> r@.len() == 0
                &&& text.len() > 0 ==> r@.len() == 1 && r@[0].start_ms == 0 && r@[0].end_ms
                    == duration_ms && r@[0].text@ == text && r@[0].confidence_permille == 900
            }),
    {
        let text_chars = self.accumulate_text(token_ids);
        let trimmed = trim_chars(&text_chars);
        let mut segments: Vec<Segment> = Vec::new();
        if trimmed.len() == 0 {
            return segments;
        }
        let text = string_from_chars(&trimmed);
        segments.push(
            Segment {
                id: crate::records::fresh_id(),
                start_ms: 0,
                end_ms: duration_ms,
                text,
                confidence_permille: 900,
            },
        );
        segments
    }

    /// Decodes token ids with durations into at most one timed segment. The
    /// end time is the frame total scaled by hop length and subsampling at
    /// the given rate.
    pub fn decode(
        &self,
        token_ids: &Vec<i64>,
        durations: &Vec<i64>,
        sample_rate: u32,
        hop_length: usize,
        subsampling_factor: usize,
    ) -> (r: Vec<Segment>)
        requires
            sample_rate >= 1,
            hop_length <= 100_000,
            subsampling_factor <= 100,
            token_ids@.len() <= 0x80_000,
            forall|i: int| 0 <= i < durations@.len() ==> 0 <= #[trigger] durations@[i] <= 1000,
        ensures
            ({
                let raw = decode_text_spec(self.vocab, token_ids@, 0);
                let frames = total_frames_spec(token_ids@.len() as int, durations@, 0);
                &&& raw.len() == 0 ==> r@.len() == 0
                &&& raw.len() > 0 ==> r@.len() == 1 && r@[0].start_ms == 0 && r@[0].text@
                    == trim_spec(raw) && r@[0].end_ms == frames * (hop_length as int) * (
                subsampling_factor as int) * 1000 / (sample_rate as int)
                    && r@[0].confidence_permille == 900
            }),
    {
        let text_chars = self.accumulate_text(token_ids);
        let n: usize = token_ids.len();

        // Total frames advanced, each missing duration counting as one.
        let mut frames: u64 = 0;
        let mut i: usize = 0;
        proof {
            lemma_total_frames_bound(n as int, durations@, 0);
        }
        while i < n
            invariant
                i <= n,
                n == token_ids@.len() <= 0x80_000,
                forall|j: int| 0 <= j < durations@.len() ==> 0 <= #[trigger] durations@[j] <= 1000,
                frames as int + total_frames_spec(n as int, durations@, i as int)
                    == total_frames_spec(n as int, durations@, 0),
                frames as int <= 1000 * i,
            decreases n - i,
        {
            let d: i64 = if i < durations.len() {
                durations[i]
            } else {
                1
            };
            proof {
                lemma_total_frames_bound(n as int, durations@, i + 1);
            }
            frames = frames + (d as u64);
            i = i + 1;
        }
        let ghost total = total_frames_spec(n as int, durations@, 0);
        assert(frames as int == total);

        let mut segments: Vec<Segment> = Vec::new();
        if text_chars.len() == 0 {
            return segments;
        }
        let trimmed = trim_chars(&text_chars);
        let text = string_from_chars(&trimmed);

        // end_ms = frames * hop * subsampling * 1000 / rate, computed wide.
        proof {
            assert(frames as int <= 0x80_000 * 1000);
            assert((frames as int) * (hop_length as int) <= 0x80_000 * 1000 * 100_000)
                by (nonlinear_arith)
                requires
                    0 <= frames as int <= 0x80_000 * 1000,
                    0 <= hop_length as int <= 100_000,
            ;
        }
        let a: u128 = (frames as u128) * (hop_length as u128);
        proof {
            assert((a as int) * (subsampling_factor as int) <= 0x80_000 * 1000 * 100_000 * 100)
                by (nonlinear_arith)
                requires
                    0 <= a as int <= 0x80_000 * 1000 * 100_000,
                    0 <= subsampling_factor as int <= 100,
            ;
        }
        let b: u128 = a * (subsampling_factor as u128);
        let wide: u128 = b * 1000;
        let end128: u128 = wide / (sample_rate as u128);
        proof {
            assert(wide as int == (frames as int) * (hop_length as int) * (
            subsampling_factor as int) * 1000);
            assert(end128 as int <= wide as int) by (nonlinear_arith)
                requires
                    end128 as int == wide as int / (sample_rate as int),
                    sample_rate as int >= 1,
                    wide as int >= 0,
            ;
        }
        let end_ms: i64 = end128 as i64;
        segments.push(
            Segment {
                id: crate::records::fresh_id(),
                start_ms: 0,
                end_ms,
                text,
                confidence_permille: 900,
            },
        );
        segments
    }

    /// The accumulated decoded characters of a token sequence.
    fn accumulate_text(&self, token_ids: &Vec<i64>) -> (r: Vec<char>)
        ensures
            r@ == decode_text_spec(self.vocab, token_ids@, 0),
    {
        let n: usize = token_ids.len();
        let mut text: Vec<char> = Vec::new();
        let ghost all = decode_text_spec(self.vocab, token_ids@, 0);
        proof {
            assert(text@ + decode_text_spec(self.vocab, token_ids@, 0) =~= all);
        }
        let mut i: usize = 0;
        while i < n
            invariant
                i <= n,
                n == token_ids@.len(),
                all == decode_text_spec(self.vocab, token_ids@, 0),
                text@ + decode_text_spec(self.vocab, token_ids@, i as int) == all,
            decreases n - i,
        {
            let t: i64 = token_ids[i];
            let is_blank: bool = t == self.vocab.blank_id as i64;
            if !is_blank {
                let token: &str = if 0 <= t && (t as u64) < (self.vocab.vocab_size() as u64) {
                    self.vocab.decode_token(t as usize)
                } else {
                    "<unk>"
                };
                assert(token@ == token_text_spec(self.vocab, t as int));
                let token_chars = crate::text::chars_of(token);
                let piece: Vec<char> = if token_chars.len() > 0 && token_chars[0] == '\u{2581}' {
                    replace_markers(token)
                } else {
                    token_chars
                };
                assert(piece@ == decode_piece_spec(self.vocab, t as int));
                let ghost old_text = text@;
                let m: usize = piece.len();
                let mut k: usize = 0;
                while k < m
                    invariant
                        k <= m,
                        m == piece@.len(),
                        text@ == old_text + piece@.subrange(0, k as int),
                    decreases m - k,
                {
                    text.push(piece[k]);
                    assert(text@ =~= old_text + piece@.subrange(0, k + 1));
                    k = k + 1;
                }
                proof {
                    assert(piece@.subrange(0, m as int) =~= piece@);
                    assert((old_text + decode_piece_spec(self.vocab, t as int))
                        + decode_text_spec(self.vocab, token_ids@, i + 1) =~= old_text + (
                    decode_piece_spec(self.vocab, t as int) + decode_text_spec(
                        self.vocab,
                        token_ids@,
                        i + 1,
                    )));
                }
            }
            i = i + 1;
        }
        proof {
            assert(decode_text_spec(self.vocab, token_ids@, n as int) =~= Seq::<char>::empty());
            assert(text@ + Seq::<char>::empty() =~= text@);
        }
        text
    }
}

/// The frame total is bounded by the duration cap per token.
proof fn lemma_total_frames_bound(count: int, durs: Seq<i64>, i: int)
    requires
        0 <= i <= count,
        forall|j: int| 0 <= j < durs.len() ==> 0 <= #[trigger] durs[j] <= 1000,
    ensures
        0 <= total_frames_spec(count, durs, i) <= 1000 * (count - i),
    decreases count - i,
{
    if i < count {
        lemma_total_frames_bound(count, durs, i + 1);
    }
}

} // verus!
