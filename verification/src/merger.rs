//! Merging of per-chunk transcriptions from overlapping audio chunks.
//!
//! Overlap regions are deduplicated by trimming a word-count estimate of the
//! overlap from the facing edges of adjacent chunks, then joining with spaces
//! and normalizing spacing around punctuation.

use vstd::prelude::*;

use crate::text::{
    chars_of, div_ceil_spec, is_space, is_space_char, join_words, join_words_spec, split_words,
    string_from_chars, trim_chars, trim_spec, words_spec, lemma_deep_view_chars,
};

verus! {

/// A transcribed chunk with its position in the original audio.
#[derive(Debug, Clone)]
pub struct ChunkTranscription {
    /// The transcribed text.
    pub text: String,
    /// Start time in the original audio, in milliseconds.
    pub start_ms: i64,
    /// End time in the original audio, in milliseconds.
    pub end_ms: i64,
    /// Chunk index.
    pub index: usize,
}

/// How many words an overlap of `overlap_ms` covers in a chunk of
/// `chunk_ms` holding `word_count` words: half the proportional share,
/// rounded up.
pub open spec fn words_to_trim_spec(word_count: int, overlap_ms: int, chunk_ms: int) -> int {
    div_ceil_spec(word_count * overlap_ms, 2 * chunk_ms)
}

/// The text with the estimated overlap share of words removed at the end.
pub open spec fn trim_overlap_end_spec(t: Seq<char>, overlap_ms: int, chunk_ms: int) -> Seq<
    char,
> {
    if overlap_ms <= 0 || chunk_ms <= 0 {
        t
    } else {
        let ws = words_spec(t);
        if ws.len() == 0 {
            Seq::empty()
        } else {
            let cut = words_to_trim_spec(ws.len() as int, overlap_ms, chunk_ms);
            let keep = if cut >= ws.len() {
                0int
            } else {
                ws.len() - cut
            };
            if keep == 0 {
                Seq::empty()
            } else {
                join_words_spec(ws.subrange(0, keep))
            }
        }
    }
}

/// The text with the estimated overlap share of words removed at the start.
pub open spec fn trim_overlap_start_spec(t: Seq<char>, overlap_ms: int, chunk_ms: int) -> Seq<
    char,
> {
    if overlap_ms <= 0 || chunk_ms <= 0 {
        t
    } else {
        let ws = words_spec(t);
        if ws.len() == 0 {
            Seq::empty()
        } else {
            let cut = words_to_trim_spec(ws.len() as int, overlap_ms, chunk_ms);
            if cut >= ws.len() {
                Seq::empty()
            } else {
                join_words_spec(ws.subrange(cut, ws.len() as int))
            }
        }
    }
}

/// Upper bound on text lengths and overlap values accepted by the merger,
/// chosen so that the word-share product fits comfortably in 128 bits.
pub open spec fn merge_len_ok(n: int) -> bool {
    0 <= n < 0x4000_0000
}

/// Computes the number of words to drop for an overlap, as a `usize` capped
/// at `word_count`.
fn words_to_trim(word_count: usize, overlap_ms: i64, chunk_ms: i64) -> (r: usize)
    requires
        merge_len_ok(word_count as int),
        overlap_ms > 0,
        chunk_ms > 0,
    ensures
        r == if words_to_trim_spec(word_count as int, overlap_ms as int, chunk_ms as int)
            >= word_count {
            word_count as int
        } else {
            words_to_trim_spec(word_count as int, overlap_ms as int, chunk_ms as int)
        },
{
    if word_count == 0 {
        return 0;
    }
    let o: u128 = overlap_ms as u128;
    let d: u128 = chunk_ms as u128;
    if o >= 2 * d {
        proof {
            let w = word_count as int;
            let oo = overlap_ms as int;
            let dd = chunk_ms as int;
            assert(w * oo >= w * (2 * dd)) by (nonlinear_arith)
                requires
                    oo >= 2 * dd,
                    w > 0,
            ;
            assert(w * (2 * dd) == w * (2 * dd) + 2 * dd - 2 * dd);
            assert((w * oo + 2 * dd - 1) / (2 * dd) >= w) by (nonlinear_arith)
                requires
                    w * oo >= w * (2 * dd),
                    dd > 0,
                    w > 0,
            ;
        }
        return word_count;
    }
    proof {
        assert((word_count as u128) * o <= 0x4000_0000u128 * 0x8000_0000_0000_0000u128)
            by (nonlinear_arith)
            requires
                word_count < 0x4000_0000,
                0 < o < 0x8000_0000_0000_0000u128,
        ;
    }
    let num: u128 = (word_count as u128) * o;
    let den: u128 = 2 * d;
    let cut128: u128 = (num + den - 1) / den;
    proof {
        let w = word_count as int;
        let oo = overlap_ms as int;
        let dd = chunk_ms as int;
        assert(w * oo <= w * (2 * dd)) by (nonlinear_arith)
            requires
                oo <= 2 * dd,
                w > 0,
        ;
        assert((w * oo + 2 * dd - 1) / (2 * dd) <= w) by (nonlinear_arith)
            requires
                w * oo <= w * (2 * dd),
                dd > 0,
                w > 0,
        ;
        assert((w * oo + 2 * dd - 1) / (2 * dd) >= 0) by (nonlinear_arith)
            requires
                w > 0,
                oo > 0,
                dd > 0,
        ;
    }
    let cut: usize = cut128 as usize;
    if cut >= word_count {
        word_count
    } else {
        cut
    }
}

/// Joins `ws[from..to]` with single spaces and returns it as a `String`.
fn join_word_range(ws: &Vec<Vec<char>>, from: usize, to: usize) -> (r: String)
    requires
        from <= to <= ws@.len(),
    ensures
        r@ == join_words_spec(ws.deep_view().subrange(from as int, to as int)),
{
    let mut slice: Vec<Vec<char>> = Vec::new();
    let mut i: usize = from;
    proof {
        lemma_deep_view_chars(ws);
    }
    while i < to
        invariant
            from <= i <= to <= ws@.len(),
            slice.deep_view() == ws.deep_view().subrange(from as int, i as int),
            ws.deep_view().len() == ws@.len(),
            forall|j: int| 0 <= j < ws@.len() ==> ws.deep_view()[j] == #[trigger] ws@[j]@,
        decreases to - i,
    {
        let ghost old_dv = slice.deep_view();
        let w: Vec<char> = ws[i].clone();
        assert(w@ == ws@[i as int]@);
        proof {
            lemma_deep_view_chars(&slice);
        }
        slice.push(w);
        proof {
            lemma_deep_view_chars(&slice);
            assert(slice.deep_view() =~= ws.deep_view().subrange(from as int, i + 1)) by {
                assert(forall|j: int| 0 <= j < old_dv.len() ==> slice.deep_view()[j] == old_dv[j]);
                assert(slice.deep_view()[old_dv.len() as int] == ws.deep_view()[i as int]);
            }
        }
        i = i + 1;
    }
    let joined = join_words(&slice);
    string_from_chars(&joined)
}

/// Trims the end of a chunk text by the words the overlap is estimated to
/// cover.
pub fn trim_overlap_end(text: &str, overlap_ms: i64, chunk_duration_ms: i64) -> (r: String)
    requires
        merge_len_ok(text@.len() as int),
    ensures
        r@ == trim_overlap_end_spec(text@, overlap_ms as int, chunk_duration_ms as int),
{
    if overlap_ms <= 0 || chunk_duration_ms <= 0 {
        let v = chars_of(text);
        return string_from_chars(&v);
    }
    let v = chars_of(text);
    let ws = split_words(&v);
    proof {
        lemma_deep_view_chars(&ws);
    }
    if ws.len() == 0 {
        return String::new();
    }
    assert(ws@.len() <= v@.len()) by {
        lemma_words_count_le_len(v@);
    }
    let cut = words_to_trim(ws.len(), overlap_ms, chunk_duration_ms);
    let keep: usize = ws.len() - cut;
    if keep == 0 {
        return String::new();
    }
    join_word_range(&ws, 0, keep)
}

/// Trims the start of a chunk text by the words the overlap is estimated to
/// cover.
pub fn trim_overlap_start(text: &str, overlap_ms: i64, chunk_duration_ms: i64) -> (r: String)
    requires
        merge_len_ok(text@.len() as int),
    ensures
        r@ == trim_overlap_start_spec(text@, overlap_ms as int, chunk_duration_ms as int),
{
    if overlap_ms <= 0 || chunk_duration_ms <= 0 {
        let v = chars_of(text);
        return string_from_chars(&v);
    }
    let v = chars_of(text);
    let ws = split_words(&v);
    proof {
        lemma_deep_view_chars(&ws);
    }
    if ws.len() == 0 {
        return String::new();
    }
    assert(ws@.len() <= v@.len()) by {
        lemma_words_count_le_len(v@);
    }
    let cut = words_to_trim(ws.len(), overlap_ms, chunk_duration_ms);
    if cut >= ws.len() {
        return String::new();
    }
    join_word_range(&ws, cut, ws.len())
}

/// There are at most as many words as characters.
proof fn lemma_words_count_le_len_from(s: Seq<char>, i: int)
    requires
        0 <= i <= s.len(),
    ensures
        crate::text::words_from_spec(s, i).len() <= s.len() - i,
    decreases s.len() - i,
{
    crate::text::lemma_skip_spaces_bounds(s, i);
    let j = crate::text::skip_spaces_spec(s, i);
    if j < s.len() {
        crate::text::lemma_word_end_bounds(s, j);
        let e = crate::text::word_end_spec(s, j);
        lemma_words_count_le_len_from(s, e);
    }
}

proof fn lemma_words_count_le_len(s: Seq<char>)
    ensures
        words_spec(s).len() <= s.len(),
{
    lemma_words_count_le_len_from(s, 0);
}

/// Punctuation that absorbs a preceding space during cleanup.
pub open spec fn is_gap_punct(c: char) -> bool {
    c == '.' || c == ',' || c == '!' || c == '?' || c == ':' || c == ';'
}

/// Runtime test for [`is_gap_punct`].
fn gap_punct(c: char) -> (r: bool)
    ensures
        r == is_gap_punct(c),
{
    c == '.' || c == ',' || c == '!' || c == '?' || c == ':' || c == ';'
}

/// Collapses every run of spaces to a single space.
pub open spec fn collapse_spaces_spec(s: Seq<char>) -> Seq<char>
    decreases s.len(),
{
    if s.len() == 0 {
        s
    } else if s.len() >= 2 && s[0] == ' ' && s[1] == ' ' {
        collapse_spaces_spec(s.subrange(1, s.len() as int))
    } else {
        seq![s[0]] + collapse_spaces_spec(s.subrange(1, s.len() as int))
    }
}

/// Removes a space that stands directly before closing punctuation.
pub open spec fn strip_space_before_punct_spec(s: Seq<char>) -> Seq<char>
    decreases s.len(),
{
    if s.len() == 0 {
        s
    } else if s.len() >= 2 && s[0] == ' ' && is_gap_punct(s[1]) {
        strip_space_before_punct_spec(s.subrange(1, s.len() as int))
    } else {
        seq![s[0]] + strip_space_before_punct_spec(s.subrange(1, s.len() as int))
    }
}

/// Cleanup applied to merged text: collapse double spaces, drop spaces
/// before punctuation, trim.
pub open spec fn merge_cleanup_spec(s: Seq<char>) -> Seq<char> {
    trim_spec(strip_space_before_punct_spec(collapse_spaces_spec(s)))
}

/// Cleans up merged text: no double spaces, no space before `. , ! ? : ;`,
/// outer whitespace trimmed.
pub fn merge_cleanup(text: &str) -> (r: String)
    ensures
        r@ == merge_cleanup_spec(text@),
{
    let v = chars_of(text);
    let n: usize = v.len();
    let mut a: Vec<char> = Vec::new();
    let mut i: usize = 0;
    proof {
        assert(v@.subrange(0, n as int) =~= v@);
        assert(a@ + collapse_spaces_spec(v@) =~= collapse_spaces_spec(v@));
    }
    while i < n
        invariant
            i <= n,
            n == v@.len(),
            collapse_spaces_spec(v@) == a@ + collapse_spaces_spec(v@.subrange(i as int, n as int)),
        decreases n - i,
    {
        let ghost rest = v@.subrange(i as int, n as int);
        proof {
            assert(rest.len() > 0);
            assert(rest[0] == v@[i as int]);
            assert(rest.subrange(1, rest.len() as int) =~= v@.subrange(i + 1, n as int));
        }
        if i + 1 < n && v[i] == ' ' && v[i + 1] == ' ' {
            proof {
                assert(rest.len() >= 2 && rest[0] == ' ' && rest[1] == ' ');
            }
        } else {
            proof {
                if rest.len() >= 2 {
                    assert(rest[1] == v@[i + 1]);
                }
                assert(collapse_spaces_spec(rest) == seq![rest[0]] + collapse_spaces_spec(
                    rest.subrange(1, rest.len() as int),
                ));
            }
            let ghost a_old = a@;
            a.push(v[i]);
            proof {
                assert(a@ + collapse_spaces_spec(v@.subrange(i + 1, n as int)) =~= a_old + (
                seq![rest[0]] + collapse_spaces_spec(v@.subrange(i + 1, n as int))));
            }
        }
        i = i + 1;
    }
    proof {
        assert(collapse_spaces_spec(v@.subrange(n as int, n as int)) =~= Seq::<char>::empty());
        assert(a@ + Seq::<char>::empty() =~= a@);
    }
    let m: usize = a.len();
    let mut b: Vec<char> = Vec::new();
    let mut k: usize = 0;
    proof {
        assert(a@.subrange(0, m as int) =~= a@);
        assert(b@ + strip_space_before_punct_spec(a@) =~= strip_space_before_punct_spec(a@));
    }
    while k < m
        invariant
            k <= m,
            m == a@.len(),
            strip_space_before_punct_spec(a@) == b@ + strip_space_before_punct_spec(
                a@.subrange(k as int, m as int),
            ),
        decreases m - k,
    {
        let ghost rest = a@.subrange(k as int, m as int);
        proof {
            assert(rest.len() > 0);
            assert(rest[0] == a@[k as int]);
            assert(rest.subrange(1, rest.len() as int) =~= a@.subrange(k + 1, m as int));
        }
        if k + 1 < m && a[k] == ' ' && gap_punct(a[k + 1]) {
            proof {
                assert(rest.len() >= 2 && rest[0] == ' ' && is_gap_punct(rest[1]));
            }
        } else {
            proof {
                if rest.len() >= 2 {
                    assert(rest[1] == a@[k + 1]);
                }
                assert(strip_space_before_punct_spec(rest) == seq![rest[0]]
                    + strip_space_before_punct_spec(rest.subrange(1, rest.len() as int)));
            }
            let ghost b_old = b@;
            b.push(a[k]);
            proof {
                assert(b@ + strip_space_before_punct_spec(a@.subrange(k + 1, m as int)) =~= b_old
                    + (seq![rest[0]] + strip_space_before_punct_spec(
                    a@.subrange(k + 1, m as int),
                )));
            }
        }
        k = k + 1;
    }
    proof {
        assert(strip_space_before_punct_spec(a@.subrange(m as int, m as int)) =~= Seq::<
            char,
        >::empty());
        assert(b@ + Seq::<char>::empty() =~= b@);
    }
    let t = trim_chars(&b);
    string_from_chars(&t)
}

/// The edge-trimmed part contributed by chunk `i` of `n`.
pub open spec fn merge_part_spec(c: ChunkTranscription, i: int, n: int, overlap_ms: int) -> Seq<
    char,
> {
    let t = trim_spec(c.text@);
    let dur = c.end_ms - c.start_ms;
    if i == 0 {
        trim_overlap_end_spec(t, overlap_ms, dur as int)
    } else if i == n - 1 {
        trim_overlap_start_spec(t, overlap_ms, dur as int)
    } else {
        trim_overlap_end_spec(
            trim_overlap_start_spec(t, overlap_ms / 2, dur as int),
            overlap_ms / 2,
            dur as int,
        )
    }
}

/// The parts of the chunks from index `i` on, skipping chunks whose trimmed
/// text is empty.
pub open spec fn merge_parts_spec(
    chunks: Seq<ChunkTranscription>,
    overlap_ms: int,
    i: int,
) -> Seq<Seq<char>>
    decreases chunks.len() - i,
    when 0 <= i <= chunks.len()
{
    if i >= chunks.len() {
        Seq::empty()
    } else if trim_spec(chunks[i].text@).len() == 0 {
        merge_parts_spec(chunks, overlap_ms, i + 1)
    } else {
        seq![merge_part_spec(chunks[i], i, chunks.len() as int, overlap_ms)] + merge_parts_spec(
            chunks,
            overlap_ms,
            i + 1,
        )
    }
}

/// The merged transcription of a chunk sequence.
pub open spec fn merge_transcriptions_spec(
    chunks: Seq<ChunkTranscription>,
    overlap_ms: int,
) -> Seq<char> {
    if chunks.len() == 0 {
        Seq::empty()
    } else if chunks.len() == 1 {
        chunks[0].text@
    } else {
        merge_cleanup_spec(join_words_spec(merge_parts_spec(chunks, overlap_ms, 0)))
    }
}

/// Whether a chunk's fields are small enough for the merger's arithmetic.
pub open spec fn chunk_ok(c: ChunkTranscription) -> bool {
    merge_len_ok(c.text@.len() as int) && -0x2000_0000_0000_0000 < c.start_ms
        < 0x2000_0000_0000_0000 && -0x2000_0000_0000_0000 < c.end_ms < 0x2000_0000_0000_0000
}

/// Merges chunk transcriptions in order: trims overlap words from facing
/// edges, skips chunks whose trimmed text is empty, joins with spaces, and
/// cleans up spacing.
pub fn merge_transcriptions(chunks: &Vec<ChunkTranscription>, overlap_ms: i64) -> (r: String)
    requires
        forall|i: int| 0 <= i < chunks@.len() ==> chunk_ok(#[trigger] chunks@[i]),
    ensures
        r@ == merge_transcriptions_spec(chunks@, overlap_ms as int),
{
    let n: usize = chunks.len();
    if n == 0 {
        return String::new();
    }
    if n == 1 {
        return chunks[0].text.clone();
    }
    let mut parts: Vec<Vec<char>> = Vec::new();
    let mut i: usize = 0;
    while i < n
        invariant
            i <= n,
            n == chunks@.len(),
            n >= 2,
            forall|j: int| 0 <= j < chunks@.len() ==> chunk_ok(#[trigger] chunks@[j]),
            parts.deep_view() + merge_parts_spec(chunks@, overlap_ms as int, i as int)
                == merge_parts_spec(chunks@, overlap_ms as int, 0),
        decreases n - i,
    {
        let c = &chunks[i];
        let tv = chars_of(c.text.as_str());
        let trimmed_chars = trim_chars(&tv);
        if trimmed_chars.len() == 0 {
            assert(trim_spec(chunks@[i as int].text@).len() == 0);
            i = i + 1;
            continue;
        }
        assert(trim_spec(chunks@[i as int].text@).len() != 0);
        let trimmed = string_from_chars(&trimmed_chars);
        let dur: i64 = c.end_ms - c.start_ms;
        assert(trimmed@.len() <= c.text@.len()) by {
            lemma_trim_len_le(c.text@);
        }
        let part: String = if i == 0 {
            trim_overlap_end(trimmed.as_str(), overlap_ms, dur)
        } else if i == n - 1 {
            trim_overlap_start(trimmed.as_str(), overlap_ms, dur)
        } else {
            let half: i64 = overlap_ms / 2;
            let first = trim_overlap_start(trimmed.as_str(), half, dur);
            assert(first@.len() <= trimmed@.len()) by {
                lemma_trim_overlap_start_len_le(trimmed@, half as int, dur as int);
            }
            trim_overlap_end(first.as_str(), half, dur)
        };
        assert(part@ == merge_part_spec(chunks@[i as int], i as int, n as int, overlap_ms as int));
        let ghost old_dv = parts.deep_view();
        proof {
            lemma_deep_view_chars(&parts);
        }
        let part_chars = chars_of(part.as_str());
        parts.push(part_chars);
        proof {
            lemma_deep_view_chars(&parts);
            assert(parts.deep_view() =~= old_dv + seq![part@]) by {
                assert(forall|j: int| 0 <= j < old_dv.len() ==> parts.deep_view()[j] == old_dv[j]);
            }
            let ghost rest = merge_parts_spec(chunks@, overlap_ms as int, i + 1);
            assert((old_dv + seq![part@]) + rest =~= old_dv + (seq![part@] + rest));
        }
        i = i + 1;
    }
    proof {
        assert(merge_parts_spec(chunks@, overlap_ms as int, n as int) =~= Seq::<Seq<char>>::empty());
        assert(parts.deep_view() + Seq::<Seq<char>>::empty() =~= parts.deep_view());
    }
    let joined = join_words(&parts);
    let joined_str = string_from_chars(&joined);
    merge_cleanup(joined_str.as_str())
}

/// Trimming never lengthens a sequence.
proof fn lemma_trim_start_len_le(s: Seq<char>)
    ensures
        crate::text::trim_start_spec(s).len() <= s.len(),
    decreases s.len(),
{
    if s.len() > 0 && is_space_char(s[0]) {
        lemma_trim_start_len_le(s.subrange(1, s.len() as int));
    }
}

proof fn lemma_trim_end_len_le(s: Seq<char>)
    ensures
        crate::text::trim_end_spec(s).len() <= s.len(),
    decreases s.len(),
{
    if s.len() > 0 && is_space_char(s[s.len() - 1]) {
        lemma_trim_end_len_le(s.subrange(0, s.len() - 1));
    }
}

proof fn lemma_trim_len_le(s: Seq<char>)
    ensures
        trim_spec(s).len() <= s.len(),
{
    lemma_trim_start_len_le(s);
    lemma_trim_end_len_le(crate::text::trim_start_spec(s));
}

/// Joining the words of a text never exceeds the text's own length past the
/// leading whitespace.
proof fn lemma_join_words_len_le(ws: Seq<Seq<char>>, s: Seq<char>, i: int)
    requires
        0 <= i <= s.len(),
        ws == crate::text::words_from_spec(s, i),
    ensures
        join_words_spec(ws).len() <= s.len() - crate::text::skip_spaces_spec(s, i),
        join_words_spec(ws).len() <= s.len() - i,
    decreases s.len() - i,
{
    crate::text::lemma_skip_spaces_bounds(s, i);
    let j = crate::text::skip_spaces_spec(s, i);
    if j < s.len() {
        crate::text::lemma_word_end_bounds(s, j);
        let e = crate::text::word_end_spec(s, j);
        let rest = crate::text::words_from_spec(s, e);
        lemma_join_words_len_le(rest, s, e);
        crate::text::lemma_skip_spaces_bounds(s, e);
        if rest.len() == 0 {
            assert(ws =~= seq![s.subrange(j, e)]);
            assert(join_words_spec(ws) == ws[0]);
        } else {
            assert(ws.subrange(1, ws.len() as int) =~= rest);
            assert(join_words_spec(ws) == ws[0] + seq![' '] + join_words_spec(rest));
            // The word ended at a space, so the next scan starts past it.
            assert(e < s.len()) by {
                if e == s.len() {
                    assert(crate::text::skip_spaces_spec(s, e) == e);
                    assert(rest.len() == 0);
                }
            }
            assert(is_space_char(s[e]));
            assert(crate::text::skip_spaces_spec(s, e) == crate::text::skip_spaces_spec(s, e + 1));
        }
    }
}

/// A suffix of the word list joins to at most the join of the whole list.
proof fn lemma_join_words_suffix_len(ws: Seq<Seq<char>>, cut: int)
    requires
        0 <= cut <= ws.len(),
    ensures
        join_words_spec(ws.subrange(cut, ws.len() as int)).len() <= join_words_spec(ws).len(),
    decreases cut,
{
    if cut == 0 {
        assert(ws.subrange(0, ws.len() as int) =~= ws);
    } else if ws.len() > 1 {
        let rest = ws.subrange(1, ws.len() as int);
        assert(ws.subrange(cut, ws.len() as int) =~= rest.subrange(cut - 1, rest.len() as int));
        lemma_join_words_suffix_len(rest, cut - 1);
        assert(join_words_spec(ws) == ws[0] + seq![' '] + join_words_spec(rest));
    } else {
        assert(ws.subrange(cut, ws.len() as int) =~= Seq::<Seq<char>>::empty());
    }
}

/// The start-trimmed text is at most as long as the input.
proof fn lemma_trim_overlap_start_len_le(t: Seq<char>, overlap_ms: int, chunk_ms: int)
    ensures
        trim_overlap_start_spec(t, overlap_ms, chunk_ms).len() <= t.len(),
{
    if overlap_ms <= 0 || chunk_ms <= 0 {
    } else {
        let ws = words_spec(t);
        if ws.len() > 0 {
            let cut = words_to_trim_spec(ws.len() as int, overlap_ms, chunk_ms);
            if 0 <= cut < ws.len() {
                lemma_join_words_suffix_len(ws, cut);
                lemma_join_words_len_le(ws, t, 0);
            }
        }
    }
}

} // verus!
