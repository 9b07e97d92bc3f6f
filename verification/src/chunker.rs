//! Splitting long audio into chunks the decoder can take.
//!
//! The smart strategy cuts at silence between a minimum and a maximum chunk
//! length; a cut at minimum energy that is not silence gets an overlap
//! appended, to hedge against splitting a word. The legacy strategy cuts at
//! fixed intervals with a fixed overlap.

use vstd::prelude::*;

use crate::vad::{find_best_cut_point, find_best_cut_spec, samples_ok, scan_from_spec, VadConfig};

verus! {

/// The hard upper bound on a chunk: 14 s at 16 kHz.
pub const MAX_CHUNK_SAMPLES: usize = 224_000;

/// The largest sample count the chunkers accept.
pub const MAX_TOTAL_SAMPLES: usize = 0x4000_0000;

/// A chunk of audio with its place in the original run.
#[derive(Debug, Clone)]
pub struct AudioChunk {
    /// The chunk's samples.
    pub samples: Vec<i32>,
    /// First sample position in the original audio.
    pub start_sample: usize,
    /// One past the last sample position in the original audio.
    pub end_sample: usize,
    /// Start time in milliseconds.
    pub start_ms: i64,
    /// End time in milliseconds.
    pub end_ms: i64,
    /// Chunk index, 0-based.
    pub index: usize,
    /// Total number of chunks.
    pub total_chunks: usize,
}

/// Configuration of smart, silence-seeking chunking.
#[derive(Debug, Clone)]
pub struct SmartChunkConfig {
    /// Minimum chunk length in samples.
    pub min_chunk_samples: usize,
    /// Preferred chunk length in samples.
    pub target_chunk_samples: usize,
    /// Hard chunk length limit in samples.
    pub max_chunk_samples: usize,
    /// Overlap appended to a non-silence cut, in samples.
    pub overlap_samples: usize,
    /// The silence detector's configuration.
    pub vad_config: VadConfig,
}

impl SmartChunkConfig {
    /// The bounds every smart configuration satisfies.
    pub open spec fn wf(self) -> bool {
        &&& 1 <= self.min_chunk_samples <= self.max_chunk_samples <= MAX_CHUNK_SAMPLES
        &&& self.overlap_samples <= MAX_CHUNK_SAMPLES
        &&& self.vad_config.wf()
    }

    /// A configuration with custom chunk lengths in whole seconds; the
    /// maximum is clamped to the hard limit.
    pub fn new(min_seconds: u32, target_seconds: u32, max_seconds: u32) -> (r: SmartChunkConfig)
        requires
            1 <= min_seconds <= 14,
            min_seconds <= max_seconds <= 1000,
            target_seconds <= 1000,
        ensures
            r.wf(),
            r.min_chunk_samples == min_seconds * 16000,
            r.target_chunk_samples == target_seconds * 16000,
            r.max_chunk_samples == if max_seconds * 16000 <= MAX_CHUNK_SAMPLES {
                (max_seconds * 16000) as int
            } else {
                MAX_CHUNK_SAMPLES as int
            },
            r.overlap_samples == 8000,
    {
        let max_samples: usize = if (max_seconds as usize) * 16000 <= MAX_CHUNK_SAMPLES {
            (max_seconds as usize) * 16000
        } else {
            MAX_CHUNK_SAMPLES
        };
        SmartChunkConfig {
            min_chunk_samples: (min_seconds as usize) * 16000,
            target_chunk_samples: (target_seconds as usize) * 16000,
            max_chunk_samples: max_samples,
            overlap_samples: 8000,
            vad_config: VadConfig::default(),
        }
    }
}

impl Default for SmartChunkConfig {
    /// 8 s minimum, 10 s target, 14 s maximum, 0.5 s overlap.
    fn default() -> (r: SmartChunkConfig)
        ensures
            r.wf(),
            r.min_chunk_samples == 128_000,
            r.target_chunk_samples == 160_000,
            r.max_chunk_samples == 224_000,
            r.overlap_samples == 8000,
            r.vad_config.window_samples == 1600,
            r.vad_config.step_samples == 800,
            r.vad_config.silence_threshold_micro == 10_000,
    {
        SmartChunkConfig {
            min_chunk_samples: 128_000,
            target_chunk_samples: 160_000,
            max_chunk_samples: 224_000,
            overlap_samples: 8000,
            vad_config: VadConfig::default(),
        }
    }
}

/// The scan's best position stays in `[lo, search_end)` when it starts
/// there.
proof fn lemma_scan_pos_range(
    s: Seq<i32>,
    pos: int,
    search_end: int,
    cfg: VadConfig,
    best_pos: int,
    best_energy: int,
    found_silence: bool,
    lo: int,
)
    requires
        cfg.wf(),
        0 <= pos,
        lo <= best_pos < search_end,
        lo <= pos,
    ensures
        lo <= scan_from_spec(s, pos, search_end, cfg, best_pos, best_energy, found_silence).0
            < search_end,
    decreases (if search_end - pos < 0 {
        0int
    } else {
        search_end - pos
    }),
{
    if pos + cfg.window_samples as int <= search_end {
        let e = crate::vad::window_energy_spec(s, pos, cfg.window_samples as int);
        let center = pos + cfg.window_samples as int / 2;
        assert(lo <= center < search_end);
        let next = pos + cfg.step_samples as int;
        let silent = crate::vad::is_silent_at(s, pos, cfg);
        if silent && (!found_silence || e < best_energy) {
            lemma_scan_pos_range(s, next, search_end, cfg, center, e, true, lo);
        } else if !silent && !found_silence && e < best_energy {
            lemma_scan_pos_range(s, next, search_end, cfg, center, e, false, lo);
        } else {
            lemma_scan_pos_range(s, next, search_end, cfg, best_pos, best_energy, found_silence, lo);
        }
    }
}

/// The best cut of a non-empty in-range search window lies inside it.
pub proof fn lemma_find_cut_range(s: Seq<i32>, ss: int, se: int, cfg: VadConfig)
    requires
        cfg.wf(),
        0 <= ss <= se <= s.len(),
    ensures
        ss < se ==> ss <= find_best_cut_spec(s, ss, se, cfg).0 < se,
        ss >= se ==> find_best_cut_spec(s, ss, se, cfg).0 == ss,
{
    if ss < se {
        lemma_scan_pos_range(s, ss, se, cfg, ss, u64::MAX as int, false, ss);
    }
}

#[via_fn]
proof fn smart_spans_decreases(s: Seq<i32>, start: int, cfg: SmartChunkConfig) {
    if cfg.wf() && 0 <= start <= s.len() {
        if s.len() - start > cfg.max_chunk_samples as int {
            let ss = start + cfg.min_chunk_samples as int;
            let se = start + cfg.max_chunk_samples as int;
            lemma_find_cut_range(s, ss, se, cfg.vad_config);
        }
    }
}

/// The chunk spans the smart strategy emits from `start` on: `(start, end)`
/// pairs where the next chunk starts at the cut and the end carries the
/// overlap after a non-silence cut.
pub open spec fn smart_spans(s: Seq<i32>, start: int, cfg: SmartChunkConfig) -> Seq<(int, int)>
    decreases s.len() - start,
    when cfg.wf() && 0 <= start <= s.len()
    via smart_spans_decreases
{
    if s.len() - start <= cfg.max_chunk_samples as int {
        seq![(start, s.len() as int)]
    } else {
        let ss = start + cfg.min_chunk_samples as int;
        let se = start + cfg.max_chunk_samples as int;
        let r = find_best_cut_spec(s, ss, se, cfg.vad_config);
        let cut = r.0;
        let cend = if r.2 {
            cut
        } else if cut + cfg.overlap_samples as int <= s.len() {
            cut + cfg.overlap_samples as int
        } else {
            s.len() as int
        };
        seq![(start, cend)] + smart_spans(s, cut, cfg)
    }
}

/// Copies `v[from..to]`.
fn copy_sample_range(v: &Vec<i32>, from: usize, to: usize) -> (r: Vec<i32>)
    requires
        from <= to <= v@.len(),
    ensures
        r@ == v@.subrange(from as int, to as int),
{
    let mut r: Vec<i32> = Vec::new();
    let mut i: usize = from;
    while i < to
        invariant
            from <= i <= to <= v@.len(),
            r@ == v@.subrange(from as int, i as int),
        decreases to - i,
    {
        r.push(v[i]);
        assert(r@ =~= v@.subrange(from as int, i + 1));
        i = i + 1;
    }
    r
}

/// Milliseconds of a sample position at the pipeline rate.
fn position_ms(pos: usize) -> (r: i64)
    requires
        pos <= MAX_TOTAL_SAMPLES,
    ensures
        r as int == pos * 1000 / 16000,
{
    (((pos as u64) * 1000) / 16000) as i64
}

/// Computes the spans of the smart strategy.
fn smart_span_positions(samples: &Vec<i32>, config: &SmartChunkConfig) -> (r: Vec<(usize, usize)>)
    requires
        samples_ok(samples@),
        config.wf(),
        samples@.len() <= MAX_TOTAL_SAMPLES,
    ensures
        Seq::new(r@.len(), |i: int| ((r@[i].0 as int, r@[i].1 as int))) == smart_spans(
            samples@,
            0,
            *config,
        ),
{
    let total: usize = samples.len();
    let mut spans: Vec<(usize, usize)> = Vec::new();
    let mut cur: usize = 0;
    let ghost full = smart_spans(samples@, 0, *config);
    proof {
        assert(Seq::new(spans@.len(), |i: int| ((spans@[i].0 as int, spans@[i].1 as int))) =~=
            Seq::<(int, int)>::empty());
        assert(Seq::<(int, int)>::empty() + smart_spans(samples@, 0, *config) =~= full);
    }
    loop
        invariant
            cur <= total,
            total == samples@.len() <= MAX_TOTAL_SAMPLES,
            samples_ok(samples@),
            config.wf(),
            full == smart_spans(samples@, 0, *config),
            Seq::new(spans@.len(), |i: int| ((spans@[i].0 as int, spans@[i].1 as int)))
                + smart_spans(samples@, cur as int, *config) == full,
        ensures
            Seq::new(spans@.len(), |i: int| ((spans@[i].0 as int, spans@[i].1 as int))) == full,
        decreases total - cur,
    {
        let ghost done = Seq::new(
            spans@.len(),
            |i: int| ((spans@[i].0 as int, spans@[i].1 as int)),
        );
        if total - cur <= config.max_chunk_samples {
            spans.push((cur, total));
            proof {
                let now = Seq::new(
                    spans@.len(),
                    |i: int| ((spans@[i].0 as int, spans@[i].1 as int)),
                );
                assert(now =~= done.push((cur as int, total as int)));
                assert(smart_spans(samples@, cur as int, *config) =~= seq![
                    (cur as int, total as int),
                ]);
                assert(done.push((cur as int, total as int)) =~= done + seq![
                    (cur as int, total as int),
                ]);
            }
            return spans;
        }
        let ss: usize = cur + config.min_chunk_samples;
        let se: usize = cur + config.max_chunk_samples;
        let (cut, _energy, is_silence) = find_best_cut_point(samples, ss, se, &config.vad_config);
        proof {
            lemma_find_cut_range(samples@, ss as int, se as int, config.vad_config);
            assert(find_best_cut_spec(samples@, ss as int, se as int, config.vad_config).0
                == cut as int);
        }
        let chunk_end: usize = if is_silence {
            cut
        } else if cut + config.overlap_samples <= total {
            cut + config.overlap_samples
        } else {
            total
        };
        spans.push((cur, chunk_end));
        proof {
            let now = Seq::new(
                spans@.len(),
                |i: int| ((spans@[i].0 as int, spans@[i].1 as int)),
            );
            assert(now =~= done.push((cur as int, chunk_end as int)));
            assert(smart_spans(samples@, cur as int, *config) == seq![
                (cur as int, chunk_end as int),
            ] + smart_spans(samples@, cut as int, *config));
            assert((done.push((cur as int, chunk_end as int))) + smart_spans(
                samples@,
                cut as int,
                *config,
            ) =~= done + (seq![(cur as int, chunk_end as int)] + smart_spans(
                samples@,
                cut as int,
                *config,
            )));
        }
        cur = cut;
    }
}

/// What every produced chunk list looks like relative to its spans.
pub open spec fn chunks_match_spans(
    chunks: Seq<AudioChunk>,
    spans: Seq<(int, int)>,
    s: Seq<i32>,
) -> bool {
    &&& chunks.len() == spans.len()
    &&& forall|i: int|
        0 <= i < chunks.len() ==> {
            let c = #[trigger] chunks[i];
            &&& c.start_sample as int == spans[i].0
            &&& c.end_sample as int == spans[i].1
            &&& c.samples@ == s.subrange(spans[i].0, spans[i].1)
            &&& c.start_ms as int == spans[i].0 * 1000 / 16000
            &&& c.end_ms as int == spans[i].1 * 1000 / 16000
            &&& c.index == i
            &&& c.total_chunks == chunks.len()
        }
}

/// Builds the chunk records for a span list.
fn build_chunks(samples: &Vec<i32>, spans: &Vec<(usize, usize)>) -> (r: Vec<AudioChunk>)
    requires
        samples@.len() <= MAX_TOTAL_SAMPLES,
        forall|i: int|
            0 <= i < spans@.len() ==> (#[trigger] spans@[i]).0 <= spans@[i].1 <= samples@.len(),
    ensures
        chunks_match_spans(
            r@,
            Seq::new(spans@.len(), |i: int| ((spans@[i].0 as int, spans@[i].1 as int))),
            samples@,
        ),
{
    let n: usize = spans.len();
    let mut r: Vec<AudioChunk> = Vec::new();
    let mut i: usize = 0;
    while i < n
        invariant
            i <= n,
            n == spans@.len(),
            samples@.len() <= MAX_TOTAL_SAMPLES,
            forall|j: int|
                0 <= j < spans@.len() ==> (#[trigger] spans@[j]).0 <= spans@[j].1
                    <= samples@.len(),
            r@.len() == i,
            forall|j: int|
                0 <= j < i ==> {
                    let c = #[trigger] r@[j];
                    &&& c.start_sample == spans@[j].0
                    &&& c.end_sample == spans@[j].1
                    &&& c.samples@ == samples@.subrange(
                        spans@[j].0 as int,
                        spans@[j].1 as int,
                    )
                    &&& c.start_ms as int == spans@[j].0 * 1000 / 16000
                    &&& c.end_ms as int == spans@[j].1 * 1000 / 16000
                    &&& c.index == j
                    &&& c.total_chunks == n
                },
        decreases n - i,
    {
        let (a, b) = spans[i];
        let chunk_samples = copy_sample_range(samples, a, b);
        let chunk = AudioChunk {
            samples: chunk_samples,
            start_sample: a,
            end_sample: b,
            start_ms: position_ms(a),
            end_ms: position_ms(b),
            index: i,
            total_chunks: n,
        };
        r.push(chunk);
        i = i + 1;
    }
    r
}

/// Splits audio at silence points: chunks are cut between the minimum and
/// maximum lengths at the lowest-energy silent window, or at the
/// lowest-energy window with an overlap when no silence is found. Audio
/// within the maximum is one single chunk.
pub fn split_audio_smart(samples: &Vec<i32>, config: &SmartChunkConfig) -> (r: Vec<AudioChunk>)
    requires
        samples_ok(samples@),
        config.wf(),
        samples@.len() <= MAX_TOTAL_SAMPLES,
    ensures
        chunks_match_spans(r@, smart_spans(samples@, 0, *config), samples@),
{
    let spans = smart_span_positions(samples, config);
    proof {
        lemma_smart_spans_bounds(samples@, 0, *config);
        let sv = Seq::new(spans@.len(), |i: int| ((spans@[i].0 as int, spans@[i].1 as int)));
        assert forall|i: int| 0 <= i < spans@.len() implies (#[trigger] spans@[i]).0 <= spans@[i].1
            <= samples@.len() by {
            assert(sv[i] == (spans@[i].0 as int, spans@[i].1 as int));
        }
    }
    build_chunks(samples, &spans)
}

/// Every span is within bounds, starts where asked, advances by at least
/// the minimum, ends at the stream end, and stays within the maximum plus
/// the overlap.
pub proof fn lemma_smart_spans_bounds(s: Seq<i32>, start: int, cfg: SmartChunkConfig)
    requires
        cfg.wf(),
        0 <= start <= s.len(),
    ensures
        ({
            let spans = smart_spans(s, start, cfg);
            &&& spans.len() >= 1
            &&& spans[0].0 == start
            &&& spans[spans.len() - 1].1 == s.len()
            &&& forall|i: int|
                0 <= i < spans.len() ==> (#[trigger] spans[i]).0 <= spans[i].1 <= s.len()
            &&& forall|i: int|
                0 <= i < spans.len() - 1 ==> (#[trigger] spans[i]).0 + cfg.min_chunk_samples as int
                    <= spans[i + 1].0 <= spans[i].1
            &&& forall|i: int|
                0 <= i < spans.len() ==> (#[trigger] spans[i]).1 - spans[i].0
                    <= cfg.max_chunk_samples as int + cfg.overlap_samples as int
        }),
    decreases s.len() - start,
{
    let spans = smart_spans(s, start, cfg);
    if s.len() - start <= cfg.max_chunk_samples as int {
    } else {
        let ss = start + cfg.min_chunk_samples as int;
        let se = start + cfg.max_chunk_samples as int;
        lemma_find_cut_range(s, ss, se, cfg.vad_config);
        let r = find_best_cut_spec(s, ss, se, cfg.vad_config);
        let cut = r.0;
        lemma_smart_spans_bounds(s, cut, cfg);
        let rest = smart_spans(s, cut, cfg);
        assert forall|i: int| 0 <= i < spans.len() implies (#[trigger] spans[i]).0 <= spans[i].1
            <= s.len() by {
            if i > 0 {
                assert(spans[i] == rest[i - 1]);
            }
        }
        assert forall|i: int|
            0 <= i < spans.len() - 1 implies (#[trigger] spans[i]).0
                + cfg.min_chunk_samples as int <= spans[i + 1].0 <= spans[i].1 by {
            if i > 0 {
                assert(spans[i] == rest[i - 1]);
                assert(spans[i + 1] == rest[i]);
            } else {
                assert(spans[1] == rest[0]);
            }
        }
        assert forall|i: int|
            0 <= i < spans.len() implies (#[trigger] spans[i]).1 - spans[i].0
                <= cfg.max_chunk_samples as int + cfg.overlap_samples as int by {
            if i > 0 {
                assert(spans[i] == rest[i - 1]);
            }
        }
    }
}

/// The non-overlap prefixes of the spans: each chunk up to the next chunk's
/// start, the last one whole.
pub open spec fn span_prefixes(s: Seq<i32>, spans: Seq<(int, int)>) -> Seq<Seq<i32>> {
    Seq::new(
        spans.len(),
        |i: int|
            if i < spans.len() - 1 {
                s.subrange(spans[i].0, spans[i + 1].0)
            } else {
                s.subrange(spans[i].0, spans[i].1)
            },
    )
}

/// The non-overlap prefixes of the emitted chunks reassemble the input in
/// order: their concatenation is exactly the sample run.
pub proof fn lemma_smart_spans_partition(s: Seq<i32>, start: int, cfg: SmartChunkConfig)
    requires
        cfg.wf(),
        0 <= start <= s.len(),
    ensures
        span_prefixes(s, smart_spans(s, start, cfg)).flatten() == s.subrange(
            start,
            s.len() as int,
        ),
    decreases s.len() - start,
{
    let spans = smart_spans(s, start, cfg);
    let prefixes = span_prefixes(s, spans);
    if s.len() - start <= cfg.max_chunk_samples as int {
        assert(prefixes =~= seq![s.subrange(start, s.len() as int)]);
        assert(prefixes.flatten() =~= s.subrange(start, s.len() as int)) by {
            assert(prefixes.flatten() == prefixes[0] + prefixes.subrange(
                1,
                prefixes.len() as int,
            ).flatten());
            assert(prefixes.subrange(1, prefixes.len() as int) =~= Seq::<Seq<i32>>::empty());
            assert(Seq::<Seq<i32>>::empty().flatten() =~= Seq::<i32>::empty());
            assert(prefixes[0] + Seq::<i32>::empty() =~= prefixes[0]);
        }
    } else {
        let ss = start + cfg.min_chunk_samples as int;
        let se = start + cfg.max_chunk_samples as int;
        lemma_find_cut_range(s, ss, se, cfg.vad_config);
        let cut = find_best_cut_spec(s, ss, se, cfg.vad_config).0;
        lemma_smart_spans_partition(s, cut, cfg);
        lemma_smart_spans_bounds(s, cut, cfg);
        let rest = smart_spans(s, cut, cfg);
        let rest_prefixes = span_prefixes(s, rest);
        assert(prefixes =~= seq![s.subrange(start, cut)] + rest_prefixes) by {
            assert(prefixes.len() == 1 + rest_prefixes.len());
            assert(rest[0].0 == cut);
            assert forall|i: int| 0 <= i < prefixes.len() implies prefixes[i] == (seq![
                s.subrange(start, cut),
            ] + rest_prefixes)[i] by {
                if i == 0 {
                    assert(spans[1] == rest[0]);
                    assert(prefixes[0] == s.subrange(start, cut));
                } else {
                    assert(spans[i] == rest[i - 1]);
                    if i < spans.len() - 1 {
                        assert(spans[i + 1] == rest[i]);
                    }
                }
            }
        }
        assert(prefixes.flatten() == s.subrange(start, cut) + rest_prefixes.flatten()) by {
            assert(prefixes.flatten() == prefixes[0] + prefixes.subrange(
                1,
                prefixes.len() as int,
            ).flatten());
            assert(prefixes.subrange(1, prefixes.len() as int) =~= rest_prefixes);
        }
        assert(s.subrange(start, cut) + s.subrange(cut, s.len() as int) =~= s.subrange(
            start,
            s.len() as int,
        ));
    }
}

// ---------------------------------------------------------------------------
// Legacy fixed-overlap chunking
// ---------------------------------------------------------------------------

/// Configuration of fixed-overlap chunking.
#[derive(Debug, Clone)]
pub struct ChunkConfig {
    /// Chunk size in samples.
    pub chunk_samples: usize,
    /// Overlap size in samples.
    pub overlap_samples: usize,
}

impl ChunkConfig {
    /// The bounds every legacy configuration satisfies.
    pub open spec fn wf(self) -> bool {
        &&& 1 <= self.chunk_samples <= MAX_TOTAL_SAMPLES
        &&& self.overlap_samples < self.chunk_samples
    }

    /// A configuration from whole seconds at the pipeline rate.
    pub fn new(chunk_seconds: u32, overlap_seconds: u32) -> (r: ChunkConfig)
        requires
            1 <= chunk_seconds <= 60_000,
            overlap_seconds < chunk_seconds,
        ensures
            r.wf(),
            r.chunk_samples == chunk_seconds * 16000,
            r.overlap_samples == overlap_seconds * 16000,
    {
        ChunkConfig {
            chunk_samples: (chunk_seconds as usize) * 16000,
            overlap_samples: (overlap_seconds as usize) * 16000,
        }
    }

    /// The step between chunk starts: chunk size less overlap, never below
    /// zero.
    pub fn step_samples(&self) -> (r: usize)
        ensures
            r as int == if self.chunk_samples >= self.overlap_samples {
                self.chunk_samples - self.overlap_samples
            } else {
                0int
            },
    {
        if self.chunk_samples >= self.overlap_samples {
            self.chunk_samples - self.overlap_samples
        } else {
            0
        }
    }
}

impl Default for ChunkConfig {
    /// 10 s chunks with 2 s overlap.
    fn default() -> (r: ChunkConfig)
        ensures
            r.wf(),
            r.chunk_samples == 160_000,
            r.overlap_samples == 32_000,
    {
        ChunkConfig { chunk_samples: 160_000, overlap_samples: 32_000 }
    }
}

/// The spans of fixed-overlap chunking from `start` on.
pub open spec fn legacy_spans(total: int, start: int, cfg: ChunkConfig) -> Seq<(int, int)>
    decreases total - start,
    when cfg.wf() && 0 <= start
{
    let end = if start + cfg.chunk_samples as int <= total {
        start + cfg.chunk_samples as int
    } else {
        total
    };
    if end >= total {
        seq![(start, total)]
    } else {
        seq![(start, end)] + legacy_spans(
            total,
            start + cfg.chunk_samples as int - cfg.overlap_samples as int,
            cfg,
        )
    }
}

/// Splits audio into fixed-size chunks whose starts step by the chunk size
/// less the overlap.
pub fn split_audio(samples: &Vec<i32>, config: &ChunkConfig) -> (r: Vec<AudioChunk>)
    requires
        config.wf(),
        samples@.len() <= MAX_TOTAL_SAMPLES,
    ensures
        chunks_match_spans(r@, legacy_spans(samples@.len() as int, 0, *config), samples@),
{
    let total: usize = samples.len();
    let mut spans: Vec<(usize, usize)> = Vec::new();
    let mut cur: usize = 0;
    let ghost full = legacy_spans(total as int, 0, *config);
    proof {
        assert(Seq::new(spans@.len(), |i: int| ((spans@[i].0 as int, spans@[i].1 as int))) + full
            =~= full);
    }
    loop
        invariant_except_break
            Seq::new(spans@.len(), |i: int| ((spans@[i].0 as int, spans@[i].1 as int)))
                + legacy_spans(total as int, cur as int, *config) == full,
        invariant
            cur <= total,
            total == samples@.len() <= MAX_TOTAL_SAMPLES,
            config.wf(),
            full == legacy_spans(total as int, 0, *config),
            forall|i: int|
                0 <= i < spans@.len() ==> (#[trigger] spans@[i]).0 <= spans@[i].1 <= total,
        ensures
            Seq::new(spans@.len(), |i: int| ((spans@[i].0 as int, spans@[i].1 as int))) == full,
            forall|i: int|
                0 <= i < spans@.len() ==> (#[trigger] spans@[i]).0 <= spans@[i].1 <= total,
        decreases total - cur,
    {
        let ghost done = Seq::new(
            spans@.len(),
            |i: int| ((spans@[i].0 as int, spans@[i].1 as int)),
        );
        let end: usize = if cur + config.chunk_samples <= total {
            cur + config.chunk_samples
        } else {
            total
        };
        spans.push((cur, end));
        proof {
            let now = Seq::new(
                spans@.len(),
                |i: int| ((spans@[i].0 as int, spans@[i].1 as int)),
            );
            assert(now =~= done.push((cur as int, end as int)));
        }
        if end >= total {
            proof {
                assert(legacy_spans(total as int, cur as int, *config) =~= seq![
                    (cur as int, total as int),
                ]);
                assert(done.push((cur as int, total as int)) =~= done + seq![
                    (cur as int, total as int),
                ]);
            }
            break ;
        }
        proof {
            assert(legacy_spans(total as int, cur as int, *config) == seq![(cur as int, end as int)]
                + legacy_spans(
                total as int,
                cur as int + config.chunk_samples as int - config.overlap_samples as int,
                *config,
            ));
            assert(done.push((cur as int, end as int)) + legacy_spans(
                total as int,
                cur as int + config.chunk_samples as int - config.overlap_samples as int,
                *config,
            ) =~= done + (seq![(cur as int, end as int)] + legacy_spans(
                total as int,
                cur as int + config.chunk_samples as int - config.overlap_samples as int,
                *config,
            )));
        }
        cur = cur + (config.chunk_samples - config.overlap_samples);
    }
    build_chunks(samples, &spans)
}

} // verus!
