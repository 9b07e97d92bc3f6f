//! Energy-based voice activity detection.
//!
//! A windowed scan computes each window's energy, the sum of squared sample
//! amplitudes. For windows of one fixed length, comparing energies compares
//! root-mean-square values exactly, and `rms < threshold` is exactly
//! `energy < threshold² · window`, so every decision the detector makes is
//! taken in integers.

use vstd::prelude::*;

verus! {

/// The largest magnitude a sample amplitude may carry: full scale.
pub const MAX_SAMPLE_MICRO: i32 = 1_000_000;

/// Whether a sample is within full scale.
pub open spec fn sample_ok(v: i32) -> bool {
    -MAX_SAMPLE_MICRO <= v <= MAX_SAMPLE_MICRO
}

/// Whether every sample is within full scale.
pub open spec fn samples_ok(s: Seq<i32>) -> bool {
    forall|i: int| 0 <= i < s.len() ==> sample_ok(#[trigger] s[i])
}

/// Configuration of the detector.
#[derive(Debug, Clone)]
pub struct VadConfig {
    /// Window size in samples for energy calculation.
    pub window_samples: usize,
    /// Step between windows in samples.
    pub step_samples: usize,
    /// The RMS value below which a window counts as silence, in millionths
    /// of full scale.
    pub silence_threshold_micro: u32,
}

impl VadConfig {
    /// The bounds every configuration satisfies.
    pub open spec fn wf(self) -> bool {
        &&& 1 <= self.window_samples <= 1_000_000
        &&& 1 <= self.step_samples <= 1_000_000
        &&& self.silence_threshold_micro <= 1_000_000
    }

    /// A configuration with a custom silence threshold and the default
    /// window and step.
    pub fn with_threshold(silence_threshold_micro: u32) -> (r: VadConfig)
        requires
            silence_threshold_micro <= 1_000_000,
        ensures
            r.wf(),
            r.window_samples == 1600,
            r.step_samples == 800,
            r.silence_threshold_micro == silence_threshold_micro,
    {
        VadConfig { window_samples: 1600, step_samples: 800, silence_threshold_micro }
    }
}

impl Default for VadConfig {
    /// 100 ms windows at a 50 ms step, silence below an RMS of 0.01.
    fn default() -> (r: VadConfig)
        ensures
            r.wf(),
            r.window_samples == 1600,
            r.step_samples == 800,
            r.silence_threshold_micro == 10_000,
    {
        VadConfig { window_samples: 1600, step_samples: 800, silence_threshold_micro: 10_000 }
    }
}

/// The energy of `len` samples from `pos` on: the sum of squared
/// amplitudes.
pub open spec fn window_energy_spec(s: Seq<i32>, pos: int, len: int) -> int
    decreases len,
{
    if len <= 0 {
        0
    } else {
        window_energy_spec(s, pos, len - 1) + s[pos + len - 1] * s[pos + len - 1]
    }
}

pub proof fn lemma_window_energy_bounds(s: Seq<i32>, pos: int, len: int)
    requires
        samples_ok(s),
        0 <= pos,
        0 <= len,
        pos + len <= s.len(),
    ensures
        0 <= window_energy_spec(s, pos, len) <= len * 1_000_000_000_000,
    decreases len,
{
    if len > 0 {
        lemma_window_energy_bounds(s, pos, len - 1);
        let v = s[pos + len - 1];
        assert(0 <= v * v <= 1_000_000_000_000) by (nonlinear_arith)
            requires
                -1_000_000 <= v <= 1_000_000,
        ;
        assert((len - 1) * 1_000_000_000_000 + 1_000_000_000_000 == len * 1_000_000_000_000)
            by (nonlinear_arith);
    } else {
        assert(len * 1_000_000_000_000 >= 0) by (nonlinear_arith)
            requires
                len >= 0,
        ;
    }
}

/// Whether the window at `pos` is silence: its energy lies below
/// `threshold² · window`, which is exactly `rms < threshold`.
pub open spec fn is_silent_at(s: Seq<i32>, pos: int, cfg: VadConfig) -> bool {
    window_energy_spec(s, pos, cfg.window_samples as int) < (cfg.silence_threshold_micro as int) * (
    cfg.silence_threshold_micro as int) * (cfg.window_samples as int)
}

/// The energy of the window `[pos, pos + len)`.
pub fn window_energy(samples: &Vec<i32>, pos: usize, len: usize) -> (r: u64)
    requires
        samples_ok(samples@),
        pos + len <= samples@.len(),
        len <= 1_000_000,
    ensures
        r as int == window_energy_spec(samples@, pos as int, len as int),
{
    let total: usize = samples.len();
    let mut acc: u64 = 0;
    let mut i: usize = 0;
    proof {
        lemma_window_energy_bounds(samples@, pos as int, 0);
    }
    while i < len
        invariant
            i <= len <= 1_000_000,
            total == samples@.len(),
            pos + len <= samples@.len(),
            samples_ok(samples@),
            acc as int == window_energy_spec(samples@, pos as int, i as int),
            acc as int <= (i as int) * 1_000_000_000_000,
        decreases len - i,
    {
        let v: i32 = samples[pos + i];
        proof {
            assert(sample_ok(samples@[pos + i]));
            assert(0 <= (v as i64) * (v as i64) <= 1_000_000_000_000) by (nonlinear_arith)
                requires
                    -1_000_000 <= v as int <= 1_000_000,
            ;
            assert((i as int) * 1_000_000_000_000 + 1_000_000_000_000 == (i + 1)
                * 1_000_000_000_000) by (nonlinear_arith);
            assert((i + 1) * 1_000_000_000_000 <= 1_000_000 * 1_000_000_000_000)
                by (nonlinear_arith)
                requires
                    i + 1 <= 1_000_000,
            ;
        }
        let sq: u64 = ((v as i64) * (v as i64)) as u64;
        acc = acc + sq;
        i = i + 1;
    }
    acc
}

/// The silence bound `threshold² · window` of a configuration.
fn silence_bound(cfg: &VadConfig) -> (r: u64)
    requires
        cfg.wf(),
    ensures
        r as int == (cfg.silence_threshold_micro as int) * (cfg.silence_threshold_micro as int) * (
        cfg.window_samples as int),
{
    proof {
        assert((cfg.silence_threshold_micro as int) * (cfg.silence_threshold_micro as int)
            <= 1_000_000_000_000) by (nonlinear_arith)
            requires
                0 <= cfg.silence_threshold_micro as int <= 1_000_000,
        ;
        assert((cfg.silence_threshold_micro as int) * (cfg.silence_threshold_micro as int) >= 0)
            by (nonlinear_arith);
        assert((cfg.silence_threshold_micro as int) * (cfg.silence_threshold_micro as int) * (
        cfg.window_samples as int) <= 1_000_000_000_000 * 1_000_000) by (nonlinear_arith)
            requires
                0 <= (cfg.silence_threshold_micro as int) * (cfg.silence_threshold_micro as int)
                    <= 1_000_000_000_000,
                0 <= cfg.window_samples as int <= 1_000_000,
        ;
    }
    let t: u64 = cfg.silence_threshold_micro as u64;
    (t * t) * (cfg.window_samples as u64)
}

/// One analyzed window.
#[derive(Debug, Clone)]
pub struct VadFrame {
    /// Start position in samples.
    pub start_sample: usize,
    /// End position in samples.
    pub end_sample: usize,
    /// The window's energy: the sum of squared amplitudes.
    pub energy: u64,
    /// Whether the window counts as silence.
    pub is_silence: bool,
}

/// How many windows the scan visits over `n` samples.
pub open spec fn frame_count_spec(n: int, cfg: VadConfig) -> int
    decreases (if n < 0 { 0int } else { n }),
    when cfg.wf()
{
    if n < cfg.window_samples as int {
        0
    } else {
        1 + frame_count_spec(n - cfg.step_samples as int, cfg)
    }
}

/// The frames analysis yields: one per window position on the step grid.
pub open spec fn frames_spec(s: Seq<i32>, cfg: VadConfig) -> Seq<VadFrame> {
    Seq::new(
        frame_count_spec(s.len() as int, cfg) as nat,
        |k: int|
            VadFrame {
                start_sample: (k * cfg.step_samples as int) as usize,
                end_sample: (k * cfg.step_samples as int + cfg.window_samples as int) as usize,
                energy: window_energy_spec(s, k * cfg.step_samples as int, cfg.window_samples as int)
                    as u64,
                is_silence: is_silent_at(s, k * cfg.step_samples as int, cfg),
            },
    )
}

/// Analyzes the whole sample run: one frame per window position, stepping
/// by the configured step while a full window fits.
pub fn analyze_audio(samples: &Vec<i32>, config: &VadConfig) -> (r: Vec<VadFrame>)
    requires
        samples_ok(samples@),
        config.wf(),
        samples@.len() <= 0x4000_0000,
    ensures
        r@ == frames_spec(samples@, *config),
        r@.len() == frame_count_spec(samples@.len() as int, *config),
        forall|k: int|
            0 <= k < r@.len() ==> {
                let f = #[trigger] r@[k];
                &&& f.start_sample == k * config.step_samples
                &&& f.end_sample == f.start_sample + config.window_samples
                &&& f.energy as int == window_energy_spec(
                    samples@,
                    f.start_sample as int,
                    config.window_samples as int,
                )
                &&& f.is_silence == is_silent_at(samples@, f.start_sample as int, *config)
            },
{
    let n: usize = samples.len();
    let bound = silence_bound(config);
    let mut r: Vec<VadFrame> = Vec::new();
    let mut pos: usize = 0;
    proof {
        lemma_frame_count(samples@.len() as int, 0, *config);
        assert(r@.len() * config.step_samples == 0) by (nonlinear_arith)
            requires
                r@.len() == 0,
        ;
    }
    while pos <= n && n - pos >= config.window_samples
        invariant
            n == samples@.len(),
            samples_ok(samples@),
            config.wf(),
            pos == r@.len() * config.step_samples,
            pos <= n + config.step_samples,
            n <= 0x4000_0000,
            r@.len() + frame_count_spec(n - pos, *config) == frame_count_spec(n as int, *config),
            bound as int == (config.silence_threshold_micro as int) * (
            config.silence_threshold_micro as int) * (config.window_samples as int),
            forall|k: int|
                0 <= k < r@.len() ==> {
                    let f = #[trigger] r@[k];
                    &&& f.start_sample == k * config.step_samples
                    &&& f.end_sample == f.start_sample + config.window_samples
                    &&& f.energy as int == window_energy_spec(
                        samples@,
                        f.start_sample as int,
                        config.window_samples as int,
                    )
                    &&& f.is_silence == is_silent_at(samples@, f.start_sample as int, *config)
                },
        decreases (if pos <= n { n - pos } else { 0int }),
    {
        let energy = window_energy(samples, pos, config.window_samples);
        let is_silence = energy < bound;
        let ghost old_len = r@.len();
        r.push(
            VadFrame {
                start_sample: pos,
                end_sample: pos + config.window_samples,
                energy,
                is_silence,
            },
        );
        proof {
            assert(r@.len() * config.step_samples == old_len * config.step_samples
                + config.step_samples) by (nonlinear_arith)
                requires
                    r@.len() == old_len + 1,
            ;
        }
        pos = pos + config.step_samples;
    }
    proof {
        assert(frame_count_spec(n - pos, *config) == 0);
        assert(r@ =~= frames_spec(samples@, *config)) by {
            assert forall|k: int| 0 <= k < r@.len() implies r@[k] == frames_spec(
                samples@,
                *config,
            )[k] by {
                let f = r@[k];
                let g = frames_spec(samples@, *config)[k];
                assert(f.start_sample == k * config.step_samples);
                assert(g.start_sample as int == k * config.step_samples as int);
                assert(f.energy == g.energy);
                assert(f.is_silence == g.is_silence);
                assert(f.end_sample == g.end_sample);
            }
        }
    }
    r
}

proof fn lemma_frame_count(n: int, pos: int, cfg: VadConfig)
    requires
        cfg.wf(),
    ensures
        frame_count_spec(n, cfg) >= 0,
    decreases (if n < 0 { 0int } else { n }),
{
    if n >= cfg.window_samples as int {
        lemma_frame_count(n - cfg.step_samples as int, pos, cfg);
    }
}

/// The scan state of the best-cut search: the running best position, best
/// energy (`u64::MAX` until a window was seen), and whether a silent window
/// was found yet. Mirrors one scan step at `pos`.
pub open spec fn scan_from_spec(
    s: Seq<i32>,
    pos: int,
    search_end: int,
    cfg: VadConfig,
    best_pos: int,
    best_energy: int,
    found_silence: bool,
) -> (int, int, bool)
    decreases (if search_end - pos < 0 { 0int } else { search_end - pos }),
    when cfg.wf() && 0 <= pos
{
    if pos + cfg.window_samples as int > search_end {
        (best_pos, best_energy, found_silence)
    } else {
        let e = window_energy_spec(s, pos, cfg.window_samples as int);
        let center = pos + cfg.window_samples as int / 2;
        let silent = is_silent_at(s, pos, cfg);
        if silent && (!found_silence || e < best_energy) {
            scan_from_spec(s, pos + cfg.step_samples as int, search_end, cfg, center, e, true)
        } else if !silent && !found_silence && e < best_energy {
            scan_from_spec(s, pos + cfg.step_samples as int, search_end, cfg, center, e, false)
        } else {
            scan_from_spec(
                s,
                pos + cfg.step_samples as int,
                search_end,
                cfg,
                best_pos,
                best_energy,
                found_silence,
            )
        }
    }
}

/// What the best-cut search returns: clamped bounds, `(start, 0, silence)`
/// for an empty range, otherwise the scan from the clamped start.
pub open spec fn find_best_cut_spec(
    s: Seq<i32>,
    search_start: int,
    search_end: int,
    cfg: VadConfig,
) -> (int, int, bool) {
    let ss = if search_start <= s.len() {
        search_start
    } else {
        s.len() as int
    };
    let se = if search_end <= s.len() {
        search_end
    } else {
        s.len() as int
    };
    if ss >= se {
        (ss, 0, true)
    } else {
        scan_from_spec(s, ss, se, cfg, ss, u64::MAX as int, false)
    }
}

/// Finds the best cut position in `[search_start, search_end)`: the center
/// of the lowest-energy silent window, or, when no window is silent, the
/// center of the lowest-energy window overall. Returns the position, the
/// winning window's energy, and whether it was silence.
pub fn find_best_cut_point(
    samples: &Vec<i32>,
    search_start: usize,
    search_end: usize,
    config: &VadConfig,
) -> (r: (usize, u64, bool))
    requires
        samples_ok(samples@),
        config.wf(),
        samples@.len() <= 0x4000_0000,
    ensures
        (r.0 as int, r.1 as int, r.2) == find_best_cut_spec(
            samples@,
            search_start as int,
            search_end as int,
            *config,
        ),
{
    let n: usize = samples.len();
    let ss: usize = if search_start <= n {
        search_start
    } else {
        n
    };
    let se: usize = if search_end <= n {
        search_end
    } else {
        n
    };
    if ss >= se {
        return (ss, 0, true);
    }
    let bound = silence_bound(config);
    let mut best_pos: usize = ss;
    let mut best_energy: u64 = u64::MAX;
    let mut found_silence: bool = false;
    let mut pos: usize = ss;
    while pos <= se && se - pos >= config.window_samples
        invariant
            ss <= pos,
            pos <= se + config.step_samples,
            n <= 0x4000_0000,
            se <= n == samples@.len(),
            samples_ok(samples@),
            config.wf(),
            bound as int == (config.silence_threshold_micro as int) * (
            config.silence_threshold_micro as int) * (config.window_samples as int),
            scan_from_spec(
                samples@,
                pos as int,
                se as int,
                *config,
                best_pos as int,
                best_energy as int,
                found_silence,
            ) == scan_from_spec(
                samples@,
                ss as int,
                se as int,
                *config,
                ss as int,
                u64::MAX as int,
                false,
            ),
        decreases (if pos <= se { se - pos } else { 0int }),
    {
        let energy = window_energy(samples, pos, config.window_samples);
        let center: usize = pos + config.window_samples / 2;
        let silent = energy < bound;
        if silent && (!found_silence || energy < best_energy) {
            best_pos = center;
            best_energy = energy;
            found_silence = true;
        } else if !silent && !found_silence && energy < best_energy {
            best_pos = center;
            best_energy = energy;
        }
        pos = pos + config.step_samples;
    }
    (best_pos, best_energy, found_silence)
}

/// The scan's silence flag is set exactly when a silent window is scanned
/// or one was already found, and the reported energy is minimal among the
/// carried best and the scanned silent windows' energies.
pub proof fn lemma_scan_silence_minimal(
    s: Seq<i32>,
    pos: int,
    search_end: int,
    cfg: VadConfig,
    best_pos: int,
    best_energy: int,
    found_silence: bool,
)
    requires
        cfg.wf(),
        0 <= pos,
    ensures
        ({
            let r = scan_from_spec(s, pos, search_end, cfg, best_pos, best_energy, found_silence);
            &&& r.2 == (found_silence || exists|k: int|
                is_scanned_window(pos, search_end, cfg, k) && is_silent_at(s, k, cfg))
            &&& (!found_silence && r.2) ==> (exists|k: int|
                is_scanned_window(pos, search_end, cfg, k) && is_silent_at(s, k, cfg) && r.1
                    == window_energy_spec(s, k, cfg.window_samples as int))
            &&& (!found_silence && r.2) ==> (forall|k: int|
                is_scanned_window(pos, search_end, cfg, k) && is_silent_at(s, k, cfg)
                    ==> window_energy_spec(s, k, cfg.window_samples as int) >= r.1)
            &&& found_silence ==> (r.1 <= best_energy && (forall|k: int|
                is_scanned_window(pos, search_end, cfg, k) && is_silent_at(s, k, cfg)
                    ==> window_energy_spec(s, k, cfg.window_samples as int) >= r.1) && (r.1
                == best_energy || exists|k: int|
                is_scanned_window(pos, search_end, cfg, k) && is_silent_at(s, k, cfg) && r.1
                    == window_energy_spec(s, k, cfg.window_samples as int)))
        }),
    decreases (if search_end - pos < 0 { 0int } else { search_end - pos }),
{
    if pos + cfg.window_samples as int <= search_end {
        let e = window_energy_spec(s, pos, cfg.window_samples as int);
        let center = pos + cfg.window_samples as int / 2;
        let silent = is_silent_at(s, pos, cfg);
        let next = pos + cfg.step_samples as int;
        assert(is_scanned_window(pos, search_end, cfg, pos)) by {
            assert((pos - pos) % (cfg.step_samples as int) == 0int) by (nonlinear_arith)
                requires
                    cfg.step_samples as int >= 1,
            ;
        }
        assert forall|k: int| is_scanned_window(next, search_end, cfg, k) implies
            is_scanned_window(pos, search_end, cfg, k) by {
            lemma_scanned_shift(pos, search_end, cfg, k);
        }
        assert forall|k: int|
            is_scanned_window(pos, search_end, cfg, k) && k != pos implies is_scanned_window(
            next,
            search_end,
            cfg,
            k,
        ) by {
            lemma_scanned_shift_back(pos, search_end, cfg, k);
        }
        if silent && (!found_silence || e < best_energy) {
            lemma_scan_silence_minimal(s, next, search_end, cfg, center, e, true);
        } else if !silent && !found_silence && e < best_energy {
            lemma_scan_silence_minimal(s, next, search_end, cfg, center, e, false);
        } else {
            lemma_scan_silence_minimal(
                s,
                next,
                search_end,
                cfg,
                best_pos,
                best_energy,
                found_silence,
            );
        }
    }
}

/// Whether `k` is a window start the scan from `pos` visits.
pub open spec fn is_scanned_window(pos: int, search_end: int, cfg: VadConfig, k: int) -> bool {
    k >= pos && (k - pos) % (cfg.step_samples as int) == 0 && k + cfg.window_samples as int
        <= search_end
}

proof fn lemma_scanned_shift(pos: int, search_end: int, cfg: VadConfig, k: int)
    requires
        cfg.wf(),
        is_scanned_window(pos + cfg.step_samples as int, search_end, cfg, k),
    ensures
        is_scanned_window(pos, search_end, cfg, k),
{
    let st = cfg.step_samples as int;
    assert((k - pos) % st == 0) by (nonlinear_arith)
        requires
            st >= 1,
            (k - (pos + st)) % st == 0,
    ;
}

proof fn lemma_scanned_shift_back(pos: int, search_end: int, cfg: VadConfig, k: int)
    requires
        cfg.wf(),
        is_scanned_window(pos, search_end, cfg, k),
        k != pos,
    ensures
        is_scanned_window(pos + cfg.step_samples as int, search_end, cfg, k),
{
    let st = cfg.step_samples as int;
    assert(k >= pos + st && (k - (pos + st)) % st == 0) by (nonlinear_arith)
        requires
            st >= 1,
            k > pos,
            (k - pos) % st == 0,
    ;
}

/// If any scanned window in the search range is silent, the best cut is
/// reported as silence and its energy is the minimum energy over the silent
/// windows.
pub proof fn lemma_find_best_cut_silence(
    s: Seq<i32>,
    search_start: int,
    search_end: int,
    cfg: VadConfig,
)
    requires
        cfg.wf(),
        0 <= search_start <= search_end <= s.len(),
        exists|k: int|
            is_scanned_window(search_start, search_end, cfg, k) && is_silent_at(s, k, cfg),
    ensures
        ({
            let r = find_best_cut_spec(s, search_start, search_end, cfg);
            &&& r.2
            &&& exists|k: int|
                is_scanned_window(search_start, search_end, cfg, k) && is_silent_at(s, k, cfg)
                    && r.1 == window_energy_spec(s, k, cfg.window_samples as int)
            &&& forall|k: int|
                is_scanned_window(search_start, search_end, cfg, k) && is_silent_at(s, k, cfg)
                    ==> window_energy_spec(s, k, cfg.window_samples as int) >= r.1
        }),
{
    let kw = choose|k: int|
        is_scanned_window(search_start, search_end, cfg, k) && is_silent_at(s, k, cfg);
    assert(search_start < search_end) by {
        assert(kw + cfg.window_samples as int <= search_end);
        assert(kw >= search_start);
    }
    lemma_scan_silence_minimal(s, search_start, search_end, cfg, search_start, u64::MAX as int, false);
}

/// All silence regions: maximal runs of consecutive silent frames, as
/// `(start_sample, end_sample)` pairs; a trailing run ends at the sample
/// count.
pub open spec fn regions_from_spec(
    frames: Seq<VadFrame>,
    i: int,
    in_silence: bool,
    region_start: int,
    total: int,
) -> Seq<(int, int)>
    decreases frames.len() - i,
    when 0 <= i <= frames.len()
{
    if i >= frames.len() {
        if in_silence {
            seq![(region_start, total)]
        } else {
            Seq::empty()
        }
    } else if frames[i].is_silence && !in_silence {
        regions_from_spec(frames, i + 1, true, frames[i].start_sample as int, total)
    } else if !frames[i].is_silence && in_silence {
        seq![(region_start, frames[i].start_sample as int)] + regions_from_spec(
            frames,
            i + 1,
            false,
            0,
            total,
        )
    } else {
        regions_from_spec(frames, i + 1, in_silence, region_start, total)
    }
}

/// Finds all silence regions of the sample run.
pub fn find_silence_regions(samples: &Vec<i32>, config: &VadConfig) -> (r: Vec<(usize, usize)>)
    requires
        samples_ok(samples@),
        config.wf(),
        samples@.len() <= 0x4000_0000,
    ensures
        Seq::new(r@.len(), |i: int| (r@[i].0 as int, r@[i].1 as int)) == regions_from_spec(
            frames_spec(samples@, *config),
            0,
            false,
            0,
            samples@.len() as int,
        ),
{
    let frames = analyze_audio(samples, config);
    let n: usize = frames.len();
    let total: usize = samples.len();
    let mut r: Vec<(usize, usize)> = Vec::new();
    let mut in_silence: bool = false;
    let mut region_start: usize = 0;
    let ghost fs = frames@;
    let mut i: usize = 0;
    proof {
        assert(Seq::new(r@.len(), |x: int| (r@[x].0 as int, r@[x].1 as int)) =~= Seq::<
            (int, int),
        >::empty());
    }
    while i < n
        invariant
            i <= n,
            n == fs.len(),
            fs == frames@,
            total == samples@.len(),
            !in_silence ==> region_start == 0,
            Seq::new(r@.len(), |x: int| (r@[x].0 as int, r@[x].1 as int)) + regions_from_spec(
                fs,
                i as int,
                in_silence,
                region_start as int,
                total as int,
            ) == regions_from_spec(fs, 0, false, 0, total as int),
        decreases n - i,
    {
        let f = &frames[i];
        if f.is_silence && !in_silence {
            region_start = f.start_sample;
            in_silence = true;
        } else if !f.is_silence && in_silence {
            let ghost old_view = Seq::new(r@.len(), |x: int| (r@[x].0 as int, r@[x].1 as int));
            r.push((region_start, f.start_sample));
            proof {
                let new_view = Seq::new(r@.len(), |x: int| (r@[x].0 as int, r@[x].1 as int));
                assert(new_view =~= old_view.push(
                    (region_start as int, f.start_sample as int),
                ));
                let rest = regions_from_spec(fs, i + 1, false, 0, total as int);
                assert((old_view.push((region_start as int, f.start_sample as int))) + rest =~=
                    old_view + (seq![(region_start as int, f.start_sample as int)] + rest));
            }
            in_silence = false;
            region_start = 0;
        }
        i = i + 1;
    }
    if in_silence {
        let ghost old_view = Seq::new(r@.len(), |x: int| (r@[x].0 as int, r@[x].1 as int));
        r.push((region_start, total));
        proof {
            let new_view = Seq::new(r@.len(), |x: int| (r@[x].0 as int, r@[x].1 as int));
            assert(new_view =~= old_view.push((region_start as int, total as int)));
            assert(old_view.push((region_start as int, total as int)) =~= old_view + seq![
                (region_start as int, total as int),
            ]);
        }
    } else {
        proof {
            assert(Seq::new(r@.len(), |x: int| (r@[x].0 as int, r@[x].1 as int)) + Seq::<
                (int, int),
            >::empty() =~= Seq::new(r@.len(), |x: int| (r@[x].0 as int, r@[x].1 as int)));
        }
    }
    r
}

} // verus!
