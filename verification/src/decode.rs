//! The token-and-duration transducer decode core.
//!
//! At every step the joint network yields scores for the 8193 token classes
//! followed by 5 duration classes. Scores are integer-scaled logits. The
//! temperature divides every token score alike, so it never changes which
//! token wins; what it does change is the weight of the blank penalty
//! relative to the scores. Both effects are captured exactly, without
//! division, by subtracting `penalty * temperature` (both in permille) from
//! the blank score: every adjusted score is the original one scaled by the
//! positive temperature, which preserves all comparisons, argmax choices,
//! and cumulative-score rankings.

use vstd::prelude::*;

use crate::config::DecodingConfig;
use crate::decoder::{BLANK_TOKEN, MODEL_VOCAB_SIZE};
use crate::engine::TranscriptionLanguage;

verus! {

/// The number of TDT duration classes: 1 to 5 frames.
pub const NUM_DURATION_CLASSES: usize = 5;

/// The largest magnitude a raw step score may carry.
pub const SCORE_LIMIT: i64 = 1_000_000_000_000;

/// A bound on the magnitude of any adjusted score: the raw limit plus the
/// largest blank adjustment (penalty times temperature, both in permille).
pub const SCORE_STEP_BOUND: i64 = 66_000_000_000_000;

/// The sentinel that marks an already-taken slot during top-k selection;
/// strictly below every adjusted score.
pub const SCORE_SENTINEL: i64 = -66_000_000_000_001;

/// An accumulation limit that a beam score can never exceed within the
/// iteration budget.
pub const SCORE_ACC_LIMIT: i64 = 1_400_000_000_000_000_000;

/// The hard cap on valid encoder time steps accepted by the decode loops.
pub const MAX_DECODE_TIME: usize = 2048;

/// The joint network's output for one step: token scores then duration
/// scores, as integer-scaled logits.
#[derive(Debug, Clone)]
pub struct StepScores {
    pub token_scores: Vec<i64>,
    pub duration_scores: Vec<i64>,
}

impl StepScores {
    /// Shape and bounds of a step's scores.
    pub open spec fn wf(self) -> bool {
        &&& self.token_scores@.len() == MODEL_VOCAB_SIZE
        &&& self.duration_scores@.len() == NUM_DURATION_CLASSES
        &&& forall|i: int|
            0 <= i < self.token_scores@.len() ==> -SCORE_LIMIT <= #[trigger] self.token_scores@[i]
                <= SCORE_LIMIT
        &&& forall|i: int|
            0 <= i < self.duration_scores@.len() ==> -SCORE_LIMIT
                <= #[trigger] self.duration_scores@[i] <= SCORE_LIMIT
    }
}

/// The integer view of a score vector.
pub open spec fn int_view(s: Seq<i64>) -> Seq<int> {
    s.map_values(|x: i64| x as int)
}

/// The score at `idx` after the blank adjustment: the blank penalty scaled
/// by the temperature is taken off the blank score.
pub open spec fn adjusted_score_spec(raw: int, idx: int, cfg: DecodingConfig) -> int {
    if idx == BLANK_TOKEN as int {
        raw - (cfg.blank_penalty_permille as int) * (cfg.temperature_permille as int)
    } else {
        raw
    }
}

/// All token scores after the blank adjustment.
pub open spec fn adjusted_seq_spec(ts: Seq<i64>, cfg: DecodingConfig) -> Seq<int> {
    Seq::new(ts.len(), |i: int| adjusted_score_spec(ts[i] as int, i, cfg))
}

/// The index of the first maximum among the first `n` entries.
pub open spec fn first_argmax_upto(s: Seq<int>, n: int) -> int
    decreases n,
{
    if n <= 1 {
        0
    } else {
        let p = first_argmax_upto(s, n - 1);
        if s[n - 1] > s[p] {
            n - 1
        } else {
            p
        }
    }
}

/// The index of the first maximum of a non-empty sequence.
pub open spec fn first_argmax(s: Seq<int>) -> int {
    first_argmax_upto(s, s.len() as int)
}

/// The first argmax is an index of a maximal value, and earlier entries are
/// strictly smaller.
pub proof fn lemma_first_argmax_props(s: Seq<int>, n: int)
    requires
        1 <= n <= s.len(),
    ensures
        0 <= first_argmax_upto(s, n) < n,
        forall|j: int| 0 <= j < n ==> #[trigger] s[j] <= s[first_argmax_upto(s, n)],
        forall|j: int| 0 <= j < first_argmax_upto(s, n) ==> #[trigger] s[j] < s[first_argmax_upto(s, n)],
    decreases n,
{
    if n > 1 {
        lemma_first_argmax_props(s, n - 1);
    }
}

/// The token and duration a step decodes to: first argmax over the adjusted
/// token scores, and first argmax over the duration scores plus one.
pub open spec fn step_token_spec(step: StepScores, cfg: DecodingConfig) -> int {
    first_argmax(adjusted_seq_spec(step.token_scores@, cfg))
}

pub open spec fn step_duration_spec(step: StepScores) -> int {
    first_argmax(int_view(step.duration_scores@)) + 1
}

/// The index of the first maximum of a non-empty `i64` vector.
fn first_argmax_vec(v: &Vec<i64>) -> (r: usize)
    requires
        v@.len() > 0,
    ensures
        r as int == first_argmax(int_view(v@)),
        r < v@.len(),
{
    let n: usize = v.len();
    let mut best: usize = 0;
    let mut best_val: i64 = v[0];
    let mut i: usize = 1;
    proof {
        lemma_first_argmax_props(int_view(v@), 1);
        assert(int_view(v@)[0] == v@[0] as int);
    }
    while i < n
        invariant
            1 <= i <= n,
            n == v@.len(),
            best < i,
            best as int == first_argmax_upto(int_view(v@), i as int),
            best_val == v@[best as int],
        decreases n - i,
    {
        proof {
            assert(int_view(v@)[i as int] == v@[i as int] as int);
            assert(int_view(v@)[best as int] == v@[best as int] as int);
        }
        if v[i] > best_val {
            best = i;
            best_val = v[i];
        }
        i = i + 1;
    }
    best
}

/// The adjusted token scores of a step, materialized.
fn adjusted_scores(step: &StepScores, cfg: &DecodingConfig) -> (r: Vec<i64>)
    requires
        step.wf(),
        cfg.wf(),
    ensures
        int_view(r@) == adjusted_seq_spec(step.token_scores@, *cfg),
        r@.len() == MODEL_VOCAB_SIZE,
        forall|i: int| 0 <= i < r@.len() ==> -SCORE_STEP_BOUND <= #[trigger] r@[i]
            <= SCORE_STEP_BOUND,
{
    proof {
        assert((cfg.blank_penalty_permille as int) * (cfg.temperature_permille as int) <= 15_000
            * 0x1_0000_0000) by (nonlinear_arith)
            requires
                cfg.blank_penalty_permille <= 15_000,
                cfg.temperature_permille <= 0x1_0000_0000,
        ;
        assert((cfg.blank_penalty_permille as int) * (cfg.temperature_permille as int) >= 0)
            by (nonlinear_arith)
            requires
                cfg.blank_penalty_permille >= 0,
                cfg.temperature_permille >= 0,
        ;
    }
    let adjustment: i64 = (cfg.blank_penalty_permille as i64) * (cfg.temperature_permille as i64);
    let n: usize = step.token_scores.len();
    let mut r: Vec<i64> = Vec::new();
    let mut i: usize = 0;
    while i < n
        invariant
            i <= n,
            n == step.token_scores@.len(),
            step.wf(),
            0 <= adjustment as int <= 15_000 * 0x1_0000_0000,
            adjustment as int == (cfg.blank_penalty_permille as int) * (
            cfg.temperature_permille as int),
            r@.len() == i,
            forall|j: int|
                0 <= j < i ==> #[trigger] r@[j] as int == adjusted_score_spec(
                    step.token_scores@[j] as int,
                    j,
                    *cfg,
                ),
            forall|j: int| 0 <= j < i ==> -SCORE_STEP_BOUND <= #[trigger] r@[j]
                <= SCORE_STEP_BOUND,
        decreases n - i,
    {
        let raw: i64 = step.token_scores[i];
        if i == BLANK_TOKEN as usize {
            r.push(raw - adjustment);
        } else {
            r.push(raw);
        }
        i = i + 1;
    }
    proof {
        assert(int_view(r@) =~= adjusted_seq_spec(step.token_scores@, *cfg));
    }
    r
}

/// Decodes one joint output: the winning token (first argmax over the
/// adjusted scores) and the duration class plus one, so durations range
/// over one to five frames.
pub fn decode_tdt_output(step: &StepScores, cfg: &DecodingConfig) -> (r: (u32, u32))
    requires
        step.wf(),
        cfg.wf(),
    ensures
        r.0 as int == step_token_spec(*step, *cfg),
        r.1 as int == step_duration_spec(*step),
        r.0 < MODEL_VOCAB_SIZE as u32,
        1 <= r.1 <= NUM_DURATION_CLASSES as u32,
{
    let adj = adjusted_scores(step, cfg);
    let token = first_argmax_vec(&adj);
    let dur_idx = first_argmax_vec(&step.duration_scores);
    proof {
        lemma_first_argmax_props(adjusted_seq_spec(step.token_scores@, *cfg), MODEL_VOCAB_SIZE as int);
        lemma_first_argmax_props(int_view(step.duration_scores@), NUM_DURATION_CLASSES as int);
    }
    (token as u32, (dur_idx + 1) as u32)
}

/// The top `k` (index, adjusted score) pairs, taken by repeatedly picking
/// the first maximum and blanking it to the sentinel; this matches a stable
/// sort by descending score, ties resolved by index order.
pub open spec fn spec_top_k(s: Seq<int>, k: int) -> Seq<(int, int)>
    decreases k,
{
    if k <= 0 || s.len() == 0 {
        Seq::empty()
    } else {
        let i = first_argmax(s);
        seq![(i, s[i])] + spec_top_k(s.update(i, SCORE_SENTINEL as int), k - 1)
    }
}

/// Values selected by top-k stay within the bounds of the input values,
/// extended down to the sentinel.
pub proof fn lemma_top_k_bounds(s: Seq<int>, k: int, b: int)
    requires
        forall|i: int| 0 <= i < s.len() ==> SCORE_SENTINEL as int <= #[trigger] s[i] <= b,
        SCORE_SENTINEL as int <= b,
    ensures
        spec_top_k(s, k).len() == if k <= 0 || s.len() == 0 {
            0int
        } else {
            k
        },
        forall|j: int|
            0 <= j < spec_top_k(s, k).len() ==> SCORE_SENTINEL as int <= (
            #[trigger] spec_top_k(s, k)[j]).1 <= b && 0 <= spec_top_k(s, k)[j].0 < s.len(),
    decreases k,
{
    if k > 0 && s.len() > 0 {
        lemma_first_argmax_props(s, s.len() as int);
        let i = first_argmax(s);
        let s2 = s.update(i, SCORE_SENTINEL as int);
        assert(forall|j: int| 0 <= j < s2.len() ==> SCORE_SENTINEL as int <= #[trigger] s2[j] <= b);
        lemma_top_k_bounds(s2, k - 1, b);
    }
}

/// The view of a top-k result as index and score integers.
pub open spec fn pairs_int_view(r: Seq<(u32, i64)>) -> Seq<(int, int)> {
    Seq::new(r.len(), |i: int| (r[i].0 as int, r[i].1 as int))
}

/// The top `k` tokens of a step with their adjusted scores, capped at the
/// vocabulary size.
pub fn top_k_tokens(step: &StepScores, cfg: &DecodingConfig, k: usize) -> (r: Vec<(u32, i64)>)
    requires
        step.wf(),
        cfg.wf(),
    ensures
        pairs_int_view(r@) == spec_top_k(
            adjusted_seq_spec(step.token_scores@, *cfg),
            if k <= MODEL_VOCAB_SIZE {
                k as int
            } else {
                MODEL_VOCAB_SIZE as int
            },
        ),
        forall|j: int| 0 <= j < r@.len() ==> -SCORE_STEP_BOUND - 1 <= (#[trigger] r@[j]).1
            <= SCORE_STEP_BOUND && r@[j].0 < MODEL_VOCAB_SIZE as u32,
{
    let kk: usize = if k <= MODEL_VOCAB_SIZE {
        k
    } else {
        MODEL_VOCAB_SIZE
    };
    let mut pool = adjusted_scores(step, cfg);
    let ghost full = adjusted_seq_spec(step.token_scores@, *cfg);
    let mut r: Vec<(u32, i64)> = Vec::new();
    let mut taken: usize = 0;
    proof {
        assert(pairs_int_view(r@) =~= Seq::<(int, int)>::empty());
    }
    while taken < kk
        invariant
            taken <= kk <= MODEL_VOCAB_SIZE,
            pool@.len() == MODEL_VOCAB_SIZE,
            r@.len() == taken,
            forall|i: int| 0 <= i < pool@.len() ==> SCORE_SENTINEL <= #[trigger] pool@[i]
                <= SCORE_STEP_BOUND,
            pairs_int_view(r@) + spec_top_k(int_view(pool@), kk - taken) == spec_top_k(
                full,
                kk as int,
            ),
            forall|j: int| 0 <= j < r@.len() ==> -SCORE_STEP_BOUND - 1 <= (#[trigger] r@[j]).1
                <= SCORE_STEP_BOUND && r@[j].0 < MODEL_VOCAB_SIZE as u32,
        decreases kk - taken,
    {
        let i = first_argmax_vec(&pool);
        let val: i64 = pool[i];
        let ghost pool_pre = int_view(pool@);
        proof {
            lemma_first_argmax_props(pool_pre, pool_pre.len() as int);
            assert(pool_pre[i as int] == pool@[i as int] as int);
            assert(spec_top_k(pool_pre, kk - taken) == seq![(i as int, val as int)] + spec_top_k(
                pool_pre.update(i as int, SCORE_SENTINEL as int),
                kk - taken - 1,
            ));
        }
        pool.set(i, SCORE_SENTINEL);
        let ghost old_r = pairs_int_view(r@);
        r.push((i as u32, val));
        proof {
            assert(int_view(pool@) =~= pool_pre.update(i as int, SCORE_SENTINEL as int));
            assert(pairs_int_view(r@) =~= old_r.push((i as int, val as int)));
            assert((old_r + (seq![(i as int, val as int)] + spec_top_k(
                int_view(pool@),
                kk - taken - 1,
            ))) =~= (old_r.push((i as int, val as int))) + spec_top_k(
                int_view(pool@),
                kk - taken - 1,
            ));
        }
        taken = taken + 1;
    }
    proof {
        assert(spec_top_k(int_view(pool@), 0) =~= Seq::<(int, int)>::empty());
        assert(pairs_int_view(r@) + Seq::<(int, int)>::empty() =~= pairs_int_view(r@));
    }
    r
}

// ---------------------------------------------------------------------------
// Greedy decoding
// ---------------------------------------------------------------------------

/// The running state of greedy TDT decoding. `last_token` is what the next
/// decoder call is fed; the language priming step seeds it.
#[derive(Debug, Clone)]
pub struct GreedyState {
    /// The emitted (non-blank) tokens so far.
    pub tokens: Vec<u32>,
    /// The token fed to the next decoder step.
    pub last_token: u32,
    /// The current encoder frame.
    pub t: usize,
    /// How many joint steps have been taken.
    pub steps_taken: usize,
}

/// The ghost mirror of a greedy state.
pub struct GreedyModel {
    pub tokens: Seq<u32>,
    pub last_token: u32,
    pub t: int,
    pub steps_taken: int,
}

pub open spec fn greedy_view(s: GreedyState) -> GreedyModel {
    GreedyModel {
        tokens: s.tokens@,
        last_token: s.last_token,
        t: s.t as int,
        steps_taken: s.steps_taken as int,
    }
}

/// The token that seeds the decoder: the language's priming token, or the
/// blank for automatic language selection.
pub open spec fn priming_token_spec(language: TranscriptionLanguage) -> u32 {
    match language {
        TranscriptionLanguage::Auto => BLANK_TOKEN,
        TranscriptionLanguage::French => 71u32,
        TranscriptionLanguage::English => 64u32,
    }
}

pub open spec fn greedy_init_spec(language: TranscriptionLanguage) -> GreedyModel {
    GreedyModel {
        tokens: Seq::empty(),
        last_token: priming_token_spec(language),
        t: 0,
        steps_taken: 0,
    }
}

/// One greedy transition on a step's scores: a non-blank winner is emitted
/// and becomes the decoder context; the frame pointer advances by the
/// decoded duration either way.
pub open spec fn greedy_step_spec(
    m: GreedyModel,
    step: StepScores,
    cfg: DecodingConfig,
) -> GreedyModel {
    let tok = step_token_spec(step, cfg);
    let dur = step_duration_spec(step);
    if tok == BLANK_TOKEN as int {
        GreedyModel {
            tokens: m.tokens,
            last_token: m.last_token,
            t: m.t + dur,
            steps_taken: m.steps_taken + 1,
        }
    } else {
        GreedyModel {
            tokens: m.tokens.push(tok as u32),
            last_token: tok as u32,
            t: m.t + dur,
            steps_taken: m.steps_taken + 1,
        }
    }
}

/// The greedy loop over a step table: the state after consuming steps while
/// the frame pointer is inside the valid range, within the iteration budget
/// and the table.
pub open spec fn spec_greedy_loop(
    m: GreedyModel,
    steps: Seq<StepScores>,
    valid_time: int,
    maxit: int,
    cfg: DecodingConfig,
) -> GreedyModel
    decreases steps.len() - m.steps_taken,
    when 0 <= m.steps_taken <= steps.len()
{
    if m.t >= valid_time || m.steps_taken >= maxit || m.steps_taken >= steps.len() {
        m
    } else {
        spec_greedy_loop(greedy_step_spec(m, steps[m.steps_taken], cfg), steps, valid_time, maxit, cfg)
    }
}

/// The tokens greedy decoding emits for a step table.
pub open spec fn spec_greedy_decode(
    steps: Seq<StepScores>,
    valid_time: int,
    maxit: int,
    cfg: DecodingConfig,
    language: TranscriptionLanguage,
) -> Seq<u32> {
    spec_greedy_loop(greedy_init_spec(language), steps, valid_time, maxit, cfg).tokens
}

/// The initial greedy state, seeded with the language's priming token; with
/// `Auto` the decoder context starts at the blank token.
pub fn greedy_init(language: TranscriptionLanguage) -> (r: GreedyState)
    ensures
        greedy_view(r) == greedy_init_spec(language),
        r.tokens@.len() == 0,
        r.t == 0,
        r.steps_taken == 0,
        language == TranscriptionLanguage::French ==> r.last_token == 71,
        language == TranscriptionLanguage::English ==> r.last_token == 64,
        language == TranscriptionLanguage::Auto ==> r.last_token == BLANK_TOKEN,
{
    let last: u32 = match language.token_id() {
        Some(id) => id as u32,
        None => BLANK_TOKEN,
    };
    let r = GreedyState { tokens: Vec::new(), last_token: last, t: 0, steps_taken: 0 };
    proof {
        assert(greedy_view(r) =~= greedy_init_spec(language)) by {
            assert(r.tokens@ =~= Seq::<u32>::empty());
        }
    }
    r
}

/// One greedy decoding step on the scores the joint network returned for
/// the current frame and context.
pub fn greedy_step(state: GreedyState, step: &StepScores, cfg: &DecodingConfig) -> (r: GreedyState)
    requires
        step.wf(),
        cfg.wf(),
        state.t <= MAX_DECODE_TIME + NUM_DURATION_CLASSES,
        state.steps_taken < usize::MAX,
        state.tokens@.len() < usize::MAX,
    ensures
        greedy_view(r) == greedy_step_spec(greedy_view(state), *step, *cfg),
        state.t <= r.t <= state.t + NUM_DURATION_CLASSES,
        r.steps_taken == state.steps_taken + 1,
        r.tokens@.len() <= state.tokens@.len() + 1,
{
    let (token, duration) = decode_tdt_output(step, cfg);
    let mut s = state;
    if token != BLANK_TOKEN {
        s.tokens.push(token);
        s.last_token = token;
    }
    s.t = s.t + duration as usize;
    s.steps_taken = s.steps_taken + 1;
    proof {
        assert(greedy_view(s) =~= greedy_step_spec(greedy_view(state), *step, *cfg));
    }
    s
}

/// Whether the greedy loop is done for the given valid time and budget.
pub fn greedy_done(state: &GreedyState, valid_time: usize) -> (r: bool)
    requires
        valid_time <= MAX_DECODE_TIME,
    ensures
        r == (state.t >= valid_time || state.steps_taken as int >= 10 * valid_time as int),
{
    state.t >= valid_time || state.steps_taken >= 10 * valid_time
}

/// Greedy decoding over a precomputed step table: step `i` of the table is
/// what the joint network returned at the `i`-th iteration. Decoding stops
/// at the valid time, at ten iterations per valid frame, or when the table
/// is exhausted.
pub fn greedy_decode_table(
    steps: &Vec<StepScores>,
    valid_time: usize,
    cfg: &DecodingConfig,
    language: TranscriptionLanguage,
) -> (r: Vec<u32>)
    requires
        cfg.wf(),
        valid_time <= MAX_DECODE_TIME,
        forall|i: int| 0 <= i < steps@.len() ==> (#[trigger] steps@[i]).wf(),
    ensures
        r@ == spec_greedy_decode(steps@, valid_time as int, 10 * valid_time as int, *cfg, language),
{
    let maxit: usize = 10 * valid_time;
    let mut state = greedy_init(language);
    let ghost target = spec_greedy_loop(
        greedy_init_spec(language),
        steps@,
        valid_time as int,
        maxit as int,
        *cfg,
    );
    let n: usize = steps.len();
    while state.t < valid_time && state.steps_taken < maxit && state.steps_taken < n
        invariant
            cfg.wf(),
            valid_time <= MAX_DECODE_TIME,
            maxit == 10 * valid_time,
            n == steps@.len(),
            forall|i: int| 0 <= i < steps@.len() ==> (#[trigger] steps@[i]).wf(),
            state.steps_taken <= n,
            state.steps_taken <= maxit,
            state.t <= MAX_DECODE_TIME + NUM_DURATION_CLASSES,
            state.tokens@.len() <= state.steps_taken,
            spec_greedy_loop(greedy_view(state), steps@, valid_time as int, maxit as int, *cfg)
                == target,
        decreases n - state.steps_taken,
    {
        let idx: usize = state.steps_taken;
        let step = &steps[idx];
        state = greedy_step(state, step, cfg);
    }
    proof {
        assert(spec_greedy_loop(greedy_view(state), steps@, valid_time as int, maxit as int, *cfg)
            == greedy_view(state));
    }
    state.tokens
}

// ---------------------------------------------------------------------------
// Beam search
// ---------------------------------------------------------------------------

/// A beam-search hypothesis. The LSTM tensors belong to the caller; a
/// hypothesis refers to its decoder state by `state_id`, and successors of a
/// non-blank emission take over the id of the freshly computed state.
#[derive(Debug, Clone)]
pub struct BeamHypothesis {
    /// Emitted tokens so far.
    pub tokens: Vec<u32>,
    /// Cumulative adjusted score.
    pub score: i64,
    /// Last emitted token, or the blank.
    pub last_token: u32,
    /// Current position in the encoder output.
    pub current_time: usize,
    /// The caller's handle for this hypothesis's decoder state.
    pub state_id: usize,
}

/// The ghost mirror of a hypothesis.
pub struct HypModel {
    pub tokens: Seq<u32>,
    pub score: int,
    pub last_token: u32,
    pub t: int,
    pub state_id: int,
}

pub open spec fn hyp_view(h: BeamHypothesis) -> HypModel {
    HypModel {
        tokens: h.tokens@,
        score: h.score as int,
        last_token: h.last_token,
        t: h.current_time as int,
        state_id: h.state_id as int,
    }
}

pub open spec fn hyps_view(hs: Seq<BeamHypothesis>) -> Seq<HypModel> {
    Seq::new(hs.len(), |i: int| hyp_view(hs[i]))
}

/// The scores of a hypothesis list.
pub open spec fn scores_of(hs: Seq<HypModel>) -> Seq<int> {
    Seq::new(hs.len(), |i: int| hs[i].score)
}

/// The successor of a hypothesis for one candidate token: a blank keeps
/// tokens and state and only advances; any other token is appended, becomes
/// the context, and adopts the new decoder state.
pub open spec fn successor_spec(h: HypModel, tok: int, val: int, dur: int, new_sid: int) -> HypModel {
    if tok == BLANK_TOKEN as int {
        HypModel {
            tokens: h.tokens,
            score: h.score + val,
            last_token: h.last_token,
            t: h.t + dur,
            state_id: h.state_id,
        }
    } else {
        HypModel {
            tokens: h.tokens.push(tok as u32),
            score: h.score + val,
            last_token: tok as u32,
            t: h.t + dur,
            state_id: new_sid,
        }
    }
}

/// The successors of one active hypothesis: one per top-k candidate token,
/// all sharing the step's argmax duration.
pub open spec fn expand_one_spec(
    h: HypModel,
    step: StepScores,
    new_sid: int,
    cfg: DecodingConfig,
    width: int,
) -> Seq<HypModel> {
    let tops = spec_top_k(
        adjusted_seq_spec(step.token_scores@, cfg),
        if width <= MODEL_VOCAB_SIZE as int {
            width
        } else {
            MODEL_VOCAB_SIZE as int
        },
    );
    let dur = step_duration_spec(step);
    Seq::new(tops.len(), |j: int| successor_spec(h, tops[j].0, tops[j].1, dur, new_sid))
}

/// How many hypotheses from index `i` on are still inside the valid range.
pub open spec fn active_count(hs: Seq<HypModel>, valid_time: int, i: int) -> int
    decreases hs.len() - i,
    when 0 <= i <= hs.len()
{
    if i >= hs.len() {
        0
    } else {
        (if hs[i].t < valid_time {
            1int
        } else {
            0int
        }) + active_count(hs, valid_time, i + 1)
    }
}

pub proof fn lemma_active_count_bounds(hs: Seq<HypModel>, valid_time: int, i: int)
    requires
        0 <= i <= hs.len(),
    ensures
        0 <= active_count(hs, valid_time, i) <= hs.len() - i,
    decreases hs.len() - i,
{
    if i < hs.len() {
        lemma_active_count_bounds(hs, valid_time, i + 1);
    }
}

/// The expansions of all hypotheses from index `i` on: finished hypotheses
/// are carried over unchanged, each active one consumes the next table step
/// in order and expands.
pub open spec fn expand_all_spec(
    hs: Seq<HypModel>,
    steps: Seq<StepScores>,
    cursor: int,
    cfg: DecodingConfig,
    width: int,
    valid_time: int,
    i: int,
) -> Seq<HypModel>
    decreases hs.len() - i,
    when 0 <= i <= hs.len()
{
    if i >= hs.len() {
        Seq::empty()
    } else if hs[i].t >= valid_time {
        seq![hs[i]] + expand_all_spec(hs, steps, cursor, cfg, width, valid_time, i + 1)
    } else {
        expand_one_spec(hs[i], steps[cursor], cursor, cfg, width) + expand_all_spec(
            hs,
            steps,
            cursor + 1,
            cfg,
            width,
            valid_time,
            i + 1,
        )
    }
}

/// Keeps the best `b` hypotheses: repeatedly the first maximum by score, so
/// ties fall to the earlier (insertion-ordered) hypothesis.
pub open spec fn select_top_spec(hs: Seq<HypModel>, b: int) -> Seq<HypModel>
    decreases b,
{
    if b <= 0 || hs.len() == 0 {
        Seq::empty()
    } else {
        let i = first_argmax(scores_of(hs));
        seq![hs[i]] + select_top_spec(hs.remove(i), b - 1)
    }
}

/// The index of the last maximum among the first `n` entries, matching a
/// maximum scan that prefers later entries on ties.
pub open spec fn last_argmax_upto(s: Seq<int>, n: int) -> int
    decreases n,
{
    if n <= 1 {
        0
    } else {
        let p = last_argmax_upto(s, n - 1);
        if s[n - 1] >= s[p] {
            n - 1
        } else {
            p
        }
    }
}

pub proof fn lemma_last_argmax_props(s: Seq<int>, n: int)
    requires
        1 <= n <= s.len(),
    ensures
        0 <= last_argmax_upto(s, n) < n,
        forall|j: int| 0 <= j < n ==> #[trigger] s[j] <= s[last_argmax_upto(s, n)],
    decreases n,
{
    if n > 1 {
        lemma_last_argmax_props(s, n - 1);
    }
}

/// The tokens of the best final hypothesis; ties fall to the last one.
pub open spec fn best_tokens_spec(hs: Seq<HypModel>) -> Seq<u32> {
    if hs.len() == 0 {
        Seq::empty()
    } else {
        hs[last_argmax_upto(scores_of(hs), hs.len() as int)].tokens
    }
}

/// The initial beam: one empty hypothesis at the blank context.
pub open spec fn beam_init_spec() -> HypModel {
    HypModel { tokens: Seq::empty(), score: 0, last_token: BLANK_TOKEN, t: 0, state_id: 0 }
}

/// The beam loop over a step table. Every iteration expands each hypothesis
/// still inside the valid range with its own table step, keeps the best
/// `beam_width` successors, and stops when no hypothesis is active, at ten
/// iterations per valid frame, or when the table cannot serve every active
/// hypothesis.
pub open spec fn spec_beam_loop(
    hs: Seq<HypModel>,
    steps: Seq<StepScores>,
    cursor: int,
    iter: int,
    valid_time: int,
    maxit: int,
    cfg: DecodingConfig,
) -> Seq<u32>
    decreases maxit - iter,
    when iter <= maxit
{
    if iter >= maxit || active_count(hs, valid_time, 0) == 0 || cursor + active_count(
        hs,
        valid_time,
        0,
    ) > steps.len() {
        best_tokens_spec(hs)
    } else {
        spec_beam_loop(
            select_top_spec(
                expand_all_spec(hs, steps, cursor, cfg, cfg.beam_width as int, valid_time, 0),
                cfg.beam_width as int,
            ),
            steps,
            cursor + active_count(hs, valid_time, 0),
            iter + 1,
            valid_time,
            maxit,
            cfg,
        )
    }
}

/// The tokens beam search emits for a step table.
pub open spec fn spec_beam_decode(
    steps: Seq<StepScores>,
    valid_time: int,
    maxit: int,
    cfg: DecodingConfig,
) -> Seq<u32> {
    spec_beam_loop(seq![beam_init_spec()], steps, 0, 0, valid_time, maxit, cfg)
}

/// A property holding of every hypothesis survives top selection.
pub proof fn lemma_select_top_preserves(hs: Seq<HypModel>, b: int, p: spec_fn(HypModel) -> bool)
    requires
        forall|i: int| 0 <= i < hs.len() ==> p(#[trigger] hs[i]),
    ensures
        forall|j: int|
            0 <= j < select_top_spec(hs, b).len() ==> p(#[trigger] select_top_spec(hs, b)[j]),
        select_top_spec(hs, b).len() <= if b >= 0 {
            b
        } else {
            0int
        },
        hs.len() > 0 && b > 0 ==> select_top_spec(hs, b).len() >= 1,
    decreases b,
{
    if b > 0 && hs.len() > 0 {
        lemma_first_argmax_props(scores_of(hs), hs.len() as int);
        let i = first_argmax(scores_of(hs));
        let rest = hs.remove(i);
        assert(forall|j: int| 0 <= j < rest.len() ==> p(#[trigger] rest[j])) by {
            assert(forall|j: int|
                0 <= j < rest.len() ==> rest[j] == (if j < i {
                    hs[j]
                } else {
                    hs[j + 1]
                }));
        }
        lemma_select_top_preserves(rest, b - 1, p);
    }
}

/// The adjusted scores of a well-formed step lie between the sentinel and
/// the step bound, and the decoded duration between one and five.
pub proof fn lemma_step_value_bounds(step: StepScores, cfg: DecodingConfig)
    requires
        step.wf(),
        cfg.wf(),
    ensures
        forall|x: int|
            0 <= x < adjusted_seq_spec(step.token_scores@, cfg).len() ==> SCORE_SENTINEL as int + 1
                <= #[trigger] adjusted_seq_spec(step.token_scores@, cfg)[x]
                <= SCORE_STEP_BOUND as int,
        1 <= step_duration_spec(step) <= NUM_DURATION_CLASSES as int,
{
    let adj = adjusted_seq_spec(step.token_scores@, cfg);
    assert((cfg.blank_penalty_permille as int) * (cfg.temperature_permille as int) <= 15_000 * (
    0x1_0000_0000int)) by (nonlinear_arith)
        requires
            cfg.blank_penalty_permille <= 15_000,
            cfg.temperature_permille <= 0x1_0000_0000,
    ;
    assert((cfg.blank_penalty_permille as int) * (cfg.temperature_permille as int) >= 0)
        by (nonlinear_arith)
        requires
            cfg.blank_penalty_permille >= 0,
            cfg.temperature_permille >= 0,
    ;
    assert forall|x: int| 0 <= x < adj.len() implies SCORE_SENTINEL as int + 1
        <= #[trigger] adj[x] <= SCORE_STEP_BOUND as int by {
        assert(adj[x] == adjusted_score_spec(step.token_scores@[x] as int, x, cfg));
    }
    lemma_first_argmax_props(int_view(step.duration_scores@), step.duration_scores@.len() as int);
}

/// A property closed under successors holds of every expansion.
pub proof fn lemma_expand_all_preserves(
    hs: Seq<HypModel>,
    steps: Seq<StepScores>,
    cursor: int,
    cfg: DecodingConfig,
    width: int,
    valid_time: int,
    i: int,
    p: spec_fn(HypModel) -> bool,
    q: spec_fn(HypModel) -> bool,
)
    requires
        0 <= i <= hs.len(),
        cfg.wf(),
        0 <= cursor,
        cursor + active_count(hs, valid_time, i) <= steps.len(),
        forall|j: int| 0 <= j < steps.len() ==> (#[trigger] steps[j]).wf(),
        forall|j: int| i <= j < hs.len() ==> p(#[trigger] hs[j]),
        forall|h: HypModel, tok: int, val: int, dur: int, sid: int|
            p(h) && h.t < valid_time && SCORE_SENTINEL as int <= val <= SCORE_STEP_BOUND as int
                && 1 <= dur <= NUM_DURATION_CLASSES as int ==> q(
                #[trigger] successor_spec(h, tok, val, dur, sid),
            ),
        forall|h: HypModel| #[trigger] p(h) ==> q(h),
    ensures
        forall|j: int|
            0 <= j < expand_all_spec(hs, steps, cursor, cfg, width, valid_time, i).len() ==> q(
                #[trigger] expand_all_spec(hs, steps, cursor, cfg, width, valid_time, i)[j],
            ),
    decreases hs.len() - i,
{
    let res = expand_all_spec(hs, steps, cursor, cfg, width, valid_time, i);
    if i < hs.len() {
        if hs[i].t >= valid_time {
            lemma_expand_all_preserves(hs, steps, cursor, cfg, width, valid_time, i + 1, p, q);
            let tail = expand_all_spec(hs, steps, cursor, cfg, width, valid_time, i + 1);
            assert forall|j: int| 0 <= j < res.len() implies q(#[trigger] res[j]) by {
                if j == 0 {
                    assert(res[j] == hs[i]);
                    assert(p(hs[i]));
                } else {
                    assert(res[j] == tail[j - 1]);
                }
            }
        } else {
            lemma_active_count_bounds(hs, valid_time, i + 1);
            lemma_expand_all_preserves(hs, steps, cursor + 1, cfg, width, valid_time, i + 1, p, q);
            let tail = expand_all_spec(hs, steps, cursor + 1, cfg, width, valid_time, i + 1);
            let step = steps[cursor];
            lemma_step_value_bounds(step, cfg);
            let adj = adjusted_seq_spec(step.token_scores@, cfg);
            let kk = if width <= MODEL_VOCAB_SIZE as int {
                width
            } else {
                MODEL_VOCAB_SIZE as int
            };
            lemma_top_k_bounds(adj, kk, SCORE_STEP_BOUND as int);
            let tops = spec_top_k(adj, kk);
            let dur = step_duration_spec(step);
            let exp = expand_one_spec(hs[i], step, cursor, cfg, width);
            assert forall|j: int| 0 <= j < res.len() implies q(#[trigger] res[j]) by {
                if j < exp.len() {
                    assert(res[j] == exp[j]);
                    assert(exp[j] == successor_spec(hs[i], tops[j].0, tops[j].1, dur, cursor));
                } else {
                    assert(res[j] == tail[j - exp.len()]);
                }
            }
        }
    }
}

/// The bounds every hypothesis satisfies after `iter` iterations.
pub open spec fn hyp_bounded(h: HypModel, iter: int, valid_time: int) -> bool {
    &&& -(iter * (SCORE_STEP_BOUND + 1)) <= h.score <= iter * (SCORE_STEP_BOUND + 1)
    &&& 0 <= h.t <= valid_time + NUM_DURATION_CLASSES
    &&& h.tokens.len() <= iter
}

/// A copy of a token vector.
fn copy_tokens(v: &Vec<u32>) -> (r: Vec<u32>)
    ensures
        r@ == v@,
{
    let n: usize = v.len();
    let mut r: Vec<u32> = Vec::new();
    let mut i: usize = 0;
    while i < n
        invariant
            i <= n,
            n == v@.len(),
            r@ == v@.subrange(0, i as int),
        decreases n - i,
    {
        r.push(v[i]);
        assert(r@ =~= v@.subrange(0, i + 1));
        i = i + 1;
    }
    assert(r@ =~= v@);
    r
}

/// How many hypotheses are still inside the valid range.
fn count_active(hyps: &Vec<BeamHypothesis>, valid_time: usize) -> (r: usize)
    ensures
        r as int == active_count(hyps_view(hyps@), valid_time as int, 0),
        r <= hyps@.len(),
{
    let n: usize = hyps.len();
    let ghost hv = hyps_view(hyps@);
    let mut count: usize = 0;
    let mut i: usize = 0;
    proof {
        lemma_active_count_bounds(hv, valid_time as int, 0);
    }
    while i < n
        invariant
            i <= n,
            n == hyps@.len(),
            hv == hyps_view(hyps@),
            count <= i,
            count as int + active_count(hv, valid_time as int, i as int) == active_count(
                hv,
                valid_time as int,
                0,
            ),
        decreases n - i,
    {
        proof {
            assert(hv[i as int] == hyp_view(hyps@[i as int]));
        }
        if hyps[i].current_time < valid_time {
            count = count + 1;
        }
        i = i + 1;
    }
    count
}

/// The successors of one active hypothesis for its table step.
fn expand_one(
    h: &BeamHypothesis,
    step: &StepScores,
    new_sid: usize,
    cfg: &DecodingConfig,
    valid_time: usize,
) -> (r: Vec<BeamHypothesis>)
    requires
        step.wf(),
        cfg.wf(),
        h.current_time < valid_time,
        valid_time <= MAX_DECODE_TIME,
        -SCORE_ACC_LIMIT + SCORE_STEP_BOUND + 1 <= h.score <= SCORE_ACC_LIMIT - SCORE_STEP_BOUND
            - 1,
        h.tokens@.len() < usize::MAX,
    ensures
        hyps_view(r@) == expand_one_spec(
            hyp_view(*h),
            *step,
            new_sid as int,
            *cfg,
            cfg.beam_width as int,
        ),
{
    let tops = top_k_tokens(step, cfg, cfg.beam_width);
    let dur_idx = first_argmax_vec(&step.duration_scores);
    let duration: usize = dur_idx + 1;
    proof {
        lemma_first_argmax_props(int_view(step.duration_scores@), step.duration_scores@.len() as int);
    }
    let ghost target = expand_one_spec(
        hyp_view(*h),
        *step,
        new_sid as int,
        *cfg,
        cfg.beam_width as int,
    );
    let n: usize = tops.len();
    let mut r: Vec<BeamHypothesis> = Vec::new();
    let mut j: usize = 0;
    proof {
        assert(hyps_view(r@) =~= Seq::<HypModel>::empty());
    }
    while j < n
        invariant
            j <= n,
            n == tops@.len(),
            target == expand_one_spec(
                hyp_view(*h),
                *step,
                new_sid as int,
                *cfg,
                cfg.beam_width as int,
            ),
            target.len() == n,
            forall|x: int|
                0 <= x < n ==> (#[trigger] target[x]) == successor_spec(
                    hyp_view(*h),
                    tops@[x].0 as int,
                    tops@[x].1 as int,
                    step_duration_spec(*step),
                    new_sid as int,
                ),
            forall|x: int| 0 <= x < n ==> -SCORE_STEP_BOUND - 1 <= (#[trigger] tops@[x]).1
                <= SCORE_STEP_BOUND,
            duration as int == step_duration_spec(*step),
            1 <= duration <= NUM_DURATION_CLASSES,
            -SCORE_ACC_LIMIT + SCORE_STEP_BOUND + 1 <= h.score <= SCORE_ACC_LIMIT
                - SCORE_STEP_BOUND - 1,
            h.current_time < valid_time <= MAX_DECODE_TIME,
            h.tokens@.len() < usize::MAX,
            hyps_view(r@) == target.subrange(0, j as int),
        decreases n - j,
    {
        let (tok, val) = tops[j];
        let succ: BeamHypothesis = if tok == BLANK_TOKEN {
            BeamHypothesis {
                tokens: copy_tokens(&h.tokens),
                score: h.score + val,
                last_token: h.last_token,
                current_time: h.current_time + duration,
                state_id: h.state_id,
            }
        } else {
            let mut new_tokens = copy_tokens(&h.tokens);
            new_tokens.push(tok);
            BeamHypothesis {
                tokens: new_tokens,
                score: h.score + val,
                last_token: tok,
                current_time: h.current_time + duration,
                state_id: new_sid,
            }
        };
        proof {
            assert(hyp_view(succ) =~= successor_spec(
                hyp_view(*h),
                tok as int,
                val as int,
                duration as int,
                new_sid as int,
            ));
        }
        let ghost old_view = hyps_view(r@);
        let ghost succ_model = hyp_view(succ);
        proof {
            assert(old_view.len() == r@.len());
            assert(r@.len() == j);
        }
        r.push(succ);
        proof {
            assert(r@.len() == j + 1);
            assert(hyps_view(r@) =~= target.subrange(0, j + 1)) by {
                assert(forall|x: int|
                    0 <= x < j ==> hyps_view(r@)[x] == #[trigger] old_view[x]);
                assert(hyps_view(r@)[j as int] == hyp_view(r@[j as int]));
                assert(hyp_view(r@[j as int]) == succ_model);
                assert(target[j as int] == succ_model);
            }
        }
        j = j + 1;
    }
    proof {
        assert(target.subrange(0, n as int) =~= target);
    }
    r
}

/// Keeps the best `b` hypotheses by score, ties to the earlier one.
fn select_top(pool: Vec<BeamHypothesis>, b: usize) -> (r: Vec<BeamHypothesis>)
    ensures
        hyps_view(r@) == select_top_spec(hyps_view(pool@), b as int),
{
    let ghost full = hyps_view(pool@);
    let mut pool = pool;
    let mut r: Vec<BeamHypothesis> = Vec::new();
    let mut taken: usize = 0;
    proof {
        assert(hyps_view(r@) =~= Seq::<HypModel>::empty());
        assert(hyps_view(r@) + select_top_spec(hyps_view(pool@), b as int) =~= select_top_spec(
            full,
            b as int,
        ));
    }
    while taken < b && pool.len() > 0
        invariant
            taken <= b,
            hyps_view(r@).len() == taken,
            hyps_view(r@) + select_top_spec(hyps_view(pool@), b - taken) == select_top_spec(
                full,
                b as int,
            ),
        decreases b - taken,
    {
        let ghost pv = hyps_view(pool@);
        // Find the first maximum by score.
        let n: usize = pool.len();
        let mut best: usize = 0;
        let mut best_val: i64 = pool[0].score;
        let mut i: usize = 1;
        proof {
            assert(scores_of(pv)[0] == pv[0].score);
            assert(pv[0] == hyp_view(pool@[0]));
        }
        while i < n
            invariant
                1 <= i <= n,
                n == pool@.len(),
                pv == hyps_view(pool@),
                best < i,
                best as int == first_argmax_upto(scores_of(pv), i as int),
                best_val == pool@[best as int].score,
            decreases n - i,
        {
            proof {
                assert(scores_of(pv)[i as int] == pv[i as int].score);
                assert(pv[i as int] == hyp_view(pool@[i as int]));
                assert(scores_of(pv)[best as int] == pv[best as int].score);
                assert(pv[best as int] == hyp_view(pool@[best as int]));
            }
            if pool[i].score > best_val {
                best = i;
                best_val = pool[i].score;
            }
            i = i + 1;
        }
        proof {
            lemma_first_argmax_props(scores_of(pv), n as int);
        }
        let picked = pool.remove(best);
        proof {
            assert(hyp_view(picked) == pv[best as int]);
            assert(hyps_view(pool@) =~= pv.remove(best as int));
            assert(select_top_spec(pv, b - taken) == seq![pv[best as int]] + select_top_spec(
                pv.remove(best as int),
                b - taken - 1,
            ));
        }
        let ghost old_view = hyps_view(r@);
        r.push(picked);
        proof {
            assert(hyps_view(r@) =~= old_view.push(hyp_view(picked))) by {
                assert(forall|x: int| 0 <= x < old_view.len() ==> hyps_view(r@)[x] == old_view[x]);
            }
            assert((old_view.push(hyp_view(picked))) + select_top_spec(
                hyps_view(pool@),
                b - taken - 1,
            ) =~= old_view + (seq![hyp_view(picked)] + select_top_spec(
                hyps_view(pool@),
                b - taken - 1,
            )));
        }
        taken = taken + 1;
    }
    proof {
        if taken < b {
            assert(pool@.len() == 0);
            assert(hyps_view(pool@).len() == 0);
            assert(select_top_spec(hyps_view(pool@), b - taken) =~= Seq::<HypModel>::empty());
        } else {
            assert(select_top_spec(hyps_view(pool@), 0) =~= Seq::<HypModel>::empty());
        }
        assert(hyps_view(r@) + Seq::<HypModel>::empty() =~= hyps_view(r@));
    }
    r
}

/// The tokens of the best hypothesis, ties to the later one.
fn best_tokens(hyps: &Vec<BeamHypothesis>) -> (r: Vec<u32>)
    requires
        hyps@.len() > 0,
    ensures
        r@ == best_tokens_spec(hyps_view(hyps@)),
{
    let ghost hv = hyps_view(hyps@);
    let n: usize = hyps.len();
    let mut best: usize = 0;
    let mut best_val: i64 = hyps[0].score;
    let mut i: usize = 1;
    proof {
        assert(scores_of(hv)[0] == hv[0].score);
        assert(hv[0] == hyp_view(hyps@[0]));
    }
    while i < n
        invariant
            1 <= i <= n,
            n == hyps@.len(),
            hv == hyps_view(hyps@),
            best < i,
            best as int == last_argmax_upto(scores_of(hv), i as int),
            best_val == hyps@[best as int].score,
        decreases n - i,
    {
        proof {
            assert(scores_of(hv)[i as int] == hv[i as int].score);
            assert(hv[i as int] == hyp_view(hyps@[i as int]));
            assert(scores_of(hv)[best as int] == hv[best as int].score);
        }
        if hyps[i].score >= best_val {
            best = i;
            best_val = hyps[i].score;
        }
        i = i + 1;
    }
    proof {
        lemma_last_argmax_props(scores_of(hv), n as int);
        assert(hv[best as int] == hyp_view(hyps@[best as int]));
    }
    copy_tokens(&hyps[best].tokens)
}

/// Beam search over a precomputed step table: active hypotheses consume
/// table steps in order, one per hypothesis per iteration; `state_id`s of
/// non-blank successors are the consumed step's table index.
pub fn beam_decode_table(steps: &Vec<StepScores>, valid_time: usize, cfg: &DecodingConfig) -> (r:
    Vec<u32>)
    requires
        cfg.wf(),
        valid_time <= MAX_DECODE_TIME,
        forall|i: int| 0 <= i < steps@.len() ==> (#[trigger] steps@[i]).wf(),
    ensures
        r@ == spec_beam_decode(steps@, valid_time as int, 10 * valid_time as int, *cfg),
{
    let maxit: usize = 10 * valid_time;
    let mut hyps: Vec<BeamHypothesis> = Vec::new();
    hyps.push(
        BeamHypothesis {
            tokens: Vec::new(),
            score: 0,
            last_token: BLANK_TOKEN,
            current_time: 0,
            state_id: 0,
        },
    );
    let mut cursor: usize = 0;
    let mut iter: usize = 0;
    proof {
        assert(hyps_view(hyps@) =~= seq![beam_init_spec()]) by {
            assert(hyps_view(hyps@).len() == 1);
            assert(hyp_view(hyps@[0]) =~= beam_init_spec());
        }
    }
    let ghost target = spec_beam_decode(steps@, valid_time as int, maxit as int, *cfg);
    loop
        invariant
            cfg.wf(),
            valid_time <= MAX_DECODE_TIME,
            maxit == 10 * valid_time,
            forall|i: int| 0 <= i < steps@.len() ==> (#[trigger] steps@[i]).wf(),
            iter <= maxit,
            cursor <= steps@.len(),
            hyps@.len() >= 1,
            forall|i: int|
                0 <= i < hyps_view(hyps@).len() ==> hyp_bounded(
                    #[trigger] hyps_view(hyps@)[i],
                    iter as int,
                    valid_time as int,
                ),
            spec_beam_loop(
                hyps_view(hyps@),
                steps@,
                cursor as int,
                iter as int,
                valid_time as int,
                maxit as int,
                *cfg,
            ) == target,
        ensures
            hyps@.len() >= 1,
            best_tokens_spec(hyps_view(hyps@)) == target,
        decreases maxit - iter,
    {
        let active = count_active(&hyps, valid_time);
        if iter >= maxit || active == 0 || active > steps.len() - cursor {
            proof {
                assert(spec_beam_loop(
                    hyps_view(hyps@),
                    steps@,
                    cursor as int,
                    iter as int,
                    valid_time as int,
                    maxit as int,
                    *cfg,
                ) == best_tokens_spec(hyps_view(hyps@)));
            }
            break ;
        }
        let ghost hv = hyps_view(hyps@);
        let ghost exp_spec = expand_all_spec(
            hv,
            steps@,
            cursor as int,
            *cfg,
            cfg.beam_width as int,
            valid_time as int,
            0,
        );
        proof {
            // Score and shape bounds for this iteration's arithmetic.
            assert forall|i: int| 0 <= i < hv.len() implies -SCORE_ACC_LIMIT + SCORE_STEP_BOUND + 1
                <= (#[trigger] hv[i]).score <= SCORE_ACC_LIMIT - SCORE_STEP_BOUND - 1 by {
                assert(hyp_bounded(hv[i], iter as int, valid_time as int));
                assert(iter as int * (SCORE_STEP_BOUND + 1) <= 20480 * (SCORE_STEP_BOUND + 1int))
                    by (nonlinear_arith)
                    requires
                        0 <= iter as int <= 20480,
                ;
            }
        }
        // Expand every hypothesis, consuming one table step per active one.
        let n: usize = hyps.len();
        let mut expansions: Vec<BeamHypothesis> = Vec::new();
        let mut i: usize = 0;
        let mut cur: usize = cursor;
        proof {
            assert(hyps_view(expansions@) =~= Seq::<HypModel>::empty());
            assert(hyps_view(expansions@) + expand_all_spec(
                hv,
                steps@,
                cursor as int,
                *cfg,
                cfg.beam_width as int,
                valid_time as int,
                0,
            ) =~= exp_spec);
            lemma_active_count_bounds(hv, valid_time as int, 0);
        }
        while i < n
            invariant
                i <= n,
                n == hyps@.len(),
                hv == hyps_view(hyps@),
                cfg.wf(),
                valid_time <= MAX_DECODE_TIME,
                forall|x: int| 0 <= x < steps@.len() ==> (#[trigger] steps@[x]).wf(),
                forall|x: int| 0 <= x < hv.len() ==> -SCORE_ACC_LIMIT + SCORE_STEP_BOUND + 1 <= (
                #[trigger] hv[x]).score <= SCORE_ACC_LIMIT - SCORE_STEP_BOUND - 1,
                forall|x: int|
                    0 <= x < hv.len() ==> hyp_bounded(
                        #[trigger] hv[x],
                        iter as int,
                        valid_time as int,
                    ),
                iter < maxit <= 20480,
                cur as int == cursor + active_count(hv, valid_time as int, 0) - active_count(
                    hv,
                    valid_time as int,
                    i as int,
                ),
                cursor as int + active_count(hv, valid_time as int, 0) <= steps@.len(),
                i > 0 ==> expansions@.len() >= 1,
                hyps_view(expansions@) + expand_all_spec(
                    hv,
                    steps@,
                    cur as int,
                    *cfg,
                    cfg.beam_width as int,
                    valid_time as int,
                    i as int,
                ) == exp_spec,
            decreases n - i,
        {
            proof {
                assert(hv[i as int] == hyp_view(hyps@[i as int]));
                lemma_active_count_bounds(hv, valid_time as int, i as int);
                lemma_active_count_bounds(hv, valid_time as int, i + 1);
            }
            let h = &hyps[i];
            if h.current_time >= valid_time {
                let kept = BeamHypothesis {
                    tokens: copy_tokens(&h.tokens),
                    score: h.score,
                    last_token: h.last_token,
                    current_time: h.current_time,
                    state_id: h.state_id,
                };
                proof {
                    assert(hyp_view(kept) =~= hv[i as int]);
                }
                let ghost old_view = hyps_view(expansions@);
                expansions.push(kept);
                proof {
                    assert(hyps_view(expansions@) =~= old_view.push(hv[i as int])) by {
                        assert(forall|x: int|
                            0 <= x < old_view.len() ==> hyps_view(expansions@)[x] == old_view[x]);
                        assert(hyps_view(expansions@)[old_view.len() as int] == hyp_view(kept));
                    }
                    let tail = expand_all_spec(
                        hv,
                        steps@,
                        cur as int,
                        *cfg,
                        cfg.beam_width as int,
                        valid_time as int,
                        i + 1,
                    );
                    assert((old_view.push(hv[i as int])) + tail =~= old_view + (seq![hv[i as int]]
                        + tail));
                }
            } else {
                proof {
                    assert(hyp_bounded(hv[i as int], iter as int, valid_time as int));
                    assert(hyps@[i as int].tokens@.len() == hv[i as int].tokens.len());
                    assert(iter as int * (SCORE_STEP_BOUND + 1) <= 20480 * (SCORE_STEP_BOUND
                        + 1int)) by (nonlinear_arith)
                        requires
                            0 <= iter as int <= 20480,
                    ;
                }
                let mut succs = expand_one(h, &steps[cur], cur, cfg, valid_time);
                let ghost succ_view = hyps_view(succs@);
                let ghost before_view = hyps_view(expansions@);
                let ghost before_raw = expansions@;
                let ghost succs_raw = succs@;
                expansions.append(&mut succs);
                proof {
                    assert(expansions@ == before_raw + succs_raw);
                    assert(hyps_view(expansions@) =~= before_view + succ_view) by {
                        assert(forall|x: int|
                            0 <= x < before_raw.len() ==> hyps_view(expansions@)[x]
                                == #[trigger] hyp_view(before_raw[x]));
                        assert(forall|x: int|
                            before_raw.len() <= x < expansions@.len() ==> hyps_view(expansions@)[x]
                                == #[trigger] hyp_view(succs_raw[x - before_raw.len()]));
                        assert(forall|x: int|
                            0 <= x < before_raw.len() ==> before_view[x] == #[trigger] hyp_view(
                                before_raw[x],
                            ));
                        assert(forall|x: int|
                            0 <= x < succs_raw.len() ==> succ_view[x] == #[trigger] hyp_view(
                                succs_raw[x],
                            ));
                    }
                    let tail = expand_all_spec(
                        hv,
                        steps@,
                        cur + 1,
                        *cfg,
                        cfg.beam_width as int,
                        valid_time as int,
                        i + 1,
                    );
                    assert((before_view + succ_view) + tail =~= before_view + (succ_view + tail));
                    // An active hypothesis always yields at least one successor.
                    lemma_step_value_bounds(steps@[cur as int], *cfg);
                    lemma_top_k_bounds(
                        adjusted_seq_spec(steps@[cur as int].token_scores@, *cfg),
                        if cfg.beam_width as int <= MODEL_VOCAB_SIZE as int {
                            cfg.beam_width as int
                        } else {
                            MODEL_VOCAB_SIZE as int
                        },
                        SCORE_STEP_BOUND as int,
                    );
                    assert(succ_view.len() >= 1);
                    // The cursor stays inside the table.
                    assert(active_count(hv, valid_time as int, i as int) == 1 + active_count(
                        hv,
                        valid_time as int,
                        i + 1,
                    ));
                    assert(cur as int + 1 <= cursor as int + active_count(hv, valid_time as int, 0)
                        <= steps@.len());
                }
                let steps_len: usize = steps.len();
                assert(cur < steps_len);
                cur = cur + 1;
            }
            i = i + 1;
        }
        proof {
            assert(expand_all_spec(
                hv,
                steps@,
                cur as int,
                *cfg,
                cfg.beam_width as int,
                valid_time as int,
                n as int,
            ) =~= Seq::<HypModel>::empty());
            assert(hyps_view(expansions@) + Seq::<HypModel>::empty() =~= hyps_view(expansions@));
            assert(hyps_view(expansions@) == exp_spec);
        }
        let expansions_len: usize = expansions.len();
        // Keep the best beam_width successors.
        let new_hyps = select_top(expansions, cfg.beam_width);
        proof {
            // The new hypotheses satisfy the bounds for the next iteration.
            let p = |h: HypModel| hyp_bounded(h, iter as int, valid_time as int);
            let q = |h: HypModel| hyp_bounded(h, iter as int + 1, valid_time as int);
            assert forall|h: HypModel, tok: int, val: int, dur: int, sid: int|
                p(h) && h.t < valid_time as int && SCORE_SENTINEL as int <= val
                    <= SCORE_STEP_BOUND as int && 1 <= dur <= NUM_DURATION_CLASSES as int implies
                q(#[trigger] successor_spec(h, tok, val, dur, sid)) by {
                assert(hyp_bounded(h, iter as int, valid_time as int));
                assert((iter as int) * (SCORE_STEP_BOUND + 1) + (SCORE_STEP_BOUND + 1) == (
                iter as int + 1) * (SCORE_STEP_BOUND + 1)) by (nonlinear_arith);
                assert(successor_spec(h, tok, val, dur, sid).t == h.t + dur);
                assert(successor_spec(h, tok, val, dur, sid).tokens.len() <= h.tokens.len() + 1);
            }
            assert forall|h: HypModel| #[trigger] p(h) implies q(h) by {
                assert((iter as int) * (SCORE_STEP_BOUND + 1) <= (iter as int + 1) * (
                SCORE_STEP_BOUND + 1)) by (nonlinear_arith)
                    requires
                        iter as int >= 0,
                ;
                assert(-((iter as int + 1) * (SCORE_STEP_BOUND + 1)) <= -((iter as int) * (
                SCORE_STEP_BOUND + 1)));
            }
            assert(forall|x: int| 0 <= x < hv.len() ==> p(#[trigger] hv[x]));
            lemma_expand_all_preserves(
                hv,
                steps@,
                cursor as int,
                *cfg,
                cfg.beam_width as int,
                valid_time as int,
                0,
                p,
                q,
            );
            lemma_select_top_preserves(exp_spec, cfg.beam_width as int, q);
            assert(hyps_view(new_hyps@) == select_top_spec(exp_spec, cfg.beam_width as int));
            assert(exp_spec.len() == expansions_len as int);
            assert(new_hyps@.len() >= 1);
            assert forall|x: int| 0 <= x < hyps_view(new_hyps@).len() implies hyp_bounded(
                #[trigger] hyps_view(new_hyps@)[x],
                iter as int + 1,
                valid_time as int,
            ) by {
                assert(q(select_top_spec(exp_spec, cfg.beam_width as int)[x]));
            }
            // One unfolding of the loop: the new state computes the same tokens.
            assert(active_count(hv, valid_time as int, n as int) == 0);
            assert(cur as int == cursor as int + active_count(hv, valid_time as int, 0));
            assert(spec_beam_loop(
                hv,
                steps@,
                cursor as int,
                iter as int,
                valid_time as int,
                maxit as int,
                *cfg,
            ) == spec_beam_loop(
                hyps_view(new_hyps@),
                steps@,
                cur as int,
                iter as int + 1,
                valid_time as int,
                maxit as int,
                *cfg,
            ));
        }
        iter = iter + 1;
        cursor = cur;
        hyps = new_hyps;
    }
    best_tokens(&hyps)
}

// ---------------------------------------------------------------------------
// Laws
// ---------------------------------------------------------------------------

/// One round of the width-one beam loop tracks one greedy step exactly.
proof fn lemma_beam_one_loop(
    g: GreedyModel,
    h: HypModel,
    steps: Seq<StepScores>,
    iter: int,
    valid_time: int,
    maxit: int,
    cfg: DecodingConfig,
)
    requires
        cfg.beam_width == 1,
        forall|i: int| 0 <= i < steps.len() ==> (#[trigger] steps[i]).token_scores@.len() > 0,
        h.tokens == g.tokens,
        h.t == g.t,
        iter == g.steps_taken,
        0 <= iter <= steps.len(),
        iter <= maxit,
    ensures
        spec_beam_loop(seq![h], steps, iter, iter, valid_time, maxit, cfg) == spec_greedy_loop(
            g,
            steps,
            valid_time,
            maxit,
            cfg,
        ).tokens,
    decreases steps.len() - iter,
{
    let hs = seq![h];
    assert(active_count(hs, valid_time, 1) == 0);
    assert(active_count(hs, valid_time, 0) == if h.t < valid_time {
        1int
    } else {
        0int
    });
    assert(scores_of(hs).len() == 1);
    assert(best_tokens_spec(hs) == h.tokens) by {
        assert(last_argmax_upto(scores_of(hs), 1) == 0);
    }
    if h.t >= valid_time || iter >= maxit || (h.t < valid_time && iter + 1 > steps.len()) {
        // Both loops stop, returning the same tokens.
        assert(spec_beam_loop(hs, steps, iter, iter, valid_time, maxit, cfg) == best_tokens_spec(
            hs,
        ));
        assert(spec_greedy_loop(g, steps, valid_time, maxit, cfg) == g);
    } else {
        let step = steps[iter];
        let adj = adjusted_seq_spec(step.token_scores@, cfg);
        let dur = step_duration_spec(step);
        // The single expansion is the greedy successor.
        let exp = expand_all_spec(hs, steps, iter, cfg, 1, valid_time, 0);
        let one = expand_one_spec(h, step, iter, cfg, 1);
        assert(expand_all_spec(hs, steps, iter + 1, cfg, 1, valid_time, 1) =~= Seq::<
            HypModel,
        >::empty());
        assert(exp =~= one);
        let fa = first_argmax(adj);
        assert(adj.len() > 0);
        assert(spec_top_k(adj, 1) =~= seq![(fa, adj[fa])]) by {
            assert(spec_top_k(adj.update(fa, SCORE_SENTINEL as int), 0) =~= Seq::<
                (int, int),
            >::empty());
        }
        let succ = successor_spec(h, fa, adj[fa], dur, iter);
        assert(one.len() == 1);
        assert(one[0] == succ);
        let sel = select_top_spec(exp, 1);
        assert(sel =~= seq![succ]) by {
            assert(scores_of(exp).len() == 1);
            assert(first_argmax_upto(scores_of(exp), 1) == 0);
            assert(exp.remove(0) =~= Seq::<HypModel>::empty());
            assert(select_top_spec(exp.remove(0), 0) =~= Seq::<HypModel>::empty());
            assert(seq![exp[0]] + Seq::<HypModel>::empty() =~= seq![exp[0]]);
        }
        let g2 = greedy_step_spec(g, step, cfg);
        assert(step_token_spec(step, cfg) == fa);
        assert(succ.tokens == g2.tokens);
        assert(succ.t == g2.t);
        assert(g2.steps_taken == iter + 1);
        lemma_beam_one_loop(g2, succ, steps, iter + 1, valid_time, maxit, cfg);
        assert(spec_beam_loop(hs, steps, iter, iter, valid_time, maxit, cfg) == spec_beam_loop(
            sel,
            steps,
            iter + 1,
            iter + 1,
            valid_time,
            maxit,
            cfg,
        ));
    }
}

/// Greedy is the special case of beam search: with a beam width of one, and
/// the same temperature and blank penalty, beam decoding over a step table
/// emits exactly the token sequence of greedy decoding. The language only
/// seeds the decoder context and never changes the emitted tokens of a
/// fixed table.
pub proof fn lemma_beam_width_one_is_greedy(
    steps: Seq<StepScores>,
    valid_time: int,
    maxit: int,
    cfg: DecodingConfig,
    language: TranscriptionLanguage,
)
    requires
        cfg.beam_width == 1,
        maxit >= 0,
        forall|i: int| 0 <= i < steps.len() ==> (#[trigger] steps[i]).token_scores@.len() > 0,
    ensures
        spec_beam_decode(steps, valid_time, maxit, cfg) == spec_greedy_decode(
            steps,
            valid_time,
            maxit,
            cfg,
            language,
        ),
{
    let g = greedy_init_spec(language);
    let h = beam_init_spec();
    lemma_beam_one_loop(g, h, steps, 0, valid_time, maxit, cfg);
}

/// Token decoding is deterministic: for equal step tables, valid lengths,
/// budgets, configurations, and languages, greedy and beam decoding yield
/// equal token sequences.
pub proof fn lemma_decode_deterministic(
    steps1: Seq<StepScores>,
    steps2: Seq<StepScores>,
    valid_time: int,
    maxit: int,
    cfg1: DecodingConfig,
    cfg2: DecodingConfig,
    lang1: TranscriptionLanguage,
    lang2: TranscriptionLanguage,
)
    requires
        steps1 == steps2,
        cfg1 == cfg2,
        lang1 == lang2,
    ensures
        spec_greedy_decode(steps1, valid_time, maxit, cfg1, lang1) == spec_greedy_decode(
            steps2,
            valid_time,
            maxit,
            cfg2,
            lang2,
        ),
        spec_beam_decode(steps1, valid_time, maxit, cfg1) == spec_beam_decode(
            steps2,
            valid_time,
            maxit,
            cfg2,
        ),
{
}

} // verus!
