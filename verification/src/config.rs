//! Decoding configuration for the token-and-duration transducer.
//!
//! Temperature and blank penalty are carried in permille so that score
//! arithmetic stays in integers: a temperature of 1.0 is 1000, the default
//! blank penalty of 6.0 is 6000.

use vstd::prelude::*;

verus! {

/// Configuration of the TDT decoding process.
#[derive(Debug, Clone)]
pub struct DecodingConfig {
    /// Beam width for beam search; 1 selects greedy decoding.
    pub beam_width: usize,
    /// Logit scaling temperature, in permille of 1.0; at least 100 (= 0.1).
    pub temperature_permille: u32,
    /// Penalty subtracted from the blank logit, in permille; at most 15000.
    pub blank_penalty_permille: u32,
}

impl DecodingConfig {
    /// The bounds every decoding configuration satisfies.
    pub open spec fn wf(self) -> bool {
        self.beam_width >= 1 && self.temperature_permille >= 100
            && self.blank_penalty_permille <= 15_000
    }

    /// Greedy decoding with the default temperature and blank penalty.
    pub fn greedy() -> (r: DecodingConfig)
        ensures
            r.wf(),
            r.beam_width == 1,
            r.temperature_permille == 1000,
            r.blank_penalty_permille == 6000,
    {
        DecodingConfig { beam_width: 1, temperature_permille: 1000, blank_penalty_permille: 6000 }
    }

    /// Beam search of the given width, at least 1.
    pub fn beam_search(beam_width: usize) -> (r: DecodingConfig)
        ensures
            r.wf(),
            r.beam_width == if beam_width >= 1 {
                beam_width as int
            } else {
                1int
            },
            r.temperature_permille == 1000,
            r.blank_penalty_permille == 6000,
    {
        let w: usize = if beam_width >= 1 {
            beam_width
        } else {
            1
        };
        DecodingConfig { beam_width: w, temperature_permille: 1000, blank_penalty_permille: 6000 }
    }

    /// Replaces the temperature, clamped to at least 0.1.
    pub fn with_temperature(self, temperature_permille: u32) -> (r: DecodingConfig)
        ensures
            r.beam_width == self.beam_width,
            r.blank_penalty_permille == self.blank_penalty_permille,
            r.temperature_permille == if temperature_permille >= 100 {
                temperature_permille as int
            } else {
                100int
            },
            self.wf() ==> r.wf(),
    {
        let t: u32 = if temperature_permille >= 100 {
            temperature_permille
        } else {
            100
        };
        DecodingConfig {
            beam_width: self.beam_width,
            temperature_permille: t,
            blank_penalty_permille: self.blank_penalty_permille,
        }
    }

    /// Replaces the blank penalty, clamped to the range 0 to 15.
    pub fn with_blank_penalty(self, blank_penalty_permille: u32) -> (r: DecodingConfig)
        ensures
            r.beam_width == self.beam_width,
            r.temperature_permille == self.temperature_permille,
            r.blank_penalty_permille == if blank_penalty_permille <= 15_000 {
                blank_penalty_permille as int
            } else {
                15_000int
            },
            self.wf() ==> r.wf(),
    {
        let p: u32 = if blank_penalty_permille <= 15_000 {
            blank_penalty_permille
        } else {
            15_000
        };
        DecodingConfig {
            beam_width: self.beam_width,
            temperature_permille: self.temperature_permille,
            blank_penalty_permille: p,
        }
    }
}

impl Default for DecodingConfig {
    /// The default configuration: greedy, temperature 1.0, blank penalty 6.0.
    fn default() -> (r: DecodingConfig)
        ensures
            r.wf(),
            r.beam_width == 1,
            r.temperature_permille == 1000,
            r.blank_penalty_permille == 6000,
    {
        DecodingConfig::greedy()
    }
}

} // verus!
