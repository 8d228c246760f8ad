//! The audio player's decision rules: which precomputed tone a value plays,
//! how tone frequencies are laid out over the run's value range, and the
//! sample count and fade-out envelope of a tone buffer. Waveform synthesis
//! and the output device live outside the library.

use vstd::prelude::*;
use vstd::arithmetic::div_mod::{
    lemma_multiply_divide_le, lemma_multiply_divide_lt, lemma_div_pos_is_pos,
};
use vstd::arithmetic::mul::{lemma_mul_inequality, lemma_mul_strict_inequality};
use crate::step::MAX_RUN_LEN;

verus! {

/// Samples per second of every tone buffer.
pub const SAMPLE_RATE: u32 = 44100;

/// How long each tone plays, in milliseconds.
pub const TONE_DURATION_MS: u32 = 50;

/// Frequency of the lowest tone, in millihertz.
pub const MIN_FREQ_MILLIHERTZ: u64 = 200000;

/// Frequency the tone ramp approaches for the highest values, in millihertz.
pub const MAX_FREQ_MILLIHERTZ: u64 = 2000000;

/// Which precomputed tone a bar value plays: values are one-based, tones are
/// zero-based, and out-of-range values play nothing.
pub open spec fn spec_tone_index(value: int, n: int) -> Option<usize> {
    if 1 <= value <= n {
        Some((value - 1) as usize)
    } else {
        None
    }
}

/// Validate a bar value and pick its tone. `None` means the value is out of
/// the run's range and playback is a no-op.
pub fn tone_index_for_value(value: usize, n: usize) -> (index: Option<usize>)
    ensures
        index == spec_tone_index(value as int, n as int),
{
    if value == 0 || value > n {
        None
    } else {
        Some(value - 1)
    }
}

/// Frequency of a tone, in millihertz: the tone's index interpolated
/// linearly from the minimum toward the maximum frequency bound.
pub open spec fn spec_tone_frequency(index: int, n: int) -> int {
    MIN_FREQ_MILLIHERTZ + index * (MAX_FREQ_MILLIHERTZ - MIN_FREQ_MILLIHERTZ) / n
}

/// Compute a tone's frequency at run time. Every tone of a run stays within
/// the configured frequency bounds.
pub fn tone_frequency_millihertz(index: usize, n: usize) -> (freq: u64)
    requires
        index < n,
        n <= MAX_RUN_LEN,
    ensures
        freq == spec_tone_frequency(index as int, n as int),
        MIN_FREQ_MILLIHERTZ <= freq < MAX_FREQ_MILLIHERTZ,
{
    let span: u64 = MAX_FREQ_MILLIHERTZ - MIN_FREQ_MILLIHERTZ;
    proof {
        lemma_mul_strict_inequality(index as int, n as int, span as int);
        assert((index as int) * (span as int) < (n as int) * (span as int)) by (nonlinear_arith)
            requires (index as int) * (span as int) < (span as int) * (n as int);
        lemma_multiply_divide_lt(index as int * span as int, n as int, span as int);
        lemma_div_pos_is_pos(index as int * span as int, n as int);
        assert(0 <= index as int * span as int) by (nonlinear_arith)
            requires 0 <= index as int;
        assert(index as int * span as int <= 0xffff_ffff * 1800000) by (nonlinear_arith)
            requires 0 <= index as int <= 0xffff_ffff, span as int == 1800000;
    }
    MIN_FREQ_MILLIHERTZ + (index as u64) * span / (n as u64)
}

/// How many samples a tone of the given duration holds.
pub open spec fn spec_sample_count(duration_ms: int) -> int {
    SAMPLE_RATE * duration_ms / 1000
}

/// Compute a tone buffer's sample count at run time.
pub fn tone_sample_count(duration_ms: u32) -> (count: u64)
    ensures
        count == spec_sample_count(duration_ms as int),
{
    proof {
        lemma_div_pos_is_pos(SAMPLE_RATE as int * duration_ms as int, 1000);
        assert(0 <= SAMPLE_RATE as int * duration_ms as int <= 44100 * 0xffff_ffff)
            by (nonlinear_arith)
            requires 0 <= duration_ms as int <= 0xffff_ffff;
        lemma_multiply_divide_le(
            SAMPLE_RATE as int * duration_ms as int,
            1000,
            44100int * 0xffff_ffff,
        );
    }
    (SAMPLE_RATE as u64) * (duration_ms as u64) / 1000
}

/// The linear fade-out envelope of a tone, in per mille: full volume at the
/// first sample, falling to silence at the end of the buffer, so playback
/// never clicks at a buffer boundary.
pub open spec fn spec_envelope(sample: int, count: int) -> int {
    (count - sample) * 1000 / count
}

/// Compute the envelope of one sample at run time.
pub fn envelope_permille(sample: u64, count: u64) -> (env: u64)
    requires
        sample < count,
        count <= 0xffff_ffff_ffff,
    ensures
        env == spec_envelope(sample as int, count as int),
        env <= 1000,
{
    proof {
        let rest = count - sample;
        lemma_mul_inequality(rest as int, count as int, 1000);
        assert(rest * 1000 <= count as int * 1000) by (nonlinear_arith)
            requires rest * 1000 <= 1000 * count as int;
        lemma_multiply_divide_le(rest * 1000, count as int, 1000);
        lemma_div_pos_is_pos(rest * 1000, count as int);
        assert(0 <= rest * 1000 <= 0xffff_ffff_ffff * 1000) by (nonlinear_arith)
            requires 0 <= rest <= 0xffff_ffff_ffff;
    }
    (count - sample) * 1000 / count
}

} // verus!
