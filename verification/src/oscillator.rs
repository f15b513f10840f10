//! Streaming oscillator over a generated fractal sequence.
//!
//! The oscillator owns the sequence produced by the generator and walks it
//! with a fixed-point fractional read position. Each call to [`FractalLFO::next`]
//! interpolates linearly between the two sequence values around the position,
//! scales the result by the depth factor, and advances the position by a
//! per-sample step derived from the requested rate, wrapping it into
//! `[0, len * SCALE)` so the sequence is read circularly (a negative rate
//! walks it backward). Changing the rate or depth never touches the
//! position, so playback continues from exactly where it was.

use vstd::prelude::*;

verus! {

use crate::generator::FractalGenerator;
use crate::generator::MAX_ITERATIONS;
use crate::generator::SCALE;
use crate::generator::spec_generate;
use vstd::arithmetic::div_mod::lemma_div_is_ordered;
use vstd::arithmetic::div_mod::lemma_div_nonincreasing;
use vstd::arithmetic::div_mod::lemma_div_multiples_vanish;
use vstd::arithmetic::div_mod::lemma_div_pos_is_pos;
use vstd::arithmetic::div_mod::lemma_mod_bound;
use vstd::arithmetic::div_mod::lemma_multiply_divide_lt;
use vstd::arithmetic::mul::lemma_mul_upper_bound;

/// Largest sequence length the oscillator can hold: `pow2(MAX_ITERATIONS) + 1`.
pub const MAX_LEN: usize = 65537;

/// Largest accepted rate magnitude (fixed point, `SCALE` units per Hz):
/// 16384 units of rate, far above any audio sample rate, so a rate equal
/// to or well beyond the sample rate stays inside the contract.
pub const RATE_LIMIT: i64 = 1073741824;

/// Largest accepted depth magnitude (fixed point, `SCALE` is unity).
pub const DEPTH_LIMIT: i64 = 4294967296;

/// Largest step magnitude any accepted rate can produce:
/// `RATE_LIMIT * MAX_LEN * SCALE` divided by the smallest sample rate.
pub const STEP_LIMIT: i64 = RATE_LIMIT * 65537 * SCALE;

/// The per-sample step for a rate, a sample rate and a sequence length,
/// in fixed-point index units: `rate / sample_rate * len`, rounded toward
/// zero so that negating the rate exactly negates the step.
pub open spec fn spec_step(rate: int, sample_rate: int, len: int) -> int {
    if rate >= 0 {
        (rate * len * SCALE) / sample_rate
    } else {
        -(((-rate) * len * SCALE) / sample_rate)
    }
}

/// A position advanced by `delta` and wrapped into `[0, len_fp)`.
pub open spec fn spec_wrap(pos: int, len_fp: int) -> int {
    pos % len_fp
}

/// Linear interpolation of the sequence at a fixed-point position:
/// the value between `points[pos / SCALE]` and its circular successor,
/// `pos % SCALE` of the way across.
pub open spec fn spec_lerp(points: Seq<i64>, pos: int) -> int
    recommends
        points.len() >= 1,
        0 <= pos < points.len() * SCALE,
{
    let idx = pos / (SCALE as int);
    let frac = pos % (SCALE as int);
    let cur = points[idx] as int;
    let nxt = points[if idx + 1 == points.len() { 0int } else { idx + 1 }] as int;
    cur + (frac * (nxt - cur)) / (SCALE as int)
}

/// The sample produced at a position: the interpolated sequence value
/// multiplied, exactly, by the depth factor.
pub open spec fn spec_sample(points: Seq<i64>, pos: int, depth: int) -> int {
    spec_lerp(points, pos) * depth
}

/// A quasi-periodic low-frequency oscillator walking a fractal sequence.
pub struct FractalLFO {
    /// Normalized fractal points, each in `[-SCALE, SCALE]`.
    pub fractal_points: Vec<i64>,
    /// Fixed-point read position, in `[0, len * SCALE)`.
    pub position: i64,
    /// Fixed-point per-sample position increment.
    pub step: i64,
    /// Modulation depth applied multiplicatively to the output.
    pub depth: i64,
    /// Fixed-point sample rate the step computation divides by.
    pub sample_rate: i64,
}

impl FractalLFO {
    /// Internal consistency: the sequence is non-empty, bounded and of
    /// bounded length, the position lies inside it, and step and depth are
    /// small enough that one call to `next` cannot overflow.
    pub open spec fn wf(&self) -> bool {
        &&& 2 <= self.fractal_points@.len() <= MAX_LEN
        &&& forall|i: int|
            0 <= i < self.fractal_points@.len() ==> -SCALE <= #[trigger] self.fractal_points@[i]
                <= SCALE
        &&& 1 <= self.sample_rate
        &&& 0 <= self.position < self.fractal_points@.len() * SCALE
        &&& -STEP_LIMIT <= self.step <= STEP_LIMIT
        &&& -DEPTH_LIMIT <= self.depth <= DEPTH_LIMIT
    }
}

/// Computes `spec_step(rate, sample_rate, len)` without overflow.
fn compute_step(rate: i64, sample_rate: i64, len: usize) -> (r: i64)
    requires
        1 <= sample_rate,
        -RATE_LIMIT <= rate <= RATE_LIMIT,
        2 <= len <= MAX_LEN,
    ensures
        r == spec_step(rate as int, sample_rate as int, len as int),
        -STEP_LIMIT <= r <= STEP_LIMIT,
{
    let neg: bool = rate < 0;
    let mag: u64 = if neg {
        (-rate) as u64
    } else {
        rate as u64
    };
    proof {
        lemma_mul_upper_bound(mag as int, RATE_LIMIT as int, len as int, MAX_LEN as int);
        lemma_mul_upper_bound(
            (mag as int) * (len as int),
            (RATE_LIMIT as int) * (MAX_LEN as int),
            SCALE as int,
            SCALE as int,
        );
    }
    let num: u64 = mag * (len as u64) * (SCALE as u64);
    let q: u64 = num / (sample_rate as u64);
    proof {
        lemma_div_nonincreasing(num as int, sample_rate as int);
    }
    let q_i: i64 = q as i64;
    if neg {
        -q_i
    } else {
        q_i
    }
}

impl FractalLFO {
    /// Build the fractal sequence with the given number of subdivision
    /// passes and start playback at position zero with the step that the
    /// given rate and sample rate demand.
    pub fn new(rate: i64, depth: i64, sample_rate: i64, iterations: usize) -> (r: FractalLFO)
        requires
            iterations <= MAX_ITERATIONS,
            1 <= sample_rate,
            -RATE_LIMIT <= rate <= RATE_LIMIT,
            -DEPTH_LIMIT <= depth <= DEPTH_LIMIT,
        ensures
            r.wf(),
            r.fractal_points@ == spec_generate(iterations as nat),
            r.position == 0,
            r.depth == depth,
            r.sample_rate == sample_rate,
            r.step == spec_step(
                rate as int,
                sample_rate as int,
                r.fractal_points@.len() as int,
            ),
    {
        let mut generator = FractalGenerator::new(iterations);
        let fractal_points = generator.generate();
        proof {
            vstd::arithmetic::power2::lemma2_to64();
            if (iterations as nat) < 16 {
                vstd::arithmetic::power2::lemma_pow2_strictly_increases(iterations as nat, 16);
            }
        }
        let len: usize = fractal_points.len();
        let step: i64 = compute_step(rate, sample_rate, len);
        FractalLFO { fractal_points, position: 0, step, depth, sample_rate }
    }

    /// Update depth and recompute the step for the new rate from the fixed
    /// sample rate and sequence length. The position, the sequence and the
    /// sample rate are left exactly as they were, so playback continues
    /// without any discontinuity.
    pub fn set_params(&mut self, rate: i64, depth: i64)
        requires
            old(self).wf(),
            -RATE_LIMIT <= rate <= RATE_LIMIT,
            -DEPTH_LIMIT <= depth <= DEPTH_LIMIT,
        ensures
            final(self).wf(),
            final(self).depth == depth,
            final(self).step == spec_step(
                rate as int,
                old(self).sample_rate as int,
                old(self).fractal_points@.len() as int,
            ),
            final(self).position == old(self).position,
            final(self).fractal_points == old(self).fractal_points,
            final(self).sample_rate == old(self).sample_rate,
    {
        self.depth = depth;
        let len: usize = self.fractal_points.len();
        self.step = compute_step(rate, self.sample_rate, len);
    }

    /// Produce the next sample: the sequence value interpolated at the
    /// current position times the depth, with the position then advanced
    /// by the step and wrapped back into the sequence.
    pub fn next(&mut self) -> (r: i64)
        requires
            old(self).wf(),
        ensures
            final(self).wf(),
            r == spec_sample(
                old(self).fractal_points@,
                old(self).position as int,
                old(self).depth as int,
            ),
            final(self).position == spec_wrap(
                old(self).position + old(self).step,
                old(self).fractal_points@.len() * SCALE,
            ),
            final(self).fractal_points == old(self).fractal_points,
            final(self).step == old(self).step,
            final(self).depth == old(self).depth,
            final(self).sample_rate == old(self).sample_rate,
    {
        let len: usize = self.fractal_points.len();
        let pos_u: u64 = self.position as u64;
        let idx_u: u64 = pos_u / (SCALE as u64);
        let frac: i64 = (pos_u % (SCALE as u64)) as i64;
        proof {
            lemma_mod_bound(pos_u as int, SCALE as int);
            lemma_multiply_divide_lt(pos_u as int, SCALE as int, len as int);
        }
        let idx: usize = idx_u as usize;
        let current: i64 = self.fractal_points[idx];
        let next_index: usize = if idx + 1 == len {
            0
        } else {
            idx + 1
        };
        let next_v: i64 = self.fractal_points[next_index];
        let diff: i64 = next_v - current;
        proof {
            let s = SCALE as int;
            let f = frac as int;
            let d = diff as int;
            assert(-(2 * s * s) <= f * d <= 2 * s * s) by (nonlinear_arith)
                requires
                    0 <= f < s,
                    -2 * s <= d <= 2 * s,
            ;
        }
        let prod: i64 = frac * diff;
        let term_opt: Option<i64> = prod.checked_div_euclid(SCALE);
        proof {
            let s = SCALE as int;
            let d = diff as int;
            let t = prod as int;
            if d >= 0 {
                assert(0 <= t <= s * d) by (nonlinear_arith)
                    requires
                        0 <= frac as int <= s,
                        0 <= d,
                        t == (frac as int) * d,
                ;
                lemma_div_is_ordered(t, s * d, s);
                lemma_div_multiples_vanish(d, s);
                lemma_div_pos_is_pos(t, s);
                assert(0 <= t / s <= d);
            } else {
                assert(s * d <= t <= 0) by (nonlinear_arith)
                    requires
                        0 <= frac as int <= s,
                        d < 0,
                        t == (frac as int) * d,
                ;
                lemma_div_is_ordered(s * d, t, s);
                lemma_div_multiples_vanish(d, s);
                lemma_div_is_ordered(t, 0, s);
                vstd::arithmetic::div_mod::lemma_div_of0(s);
                assert(d <= t / s <= 0);
            }
            assert(term_opt.is_some());
        }
        let term: i64 = term_opt.unwrap();
        let interpolated: i64 = current + term;
        proof {
            assert(interpolated as int == spec_lerp(
                old(self).fractal_points@,
                old(self).position as int,
            ));
            let s = SCALE as int;
            assert(-(s * (DEPTH_LIMIT as int)) <= (interpolated as int) * (self.depth as int)
                <= s * (DEPTH_LIMIT as int)) by (nonlinear_arith)
                requires
                    -s <= interpolated as int <= s,
                    -(DEPTH_LIMIT as int) <= self.depth as int <= DEPTH_LIMIT as int,
            ;
        }
        let out: i64 = interpolated * self.depth;
        proof {
            lemma_mul_upper_bound(len as int, MAX_LEN as int, SCALE as int, SCALE as int);
        }
        let len_fp: i64 = (len as i64) * SCALE;
        let adv: i64 = self.position + self.step;
        let wrapped_opt: Option<i64> = adv.checked_rem_euclid(len_fp);
        proof {
            lemma_mod_bound(adv as int, len_fp as int);
            assert(wrapped_opt.is_some());
        }
        self.position = wrapped_opt.unwrap();
        out
    }
}

/// Law: at a fixed position, doubling the depth exactly doubles the sample.
pub proof fn lemma_depth_doubling(points: Seq<i64>, pos: int, depth: int)
    ensures
        spec_sample(points, pos, 2 * depth) == 2 * spec_sample(points, pos, depth),
{
    let l = spec_lerp(points, pos);
    assert(l * (2 * depth) == 2 * (l * depth)) by (nonlinear_arith);
}

/// Law: negating the rate exactly negates the step, so a negative rate
/// walks the sequence backward at the same speed as the positive rate
/// walks it forward.
pub proof fn lemma_step_negation(rate: int, sample_rate: int, len: int)
    requires
        1 <= sample_rate,
    ensures
        spec_step(-rate, sample_rate, len) == -spec_step(rate, sample_rate, len),
{
    if rate == 0 {
        assert(0 * len * (SCALE as int) == 0) by (nonlinear_arith);
        vstd::arithmetic::div_mod::lemma_div_of0(sample_rate);
    }
}

/// Law: a negative step moves the position strictly backward whenever it
/// does not wrap past zero.
pub proof fn lemma_negative_step_decreases(pos: int, step: int, len_fp: int)
    requires
        0 <= pos < len_fp,
        step < 0,
        0 <= pos + step,
    ensures
        spec_wrap(pos + step, len_fp) == pos + step,
        spec_wrap(pos + step, len_fp) < pos,
{
    vstd::arithmetic::div_mod::lemma_small_mod((pos + step) as nat, len_fp as nat);
}

/// Law: walking backward visits the mirror image of the forward positions.
/// A displacement of `-p` wraps to the point as far below the wrap seam as
/// `p` wraps above it, so reverse playback from the seam reads the same
/// positions as forward playback, in the opposite order.
pub proof fn lemma_wrap_negation(p: int, len_fp: int)
    requires
        0 < len_fp,
    ensures
        spec_wrap(-p, len_fp) == if spec_wrap(p, len_fp) == 0 {
            0int
        } else {
            len_fp - spec_wrap(p, len_fp)
        },
{
    let r = p % len_fp;
    vstd::arithmetic::div_mod::lemma_mod_bound(p, len_fp);
    vstd::arithmetic::div_mod::lemma_sub_mod_noop(0, p, len_fp);
    vstd::arithmetic::div_mod::lemma_small_mod(0nat, len_fp as nat);
    if r == 0 {
        assert((0 - r) % len_fp == 0);
    } else {
        vstd::arithmetic::div_mod::lemma_fundamental_div_mod_converse_mod(
            -r,
            len_fp,
            -1,
            len_fp - r,
        );
    }
}

/// Law: advancing the position by a step and then by the negated step
/// returns it exactly to where it started, whatever wrapping happened.
pub proof fn lemma_wrap_round_trip(pos: int, step: int, len_fp: int)
    requires
        0 <= pos < len_fp,
    ensures
        spec_wrap(spec_wrap(pos + step, len_fp) - step, len_fp) == pos,
{
    vstd::arithmetic::div_mod::lemma_add_mod_noop_right(-step, pos + step, len_fp);
    vstd::arithmetic::div_mod::lemma_small_mod(pos as nat, len_fp as nat);
}

} // verus!
