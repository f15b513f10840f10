//! Fractal sequence generation by recursive midpoint displacement.
//!
//! A sequence starts as the two endpoints `[-SCALE, SCALE]`. Each pass
//! replaces every adjacent pair by the left element followed by a perturbed,
//! clamped midpoint, keeping the final endpoint, so a pass turns a sequence
//! of length `n` into one of length `2n - 1`. The perturbation is a
//! deterministic, hash-derived offset whose magnitude never exceeds the
//! current displacement amplitude; the amplitude starts at `SCALE` (one
//! unit) and halves on every pass.

use vstd::prelude::*;

verus! {

use vstd::arithmetic::power2::pow2;
use vstd::arithmetic::power2::lemma2_to64;
use vstd::arithmetic::power2::lemma_pow2_strictly_increases;

/// Fixed-point scale: this value stands for one unit (an amplitude of 1.0).
pub const SCALE: i64 = 65536;

/// Largest accepted subdivision count; the sequence length is
/// `pow2(iterations) + 1`, so this bounds it by `65537`.
pub const MAX_ITERATIONS: usize = 16;

/// A stateless integer hash (three xorshift rounds) used to derive the
/// pseudo-random displacement from the current amplitude alone.
pub open spec fn spec_mix(x: u64) -> u64 {
    let a = x ^ (x << 13u64);
    let b = a ^ (a >> 7u64);
    b ^ (b << 17u64)
}

/// The deterministic displacement drawn for a given amplitude `scale`:
/// the hash of the amplitude reduced to the interval `[-scale, scale]`.
pub open spec fn spec_offset(scale: u64) -> int {
    spec_mix(scale) % ((2 * scale + 1) as u64) - scale
}

/// Deterministic pseudo-random offset for midpoint displacement.
///
/// The result is a pure function of `scale` (no clock, no external entropy),
/// and its magnitude never exceeds `scale`.
pub fn random_offset(scale: u64) -> (r: i64)
    requires
        scale <= SCALE,
    ensures
        r == spec_offset(scale),
        -(scale as int) <= r <= scale as int,
{
    let a: u64 = scale ^ (scale << 13u64);
    let b: u64 = a ^ (a >> 7u64);
    let c: u64 = b ^ (b << 17u64);
    let d: u64 = 2 * scale + 1;
    let m: u64 = c % d;
    (m as i64) - (scale as i64)
}

/// The displacement amplitude in force on pass `k`: `SCALE` halved `k` times.
pub open spec fn spec_amplitude(k: nat) -> u64
    decreases k,
{
    if k == 0 {
        SCALE as u64
    } else {
        spec_amplitude((k - 1) as nat) / 2
    }
}

/// `v` forced into the normalized range `[-SCALE, SCALE]`.
pub open spec fn spec_clamp(v: int) -> int {
    if v < -(SCALE as int) {
        -(SCALE as int)
    } else if v > SCALE as int {
        SCALE as int
    } else {
        v
    }
}

/// The floor midpoint of two sequence values.
pub open spec fn spec_midpoint(l: i64, r: i64) -> int {
    (l + r) / 2
}

/// One subdivision pass at amplitude `amp`: even positions keep the old
/// values, each odd position holds the clamped, displaced midpoint of its
/// two old neighbours. The length goes from `n` to `2n - 1`.
pub open spec fn spec_subdivide(ps: Seq<i64>, amp: u64) -> Seq<i64>
    recommends
        ps.len() >= 2,
{
    Seq::new(
        (2 * ps.len() - 1) as nat,
        |i: int|
            if i % 2 == 0 {
                ps[i / 2]
            } else {
                spec_clamp(spec_midpoint(ps[i / 2], ps[i / 2 + 1]) + spec_offset(amp)) as i64
            },
    )
}

/// The sequence produced by `n` subdivision passes over the seed endpoints
/// `[-SCALE, SCALE]`, pass `k` running at amplitude `spec_amplitude(k)`.
pub open spec fn spec_generate(n: nat) -> Seq<i64>
    decreases n,
{
    if n == 0 {
        seq![(-SCALE) as i64, SCALE]
    } else {
        spec_subdivide(spec_generate((n - 1) as nat), spec_amplitude((n - 1) as nat))
    }
}

/// The displacement amplitude never exceeds one unit.
pub proof fn lemma_amplitude_bounded(k: nat)
    ensures
        spec_amplitude(k) <= SCALE,
    decreases k,
{
    if k > 0 {
        lemma_amplitude_bounded((k - 1) as nat);
    }
}

/// A sequence from `n` passes has length exactly `pow2(n) + 1`.
pub proof fn lemma_generate_len(n: nat)
    ensures
        spec_generate(n).len() == pow2(n) + 1,
    decreases n,
{
    if n == 0 {
        assert(pow2(0) == 1) by {
            lemma2_to64();
        }
    } else {
        lemma_generate_len((n - 1) as nat);
        assert(pow2(n) == 2 * pow2((n - 1) as nat)) by {
            vstd::arithmetic::power2::lemma_pow2_unfold(n);
        }
    }
}

/// Subdivision preserves both endpoints, so every generated sequence keeps
/// the seed endpoints `-SCALE` and `SCALE` in first and last place.
pub proof fn lemma_generate_endpoints(n: nat)
    ensures
        spec_generate(n).len() >= 2,
        spec_generate(n)[0] == -SCALE,
        spec_generate(n)[spec_generate(n).len() - 1] == SCALE,
    decreases n,
{
    if n > 0 {
        lemma_generate_endpoints((n - 1) as nat);
        let prev = spec_generate((n - 1) as nat);
        let cur = spec_generate(n);
        assert(cur[0] == prev[0]);
        assert(cur.len() - 1 == 2 * (prev.len() - 1));
        assert(cur[cur.len() - 1] == prev[prev.len() - 1]);
    }
}

/// Every value of a generated sequence lies in `[-SCALE, SCALE]`: copied
/// values do by induction, new midpoints are clamped there.
pub proof fn lemma_generate_bounded(n: nat)
    ensures
        forall|i: int|
            0 <= i < spec_generate(n).len() ==> -SCALE <= #[trigger] spec_generate(n)[i]
                <= SCALE,
    decreases n,
{
    if n > 0 {
        lemma_generate_bounded((n - 1) as nat);
        let prev = spec_generate((n - 1) as nat);
        let cur = spec_generate(n);
        assert forall|i: int| 0 <= i < cur.len() implies -SCALE <= #[trigger] cur[i]
            <= SCALE by {
            if i % 2 == 0 {
                assert(cur[i] == prev[i / 2]);
            }
        }
    }
}

/// One-shot builder for a fractal midpoint-displacement sequence.
pub struct FractalGenerator {
    /// Number of subdivision passes to run.
    pub iterations: usize,
}

impl FractalGenerator {
    /// A generator that will run `iterations` subdivision passes.
    pub fn new(iterations: usize) -> (r: FractalGenerator)
        ensures
            r.iterations == iterations,
    {
        FractalGenerator { iterations }
    }

    /// Build the sequence: `iterations` passes over the seed endpoints.
    ///
    /// The result is `spec_generate(iterations)` exactly: it has length
    /// `pow2(iterations) + 1`, its first and last values are `-SCALE` and
    /// `SCALE`, and every value lies in `[-SCALE, SCALE]`.
    pub fn generate(&mut self) -> (r: Vec<i64>)
        requires
            old(self).iterations <= MAX_ITERATIONS,
        ensures
            *final(self) == *old(self),
            r@ == spec_generate(old(self).iterations as nat),
            r@.len() == pow2(old(self).iterations as nat) + 1,
            r@[0] == -SCALE,
            r@[r@.len() - 1] == SCALE,
            forall|i: int| 0 <= i < r@.len() ==> -SCALE <= #[trigger] r@[i] <= SCALE,
    {
        let iterations: usize = self.iterations;
        let mut points: Vec<i64> = Vec::new();
        points.push(-SCALE);
        points.push(SCALE);
        let mut amplitude: u64 = SCALE as u64;
        let mut it: usize = 0;
        proof {
            assert(points@ =~= spec_generate(0));
        }
        while it < iterations
            invariant
                it <= iterations,
                iterations <= MAX_ITERATIONS,
                points@ == spec_generate(it as nat),
                points@.len() >= 2,
                amplitude == spec_amplitude(it as nat),
            decreases iterations - it,
        {
            proof {
                lemma_generate_len(it as nat);
                lemma2_to64();
                if (it as nat) < 16 {
                    lemma_pow2_strictly_increases(it as nat, 16);
                }
            }
            let len: usize = points.len();
            let mut next_points: Vec<i64> = Vec::new();
            let mut j: usize = 0;
            proof {
                assert(next_points@ =~= spec_subdivide(points@, amplitude).take(0));
            }
            while j + 1 < len
                invariant
                    j + 1 <= len,
                    len == points@.len(),
                    points@ == spec_generate(it as nat),
                    points@.len() >= 2,
                    amplitude == spec_amplitude(it as nat),
                    next_points@ == spec_subdivide(points@, amplitude).take(2 * j),
                decreases len - j,
            {
                proof {
                    lemma_generate_bounded(it as nat);
                    lemma_amplitude_bounded(it as nat);
                }
                let left: i64 = points[j];
                let right: i64 = points[j + 1];
                let sum: i64 = left + right;
                let mid_opt: Option<i64> = sum.checked_div_euclid(2);
                proof {
                    vstd::arithmetic::div_mod::lemma_div_is_ordered(
                        -2 * (SCALE as int),
                        sum as int,
                        2,
                    );
                    vstd::arithmetic::div_mod::lemma_div_is_ordered(
                        sum as int,
                        2 * (SCALE as int),
                        2,
                    );
                    assert(mid_opt.is_some());
                }
                let mid: i64 = mid_opt.unwrap();
                let disp: i64 = random_offset(amplitude);
                let raw: i64 = mid + disp;
                let lo: i64 = -SCALE;
                let clamped: i64 = if raw < lo {
                    lo
                } else if raw > SCALE {
                    SCALE
                } else {
                    raw
                };
                next_points.push(left);
                next_points.push(clamped);
                proof {
                    let t = spec_subdivide(points@, amplitude);
                    assert(t[2 * j as int] == points@[j as int]);
                    assert(clamped == t[2 * j as int + 1]);
                    assert(next_points@ =~= t.take(2 * (j + 1)));
                }
                j += 1;
            }
            let last: i64 = points[len - 1];
            next_points.push(last);
            proof {
                let t = spec_subdivide(points@, amplitude);
                assert(t[2 * (len - 1) as int] == points@[len - 1]);
                assert(next_points@ =~= t);
            }
            points = next_points;
            amplitude = amplitude / 2;
            it = it + 1;
        }
        proof {
            lemma_generate_len(iterations as nat);
            lemma_generate_endpoints(iterations as nat);
            lemma_generate_bounded(iterations as nat);
        }
        points
    }
}

} // verus!
