use fractal_lfo::generator::FractalGenerator;
use fractal_lfo::generator::SCALE;
use fractal_lfo::generator::random_offset;
use fractal_lfo::oscillator::FractalLFO;

// One unit of amplitude (1.0) in fixed point.
const UNIT: i64 = SCALE;
// A sample rate of 1000.0 in fixed point.
const SR_1000: i64 = 1000 * SCALE;

fn sequence(iterations: usize) -> Vec<i64> {
    let mut generator = FractalGenerator::new(iterations);
    generator.generate()
}

#[test]
fn offset_is_deterministic() {
    let a: i64 = random_offset(32768);
    let b: i64 = random_offset(32768);
    assert_eq!(a, b);
    assert_eq!(a, 3873);
}

#[test]
fn offset_exact_values() {
    assert_eq!(random_offset(0), 0);
    assert_eq!(random_offset(1), -1);
    assert_eq!(random_offset(2), 0);
    assert_eq!(random_offset(32768), 3873);
    assert_eq!(random_offset(65536), -65536);
}

#[test]
fn offset_bounded_by_scale() {
    for scale in 0u64..=1024 {
        let r: i64 = random_offset(scale);
        assert!(-(scale as i64) <= r && r <= scale as i64);
    }
    let r: i64 = random_offset(65536);
    assert!(-65536 <= r && r <= 65536);
}

#[test]
fn generate_zero_iterations_is_seed() {
    assert_eq!(sequence(0), vec![-65536, 65536]);
}

#[test]
fn generate_length_is_power_of_two_plus_one() {
    for iterations in 0usize..=16 {
        let points: Vec<i64> = sequence(iterations);
        assert_eq!(points.len(), (1usize << iterations) + 1);
    }
}

#[test]
fn generate_keeps_endpoints() {
    for iterations in 0usize..=10 {
        let points: Vec<i64> = sequence(iterations);
        assert_eq!(points[0], -65536);
        assert_eq!(points[points.len() - 1], 65536);
    }
}

#[test]
fn generate_values_stay_in_range() {
    for iterations in 0usize..=16 {
        let points: Vec<i64> = sequence(iterations);
        for &p in points.iter() {
            assert!(-65536 <= p && p <= 65536);
        }
    }
}

#[test]
fn generate_is_deterministic() {
    assert_eq!(sequence(5), sequence(5));
}

#[test]
fn generate_exact_small_sequences() {
    assert_eq!(sequence(1), vec![-65536, -65536, 65536]);
    assert_eq!(sequence(2), vec![-65536, -61663, -65536, 3873, 65536]);
}

#[test]
fn new_starts_at_position_zero() {
    let lfo = FractalLFO::new(5 * UNIT, UNIT, SR_1000, 4);
    assert_eq!(lfo.position, 0);
    assert_eq!(lfo.depth, UNIT);
    assert_eq!(lfo.sample_rate, SR_1000);
    assert_eq!(lfo.fractal_points.len(), 17);
}

#[test]
fn full_cycle_per_sample_step() {
    // rate == sample_rate with a two-point sequence: the step is exactly
    // two index units, so every call lands back on position 0 and returns
    // the first endpoint scaled by the depth.
    let mut lfo = FractalLFO::new(SR_1000, UNIT, SR_1000, 0);
    assert_eq!(lfo.step, 2 * UNIT);
    for _ in 0..4 {
        let s: i64 = lfo.next();
        assert_eq!(s, -65536 * 65536);
        assert_eq!(lfo.position, 0);
    }
}

#[test]
fn interpolation_walks_seed_and_wraps() {
    // A quarter-cycle rate over the two seed points: positions 0, 0.5, 1,
    // 1.5 (in index units), then wrap; linear interpolation between -1 and
    // 1 gives -1, 0, 1, 0 scaled by the unit depth.
    let mut lfo = FractalLFO::new(250 * UNIT, UNIT, SR_1000, 0);
    assert_eq!(lfo.step, 32768);
    let outs: Vec<i64> = (0..8).map(|_| lfo.next()).collect();
    let unit_sq: i64 = 65536 * 65536;
    assert_eq!(outs, vec![-unit_sq, 0, unit_sq, 0, -unit_sq, 0, unit_sq, 0]);
}

#[test]
fn set_params_preserves_position() {
    let mut lfo = FractalLFO::new(100 * UNIT, UNIT, SR_1000, 4);
    lfo.next();
    lfo.next();
    lfo.next();
    let before: i64 = lfo.position;
    lfo.set_params(40 * UNIT, 3 * UNIT);
    assert_eq!(lfo.position, before);
    assert_eq!(lfo.depth, 3 * UNIT);
    // step = rate / sample_rate * len, truncated: 40/1000 * 17 = 0.68 index
    // units, i.e. 0.68 * 65536 = 44564 (truncated).
    assert_eq!(lfo.step, 40 * 17 * 65536 / 1000);
}

#[test]
fn doubling_depth_doubles_samples() {
    let mut single = FractalLFO::new(100 * UNIT, UNIT, SR_1000, 4);
    let mut double = FractalLFO::new(100 * UNIT, 2 * UNIT, SR_1000, 4);
    for _ in 0..12 {
        let s: i64 = single.next();
        let d: i64 = double.next();
        assert_eq!(d, 2 * s);
    }
}

#[test]
fn negative_rate_reverses_playback() {
    // Negating the rate negates the step exactly, and the positions visited
    // mirror the forward ones, so the output streams mirror each other.
    let mut fwd = FractalLFO::new(250 * UNIT, UNIT, SR_1000, 0);
    let mut rev = FractalLFO::new(-250 * UNIT, UNIT, SR_1000, 0);
    assert_eq!(rev.step, -fwd.step);
    let f: Vec<i64> = (0..4).map(|_| fwd.next()).collect();
    let r: Vec<i64> = (0..4).map(|_| rev.next()).collect();
    // Both start at position 0; afterwards the reverse stream visits the
    // forward positions in reverse order (a period is four samples here).
    assert_eq!(r[0], f[0]);
    assert_eq!(r[1], f[3]);
    assert_eq!(r[2], f[2]);
    assert_eq!(r[3], f[1]);
}

#[test]
fn negative_rate_decreases_position() {
    let mut lfo = FractalLFO::new(250 * UNIT, UNIT, SR_1000, 0);
    lfo.next();
    assert_eq!(lfo.position, 32768);
    lfo.set_params(-250 * UNIT, UNIT);
    lfo.next();
    assert_eq!(lfo.position, 0);
}

#[test]
fn largest_sequence_plays_bounded() {
    let mut lfo = FractalLFO::new(3 * UNIT, UNIT, SR_1000, 16);
    assert_eq!(lfo.fractal_points.len(), 65537);
    let unit_sq: i64 = 65536 * 65536;
    for _ in 0..1000 {
        let s: i64 = lfo.next();
        assert!(-unit_sq <= s && s <= unit_sq);
    }
}

#[test]
fn fractal_playback_exact_samples() {
    let mut lfo = FractalLFO::new(100 * UNIT, UNIT, SR_1000, 4);
    assert_eq!(lfo.step, 111411);
    let outs: Vec<i64> = (0..6).map(|_| lfo.next()).collect();
    assert_eq!(
        outs,
        vec![
            -4294967296,
            -3603496960,
            -4013096960,
            -3933077504,
            -3973316608,
            -3671261184,
        ]
    );
    assert_eq!(lfo.position, 668466);
}
