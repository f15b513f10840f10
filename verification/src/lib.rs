//! A quasi-periodic low-frequency modulation source built from two pieces:
//! a one-shot fractal sequence generator (recursive midpoint displacement
//! with a deterministic, geometrically decaying perturbation) and a streaming
//! oscillator that walks the sequence with linear interpolation at a
//! runtime-adjustable rate.
//!
//! All amplitudes, rates and positions are fixed-point integers: a value of
//! [`generator::SCALE`] stands for one unit. The generated sequence holds
//! values in `[-SCALE, SCALE]` with its two endpoints pinned to `-SCALE` and
//! `SCALE`, and the oscillator scales its interpolated output by a depth
//! factor, exactly and without rounding.

pub mod generator;
pub mod oscillator;
