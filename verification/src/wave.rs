//! Waveform generators.
//!
//! An `Oscillator` produces the next sample of a periodic waveform (sine,
//! sawtooth, square) or of a seeded white-noise source on each pull. The
//! periodic waveforms are driven by a phase accumulator that advances by
//! `freq` and wraps at `rate`, so the emitted sample depends only on the
//! current phase. The sine is a fixed-point half-wave rational
//! approximation, negated exactly on the second half period, so it is
//! antisymmetric and its samples over a full even-length period sum to
//! zero. White noise comes from a 64-bit xorshift state advanced on every
//! pull, seeded at construction, so a given seed always reproduces the
//! same sequence. Generators never fail and never allocate.

use vstd::prelude::*;
use crate::fixed::{SCALE, in_full_scale};

verus! {

/// Largest sample rate (and frequency) the generators accept, in Hz.
/// Keeps all intermediate fixed-point products far inside `i64`.
pub const MAX_HZ: u32 = 1000000;

#[derive(Clone, Copy, PartialEq, Eq, Structural, Debug)]
pub enum WaveKind {
    Sine,
    Saw,
    Square,
    Noise,
}

/// Magnitude of the sine half-wave at phase position `u` of `r`, as a
/// fixed-point fraction of `SCALE`: a rational approximation of
/// `SCALE * sin(pi * u / r)`, exact at the ends and the crest.
pub open spec fn sine_mag(u: int, r: int) -> int
    recommends
        0 <= u < r,
        1 <= r,
{
    let a = u * (r - u);
    (16 * (SCALE as int) * a) / (5 * r * r - 4 * a)
}

/// One full sine period over phases `0 <= p < r`: the half-wave magnitude
/// on the first half, its exact negation on the second.
pub open spec fn sine_val(p: int, r: int) -> int
    recommends
        0 <= p < r,
        1 <= r,
{
    if 2 * p < r {
        sine_mag(2 * p, r)
    } else {
        -sine_mag(2 * p - r, r)
    }
}

/// Sawtooth: a linear ramp from -SCALE at phase 0 toward SCALE at the end
/// of the period.
pub open spec fn saw_val(p: int, r: int) -> int
    recommends
        0 <= p < r,
        1 <= r,
{
    (2 * (SCALE as int) * p) / r - (SCALE as int)
}

/// Square: +SCALE on the first half of the period, -SCALE on the second
/// (50% duty cycle).
pub open spec fn square_val(p: int, r: int) -> int
    recommends
        0 <= p < r,
        1 <= r,
{
    if 2 * p < r {
        SCALE as int
    } else {
        -(SCALE as int)
    }
}

/// One step of the 64-bit xorshift white-noise state.
pub open spec fn noise_step(s: u64) -> u64 {
    let a = s ^ (s << 13);
    let b = a ^ (a >> 7);
    b ^ (b << 17)
}

/// The sample a noise state stands for, folded into full scale.
pub open spec fn noise_val(s: u64) -> int {
    (s as int) % (2 * (SCALE as int) + 1) - (SCALE as int)
}

#[derive(Clone, Copy)]
pub struct Oscillator {
    pub kind: WaveKind,
    /// Frequency in Hz; ignored by noise.
    pub freq: u32,
    /// Sample rate in Hz.
    pub rate: u32,
    /// Phase accumulator, always below `rate`.
    pub phase: u32,
    /// White-noise state; untouched by the periodic waveforms.
    pub noise_state: u64,
}

impl Oscillator {
    pub open spec fn wf(self) -> bool {
        &&& 1 <= self.freq <= MAX_HZ
        &&& 1 <= self.rate <= MAX_HZ
        &&& self.phase < self.rate
    }

    /// The sample emitted by the next pull.
    pub open spec fn out_spec(self) -> int {
        match self.kind {
            WaveKind::Sine => sine_val(self.phase as int, self.rate as int),
            WaveKind::Saw => saw_val(self.phase as int, self.rate as int),
            WaveKind::Square => square_val(self.phase as int, self.rate as int),
            WaveKind::Noise => noise_val(noise_step(self.noise_state)),
        }
    }

    /// The state after one pull: phase advanced by `freq` modulo `rate`,
    /// noise state stepped.
    pub open spec fn step_spec(self) -> Oscillator {
        Oscillator {
            phase: ((self.phase + self.freq) % (self.rate as int)) as u32,
            noise_state: noise_step(self.noise_state),
            ..self
        }
    }

    /// A generator at phase zero. `freq` is ignored by noise; `seed` is
    /// ignored by the periodic waveforms.
    pub fn new(kind: WaveKind, freq: u32, rate: u32, seed: u64) -> (r: Oscillator)
        requires
            1 <= freq <= MAX_HZ,
            1 <= rate <= MAX_HZ,
        ensures
            r.wf(),
            r == (Oscillator { kind, freq, rate, phase: 0, noise_state: seed }),
    {
        Oscillator { kind, freq, rate, phase: 0, noise_state: seed }
    }

    /// Produce the next sample and advance the generator's state.
    pub fn next(&mut self) -> (s: i64)
        requires
            old(self).wf(),
        ensures
            final(self).wf(),
            *final(self) == old(self).step_spec(),
            s as int == old(self).out_spec(),
            in_full_scale(s as int),
    {
        let s0 = self.noise_state;
        let na = s0 ^ (s0 << 13u64);
        let nb = na ^ (na >> 7u64);
        let s1 = nb ^ (nb << 17u64);
        let out: i64 = match self.kind {
            WaveKind::Sine => {
                proof {
                    lemma_sine_val_bounds(self.phase as int, self.rate as int);
                }
                let p: i64 = self.phase as i64;
                let r: i64 = self.rate as i64;
                if 2 * p < r {
                    sine_mag_exec(2 * p, r)
                } else {
                    -sine_mag_exec(2 * p - r, r)
                }
            },
            WaveKind::Saw => {
                proof {
                    lemma_saw_val_bounds(self.phase as int, self.rate as int);
                }
                let p: i64 = self.phase as i64;
                let r: i64 = self.rate as i64;
                (2 * SCALE * p) / r - SCALE
            },
            WaveKind::Square => {
                let p: i64 = self.phase as i64;
                let r: i64 = self.rate as i64;
                if 2 * p < r {
                    SCALE
                } else {
                    -SCALE
                }
            },
            WaveKind::Noise => (s1 % (2 * (SCALE as u64) + 1)) as i64 - SCALE,
        };
        self.noise_state = s1;
        self.phase = (self.phase + self.freq) % self.rate;
        out
    }
}

/// Compute the sine half-wave magnitude.
fn sine_mag_exec(u: i64, r: i64) -> (m: i64)
    requires
        0 <= u < r,
        1 <= r <= MAX_HZ,
    ensures
        m == sine_mag(u as int, r as int),
        0 <= m <= SCALE,
{
    proof {
        lemma_sine_mag_bounds(u as int, r as int);
        assert(u * (r - u) <= (MAX_HZ as i64) * (MAX_HZ as i64)) by (nonlinear_arith)
            requires
                0 <= u < r <= MAX_HZ as i64,
        ;
        assert(0 <= u * (r - u)) by (nonlinear_arith)
            requires
                0 <= u < r,
        ;
        assert(0 < r * r <= (MAX_HZ as i64) * (MAX_HZ as i64)) by (nonlinear_arith)
            requires
                1 <= r <= MAX_HZ as i64,
        ;
        assert(0 < 5 * r * r <= 5 * ((MAX_HZ as i64) * (MAX_HZ as i64))) by (nonlinear_arith)
            requires
                1 <= r <= MAX_HZ as i64,
        ;
    }
    let a: i64 = u * (r - u);
    (16 * SCALE * a) / (5 * r * r - 4 * a)
}

/// The half-wave magnitude stays within `[0, SCALE]`.
pub proof fn lemma_sine_mag_bounds(u: int, r: int)
    requires
        0 <= u < r,
        1 <= r,
    ensures
        0 <= sine_mag(u, r) <= SCALE as int,
        5 * r * r - 4 * (u * (r - u)) >= 4,
        0 <= u * (r - u),
{
    let s = SCALE as int;
    let a = u * (r - u);
    let den = 5 * r * r - 4 * a;
    assert(0 <= a && 4 * a <= r * r) by (nonlinear_arith)
        requires
            a == u * (r - u),
            0 <= u < r,
    ;
    assert(den >= 4 * r * r && 4 * r * r >= 4) by (nonlinear_arith)
        requires
            den == 5 * r * r - 4 * a,
            4 * a <= r * r,
            0 <= a,
            1 <= r,
    ;
    assert(0 <= 16 * s * a) by (nonlinear_arith)
        requires
            0 <= a,
            0 < s,
    ;
    vstd::arithmetic::div_mod::lemma_div_pos_is_pos(16 * s * a, den);
    assert(16 * s * a <= s * den) by (nonlinear_arith)
        requires
            den >= 4 * r * r,
            4 * a <= r * r,
            0 < s,
            0 <= a,
    ;
    vstd::arithmetic::div_mod::lemma_div_is_ordered(16 * s * a, s * den, den);
    vstd::arithmetic::div_mod::lemma_div_by_multiple(s, den);
    assert(s * den == den * s) by (nonlinear_arith);
}

/// The sine sample stays in full scale.
pub proof fn lemma_sine_val_bounds(p: int, r: int)
    requires
        0 <= p < r,
        1 <= r,
    ensures
        in_full_scale(sine_val(p, r)),
{
    if 2 * p < r {
        lemma_sine_mag_bounds(2 * p, r);
    } else {
        lemma_sine_mag_bounds(2 * p - r, r);
    }
}

/// The sawtooth sample stays in full scale.
pub proof fn lemma_saw_val_bounds(p: int, r: int)
    requires
        0 <= p < r,
        1 <= r,
    ensures
        in_full_scale(saw_val(p, r)),
{
    let s = SCALE as int;
    assert(0 <= 2 * s * p) by (nonlinear_arith)
        requires
            0 <= p,
            0 < s,
    ;
    vstd::arithmetic::div_mod::lemma_div_pos_is_pos(2 * s * p, r);
    assert(2 * s * p <= (2 * s) * r) by (nonlinear_arith)
        requires
            p < r,
            0 < s,
    ;
    vstd::arithmetic::div_mod::lemma_div_is_ordered(2 * s * p, (2 * s) * r, r);
    vstd::arithmetic::div_mod::lemma_div_by_multiple(2 * s, r);
}

/// The sum of the first `n` sine samples of a tone at `f` Hz sampled at
/// `r` Hz, starting from phase zero.
pub open spec fn sine_sum(f: int, r: int, n: nat) -> int
    recommends
        1 <= f,
        1 <= r,
    decreases n,
{
    if n == 0 {
        0
    } else {
        sine_sum(f, r, (n - 1) as nat) + sine_val(((n - 1) * f) % r, r)
    }
}

/// Samples half a period apart are exact negations of one another.
proof fn lemma_sine_antisym_step(f: int, h: int, r: int, k: int)
    requires
        1 <= f,
        1 <= h,
        r == 2 * f * h,
        0 <= k < h,
    ensures
        sine_val(((k + h) * f) % r, r) == -sine_val((k * f) % r, r),
{
    let half = f * h;
    assert(r == half + half) by (nonlinear_arith)
        requires
            r == 2 * f * h,
            half == f * h,
    ;
    assert(0 <= k * f && k * f + f <= half) by (nonlinear_arith)
        requires
            0 <= k < h,
            1 <= f,
            half == f * h,
    ;
    assert((k + h) * f == k * f + half) by (nonlinear_arith)
        requires
            half == f * h,
    ;
    vstd::arithmetic::div_mod::lemma_small_mod((k * f) as nat, r as nat);
    vstd::arithmetic::div_mod::lemma_small_mod((k * f + half) as nat, r as nat);
    assert((k * f) % r == k * f);
    assert(((k + h) * f) % r == k * f + half);
    assert(2 * (k * f) < r);
    assert(2 * (k * f + half) >= r);
    assert(2 * (k * f + half) - r == 2 * (k * f));
}

/// Partial sums over the second half period mirror those over the first.
proof fn lemma_sine_sum_mirror(f: int, h: int, r: int, j: int)
    requires
        1 <= f,
        1 <= h,
        r == 2 * f * h,
        0 <= j <= h,
    ensures
        sine_sum(f, r, (h + j) as nat) == sine_sum(f, r, h as nat) - sine_sum(f, r, j as nat),
    decreases j,
{
    if j > 0 {
        lemma_sine_sum_mirror(f, h, r, j - 1);
        lemma_sine_antisym_step(f, h, r, j - 1);
    }
}

/// Over one full period of even length, the sine generator's samples sum
/// to exactly zero, so their mean amplitude is zero.
pub proof fn lemma_sine_period_sum_zero(f: int, p: int, r: int)
    requires
        1 <= f,
        2 <= p,
        p % 2 == 0,
        r == f * p,
    ensures
        sine_sum(f, r, p as nat) == 0,
{
    let h = p / 2;
    assert(p == 2 * h);
    assert(r == 2 * f * h) by (nonlinear_arith)
        requires
            r == f * p,
            p == 2 * h,
    ;
    lemma_sine_sum_mirror(f, h, r, h);
    assert(h + h == p);
}

} // verus!
