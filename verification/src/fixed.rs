//! Fixed-point sample arithmetic.
//!
//! A sample is a scalar amplitude held in an `i64`, normalized so that
//! `SCALE` stands for full amplitude 1.0 and `-SCALE` for -1.0. Gains and
//! mix coefficients are fractions of `SCALE` in `[0, SCALE]`. Scaling a
//! sample by a gain rounds toward zero, symmetrically for negative samples,
//! so that scaling never increases a sample's magnitude.

use vstd::prelude::*;

verus! {

/// The sample value that stands for full amplitude 1.0.
pub const SCALE: i64 = 10000;

/// The normalized full-scale range [-SCALE, SCALE].
pub open spec fn in_full_scale(x: int) -> bool {
    -(SCALE as int) <= x <= SCALE as int
}

/// Clamping to the normalized full-scale range.
pub open spec fn clamp_spec(x: int) -> int {
    if x < -(SCALE as int) {
        -(SCALE as int)
    } else if x > SCALE as int {
        SCALE as int
    } else {
        x
    }
}

/// Clamp a sample to the normalized full-scale range.
pub fn clamp_full_scale(x: i64) -> (r: i64)
    ensures
        r == clamp_spec(x as int),
        in_full_scale(r as int),
{
    if x < -SCALE {
        -SCALE
    } else if x > SCALE {
        SCALE
    } else {
        x
    }
}

/// Scaling a sample `x` by the gain fraction `g / SCALE`, rounding toward
/// zero. The magnitude of the result never exceeds the magnitude of `x`
/// when `g <= SCALE`.
pub open spec fn scale_amp_spec(x: int, g: int) -> int
    recommends
        0 <= g,
{
    if x >= 0 {
        (x * g) / (SCALE as int)
    } else {
        -(((-x) * g) / (SCALE as int))
    }
}

/// Scale a sample by a gain fraction of `SCALE`.
pub fn scale_amp(x: i64, g: i64) -> (r: i64)
    requires
        in_full_scale(x as int),
        0 <= g <= SCALE,
    ensures
        r == scale_amp_spec(x as int, g as int),
        in_full_scale(r as int),
        -g <= r <= g,
{
    proof {
        lemma_scale_amp_le_gain(x as int, g as int);
    }
    if x >= 0 {
        (x * g) / SCALE
    } else {
        -(((-x) * g) / SCALE)
    }
}

/// Scaling with a nonnegative gain keeps the sign of the sample and the
/// result's magnitude is at most `|x| * g / SCALE`.
pub proof fn lemma_scale_amp_nonneg(x: int, g: int)
    requires
        0 <= x,
        0 <= g,
    ensures
        0 <= scale_amp_spec(x, g) <= (x * g) / (SCALE as int),
{
    vstd::arithmetic::div_mod::lemma_div_pos_is_pos(x * g, SCALE as int);
    assert(0 <= x * g) by (nonlinear_arith)
        requires
            0 <= x,
            0 <= g,
    ;
}

/// Scaling by the unit gain `SCALE` is the identity.
pub proof fn lemma_scale_amp_identity(x: int)
    ensures
        scale_amp_spec(x, SCALE as int) == x,
{
    if x >= 0 {
        vstd::arithmetic::div_mod::lemma_div_by_multiple(x, SCALE as int);
    } else {
        vstd::arithmetic::div_mod::lemma_div_by_multiple(-x, SCALE as int);
    }
}

/// Scaling by the zero gain gives silence.
pub proof fn lemma_scale_amp_zero_gain(x: int)
    ensures
        scale_amp_spec(x, 0) == 0,
{
    vstd::arithmetic::div_mod::lemma_div_of0(SCALE as int);
}

/// The zero sample stays zero under any gain.
pub proof fn lemma_scale_amp_zero_sample(g: int)
    ensures
        scale_amp_spec(0, g) == 0,
{
    vstd::arithmetic::div_mod::lemma_div_of0(SCALE as int);
}

/// Scaling is antisymmetric in the sample: negating the sample negates the
/// scaled result exactly.
pub proof fn lemma_scale_amp_antisym(x: int, g: int)
    requires
        0 <= g,
    ensures
        scale_amp_spec(-x, g) == -scale_amp_spec(x, g),
{
    if x == 0 {
        lemma_scale_amp_zero_sample(g);
    }
}

/// A gain of at most `SCALE` never increases a sample's magnitude.
pub proof fn lemma_scale_amp_le_sample(x: int, g: int)
    requires
        0 <= g <= SCALE as int,
    ensures
        0 <= x ==> 0 <= scale_amp_spec(x, g) <= x,
        x < 0 ==> x <= scale_amp_spec(x, g) <= 0,
    decreases (if x < 0 { 1int } else { 0int }),
{
    let s = SCALE as int;
    if 0 <= x {
        lemma_scale_amp_nonneg(x, g);
        assert(x * g <= x * s) by (nonlinear_arith)
            requires
                0 <= x,
                g <= s,
        ;
        vstd::arithmetic::div_mod::lemma_div_is_ordered(x * g, x * s, s);
        vstd::arithmetic::div_mod::lemma_div_by_multiple(x, s);
    } else {
        lemma_scale_amp_antisym(x, g);
        lemma_scale_amp_le_sample(-x, g);
    }
}

/// Scaling a full-scale sample by gain `g` stays within `[-g, g]`.
pub proof fn lemma_scale_amp_le_gain(x: int, g: int)
    requires
        in_full_scale(x),
        0 <= g,
    ensures
        -g <= scale_amp_spec(x, g) <= g,
    decreases (if x < 0 { 1int } else { 0int }),
{
    let s = SCALE as int;
    if 0 <= x {
        lemma_scale_amp_nonneg(x, g);
        assert(x * g <= s * g) by (nonlinear_arith)
            requires
                0 <= g,
                x <= s,
        ;
        vstd::arithmetic::div_mod::lemma_div_is_ordered(x * g, s * g, s);
        assert(s * g == g * s) by (nonlinear_arith);
        vstd::arithmetic::div_mod::lemma_div_by_multiple(g, s);
    } else {
        lemma_scale_amp_antisym(x, g);
        lemma_scale_amp_le_gain(-x, g);
    }
}

/// A gain strictly below `SCALE` strictly shrinks any nonzero sample: this
/// is the geometric decay that keeps recirculated energy bounded.
pub proof fn lemma_scale_amp_strict_decay(x: int, g: int)
    requires
        0 <= g < SCALE as int,
        x != 0,
    ensures
        x > 0 ==> 0 <= scale_amp_spec(x, g) < x,
        x < 0 ==> x < scale_amp_spec(x, g) <= 0,
    decreases (if x < 0 { 1int } else { 0int }),
{
    let s = SCALE as int;
    if x > 0 {
        lemma_scale_amp_nonneg(x, g);
        assert(x * g <= x * s - x) by (nonlinear_arith)
            requires
                0 < x,
                g <= s - 1,
        ;
        assert(x * g <= x * s - 1);
        vstd::arithmetic::div_mod::lemma_div_is_ordered(x * g, x * s - 1, s);
        assert((x * s - 1) / s == x - 1) by {
            vstd::arithmetic::div_mod::lemma_div_multiples_vanish_fancy(x - 1, s - 1, s);
            assert(s * (x - 1) + (s - 1) == x * s - 1) by (nonlinear_arith);
        }
    } else {
        lemma_scale_amp_antisym(x, g);
        lemma_scale_amp_strict_decay(-x, g);
    }
}

} // verus!
