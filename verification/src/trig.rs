//! Fixed-point trigonometry for the audio graph and the wobble animation.
//!
//! Angles are phases in milliturns (a full cycle is 1000), results are in
//! thousandths of full amplitude.  The sine uses Bhaskara's rational
//! approximation, the decaying exponential a cubic polynomial refined by
//! halving, both stated exactly by spec functions.

use vstd::prelude::*;

verus! {

/// Value of the sine approximation on the first half cycle, scaled by 1000;
/// `t` counts milliturns past zero, `0 <= t <= 500`.
pub open spec fn sin_half_spec(t: int) -> int {
    16000 * (t * (500 - t)) / (1250000 - 4 * (t * (500 - t)))
}

/// Sine of a phase given in milliturns (`0 <= p < 1000`), scaled by 1000.
pub open spec fn sin_spec(p: int) -> int {
    if p < 500 {
        sin_half_spec(p)
    } else {
        -sin_half_spec(p - 500)
    }
}

/// The product `t * (500 - t)` stays within `[0, 62500]` on the half cycle.
proof fn lemma_sin_core_bounds(t: int)
    requires
        0 <= t <= 500,
    ensures
        0 <= t * (500 - t) <= 62500,
        0 <= sin_half_spec(t) <= 1000,
{
    assert(0 <= t * (500 - t) <= 62500) by (nonlinear_arith)
        requires
            0 <= t <= 500,
    ;
    let q = t * (500 - t);
    assert(0 <= 16000 * q / (1250000 - 4 * q) <= 1000) by (nonlinear_arith)
        requires
            0 <= q <= 62500,
    ;
}

/// Sine of a phase in milliturns, scaled by 1000.
pub fn sin_milli(p: u64) -> (r: i64)
    requires
        p < 1000,
    ensures
        r == sin_spec(p as int),
        -1000 <= r <= 1000,
{
    let t: u64 = if p < 500 {
        p
    } else {
        p - 500
    };
    proof {
        lemma_sin_core_bounds(t as int);
    }
    let q: u64 = t * (500 - t);
    let num: u64 = 16000 * q;
    let den: u64 = 1250000 - 4 * q;
    let v: u64 = num / den;
    proof {
        assert(num / den <= 1000) by (nonlinear_arith)
            requires
                num <= 1000 * den,
                den >= 1,
        ;
    }
    if p < 500 {
        v as i64
    } else {
        -(v as i64)
    }
}

/// Cubic lower-order expansion of `e^(-r/1000)`, scaled by a thousand
/// million; `r` ranges over one halving period, `0 <= r < 693`.
pub open spec fn exp_frac_nano(r: int) -> int {
    1_000_000_000 - 1_000_000 * r + 500 * (r * r) - (r * r) * r / 6
}

/// `e^(-x/1000)` scaled by 1000: the fractional part is the cubic above,
/// and each whole multiple of `ln 2` (693 thousandths) halves the result.
/// Arguments of fourteen or more are flushed to zero.
pub open spec fn exp_neg_spec(x: int) -> int
    decreases x,
{
    if x >= 14000 {
        0
    } else if x < 693 {
        exp_frac_nano(x) / 1_000_000
    } else {
        exp_neg_spec(x - 693) / 2
    }
}

/// The cubic stays within `[0, 10^9]` on its period.
proof fn lemma_exp_frac_bounds(r: int)
    requires
        0 <= r < 693,
    ensures
        0 <= exp_frac_nano(r) <= 1_000_000_000,
{
    assert(0 <= 1_000_000_000 - 1_000_000 * r + 500 * (r * r) - (r * r) * r / 6
        <= 1_000_000_000) by (nonlinear_arith)
        requires
            0 <= r < 693,
    ;
}

/// `e^(-x/1000)` scaled by 1000.
pub fn exp_neg_milli(x: u64) -> (r: u64)
    ensures
        r == exp_neg_spec(x as int),
        r <= 1000,
    decreases x,
{
    if x >= 14000 {
        0
    } else if x < 693 {
        proof {
            lemma_exp_frac_bounds(x as int);
        }
        proof {
            assert((x * x) * x / 6 <= 1_000_000 * x && 1_000_000_000 + 500 * (x * x)
                >= 1_000_000 * x + (x * x) * x / 6) by (nonlinear_arith)
                requires
                    0 <= x < 693,
            ;
        }
        let r2: u64 = x * x;
        let cube_part: u64 = r2 * x / 6;
        let nano: u64 = 1_000_000_000 + 500 * r2 - 1_000_000 * x - cube_part;
        nano / 1_000_000
    } else {
        exp_neg_milli(x - 693) / 2
    }
}

} // verus!
