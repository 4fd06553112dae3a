//! A fixed-point exponential for acceptance ratios.
//!
//! The Metropolis acceptance probability `exp(-delta / T)` is evaluated in
//! fixed point: a fifth-order series for the fractional part of the exponent
//! and repeated multiplication by `exp(-1)` for its integer part. The
//! function below computes exactly the value its specification describes,
//! always lands in the closed unit interval, and is one exactly on a
//! vanishing exponent.

use vstd::prelude::*;
use crate::fixed::{SCALE, div_floor64};

verus! {

/// One over Euler's number, in fixed-point units, rounded down.
pub const EXP_NEG_ONE: i64 = 367_879;

/// Exponents at or beyond this many whole units evaluate to zero, as the
/// true value falls below the fixed-point resolution long before.
pub const EXP_CUTOFF: i64 = 20;

/// One decay step: scale by `exp(-1)` in fixed point.
pub open spec fn decay_step(p: int) -> int {
    p * (EXP_NEG_ONE as int) / (SCALE as int)
}

/// `k` decay steps applied to `p`.
pub open spec fn decay(p: int, k: int) -> int
    decreases k,
{
    if k <= 0 {
        p
    } else {
        decay(decay_step(p), k - 1)
    }
}

/// The series for `exp(-r / SCALE)` with `r` in the unit interval, clamped
/// into the unit interval: one minus the exponent plus its square half, less
/// its cube sixth, plus its fourth power twenty-fourth, less its fifth power
/// hundred-twentieth.
pub open spec fn exp_frac(r: int) -> int {
    let s = SCALE as int;
    let raw = s - r
        + r * r / (2 * s)
        - r * r * r / (6 * (s * s))
        + r * r * r * r / (24 * (s * s * s))
        - r * r * r * r * r / (120 * (s * s * s * s));
    if raw < 0 {
        0
    } else if raw > s {
        s
    } else {
        raw
    }
}

/// The fixed-point exponential of `-delta / temp`: zero past the cutoff,
/// otherwise the series for the fractional part decayed once per whole unit
/// of the exponent.
pub open spec fn exp_neg_spec(delta: int, temp: int) -> int {
    let x = delta * (SCALE as int) / temp;
    if x >= (EXP_CUTOFF as int) * (SCALE as int) {
        0
    } else {
        decay(exp_frac(x % (SCALE as int)), x / (SCALE as int))
    }
}

/// A decay step keeps the unit interval and never lands on one.
proof fn lemma_decay_step_bounds(p: int)
    requires
        0 <= p <= SCALE,
    ensures
        0 <= decay_step(p) <= EXP_NEG_ONE,
{
    let s = SCALE as int;
    let e = EXP_NEG_ONE as int;
    assert(0 <= p * e <= e * s) by (nonlinear_arith)
        requires 0 <= p <= s, e > 0,
    ;
    crate::fixed::lemma_div_in_range(p * e, s, e);
    vstd::arithmetic::div_mod::lemma_div_pos_is_pos(p * e, s);
}

/// Unfolding a decay from the back: one more step equals a step applied to
/// the decayed value.
proof fn lemma_decay_unfold(p: int, k: int)
    requires
        k >= 0,
    ensures
        decay(p, k + 1) == decay_step(decay(p, k)),
    decreases k,
{
    if k > 0 {
        lemma_decay_unfold(decay_step(p), k - 1);
    } else {
        assert(decay(p, 1) == decay(decay_step(p), 0));
        assert(decay(decay_step(p), 0) == decay_step(p));
    }
}

/// The series at a vanishing exponent is exactly one.
proof fn lemma_exp_frac_zero()
    ensures
        exp_frac(0) == SCALE as int,
{
    let s = SCALE as int;
    assert(2 * s > 0 && 6 * (s * s) > 0 && 24 * (s * s * s) > 0
        && 120 * (s * s * s * s) > 0) by (nonlinear_arith)
        requires s > 0,
    ;
    vstd::arithmetic::div_mod::lemma_div_of0(2 * s);
    vstd::arithmetic::div_mod::lemma_div_of0(6 * (s * s));
    vstd::arithmetic::div_mod::lemma_div_of0(24 * (s * s * s));
    vstd::arithmetic::div_mod::lemma_div_of0(120 * (s * s * s * s));
}

/// The series value for a positive fractional exponent stays below one: the
/// positive correction terms are dominated by the linear term.
proof fn lemma_exp_frac_lt(r: int)
    requires
        1 <= r < SCALE,
    ensures
        exp_frac(r) < SCALE,
{
    let s = SCALE as int;
    let a = r * r / (2 * s);
    let c = r * r * r * r / (24 * (s * s * s));
    vstd::arithmetic::div_mod::lemma_fundamental_div_mod(r * r, 2 * s);
    vstd::arithmetic::div_mod::lemma_fundamental_div_mod(
        r * r * r * r, 24 * (s * s * s));
    vstd::arithmetic::div_mod::lemma_mod_division_less_than_divisor(r * r, 2 * s);
    vstd::arithmetic::div_mod::lemma_mod_division_less_than_divisor(
        r * r * r * r, 24 * (s * s * s));
    vstd::arithmetic::div_mod::lemma_div_pos_is_pos(r * r, 2 * s);
    vstd::arithmetic::div_mod::lemma_div_pos_is_pos(
        r * r * r * r, 24 * (s * s * s));
    vstd::arithmetic::div_mod::lemma_div_pos_is_pos(
        r * r * r, 6 * (s * s));
    vstd::arithmetic::div_mod::lemma_div_pos_is_pos(
        r * r * r * r * r, 120 * (s * s * s * s));
    assert(0 <= r * r && 0 <= r * r * r && 0 <= r * r * r * r
        && 0 <= r * r * r * r * r) by (nonlinear_arith)
        requires r >= 1,
    ;
    assert(a + c < r) by (nonlinear_arith)
        requires
            1 <= r < s,
            s > 1,
            a >= 0,
            c >= 0,
            r * r == 2 * s * a + (r * r) % (2 * s),
            0 <= (r * r) % (2 * s),
            r * r * r * r == 24 * (s * s * s) * c
                + (r * r * r * r) % (24 * (s * s * s)),
            0 <= (r * r * r * r) % (24 * (s * s * s)),
    ;
}

/// The fixed-point exponential of `-delta / temp`.
pub fn exp_neg(delta: i64, temp: i64) -> (r: i64)
    requires
        delta >= 0,
        temp >= 1,
    ensures
        r == exp_neg_spec(delta as int, temp as int),
        0 <= r <= SCALE,
        delta == 0 ==> r == SCALE,
        (delta as int) * (SCALE as int) >= temp ==> r < SCALE,
{
    let s = SCALE as u128;
    let x: u128 = (delta as u128) * (s) / (temp as u128);
    proof {
        if delta == 0 {
            assert((0int) * (SCALE as int) == 0) by (nonlinear_arith);
            vstd::arithmetic::div_mod::lemma_div_of0(temp as int);
        }
        if (delta as int) * (SCALE as int) >= temp {
            assert(x as int >= 1) by {
                vstd::arithmetic::div_mod::lemma_div_is_ordered(
                    temp as int, (delta as int) * (SCALE as int), temp as int);
                vstd::arithmetic::div_mod::lemma_div_by_self(temp as int);
            }
        }
    }
    if x >= (EXP_CUTOFF as u128) * s {
        return 0;
    }
    let q: u64 = (x / s) as u64;
    let r0: u128 = x % s;
    proof {
        vstd::arithmetic::div_mod::lemma_mod_division_less_than_divisor(
            x as int, SCALE as int);
        vstd::arithmetic::div_mod::lemma_div_pos_is_pos(x as int, SCALE as int);
        assert(x as int / (SCALE as int) < EXP_CUTOFF as int) by {
            vstd::arithmetic::div_mod::lemma_div_is_ordered(
                x as int, (EXP_CUTOFF as int) * (SCALE as int) - 1, SCALE as int);
            assert((EXP_CUTOFF as int) * (SCALE as int) - 1
                == (SCALE as int) * ((EXP_CUTOFF as int) - 1) + ((SCALE as int) - 1))
                by (nonlinear_arith);
            vstd::arithmetic::div_mod::lemma_fundamental_div_mod_converse(
                (EXP_CUTOFF as int) * (SCALE as int) - 1, SCALE as int,
                (EXP_CUTOFF as int) - 1, (SCALE as int) - 1);
        }
        let rr = r0 as int;
        assert(0 <= rr * rr <= (SCALE as int) * (SCALE as int)
            && 0 <= rr * rr * rr
                <= (SCALE as int) * (SCALE as int) * (SCALE as int)
            && 0 <= rr * rr * rr * rr
                <= (SCALE as int) * (SCALE as int) * (SCALE as int) * (SCALE as int)
            && 0 <= rr * rr * rr * rr * rr
                <= (SCALE as int) * (SCALE as int) * (SCALE as int) * (SCALE as int)
                    * (SCALE as int))
            by (nonlinear_arith)
            requires 0 <= rr < SCALE as int,
        ;
    }
    let a: u128 = r0 * r0 / (2 * s);
    let b: u128 = r0 * r0 * r0 / (6 * (s * s));
    let c: u128 = r0 * r0 * r0 * r0 / (24 * (s * s * s));
    let d: u128 = r0 * r0 * r0 * r0 * r0 / (120 * (s * s * s * s));
    proof {
        lemma_series_term_caps(r0 as int);
        vstd::arithmetic::div_mod::lemma_fundamental_div_mod(x as int, SCALE as int);
    }
    let raw: i128 = (s as i128) - (r0 as i128) + (a as i128) - (b as i128)
        + (c as i128) - (d as i128);
    let frac: i64 = if raw < 0 {
        0
    } else if raw > s as i128 {
        SCALE
    } else {
        raw as i64
    };
    let mut p: i64 = frac;
    let mut j: u64 = 0;
    while j < q
        invariant
            0 <= p <= SCALE,
            0 <= j <= q,
            p == decay(frac as int, j as int),
            j >= 1 ==> p <= EXP_NEG_ONE,
            frac == exp_frac((x % (SCALE as u128)) as int),
            q == x as int / (SCALE as int),
        decreases q - j,
    {
        proof {
            lemma_decay_step_bounds(p as int);
            lemma_decay_unfold(frac as int, j as int);
            assert(0 <= (p as int) * (EXP_NEG_ONE as int)
                <= (SCALE as int) * (SCALE as int)) by (nonlinear_arith)
                requires 0 <= p as int <= SCALE as int,
            ;
        }
        p = div_floor64(p * EXP_NEG_ONE, SCALE);
        j = j + 1;
    }
    proof {
        if delta == 0 {
            lemma_exp_frac_zero();
        }
        if (delta as int) * (SCALE as int) >= temp && q == 0 {
            lemma_exp_frac_lt((x % (SCALE as u128)) as int);
        }
    }
    p
}

/// Every series term stays within one unit for a fractional exponent.
proof fn lemma_series_term_caps(r: int)
    requires
        0 <= r < SCALE,
    ensures
        r * r / (2 * (SCALE as int)) <= SCALE,
        r * r * r / (6 * ((SCALE as int) * (SCALE as int))) <= SCALE,
        r * r * r * r
            / (24 * ((SCALE as int) * (SCALE as int) * (SCALE as int))) <= SCALE,
        r * r * r * r * r
            / (120 * ((SCALE as int) * (SCALE as int) * (SCALE as int)
                * (SCALE as int))) <= SCALE,
{
    let s = SCALE as int;
    assert(r * r <= s * (2 * s) && r * r * r <= s * (6 * (s * s))
        && r * r * r * r <= s * (24 * (s * s * s))
        && r * r * r * r * r <= s * (120 * (s * s * s * s))
        && 0 <= r * r && 0 <= r * r * r && 0 <= r * r * r * r
        && 0 <= r * r * r * r * r)
        by (nonlinear_arith)
        requires 0 <= r < s, s > 0,
    ;
    crate::fixed::lemma_div_in_range(r * r, 2 * s, s);
    crate::fixed::lemma_div_in_range(r * r * r, 6 * (s * s), s);
    crate::fixed::lemma_div_in_range(r * r * r * r, 24 * (s * s * s), s);
    crate::fixed::lemma_div_in_range(r * r * r * r * r, 120 * (s * s * s * s), s);
    assert(2 * s > 0 && 6 * (s * s) > 0 && 24 * (s * s * s) > 0
        && 120 * (s * s * s * s) > 0) by (nonlinear_arith)
        requires s > 0,
    ;
}

} // verus!
