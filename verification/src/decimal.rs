//! Fixed-point decimal fractions and the rounding rule of the whole crate.
//!
//! Loan-to-value ratios and oracle prices are fractions; they are carried as
//! an integer count of atomic units, `FRACTIONAL` units to one whole.  The
//! one arithmetic operation the limit calculator needs is "integer amount
//! times fraction", and it always rounds down: the floor keeps every rounding
//! error in the protocol's favour, never the borrower's.

use vstd::arithmetic::div_mod::{
    lemma_div_is_ordered, lemma_div_pos_is_pos, lemma_fundamental_div_mod,
    lemma_hoist_over_denominator, lemma_mod_bound,
};
use vstd::arithmetic::mul::{lemma_mul_inequality, lemma_mul_nonnegative};
use vstd::prelude::*;

verus! {

/// Atomic units in one whole: fixed-point values carry 18 decimal places.
pub const FRACTIONAL: u128 = 1_000_000_000_000_000_000;

/// A non-negative fixed-point fraction with 18 decimal places, such as a
/// loan-to-value ratio or an oracle exchange rate.
#[derive(Clone, Copy, PartialEq, Eq, Structural, Debug)]
pub struct Decimal {
    /// The value scaled by `FRACTIONAL`: `atomics / FRACTIONAL` wholes.
    pub atomics: u128,
}

impl Decimal {
    /// The fraction `atomics / FRACTIONAL`.
    pub fn new(atomics: u128) -> (r: Decimal)
        ensures
            r.atomics == atomics,
    {
        Decimal { atomics }
    }

    /// The fraction zero.
    pub fn zero() -> (r: Decimal)
        ensures
            r.atomics == 0,
    {
        Decimal { atomics: 0 }
    }

    /// The fraction one.
    pub fn one() -> (r: Decimal)
        ensures
            r.atomics == FRACTIONAL,
    {
        Decimal { atomics: FRACTIONAL }
    }

    /// `x` hundredths: `Decimal::percent(50)` is one half.
    pub fn percent(x: u64) -> (r: Decimal)
        ensures
            r.atomics == x * 10_000_000_000_000_000,
    {
        proof {
            lemma_mul_inequality(x as int, u64::MAX as int, 10_000_000_000_000_000);
        }
        Decimal { atomics: (x as u128) * 10_000_000_000_000_000 }
    }
}

/// Floor of `x * (num / FRACTIONAL)`: the exact product of an integer amount
/// and a fraction given in atomic units, rounded down.
pub open spec fn scale_floor(x: int, num: int) -> int {
    (x * num) / (FRACTIONAL as int)
}

/// Floor of `x` times the fraction `d`, or `None` when the exact floor does
/// not fit in `u128`.
///
/// The intermediate products are decomposed around `FRACTIONAL`, so the
/// result is the mathematical floor whenever it is representable; `None`
/// comes back exactly when it is not.
pub fn mul_floor(x: u128, d: Decimal) -> (r: Option<u128>)
    ensures
        scale_floor(x as int, d.atomics as int) <= u128::MAX ==> r == Some(
            scale_floor(x as int, d.atomics as int) as u128,
        ),
        scale_floor(x as int, d.atomics as int) > u128::MAX ==> r is None,
{
    let b: u128 = d.atomics;
    let qa: u128 = x / FRACTIONAL;
    let ra: u128 = x % FRACTIONAL;
    let qb: u128 = b / FRACTIONAL;
    let rb: u128 = b % FRACTIONAL;
    proof {
        let f = FRACTIONAL as int;
        lemma_fundamental_div_mod(x as int, f);
        lemma_fundamental_div_mod(b as int, f);
        lemma_mod_bound(x as int, f);
        lemma_mod_bound(b as int, f);
        assert(x * b == ra * b + (qa * b) * f) by (nonlinear_arith)
            requires
                x == f * qa + ra,
        ;
        lemma_mul_nonnegative(ra as int, b as int);
        lemma_mul_nonnegative(qa as int, b as int);
        lemma_hoist_over_denominator(ra * b, qa * b, FRACTIONAL as nat);
        assert(scale_floor(x as int, b as int) == qa * b + (ra * b) / f);
        assert(ra * b == ra * rb + (ra * qb) * f) by (nonlinear_arith)
            requires
                b == f * qb + rb,
        ;
        lemma_mul_nonnegative(ra as int, rb as int);
        lemma_mul_nonnegative(ra as int, qb as int);
        lemma_hoist_over_denominator(ra * rb, ra * qb, FRACTIONAL as nat);
        assert((ra * b) / f == ra * qb + (ra * rb) / f);
        lemma_div_pos_is_pos(ra * rb, f);
        lemma_div_pos_is_pos(ra * b, f);
        assert(ra * rb < f * f) by (nonlinear_arith)
            requires
                0 <= ra < f,
                0 <= rb < f,
        ;
        assert(f * f <= u128::MAX);
    }
    let low: u128 = (ra * rb) / FRACTIONAL;
    let hi1: u128 = match qa.checked_mul(b) {
        Some(v) => v,
        None => {
            return None;
        },
    };
    let hi2: u128 = match ra.checked_mul(qb) {
        Some(v) => v,
        None => {
            return None;
        },
    };
    let s1: u128 = match hi1.checked_add(hi2) {
        Some(v) => v,
        None => {
            return None;
        },
    };
    match s1.checked_add(low) {
        Some(v) => Some(v),
        None => None,
    }
}

/// Rounding down commutes with growing the integer factor: a larger amount
/// never yields a smaller floored product.
pub proof fn lemma_scale_floor_monotone(x: int, y: int, num: int)
    requires
        0 <= x <= y,
        0 <= num,
    ensures
        scale_floor(x, num) <= scale_floor(y, num),
{
    lemma_mul_inequality(x, y, num);
    lemma_div_is_ordered(x * num, y * num, FRACTIONAL as int);
}

/// A floored product of non-negative factors is non-negative.
pub proof fn lemma_scale_floor_nonneg(x: int, num: int)
    requires
        0 <= x,
        0 <= num,
    ensures
        0 <= scale_floor(x, num),
{
    lemma_mul_nonnegative(x, num);
    lemma_div_pos_is_pos(x * num, FRACTIONAL as int);
}

} // verus!
