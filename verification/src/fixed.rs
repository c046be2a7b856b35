//! Fixed-point arithmetic shared by the ledger and the rate registry.
//!
//! A fixed-point value represents `v / SCALE` for an integer `v`, so with
//! `SCALE == 10_000` four decimal places are carried exactly. Products are
//! divided by a positive denominator with round-half-up, the one rounding
//! rule used everywhere in the library.

use vstd::arithmetic::div_mod::{lemma_div_is_ordered, lemma_div_multiples_vanish_fancy};
use vstd::arithmetic::mul::lemma_mul_upper_bound;
use vstd::prelude::*;

verus! {

/// Number of fixed-point steps per whole unit: four decimal places.
pub const SCALE: u64 = 10_000;

/// `a * b / d`, rounded half up: the mathematical value of every scaled
/// product in the library. Defined for `d > 0`.
pub open spec fn scaled_mul_div(a: int, b: int, d: int) -> int {
    (a * b + d / 2) / d
}

/// Rounding half up never loses more than it should: for nonnegative
/// operands the result lies between the floor quotient and `a * b / d + 1`,
/// and a common factor cancels exactly.
pub proof fn lemma_scaled_identity(a: int, d: int)
    requires
        a >= 0,
        d > 0,
    ensures
        scaled_mul_div(a, d, d) == a,
{
    lemma_div_multiples_vanish_fancy(a, d / 2, d);
    assert(a * d == d * a) by (nonlinear_arith);
    assert((d * a + d / 2) / d == a);
}

/// Computes `scaled_mul_div(a, b, d)` exactly, or reports that the result
/// does not fit in `i64`.
pub fn mul_div_round(a: i64, b: u64, d: u64) -> (r: Option<i64>)
    requires
        a >= 0,
        d > 0,
    ensures
        match r {
            Some(v) => v == scaled_mul_div(a as int, b as int, d as int) && scaled_mul_div(
                a as int,
                b as int,
                d as int,
            ) <= i64::MAX,
            None => scaled_mul_div(a as int, b as int, d as int) > i64::MAX,
        },
{
    proof {
        lemma_mul_upper_bound(a as int, i64::MAX as int, b as int, u64::MAX as int);
    }
    let prod: u128 = (a as u128) * (b as u128);
    let den: u128 = d as u128;
    let q: u128 = (prod + den / 2) / den;
    proof {
        assert(q == scaled_mul_div(a as int, b as int, d as int));
    }
    if q > i64::MAX as u128 {
        None
    } else {
        Some(q as i64)
    }
}

/// The result of a rounded scaled division of nonnegative operands is
/// nonnegative.
pub proof fn lemma_scaled_nonneg(a: int, b: int, d: int)
    requires
        a >= 0,
        b >= 0,
        d > 0,
    ensures
        scaled_mul_div(a, b, d) >= 0,
{
    assert(a * b >= 0) by (nonlinear_arith)
        requires
            a >= 0,
            b >= 0,
    ;
    lemma_div_is_ordered(0, a * b + d / 2, d);
}

} // verus!
