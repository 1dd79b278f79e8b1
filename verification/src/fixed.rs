//! Fixed-point scalars: an `i64` that counts millionths of a unit,
//! together with the truncating division and widening multiplication
//! that the regression arithmetic is built from.

use vstd::prelude::*;
use vstd::arithmetic::div_mod::{lemma_div_pos_is_pos, lemma_div_nonincreasing};

verus! {

/// Number of fixed-point units in `1.0`: values are stored in millionths.
pub const SCALE: i64 = 1_000_000;

/// Division rounding toward zero, as Rust's `/` does on machine integers.
/// (On `int`, `/` is Euclidean, so a negative dividend is handled by sign.)
pub open spec fn trunc_div(x: int, d: int) -> int
    recommends
        d > 0,
{
    if x >= 0 {
        x / d
    } else {
        -((-x) / d)
    }
}

/// Product of two fixed-point values, rescaled back into fixed point.
pub open spec fn fx_mul(a: int, b: int) -> int {
    trunc_div(a * b, SCALE as int)
}

/// Truncating division never grows the magnitude of the dividend.
pub proof fn lemma_trunc_div_bound(x: int, d: int)
    requires
        d >= 1,
    ensures
        x >= 0 ==> 0 <= trunc_div(x, d) <= x,
        x < 0 ==> x <= trunc_div(x, d) <= 0,
{
    if x >= 0 {
        lemma_div_pos_is_pos(x, d);
        lemma_div_nonincreasing(x, d);
    } else {
        lemma_div_pos_is_pos(-x, d);
        lemma_div_nonincreasing(-x, d);
    }
}

/// When the divisor divides the dividend exactly, truncating division
/// agrees with exact (Euclidean) division.
pub proof fn lemma_trunc_div_exact(x: int, d: int)
    requires
        d >= 1,
        x % d == 0,
    ensures
        trunc_div(x, d) == x / d,
        d * (x / d) == x,
{
    vstd::arithmetic::div_mod::lemma_fundamental_div_mod(x, d);
    let q: int = x / d;
    assert(d * q == x);
    if x < 0 {
        assert(-x == d * (-q)) by (nonlinear_arith)
            requires
                d * q == x,
        ;
        assert((d * (-q)) / d == -q) by {
            vstd::arithmetic::div_mod::lemma_div_multiples_vanish(-q, d);
        }
        assert(trunc_div(x, d) == -((-x) / d));
        assert((-x) / d == -q);
    }
}

/// A product of two `i64` values always fits in an `i128`.
pub proof fn lemma_i64_product_fits(a: int, b: int)
    requires
        i64::MIN <= a <= i64::MAX,
        i64::MIN <= b <= i64::MAX,
    ensures
        i64::MIN * i64::MAX <= a * b <= i64::MIN * i64::MIN,
        i128::MIN <= a * b <= i128::MAX,
{
    assert(i64::MIN * i64::MAX <= a * b <= i64::MIN * i64::MIN) by (nonlinear_arith)
        requires
            i64::MIN <= a <= i64::MAX,
            i64::MIN <= b <= i64::MAX,
    ;
}

/// Widening product of two fixed-point scalars; it cannot overflow.
pub fn wide_mul(a: i64, b: i64) -> (r: i128)
    ensures
        r == a * b,
{
    proof {
        lemma_i64_product_fits(a as int, b as int);
    }
    (a as i128) * (b as i128)
}

/// Truncating division of an `i128` by a positive divisor. Relies on
/// `i128::checked_div`, which is total here because the quotient's
/// magnitude never exceeds the dividend's.
pub fn div_trunc(x: i128, d: i128) -> (r: i128)
    requires
        d >= 1,
    ensures
        r == trunc_div(x as int, d as int),
{
    proof {
        lemma_trunc_div_bound(x as int, d as int);
    }
    match x.checked_div(d) {
        Some(q) => q,
        None => vstd::pervasive::unreached(),
    }
}

/// Narrow an `i128` into an `i64` when it is within range.
pub fn narrow(v: i128) -> (r: Option<i64>)
    ensures
        r == (if i64::MIN <= v <= i64::MAX {
            Some(v as i64)
        } else {
            None::<i64>
        }),
{
    if i64::MIN as i128 <= v && v <= i64::MAX as i128 {
        Some(v as i64)
    } else {
        None
    }
}

} // verus!
