//! Laws relating the regression functions: linearity of the two
//! gradients in the residual vector, and determinism of the trainer.

use vstd::prelude::*;
use vstd::arithmetic::div_mod::lemma_mod_multiples_basic;
use crate::fixed::{SCALE, trunc_div, lemma_trunc_div_exact};
use crate::sums::{dot, sum, scaled, lemma_dot_scaled, lemma_sum_scaled};
use crate::regress::{dm_val, db_val, linreg_post, RegError};

verus! {

/// Exact division carries scaling through: when `d` divides `x`,
/// `trunc_div(k * x, d) == k * trunc_div(x, d)`.
proof fn lemma_trunc_div_scales(x: int, d: int, k: int)
    requires
        d >= 1,
        x % d == 0,
    ensures
        trunc_div(k * x, d) == k * trunc_div(x, d),
{
    lemma_trunc_div_exact(x, d);
    let q: int = x / d;
    assert((k * q) * d == k * x) by (nonlinear_arith)
        requires
            d * q == x,
    ;
    lemma_mod_multiples_basic(k * q, d);
    assert((k * x) % d == 0);
    lemma_trunc_div_exact(k * x, d);
    assert(d * ((k * x) / d) == k * x);
    assert((k * x) / d == k * q) by (nonlinear_arith)
        requires
            d * ((k * x) / d) == k * x,
            (k * q) * d == k * x,
            d >= 1,
    ;
}

/// The slope gradient is linear in the residual vector: scaling every
/// residual by `k` scales `dm` by `k`. Truncating division makes this
/// exact only when the divisor `SCALE * n` divides the inner product
/// term exactly, which the hypothesis demands.
pub proof fn lemma_dm_linear(a: Seq<int>, e: Seq<int>, k: int)
    requires
        a.len() == e.len(),
        e.len() > 0,
        (2 * dot(a, e)) % ((SCALE as int) * (e.len() as int)) == 0,
    ensures
        dm_val(a, scaled(e, k)) == k * dm_val(a, e),
{
    let d: int = (SCALE as int) * (e.len() as int);
    assert((SCALE as int) * (e.len() as int) >= 1) by (nonlinear_arith)
        requires
            SCALE == 1_000_000i64,
            e.len() >= 1,
    ;
    lemma_dot_scaled(a, e, k);
    assert(scaled(e, k).len() == e.len());
    assert(2 * (k * dot(a, e)) == k * (2 * dot(a, e))) by (nonlinear_arith);
    lemma_trunc_div_scales(2 * dot(a, e), d, k);
}

/// The intercept gradient is linear in the residual vector: scaling
/// every residual by `k` scales `db` by `k`. Truncating division makes
/// this exact only when the length `n` divides twice the residual sum
/// exactly, which the hypothesis demands.
pub proof fn lemma_db_linear(e: Seq<int>, k: int)
    requires
        e.len() > 0,
        (2 * sum(e)) % (e.len() as int) == 0,
    ensures
        db_val(scaled(e, k)) == k * db_val(e),
{
    let d: int = e.len() as int;
    lemma_sum_scaled(e, k);
    assert(scaled(e, k).len() == e.len());
    assert(2 * (k * sum(e)) == k * (2 * sum(e))) by (nonlinear_arith);
    lemma_trunc_div_scales(2 * sum(e), d, k);
}

/// The trainer is deterministic: two results that both satisfy the
/// trainer's contract on the same dataset are the same result.
pub proof fn lemma_trainer_deterministic(
    f: Seq<i64>,
    l: Seq<i64>,
    r1: Result<(i64, i64), RegError>,
    r2: Result<(i64, i64), RegError>,
)
    requires
        linreg_post(f, l, r1),
        linreg_post(f, l, r2),
    ensures
        r1 == r2,
{
}

} // verus!
