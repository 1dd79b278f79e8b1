//! The regression pipeline: prediction, residuals, the two gradient
//! reductions, and the fixed-iteration gradient-descent trainer.
//!
//! Every function states exactly which inputs it succeeds on: a result
//! is `Err` precisely when a length precondition is broken or some
//! intermediate value leaves the range of its machine type.

use vstd::prelude::*;
use crate::fixed::{SCALE, fx_mul, trunc_div, wide_mul, div_trunc, narrow};
use crate::fixed::{lemma_trunc_div_bound, lemma_i64_product_fits};
use crate::sums::{ints, dot, sum, dot_prefix_fits, sum_prefix_fits, dot_i64, sum_i64};

verus! {

/// Number of gradient-descent iterations the trainer performs.
pub const EPOCHS: usize = 1000;

/// Reciprocal of the learning rate: each update step divides the
/// gradient by `RATE_DIV`, i.e. multiplies it by `0.01`.
pub const RATE_DIV: i64 = 100;

/// Why a regression function could not produce a value.
#[derive(Clone, Copy, Debug, PartialEq, Eq, Structural)]
pub enum RegError {
    /// Two vectors that must be index-aligned have different lengths.
    LengthMismatch,
    /// An intermediate value left the range of its machine type.
    Overflow,
}

/// Value predicted for observation `i`: `features[i] * slope + intercept`
/// in fixed point.
pub open spec fn pred_at(f: Seq<i64>, m: int, b: int, i: int) -> int {
    fx_mul(f[i] as int, m) + b
}

/// All predicted values fit in an `i64`.
pub open spec fn preds_fit(f: Seq<i64>, m: int, b: int) -> bool {
    forall|i: int| 0 <= i < f.len() ==> i64::MIN <= #[trigger] pred_at(f, m, b, i) <= i64::MAX
}

/// All elementwise differences `p[i] - l[i]` fit in an `i64`.
pub open spec fn diffs_fit(p: Seq<i64>, l: Seq<i64>) -> bool {
    forall|i: int| #![trigger p[i], l[i]] 0 <= i < p.len() ==> i64::MIN <= p[i] - l[i] <= i64::MAX
}

/// Affine prediction: applies `y = x * slope + intercept` to every
/// feature, in fixed point. Fails exactly when some predicted value
/// does not fit in an `i64`.
pub fn predict(features: &Vec<i64>, model: (i64, i64)) -> (r: Result<Vec<i64>, RegError>)
    ensures
        match r {
            Ok(p) => {
                &&& preds_fit(features@, model.0 as int, model.1 as int)
                &&& p@.len() == features@.len()
                &&& forall|i: int|
                    0 <= i < features@.len() ==> p@[i] == pred_at(
                        features@,
                        model.0 as int,
                        model.1 as int,
                        i,
                    )
            },
            Err(e) => {
                &&& e == RegError::Overflow
                &&& !preds_fit(features@, model.0 as int, model.1 as int)
            },
        },
{
    let m: i64 = model.0;
    let b: i64 = model.1;
    let mut out: Vec<i64> = Vec::new();
    let mut i: usize = 0;
    while i < features.len()
        invariant
            m == model.0,
            b == model.1,
            0 <= i <= features@.len(),
            out@.len() == i,
            forall|j: int| 0 <= j < i ==> out@[j] == pred_at(features@, m as int, b as int, j),
            forall|j: int|
                0 <= j < i ==> i64::MIN <= #[trigger] pred_at(features@, m as int, b as int, j)
                    <= i64::MAX,
        decreases features@.len() - i,
    {
        let p: i128 = wide_mul(features[i], m);
        proof {
            lemma_i64_product_fits(features@[i as int] as int, m as int);
            lemma_trunc_div_bound(p as int, SCALE as int);
        }
        let q: i128 = div_trunc(p, SCALE as i128);
        let v: i128 = q + (b as i128);
        match narrow(v) {
            Some(y) => {
                out.push(y);
            },
            None => {
                proof {
                    assert(pred_at(features@, m as int, b as int, i as int) == v);
                    assert(!preds_fit(features@, m as int, b as int));
                }
                return Err(RegError::Overflow);
            },
        }
        i = i + 1;
    }
    Ok(out)
}

/// Elementwise residuals `prediction[i] - labels[i]`. Fails fast on a
/// length mismatch, and reports overflow exactly when some difference
/// does not fit in an `i64`.
pub fn error(prediction: &Vec<i64>, labels: &Vec<i64>) -> (r: Result<Vec<i64>, RegError>)
    ensures
        match r {
            Ok(e) => {
                &&& prediction@.len() == labels@.len()
                &&& diffs_fit(prediction@, labels@)
                &&& e@.len() == prediction@.len()
                &&& forall|i: int|
                    0 <= i < prediction@.len() ==> e@[i] == prediction@[i] - labels@[i]
            },
            Err(err) => {
                if prediction@.len() != labels@.len() {
                    err == RegError::LengthMismatch
                } else {
                    err == RegError::Overflow && !diffs_fit(prediction@, labels@)
                }
            },
        },
{
    if prediction.len() != labels.len() {
        return Err(RegError::LengthMismatch);
    }
    let mut out: Vec<i64> = Vec::new();
    let mut i: usize = 0;
    while i < prediction.len()
        invariant
            0 <= i <= prediction@.len(),
            prediction@.len() == labels@.len(),
            out@.len() == i,
            forall|j: int| 0 <= j < i ==> out@[j] == prediction@[j] - labels@[j],
            forall|j: int|
                #![trigger prediction@[j], labels@[j]]
                0 <= j < i ==> i64::MIN <= prediction@[j] - labels@[j] <= i64::MAX,
        decreases prediction@.len() - i,
    {
        let d: i128 = (prediction[i] as i128) - (labels[i] as i128);
        match narrow(d) {
            Some(y) => {
                out.push(y);
            },
            None => {
                return Err(RegError::Overflow);
            },
        }
        i = i + 1;
    }
    Ok(out)
}

/// Gradient of the mean-squared error with respect to the slope:
/// `2 * dot(features, residual) / n`, in fixed point.
pub open spec fn dm_val(a: Seq<int>, e: Seq<int>) -> int {
    trunc_div(2 * dot(a, e), (SCALE as int) * (e.len() as int))
}

/// The whole slope-gradient computation stays within machine range.
pub open spec fn dm_fits(a: Seq<int>, e: Seq<int>) -> bool {
    &&& dot_prefix_fits(a, e)
    &&& i128::MIN <= 2 * dot(a, e) <= i128::MAX
    &&& i64::MIN <= dm_val(a, e) <= i64::MAX
}

/// Gradient of the mean-squared error with respect to the intercept:
/// `2 * sum(residual) / n`, in fixed point.
pub open spec fn db_val(e: Seq<int>) -> int {
    trunc_div(2 * sum(e), e.len() as int)
}

/// The whole intercept-gradient computation stays within machine range.
pub open spec fn db_fits(e: Seq<int>) -> bool {
    &&& sum_prefix_fits(e)
    &&& i128::MIN <= 2 * sum(e) <= i128::MAX
    &&& i64::MIN <= db_val(e) <= i64::MAX
}

/// Slope gradient `2 * dot(features, residual) / n`. Fails exactly when
/// an accumulated value or the final quotient leaves machine range.
pub fn dm(features: &Vec<i64>, residual: &Vec<i64>) -> (r: Result<i64, RegError>)
    requires
        features@.len() == residual@.len(),
        features@.len() > 0,
    ensures
        match r {
            Ok(v) => dm_fits(ints(features@), ints(residual@)) && v == dm_val(
                ints(features@),
                ints(residual@),
            ),
            Err(err) => err == RegError::Overflow && !dm_fits(ints(features@), ints(residual@)),
        },
{
    let d: i128 = match dot_i64(features, residual) {
        Some(d) => d,
        None => {
            return Err(RegError::Overflow);
        },
    };
    let numer: i128 = match d.checked_mul(2) {
        Some(v) => v,
        None => {
            return Err(RegError::Overflow);
        },
    };
    let n: usize = features.len();
    proof {
        assert((SCALE as int) * (n as int) <= SCALE * u64::MAX && (SCALE as int) * (n as int)
            >= SCALE) by (nonlinear_arith)
            requires
                1 <= n <= u64::MAX,
        ;
    }
    let denom: i128 = (SCALE as i128) * (n as i128);
    let q: i128 = div_trunc(numer, denom);
    proof {
        lemma_trunc_div_bound(numer as int, denom as int);
    }
    match narrow(q) {
        Some(v) => Ok(v),
        None => Err(RegError::Overflow),
    }
}

/// Intercept gradient `2 * sum(residual) / n`. Fails exactly when an
/// accumulated value or the final quotient leaves machine range.
pub fn db(residual: &Vec<i64>) -> (r: Result<i64, RegError>)
    requires
        residual@.len() > 0,
    ensures
        match r {
            Ok(v) => db_fits(ints(residual@)) && v == db_val(ints(residual@)),
            Err(err) => err == RegError::Overflow && !db_fits(ints(residual@)),
        },
{
    let s: i128 = match sum_i64(residual) {
        Some(s) => s,
        None => {
            return Err(RegError::Overflow);
        },
    };
    let numer: i128 = match s.checked_mul(2) {
        Some(v) => v,
        None => {
            return Err(RegError::Overflow);
        },
    };
    let denom: i128 = residual.len() as i128;
    let q: i128 = div_trunc(numer, denom);
    proof {
        lemma_trunc_div_bound(numer as int, denom as int);
    }
    match narrow(q) {
        Some(v) => Ok(v),
        None => Err(RegError::Overflow),
    }
}

/// Residuals of the model `(m, b)` on the dataset: prediction minus label.
pub open spec fn resids(f: Seq<i64>, l: Seq<i64>, m: int, b: int) -> Seq<int> {
    Seq::new(f.len(), |i: int| pred_at(f, m, b, i) - l[i])
}

/// Slope after one gradient-descent update from `(m, b)`.
pub open spec fn step_m(f: Seq<i64>, l: Seq<i64>, m: int, b: int) -> int {
    m - trunc_div(dm_val(ints(f), resids(f, l, m, b)), RATE_DIV as int)
}

/// Intercept after one gradient-descent update from `(m, b)`.
pub open spec fn step_b(f: Seq<i64>, l: Seq<i64>, m: int, b: int) -> int {
    b - trunc_div(db_val(resids(f, l, m, b)), RATE_DIV as int)
}

/// Every intermediate value of one update step from `(m, b)` stays
/// within the range of its machine type.
pub open spec fn step_fits(f: Seq<i64>, l: Seq<i64>, m: int, b: int) -> bool {
    let e = resids(f, l, m, b);
    &&& preds_fit(f, m, b)
    &&& (forall|i: int| 0 <= i < e.len() ==> i64::MIN <= #[trigger] e[i] <= i64::MAX)
    &&& dm_fits(ints(f), e)
    &&& db_fits(e)
    &&& i64::MIN <= step_m(f, l, m, b) <= i64::MAX
    &&& i64::MIN <= step_b(f, l, m, b) <= i64::MAX
}

/// Parameters after `k` update steps, starting from slope `1.0` and
/// intercept `0.0`.
pub open spec fn params_after(f: Seq<i64>, l: Seq<i64>, k: nat) -> (int, int)
    decreases k,
{
    if k == 0 {
        (SCALE as int, 0int)
    } else {
        let prev = params_after(f, l, (k - 1) as nat);
        (step_m(f, l, prev.0, prev.1), step_b(f, l, prev.0, prev.1))
    }
}

/// Every one of the `EPOCHS` update steps stays within machine range.
pub open spec fn training_fits(f: Seq<i64>, l: Seq<i64>) -> bool {
    forall|k: nat|
        k < EPOCHS ==> {
            let p = #[trigger] params_after(f, l, k);
            step_fits(f, l, p.0, p.1)
        }
}

/// Exactly what `linreg` returns: the parameters reached after
/// `EPOCHS` steps when every step stays in range, and an overflow
/// report otherwise.
pub open spec fn linreg_post(f: Seq<i64>, l: Seq<i64>, r: Result<(i64, i64), RegError>) -> bool {
    if training_fits(f, l) {
        let p = params_after(f, l, EPOCHS as nat);
        r == Ok::<(i64, i64), RegError>((p.0 as i64, p.1 as i64))
    } else {
        r == Err::<(i64, i64), RegError>(RegError::Overflow)
    }
}

/// Gradient-descent trainer: `EPOCHS` iterations of predict, residual,
/// gradient, update, at a fixed learning rate of `1 / RATE_DIV`, from
/// slope `1.0` and intercept `0.0`.
pub fn linreg(features: &Vec<i64>, labels: &Vec<i64>) -> (r: Result<(i64, i64), RegError>)
    requires
        features@.len() == labels@.len(),
        features@.len() > 0,
    ensures
        linreg_post(features@, labels@, r),
{
    let mut m: i64 = SCALE;
    let mut b: i64 = 0;
    let mut k: usize = 0;
    while k < EPOCHS
        invariant
            0 <= k <= EPOCHS,
            features@.len() == labels@.len(),
            features@.len() > 0,
            (m as int, b as int) == params_after(features@, labels@, k as nat),
            forall|j: nat|
                j < k ==> {
                    let p = #[trigger] params_after(features@, labels@, j);
                    step_fits(features@, labels@, p.0, p.1)
                },
        decreases EPOCHS - k,
    {
        let ghost gf: Seq<i64> = features@;
        let ghost gl: Seq<i64> = labels@;
        let ghost ge: Seq<int> = resids(gf, gl, m as int, b as int);
        let pr: Vec<i64> = match predict(features, (m, b)) {
            Ok(p) => p,
            Err(_) => {
                proof {
                    lemma_not_fits(gf, gl, k as nat, m as int, b as int);
                }
                return Err(RegError::Overflow);
            },
        };
        let e: Vec<i64> = match error(&pr, labels) {
            Ok(e) => e,
            Err(_) => {
                proof {
                    assert(!diffs_fit(pr@, gl));
                    assert forall|i: int| 0 <= i < gf.len() implies pr@[i] - gl[i] == ge[i] by {
                        assert(pr@[i] == pred_at(gf, m as int, b as int, i));
                    }
                    assert(!(forall|i: int|
                        0 <= i < ge.len() ==> i64::MIN <= #[trigger] ge[i] <= i64::MAX)) by {
                        let w: int = choose|i: int|
                            #![trigger pr@[i], gl[i]]
                            0 <= i < pr@.len() && !(i64::MIN <= pr@[i] - gl[i] <= i64::MAX);
                        assert(!(i64::MIN <= ge[w] <= i64::MAX));
                    }
                    lemma_not_fits(gf, gl, k as nat, m as int, b as int);
                }
                return Err(RegError::Overflow);
            },
        };
        proof {
            assert(ints(e@) =~= ge);
        }
        let gm: i64 = match dm(features, &e) {
            Ok(v) => v,
            Err(_) => {
                proof {
                    lemma_not_fits(gf, gl, k as nat, m as int, b as int);
                }
                return Err(RegError::Overflow);
            },
        };
        let gb: i64 = match db(&e) {
            Ok(v) => v,
            Err(_) => {
                proof {
                    lemma_not_fits(gf, gl, k as nat, m as int, b as int);
                }
                return Err(RegError::Overflow);
            },
        };
        let tm: i128 = div_trunc(gm as i128, RATE_DIV as i128);
        let tb: i128 = div_trunc(gb as i128, RATE_DIV as i128);
        proof {
            lemma_trunc_div_bound(gm as int, RATE_DIV as int);
            lemma_trunc_div_bound(gb as int, RATE_DIV as int);
        }
        let m_next: i64 = match narrow((m as i128) - tm) {
            Some(v) => v,
            None => {
                proof {
                    lemma_not_fits(gf, gl, k as nat, m as int, b as int);
                }
                return Err(RegError::Overflow);
            },
        };
        let b_next: i64 = match narrow((b as i128) - tb) {
            Some(v) => v,
            None => {
                proof {
                    lemma_not_fits(gf, gl, k as nat, m as int, b as int);
                }
                return Err(RegError::Overflow);
            },
        };
        proof {
            assert(step_fits(gf, gl, m as int, b as int));
            assert(params_after(gf, gl, (k + 1) as nat) == (m_next as int, b_next as int)) by {
                assert(((k + 1) as nat - 1) as nat == k as nat);
            }
        }
        m = m_next;
        b = b_next;
        k = k + 1;
    }
    proof {
        assert(training_fits(features@, labels@));
    }
    Ok((m, b))
}

/// A step that leaves machine range at iteration `k` refutes
/// `training_fits` as a whole.
proof fn lemma_not_fits(f: Seq<i64>, l: Seq<i64>, k: nat, m: int, b: int)
    requires
        k < EPOCHS,
        (m, b) == params_after(f, l, k),
        !step_fits(f, l, m, b),
    ensures
        !training_fits(f, l),
{
    assert(params_after(f, l, k).0 == m);
    assert(params_after(f, l, k).1 == b);
}

} // verus!
