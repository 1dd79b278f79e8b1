//! Left-to-right reductions over fixed-point vectors: the inner product
//! and the plain sum, with predicates saying when an `i128` accumulator
//! can carry them out, and lemmas about their linearity.

use vstd::prelude::*;

verus! {

/// The elements of an `i64` vector, seen as unbounded integers.
pub open spec fn ints(s: Seq<i64>) -> Seq<int> {
    Seq::new(s.len(), |i: int| s[i] as int)
}

/// `s` with every element scaled by `k`.
pub open spec fn scaled(s: Seq<int>, k: int) -> Seq<int> {
    Seq::new(s.len(), |i: int| k * s[i])
}

/// Inner product, accumulated left to right.
pub open spec fn dot(a: Seq<int>, b: Seq<int>) -> int
    recommends
        a.len() == b.len(),
    decreases a.len(),
{
    if a.len() == 0 {
        0
    } else {
        dot(a.drop_last(), b.drop_last()) + a.last() * b.last()
    }
}

/// Sum of the elements, accumulated left to right.
pub open spec fn sum(s: Seq<int>) -> int
    decreases s.len(),
{
    if s.len() == 0 {
        0
    } else {
        sum(s.drop_last()) + s.last()
    }
}

/// Every partial inner product stays within `i128` range.
pub open spec fn dot_prefix_fits(a: Seq<int>, b: Seq<int>) -> bool {
    forall|k: int|
        0 <= k <= a.len() ==> i128::MIN <= #[trigger] dot(a.take(k), b.take(k)) <= i128::MAX
}

/// Every partial sum stays within `i128` range.
pub open spec fn sum_prefix_fits(s: Seq<int>) -> bool {
    forall|k: int| 0 <= k <= s.len() ==> i128::MIN <= #[trigger] sum(s.take(k)) <= i128::MAX
}

/// Extending a partial inner product by one index adds one product term.
pub proof fn lemma_dot_take_step(a: Seq<int>, b: Seq<int>, i: int)
    requires
        a.len() == b.len(),
        0 <= i < a.len(),
    ensures
        dot(a.take(i + 1), b.take(i + 1)) == dot(a.take(i), b.take(i)) + a[i] * b[i],
{
    assert(a.take(i + 1).drop_last() =~= a.take(i));
    assert(b.take(i + 1).drop_last() =~= b.take(i));
}

/// Extending a partial sum by one index adds one term.
pub proof fn lemma_sum_take_step(s: Seq<int>, i: int)
    requires
        0 <= i < s.len(),
    ensures
        sum(s.take(i + 1)) == sum(s.take(i)) + s[i],
{
    assert(s.take(i + 1).drop_last() =~= s.take(i));
}

/// The inner product is linear in its second argument.
pub proof fn lemma_dot_scaled(a: Seq<int>, b: Seq<int>, k: int)
    requires
        a.len() == b.len(),
    ensures
        dot(a, scaled(b, k)) == k * dot(a, b),
    decreases a.len(),
{
    if a.len() == 0 {
    } else {
        lemma_dot_scaled(a.drop_last(), b.drop_last(), k);
        assert(scaled(b, k).drop_last() =~= scaled(b.drop_last(), k));
        assert(scaled(b, k).last() == k * b.last());
        assert(dot(a.drop_last(), scaled(b.drop_last(), k)) + a.last() * (k * b.last()) == k * (
        dot(a.drop_last(), b.drop_last()) + a.last() * b.last())) by (nonlinear_arith)
            requires
                dot(a.drop_last(), scaled(b.drop_last(), k)) == k * dot(a.drop_last(),
                    b.drop_last()),
        ;
    }
}

/// The sum is linear: scaling every element scales the sum.
pub proof fn lemma_sum_scaled(s: Seq<int>, k: int)
    ensures
        sum(scaled(s, k)) == k * sum(s),
    decreases s.len(),
{
    if s.len() == 0 {
    } else {
        lemma_sum_scaled(s.drop_last(), k);
        assert(scaled(s, k).drop_last() =~= scaled(s.drop_last(), k));
        assert(scaled(s, k).last() == k * s.last());
        assert(k * sum(s.drop_last()) + k * s.last() == k * (sum(s.drop_last()) + s.last()))
            by (nonlinear_arith);
    }
}

/// Inner product of two vectors, or `None` as soon as a partial result
/// leaves `i128` range.
pub fn dot_i64(a: &Vec<i64>, b: &Vec<i64>) -> (r: Option<i128>)
    requires
        a@.len() == b@.len(),
    ensures
        match r {
            Some(v) => dot_prefix_fits(ints(a@), ints(b@)) && v == dot(ints(a@), ints(b@)),
            None => !dot_prefix_fits(ints(a@), ints(b@)),
        },
{
    let ghost ga: Seq<int> = ints(a@);
    let ghost gb: Seq<int> = ints(b@);
    let mut acc: i128 = 0;
    let mut i: usize = 0;
    proof {
        assert(ga.take(0) =~= Seq::<int>::empty());
        assert(gb.take(0) =~= Seq::<int>::empty());
    }
    while i < a.len()
        invariant
            0 <= i <= a@.len(),
            a@.len() == b@.len(),
            ga == ints(a@),
            gb == ints(b@),
            acc == dot(ga.take(i as int), gb.take(i as int)),
            forall|k: int|
                0 <= k <= i ==> i128::MIN <= #[trigger] dot(ga.take(k), gb.take(k)) <= i128::MAX,
        decreases a@.len() - i,
    {
        let p: i128 = crate::fixed::wide_mul(a[i], b[i]);
        proof {
            lemma_dot_take_step(ga, gb, i as int);
        }
        match acc.checked_add(p) {
            Some(next) => {
                acc = next;
            },
            None => {
                return None;
            },
        }
        i = i + 1;
    }
    proof {
        assert(ga.take(a@.len() as int) =~= ga);
        assert(gb.take(b@.len() as int) =~= gb);
    }
    Some(acc)
}

/// Sum of a vector's elements, or `None` as soon as a partial sum
/// leaves `i128` range.
pub fn sum_i64(s: &Vec<i64>) -> (r: Option<i128>)
    ensures
        match r {
            Some(v) => sum_prefix_fits(ints(s@)) && v == sum(ints(s@)),
            None => !sum_prefix_fits(ints(s@)),
        },
{
    let ghost gs: Seq<int> = ints(s@);
    let mut acc: i128 = 0;
    let mut i: usize = 0;
    proof {
        assert(gs.take(0) =~= Seq::<int>::empty());
    }
    while i < s.len()
        invariant
            0 <= i <= s@.len(),
            gs == ints(s@),
            acc == sum(gs.take(i as int)),
            forall|k: int| 0 <= k <= i ==> i128::MIN <= #[trigger] sum(gs.take(k)) <= i128::MAX,
        decreases s@.len() - i,
    {
        proof {
            lemma_sum_take_step(gs, i as int);
        }
        match acc.checked_add(s[i] as i128) {
            Some(next) => {
                acc = next;
            },
            None => {
                return None;
            },
        }
        i = i + 1;
    }
    proof {
        assert(gs.take(s@.len() as int) =~= gs);
    }
    Some(acc)
}

} // verus!
