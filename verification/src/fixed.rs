use vstd::prelude::*;
use vstd::arithmetic::div_mod::{
    lemma_div_is_ordered, lemma_div_multiples_vanish, lemma_div_pos_is_pos,
    lemma_div_nonincreasing,
};

verus! {

/// Number of fixed-point units in 1.0: an `i64` value `v` stands for the
/// number `v / SCALE`.
pub const SCALE: i64 = 1_000_000_000;

/// Largest magnitude a fixed-point value of the pipeline may take
/// (one billion in real terms).
pub const LIMIT: i64 = 1_000_000_000_000_000_000;

/// A number within the representable fixed-point range.
pub open spec fn fits(v: int) -> bool {
    -(LIMIT as int) <= v <= LIMIT as int
}

/// Range check as a step of a checked computation.
pub open spec fn chk(v: int) -> Option<int> {
    if fits(v) {
        Some(v)
    } else {
        None
    }
}

/// Quotient of `n` and `d`, truncated toward zero (`d > 0`).
pub open spec fn div_trunc(n: int, d: int) -> int
    recommends
        d > 0,
{
    if n >= 0 {
        n / d
    } else {
        -((-n) / d)
    }
}

/// Quotient truncated toward zero, for any non-zero divisor.
pub open spec fn div_trunc_by(n: int, d: int) -> int
    recommends
        d != 0,
{
    if d > 0 {
        div_trunc(n, d)
    } else {
        -div_trunc(n, -d)
    }
}

/// The exact fixed-point product: `(a * b) / SCALE`, truncated toward zero.
pub open spec fn mul_val(a: int, b: int) -> int {
    div_trunc(a * b, SCALE as int)
}

/// Fixed-point product, `None` where the result leaves the range.
pub open spec fn mul_ck(a: int, b: int) -> Option<int> {
    chk(mul_val(a, b))
}

/// Truncated division stays within any bound that the dividend keeps in
/// multiples of the divisor.
pub proof fn lemma_div_trunc_bound(n: int, d: int, c: int)
    requires
        d > 0,
        c >= 0,
        -(d * c) <= n <= d * c,
    ensures
        -c <= div_trunc(n, d) <= c,
{
    if n >= 0 {
        lemma_div_pos_is_pos(n, d);
        lemma_div_is_ordered(n, d * c, d);
        lemma_div_multiples_vanish(c, d);
    } else {
        lemma_div_pos_is_pos(-n, d);
        lemma_div_is_ordered(-n, d * c, d);
        lemma_div_multiples_vanish(c, d);
    }
}

/// A non-negative dividend gives a non-negative truncated quotient.
pub proof fn lemma_div_trunc_nonneg(n: int, d: int)
    requires
        d > 0,
        n >= 0,
    ensures
        div_trunc(n, d) >= 0,
{
    lemma_div_pos_is_pos(n, d);
}

/// Truncated division never grows a non-negative dividend.
pub proof fn lemma_div_trunc_nonincreasing(n: int, d: int)
    requires
        d > 0,
        n >= 0,
    ensures
        div_trunc(n, d) <= n,
{
    lemma_div_nonincreasing(n, d);
}

/// A zero factor multiplies to zero.
pub proof fn lemma_mul_val_zero_left(b: int)
    ensures
        mul_val(0, b) == 0,
{
    assert(0 * b == 0) by (nonlinear_arith);
    assert(div_trunc(0, SCALE as int) == 0) by {
        lemma_div_pos_is_pos(0, SCALE as int);
        lemma_div_nonincreasing(0, SCALE as int);
    }
}

/// A square never multiplies to a negative fixed-point value.
pub proof fn lemma_mul_val_square_nonneg(e: int)
    ensures
        mul_val(e, e) >= 0,
{
    assert(e * e >= 0) by (nonlinear_arith);
    lemma_div_trunc_nonneg(e * e, SCALE as int);
}

/// Truncated division of an `i128` by a positive `i128`.
pub(crate) fn div_trunc_i128(n: i128, d: i128) -> (q: i128)
    requires
        d > 0,
        n > i128::MIN,
    ensures
        q as int == div_trunc(n as int, d as int),
{
    if n >= 0 {
        let un: u128 = n as u128;
        let ud: u128 = d as u128;
        let uq: u128 = un / ud;
        proof {
            lemma_div_pos_is_pos(n as int, d as int);
            lemma_div_nonincreasing(n as int, d as int);
        }
        uq as i128
    } else {
        let un: u128 = (-n) as u128;
        let ud: u128 = d as u128;
        let uq: u128 = un / ud;
        proof {
            lemma_div_pos_is_pos(-(n as int), d as int);
            lemma_div_nonincreasing(-(n as int), d as int);
        }
        -(uq as i128)
    }
}

/// Fixed-point multiply; `None` when the result would leave the range.
pub(crate) fn fp_mul(a: i64, b: i64) -> (r: Option<i64>)
    ensures
        (match r {
            Some(v) => mul_ck(a as int, b as int) == Some(v as int),
            None => mul_ck(a as int, b as int) == None::<int>,
        }),
{
    proof {
        assert((a as int) * (b as int) < i128::MAX as int
            && (a as int) * (b as int) > i128::MIN as int) by (nonlinear_arith)
            requires
                i64::MIN as int <= a as int <= i64::MAX as int,
                i64::MIN as int <= b as int <= i64::MAX as int,
        ;
    }
    let p: i128 = (a as i128) * (b as i128);
    let q: i128 = div_trunc_i128(p, SCALE as i128);
    if -(LIMIT as i128) <= q && q <= LIMIT as i128 {
        Some(q as i64)
    } else {
        None
    }
}

} // verus!
