use vstd::prelude::*;
use vstd::assert_seqs_equal;
use vstd::arithmetic::div_mod::{
    lemma_div_is_ordered, lemma_div_multiples_vanish, lemma_fundamental_div_mod,
    lemma_mod_division_less_than_divisor,
};
use crate::errors::Error;
use crate::fixed::{
    chk, div_trunc, div_trunc_by, div_trunc_i128, fits, fp_mul, lemma_div_trunc_nonneg,
    lemma_div_trunc_nonincreasing, mul_ck, mul_val, LIMIT, SCALE,
};
use crate::model::{is_rect, rect, vdata, vrow, width};

verus! {

/// Magnitude of an integer.
pub open spec fn iabs(v: int) -> int {
    if v >= 0 {
        v
    } else {
        -v
    }
}

/// Largest magnitude found in column `j` over the first `k` rows.
pub open spec fn col_max_abs(t: Seq<Seq<int>>, j: int, k: int) -> int
    decreases k,
{
    if k <= 0 {
        0
    } else {
        let prev = col_max_abs(t, j, k - 1);
        let cur = iabs(t[k - 1][j]);
        if cur > prev {
            cur
        } else {
            prev
        }
    }
}

/// The normalization factors of a dataset: for each column, the largest
/// magnitude observed in it over all rows.
pub open spec fn factors_val(t: Seq<Seq<int>>) -> Seq<int> {
    Seq::new(width(t) as nat, |j: int| col_max_abs(t, j, t.len() as int))
}

/// A value rescaled by a column factor: `v / f` in fixed point, that is
/// `(v * SCALE) / f` truncated toward zero; `None` where it leaves the range.
pub open spec fn norm_val(v: int, f: int) -> Option<int>
    recommends
        f != 0,
{
    chk(div_trunc_by(v * SCALE as int, f))
}

/// A column of zeros in every row yields a normalization factor of zero.
pub proof fn lemma_zero_column_degenerate(t: Seq<Seq<int>>, j: int)
    requires
        t.len() > 0,
        0 <= j < width(t),
        forall|k: int| 0 <= k < t.len() ==> #[trigger] t[k][j] == 0,
    ensures
        factors_val(t)[j] == 0,
{
    lemma_col_max_abs_zero(t, j, t.len() as int);
}

proof fn lemma_col_max_abs_zero(t: Seq<Seq<int>>, j: int, k: int)
    requires
        0 <= k <= t.len(),
        forall|k2: int| 0 <= k2 < t.len() ==> #[trigger] t[k2][j] == 0,
    ensures
        col_max_abs(t, j, k) == 0,
    decreases k,
{
    if k > 0 {
        lemma_col_max_abs_zero(t, j, k - 1);
    }
}

/// Truncated division keeps the magnitude of the dividend as a bound.
proof fn lemma_div_trunc_mag(n: int, d: int)
    requires
        d > 0,
    ensures
        iabs(div_trunc(n, d)) <= iabs(n),
{
    if n >= 0 {
        lemma_div_trunc_nonneg(n, d);
        lemma_div_trunc_nonincreasing(n, d);
    } else {
        lemma_div_trunc_nonneg(-n, d);
        lemma_div_trunc_nonincreasing(-n, d);
    }
}

/// Core of the round trip for a non-negative value: rescaling by a positive
/// factor and scaling back never overshoots, and loses less than
/// `(f + SCALE) / SCALE` units.
proof fn lemma_round_trip_core(v: int, f: int)
    requires
        0 < f,
        0 <= v,
    ensures
        ({
            let nv = div_trunc(v * SCALE as int, f);
            let back = div_trunc(nv * f, SCALE as int);
            0 <= back <= v && ((v - back) * (SCALE as int)) < f + (SCALE as int)
        }),
{
    let s = SCALE as int;
    assert(v * s >= 0) by (nonlinear_arith)
        requires
            v >= 0,
            s > 0,
    ;
    let num = v * s;
    let nv = div_trunc(num, f);
    lemma_div_trunc_nonneg(num, f);
    assert(nv == num / f);
    lemma_fundamental_div_mod(num, f);
    lemma_mod_division_less_than_divisor(num, f);
    assert(f * nv <= num);
    assert(f * nv > num - f);
    assert(nv * f == f * nv) by (nonlinear_arith);
    assert(nv * f >= 0);
    let back = div_trunc(nv * f, s);
    lemma_div_trunc_nonneg(nv * f, s);
    assert(back == (nv * f) / s);
    // back <= v
    lemma_div_is_ordered(nv * f, num, s);
    lemma_div_multiples_vanish(v, s);
    assert(s * v == v * s) by (nonlinear_arith);
    assert(num / s == v);
    assert(back <= v);
    // back * s > num - f - s
    lemma_fundamental_div_mod(nv * f, s);
    lemma_mod_division_less_than_divisor(nv * f, s);
    assert(s * back > nv * f - s);
    assert(s * back > num - f - s);
    assert((v - back) * s == v * s - back * s) by (nonlinear_arith);
    assert(back * s == s * back) by (nonlinear_arith);
    assert((v - back) * s < f + s);
}

/// Round trip: normalizing a value by a positive factor and scaling the
/// result back up by the same factor reconstructs the value, short by less
/// than `(f + SCALE) / SCALE` fixed-point units and never overshooting.
pub proof fn lemma_normalize_round_trip(v: int, f: int)
    requires
        0 < f <= LIMIT as int,
    ensures
        (match norm_val(v, f) {
            Some(nv) => ({
                let back = mul_val(nv, f);
                &&& (if v >= 0 {
                    0 <= back <= v
                } else {
                    v <= back <= 0
                })
                &&& ((if v >= 0 {
                    v - back
                } else {
                    back - v
                }) * (SCALE as int)) < f + (SCALE as int)
                &&& (fits(v) ==> mul_ck(nv, f) == Some(back))
            }),
            None => true,
        }),
{
    let s = SCALE as int;
    match norm_val(v, f) {
        Some(nv) => {
            if v >= 0 {
                lemma_round_trip_core(v, f);
            } else {
                assert(v * s < 0) by (nonlinear_arith)
                    requires
                        v < 0,
                        s > 0,
                ;
                assert((-v) * s == -(v * s)) by (nonlinear_arith);
                let pnv = div_trunc((-v) * s, f);
                assert(nv == -pnv);
                lemma_round_trip_core(-v, f);
                let pback = div_trunc(pnv * f, s);
                lemma_div_trunc_nonneg((-v) * s, f);
                assert(pnv * f >= 0) by (nonlinear_arith)
                    requires
                        pnv >= 0,
                        f > 0,
                ;
                assert(nv * f == -(pnv * f)) by (nonlinear_arith)
                    requires
                        nv == -pnv,
                ;
                assert(mul_val(nv, f) == -pback);
                assert((-v) - pback >= 0);
                assert(((-v) - pback) * s < f + s);
                assert(((-pback) - v) * s == ((-v) - pback) * s) by (nonlinear_arith);
            }
        },
        None => {},
    }
}

/// Per-column normalization factors of a dataset: the largest magnitude
/// observed in each column over all rows.
pub fn compute_factors(t: &Vec<Vec<i64>>) -> (r: Result<Vec<i64>, Error>)
    ensures
        t@.len() == 0 ==> r == Err::<Vec<i64>, Error>(Error::EmptyDataset),
        t@.len() > 0 && !rect(vdata(t@)) ==> r == Err::<Vec<i64>, Error>(Error::ShapeMismatch),
        t@.len() > 0 && rect(vdata(t@)) ==> (match r {
            Ok(fs) => vrow(fs@) == factors_val(vdata(t@)) && (forall|k: int, j: int|
                0 <= k < t@.len() && 0 <= j < width(vdata(t@)) ==> fits(
                    #[trigger] vdata(t@)[k][j],
                )),
            Err(e) => e == Error::OutOfRange && (exists|k: int, j: int|
                0 <= k < t@.len() && 0 <= j < width(vdata(t@)) && !fits(
                    #[trigger] vdata(t@)[k][j],
                )),
        }),
{
    let m: usize = t.len();
    if m == 0 {
        return Err(Error::EmptyDataset);
    }
    if !is_rect(t) {
        return Err(Error::ShapeMismatch);
    }
    let ghost gt = vdata(t@);
    let w0: usize = t[0].len();
    let mut fs: Vec<i64> = Vec::new();
    let mut j: usize = 0;
    while j < w0
        invariant
            m == t@.len(),
            m > 0,
            gt == vdata(t@),
            rect(gt),
            w0 as int == width(gt),
            j <= w0,
            fs@.len() == j,
            forall|j2: int| 0 <= j2 < j ==> #[trigger] fs@[j2] as int == col_max_abs(
                gt,
                j2,
                m as int,
            ),
            forall|k: int, j2: int| 0 <= k < m && 0 <= j2 < j ==> fits(#[trigger] gt[k][j2]),
        decreases w0 - j,
    {
        let mut mx: i64 = 0;
        let mut k: usize = 0;
        while k < m
            invariant
                m == t@.len(),
                m > 0,
                gt == vdata(t@),
                rect(gt),
                w0 as int == width(gt),
                j < w0,
                k <= m,
                0 <= mx as int <= LIMIT as int,
                mx as int == col_max_abs(gt, j as int, k as int),
                forall|k2: int| 0 <= k2 < k ==> fits(#[trigger] gt[k2][j as int]),
            decreases m - k,
        {
            proof {
                assert(gt[k as int] == vrow(t@[k as int]@));
                assert(gt[k as int].len() == gt[0].len());
            }
            let v: i64 = t[k][j];
            if v > LIMIT || v < -LIMIT {
                proof {
                    assert(!fits(gt[k as int][j as int]));
                }
                return Err(Error::OutOfRange);
            }
            let a: i64 = if v >= 0 {
                v
            } else {
                -v
            };
            if a > mx {
                mx = a;
            }
            k = k + 1;
        }
        fs.push(mx);
        j = j + 1;
    }
    proof {
        assert_seqs_equal!(vrow(fs@) == factors_val(gt), j2 => {
            assert(fs@[j2] as int == col_max_abs(gt, j2, m as int));
        });
    }
    Ok(fs)
}

/// One value rescaled by a non-zero factor.
fn norm_exec(v: i64, f: i64) -> (r: Option<i64>)
    requires
        f != 0,
    ensures
        (match r {
            Some(u) => norm_val(v as int, f as int) == Some(u as int),
            None => norm_val(v as int, f as int) == None::<int>,
        }),
{
    proof {
        assert((v as int) * (SCALE as int) < i128::MAX as int && (v as int) * (SCALE as int)
            > i128::MIN as int) by (nonlinear_arith)
            requires
                i64::MIN as int <= v as int <= i64::MAX as int,
                0 < SCALE as int <= 0x1_0000_0000i64 as int,
        ;
    }
    let num: i128 = (v as i128) * (SCALE as i128);
    let q: i128 = if f > 0 {
        div_trunc_i128(num, f as i128)
    } else {
        proof {
            lemma_div_trunc_mag(num as int, -(f as int));
        }
        -div_trunc_i128(num, -(f as i128))
    };
    if -(LIMIT as i128) <= q && q <= LIMIT as i128 {
        Some(q as i64)
    } else {
        None
    }
}

/// A dataset rescaled into unit range: each value divided by the factor of
/// its column. The input is not touched; the factors of unused trailing
/// columns are ignored.
pub fn normalize(t: &Vec<Vec<i64>>, factors: &Vec<i64>) -> (r: Result<Vec<Vec<i64>>, Error>)
    ensures
        t@.len() == 0 ==> r == Err::<Vec<Vec<i64>>, Error>(Error::EmptyDataset),
        t@.len() > 0 && !(rect(vdata(t@)) && width(vdata(t@)) <= factors@.len()) ==> r == Err::<
            Vec<Vec<i64>>,
            Error,
        >(Error::ShapeMismatch),
        t@.len() > 0 && rect(vdata(t@)) && width(vdata(t@)) <= factors@.len() ==> ({
            let gt = vdata(t@);
            let gf = vrow(factors@);
            if exists|j: int| 0 <= j < width(gt) && #[trigger] gf[j] == 0 {
                r == Err::<Vec<Vec<i64>>, Error>(Error::DegenerateColumn)
            } else {
                match r {
                    Ok(nt) => {
                        &&& nt@.len() == t@.len()
                        &&& forall|k: int|
                            0 <= k < t@.len() ==> (#[trigger] vdata(nt@)[k]).len() == width(gt)
                        &&& forall|k: int, j: int|
                            0 <= k < t@.len() && 0 <= j < width(gt) ==> norm_val(
                                gt[k][j],
                                gf[j],
                            ) == Some(#[trigger] vdata(nt@)[k][j])
                    },
                    Err(e) => e == Error::OutOfRange && (exists|k: int, j: int|
                        0 <= k < t@.len() && 0 <= j < width(gt) && norm_val(gt[k][j], gf[j])
                            == None::<int>),
                }
            }
        }),
{
    let m: usize = t.len();
    if m == 0 {
        return Err(Error::EmptyDataset);
    }
    let w0: usize = t[0].len();
    if !is_rect(t) || w0 > factors.len() {
        return Err(Error::ShapeMismatch);
    }
    let ghost gt = vdata(t@);
    let ghost gf = vrow(factors@);
    let mut j: usize = 0;
    while j < w0
        invariant
            m == t@.len(),
            m > 0,
            gt == vdata(t@),
            gf == vrow(factors@),
            rect(gt),
            w0 as int == width(gt),
            w0 <= factors@.len(),
            j <= w0,
            forall|j2: int| 0 <= j2 < j ==> #[trigger] gf[j2] != 0,
        decreases w0 - j,
    {
        if factors[j] == 0 {
            proof {
                assert((j as int) < width(gt) && gf[j as int] == 0);
            }
            return Err(Error::DegenerateColumn);
        }
        j = j + 1;
    }
    let mut nt: Vec<Vec<i64>> = Vec::new();
    let mut k: usize = 0;
    while k < m
        invariant
            m == t@.len(),
            m > 0,
            gt == vdata(t@),
            gf == vrow(factors@),
            rect(gt),
            w0 as int == width(gt),
            w0 <= factors@.len(),
            forall|j2: int| 0 <= j2 < w0 ==> #[trigger] gf[j2] != 0,
            k <= m,
            nt@.len() == k,
            forall|k2: int| 0 <= k2 < k ==> (#[trigger] vdata(nt@)[k2]).len() == w0 as int,
            forall|k2: int, j2: int| 0 <= k2 < k && 0 <= j2 < w0 ==> norm_val(
                gt[k2][j2],
                gf[j2],
            ) == Some(#[trigger] vdata(nt@)[k2][j2]),
        decreases m - k,
    {
        proof {
            assert(gt[k as int] == vrow(t@[k as int]@));
            assert(gt[k as int].len() == gt[0].len());
        }
        let mut nr: Vec<i64> = Vec::new();
        let mut j: usize = 0;
        while j < w0
            invariant
                m == t@.len(),
                gt == vdata(t@),
                gf == vrow(factors@),
                rect(gt),
                w0 as int == width(gt),
                w0 <= factors@.len(),
                forall|j2: int| 0 <= j2 < w0 ==> #[trigger] gf[j2] != 0,
                k < m,
                gt[k as int].len() == w0 as int,
                j <= w0,
                nr@.len() == j,
                forall|j2: int| 0 <= j2 < j ==> norm_val(gt[k as int][j2], gf[j2]) == Some(
                    #[trigger] nr@[j2] as int,
                ),
            decreases w0 - j,
        {
            proof {
                assert(gf[j as int] != 0);
            }
            match norm_exec(t[k][j], factors[j]) {
                Some(u) => {
                    nr.push(u);
                },
                None => {
                    proof {
                        assert((k as int) < t@.len() && (j as int) < width(gt));
                        assert(norm_val(gt[k as int][j as int], gf[j as int]) == None::<int>);
                    }
                    return Err(Error::OutOfRange);
                },
            }
            j = j + 1;
        }
        let ghost prev = nt@;
        nt.push(nr);
        proof {
            assert forall|k2: int| 0 <= k2 < k + 1 implies (#[trigger] vdata(nt@)[k2]).len()
                == w0 as int by {
                if k2 < k {
                    assert(nt@[k2] == prev[k2]);
                    assert(vdata(prev)[k2].len() == w0 as int);
                } else {
                    assert(vdata(nt@)[k2] == vrow(nr@));
                }
            }
            assert forall|k2: int, j2: int| 0 <= k2 < k + 1 && 0 <= j2 < w0 implies norm_val(
                gt[k2][j2],
                gf[j2],
            ) == Some(#[trigger] vdata(nt@)[k2][j2]) by {
                if k2 < k {
                    assert(nt@[k2] == prev[k2]);
                    assert(norm_val(gt[k2][j2], gf[j2]) == Some(vdata(prev)[k2][j2]));
                } else {
                    assert(vdata(nt@)[k2] == vrow(nr@));
                    assert(norm_val(gt[k2][j2], gf[j2]) == Some(nr@[j2] as int));
                }
            }
        }
        k = k + 1;
    }
    Ok(nt)
}

/// Scales a normalized value back up by its column's factor: the fixed-point
/// product of the value and the factor.
pub fn denormalize(v: i64, f: i64) -> (r: Result<i64, Error>)
    ensures
        (match r {
            Ok(u) => mul_ck(v as int, f as int) == Some(u as int),
            Err(e) => e == Error::OutOfRange && mul_ck(v as int, f as int) == None::<int>,
        }),
{
    match fp_mul(v, f) {
        Some(u) => Ok(u),
        None => Err(Error::OutOfRange),
    }
}

} // verus!
