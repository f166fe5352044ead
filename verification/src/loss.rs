use vstd::prelude::*;
use vstd::assert_seqs_equal;
use crate::errors::Error;
use crate::fixed::{
    chk, div_trunc, fp_mul, lemma_div_trunc_bound, lemma_div_trunc_nonneg,
    lemma_mul_val_square_nonneg, mul_ck, LIMIT, SCALE,
};
use crate::model::{is_rect, vdata, vrow, wf_shapes};

verus! {

/// Sum of the first `j` fixed-point products `a[i] * b[i]`; `None` once any
/// product leaves the range.
pub open spec fn dot_prefix(a: Seq<int>, b: Seq<int>, j: int) -> Option<int>
    decreases j,
{
    if j <= 0 {
        Some(0)
    } else {
        match (dot_prefix(a, b, j - 1), mul_ck(a[j - 1], b[j - 1])) {
            (Some(s), Some(p)) => Some(s + p),
            _ => None,
        }
    }
}

/// Full fixed-point dot product of two equally long vectors, range-checked.
pub open spec fn dot_val(a: Seq<int>, b: Seq<int>) -> Option<int> {
    match dot_prefix(a, b, a.len() as int) {
        Some(s) => chk(s),
        None => None,
    }
}

/// Coefficient vector of a row: the constant 1.0 for the bias weight, then
/// the feature columns (all but the label).
pub open spec fn coeffs(row: Seq<int>) -> Seq<int> {
    seq![SCALE as int].add(row.take(row.len() - 1))
}

/// The model's prediction for a row: the dot product of the weights and the
/// row's bias-augmented coefficients.
pub open spec fn predicted_val(w: Seq<int>, row: Seq<int>) -> Option<int> {
    dot_val(w, coeffs(row))
}

/// Label minus prediction.
pub open spec fn residual_val(w: Seq<int>, row: Seq<int>) -> Option<int> {
    match predicted_val(w, row) {
        Some(p) => chk(row[row.len() - 1] - p),
        None => None,
    }
}

/// Squared residual of one row: `(label - predicted)^2` in fixed point.
pub open spec fn row_loss_val(w: Seq<int>, row: Seq<int>) -> Option<int> {
    match residual_val(w, row) {
        Some(e) => mul_ck(e, e),
        None => None,
    }
}

/// Sum of the row losses of the first `k` rows.
pub open spec fn loss_sum(w: Seq<int>, t: Seq<Seq<int>>, k: int) -> Option<int>
    decreases k,
{
    if k <= 0 {
        Some(0)
    } else {
        match (loss_sum(w, t, k - 1), row_loss_val(w, t[k - 1])) {
            (Some(s), Some(l)) => Some(s + l),
            _ => None,
        }
    }
}

/// Arithmetic mean of the row losses over all rows.
pub open spec fn mean_loss_val(w: Seq<int>, t: Seq<Seq<int>>) -> Option<int> {
    match loss_sum(w, t, t.len() as int) {
        Some(s) => Some(div_trunc(s, t.len() as int)),
        None => None,
    }
}

/// A dot prefix that is undefined stays undefined as it grows.
pub proof fn lemma_dot_prefix_none(a: Seq<int>, b: Seq<int>, j1: int, j2: int)
    requires
        0 <= j1 <= j2,
        dot_prefix(a, b, j1) == None::<int>,
    ensures
        dot_prefix(a, b, j2) == None::<int>,
    decreases j2,
{
    if j2 > j1 {
        lemma_dot_prefix_none(a, b, j1, j2 - 1);
    }
}

/// A defined row loss is a fixed-point value between zero and the limit.
pub proof fn lemma_row_loss_bounds(w: Seq<int>, row: Seq<int>)
    ensures
        (match row_loss_val(w, row) {
            Some(v) => 0 <= v <= LIMIT as int,
            None => true,
        }),
{
    match residual_val(w, row) {
        Some(e) => {
            lemma_mul_val_square_nonneg(e);
        },
        None => {},
    }
}

/// Each defined loss sum stays between zero and `k` times the value limit.
pub proof fn lemma_loss_sum_bounds(w: Seq<int>, t: Seq<Seq<int>>, k: int)
    requires
        k >= 0,
    ensures
        (match loss_sum(w, t, k) {
            Some(s) => 0 <= s <= k * LIMIT as int,
            None => true,
        }),
    decreases k,
{
    if k > 0 {
        lemma_loss_sum_bounds(w, t, k - 1);
        lemma_row_loss_bounds(w, t[k - 1]);
        assert((k - 1) * LIMIT as int + LIMIT as int == k * LIMIT as int) by (nonlinear_arith);
    }
}

/// A loss sum that is undefined stays undefined as it grows.
pub proof fn lemma_loss_sum_none(w: Seq<int>, t: Seq<Seq<int>>, k1: int, k2: int)
    requires
        0 <= k1 <= k2,
        loss_sum(w, t, k1) == None::<int>,
    ensures
        loss_sum(w, t, k2) == None::<int>,
    decreases k2,
{
    if k2 > k1 {
        lemma_loss_sum_none(w, t, k1, k2 - 1);
    }
}

/// The mean squared-error loss of any weight vector over any non-empty
/// dataset is never negative.
pub proof fn lemma_mean_loss_nonneg(w: Seq<int>, t: Seq<Seq<int>>)
    requires
        t.len() > 0,
    ensures
        (match mean_loss_val(w, t) {
            Some(v) => v >= 0,
            None => true,
        }),
{
    lemma_loss_sum_bounds(w, t, t.len() as int);
    match loss_sum(w, t, t.len() as int) {
        Some(s) => {
            lemma_div_trunc_nonneg(s, t.len() as int);
        },
        None => {},
    }
}

/// Range-checked dot product of two equally long vectors.
pub(crate) fn dot_exec(a: &Vec<i64>, b: &Vec<i64>) -> (r: Option<i64>)
    requires
        a@.len() == b@.len(),
    ensures
        (match r {
            Some(v) => dot_val(vrow(a@), vrow(b@)) == Some(v as int),
            None => dot_val(vrow(a@), vrow(b@)) == None::<int>,
        }),
{
    let mut acc: i128 = 0;
    let mut i: usize = 0;
    while i < a.len()
        invariant
            a@.len() == b@.len(),
            i <= a@.len(),
            dot_prefix(vrow(a@), vrow(b@), i as int) == Some(acc as int),
            -((i as int) * LIMIT as int) <= acc as int <= (i as int) * LIMIT as int,
        decreases a@.len() - i,
    {
        match fp_mul(a[i], b[i]) {
            Some(p) => {
                proof {
                    assert((i as int + 1) * LIMIT as int == (i as int) * LIMIT as int
                        + LIMIT as int) by (nonlinear_arith);
                    assert((i as int + 1) * LIMIT as int
                        <= 0xffff_ffff_ffff_ffffu64 as int * LIMIT as int) by (nonlinear_arith)
                        requires
                            i as int + 1 <= 0xffff_ffff_ffff_ffffu64 as int,
                            LIMIT as int > 0,
                    ;
                }
                acc = acc + (p as i128);
            },
            None => {
                proof {
                    lemma_dot_prefix_none(vrow(a@), vrow(b@), i as int + 1, a@.len() as int);
                }
                return None;
            },
        }
        i = i + 1;
    }
    if -(LIMIT as i128) <= acc && acc <= LIMIT as i128 {
        Some(acc as i64)
    } else {
        None
    }
}

/// Label minus the model's prediction for one row, range-checked.
pub(crate) fn residual_exec(w: &Vec<i64>, row: &Vec<i64>) -> (r: Option<i64>)
    requires
        w@.len() == row@.len(),
        row@.len() >= 2,
    ensures
        (match r {
            Some(v) => residual_val(vrow(w@), vrow(row@)) == Some(v as int),
            None => residual_val(vrow(w@), vrow(row@)) == None::<int>,
        }),
{
    let n: usize = row.len();
    let mut c: Vec<i64> = Vec::new();
    c.push(SCALE);
    let mut i: usize = 0;
    while i < n - 1
        invariant
            n == row@.len(),
            n >= 2,
            i <= n - 1,
            c@.len() == i + 1,
            c@[0] == SCALE,
            forall|j: int| 1 <= j < c@.len() ==> c@[j] == row@[j - 1],
        decreases n - 1 - i,
    {
        c.push(row[i]);
        i = i + 1;
    }
    proof {
        assert_seqs_equal!(vrow(c@) == coeffs(vrow(row@)), j => {
            if j == 0 {
            } else {
                assert(c@[j] == row@[j - 1]);
                assert(coeffs(vrow(row@))[j] == vrow(row@).take(row@.len() - 1)[j - 1]);
            }
        });
    }
    match dot_exec(w, &c) {
        Some(p) => {
            let lab: i64 = row[n - 1];
            let e: i128 = (lab as i128) - (p as i128);
            if -(LIMIT as i128) <= e && e <= LIMIT as i128 {
                Some(e as i64)
            } else {
                None
            }
        },
        None => None,
    }
}

/// Squared residual of one row, range-checked; shapes already validated.
pub(crate) fn row_loss_ck(w: &Vec<i64>, row: &Vec<i64>) -> (r: Option<i64>)
    requires
        w@.len() == row@.len(),
        row@.len() >= 2,
    ensures
        (match r {
            Some(v) => row_loss_val(vrow(w@), vrow(row@)) == Some(v as int),
            None => row_loss_val(vrow(w@), vrow(row@)) == None::<int>,
        }),
{
    match residual_exec(w, row) {
        Some(e) => fp_mul(e, e),
        None => None,
    }
}

/// Squared-error loss of one row: `(label - predicted)^2`, where the
/// prediction is the bias weight plus the weighted features.
pub fn row_loss(w: &Vec<i64>, row: &Vec<i64>) -> (r: Result<i64, Error>)
    ensures
        !(w@.len() == row@.len() && row@.len() >= 2) ==> r == Err::<i64, Error>(
            Error::ShapeMismatch,
        ),
        w@.len() == row@.len() && row@.len() >= 2 ==> (match r {
            Ok(v) => row_loss_val(vrow(w@), vrow(row@)) == Some(v as int) && v >= 0,
            Err(e) => e == Error::OutOfRange && row_loss_val(vrow(w@), vrow(row@))
                == None::<int>,
        }),
{
    if w.len() != row.len() || row.len() < 2 {
        return Err(Error::ShapeMismatch);
    }
    proof {
        lemma_row_loss_bounds(vrow(w@), vrow(row@));
    }
    match row_loss_ck(w, row) {
        Some(v) => Ok(v),
        None => Err(Error::OutOfRange),
    }
}

/// Mean squared-error loss of a weight vector over a dataset.
pub fn mean_loss(w: &Vec<i64>, t: &Vec<Vec<i64>>) -> (r: Result<i64, Error>)
    ensures
        t@.len() == 0 ==> r == Err::<i64, Error>(Error::EmptyDataset),
        t@.len() > 0 && !wf_shapes(vrow(w@), vdata(t@)) ==> r == Err::<i64, Error>(
            Error::ShapeMismatch,
        ),
        wf_shapes(vrow(w@), vdata(t@)) ==> (match r {
            Ok(v) => mean_loss_val(vrow(w@), vdata(t@)) == Some(v as int) && v >= 0,
            Err(e) => e == Error::OutOfRange && mean_loss_val(vrow(w@), vdata(t@))
                == None::<int>,
        }),
{
    let m: usize = t.len();
    if m == 0 {
        return Err(Error::EmptyDataset);
    }
    if !is_rect(t) || t[0].len() < 2 || w.len() != t[0].len() {
        return Err(Error::ShapeMismatch);
    }
    let ghost gw = vrow(w@);
    let ghost gt = vdata(t@);
    let mut acc: u128 = 0;
    let mut k: usize = 0;
    while k < m
        invariant
            m == t@.len(),
            wf_shapes(gw, gt),
            gw == vrow(w@),
            gt == vdata(t@),
            k <= m,
            loss_sum(gw, gt, k as int) == Some(acc as int),
            0 <= acc as int <= (k as int) * LIMIT as int,
        decreases m - k,
    {
        proof {
            assert(gt[k as int] == vrow(t@[k as int]@));
            assert(gt[k as int].len() == gt[0].len());
        }
        match row_loss_ck(w, &t[k]) {
            Some(l) => {
                proof {
                    lemma_row_loss_bounds(gw, gt[k as int]);
                    assert((k as int + 1) * LIMIT as int == (k as int) * LIMIT as int
                        + LIMIT as int) by (nonlinear_arith);
                    assert((k as int + 1) * LIMIT as int
                        <= 0xffff_ffff_ffff_ffffu64 as int * LIMIT as int) by (nonlinear_arith)
                        requires
                            k as int + 1 <= 0xffff_ffff_ffff_ffffu64 as int,
                            LIMIT as int > 0,
                    ;
                }
                acc = acc + (l as u128);
            },
            None => {
                proof {
                    lemma_loss_sum_none(gw, gt, k as int + 1, m as int);
                }
                return Err(Error::OutOfRange);
            },
        }
        k = k + 1;
    }
    proof {
        lemma_div_trunc_bound(acc as int, m as int, LIMIT as int);
        lemma_div_trunc_nonneg(acc as int, m as int);
        assert((m as int) * LIMIT as int == LIMIT as int * m as int) by (nonlinear_arith);
        lemma_loss_sum_bounds(gw, gt, m as int);
    }
    let mean: u128 = acc / (m as u128);
    Ok(mean as i64)
}

} // verus!
