use vstd::prelude::*;
use vstd::assert_seqs_equal;
use crate::errors::Error;
use crate::fixed::{
    chk, div_trunc, fp_mul, lemma_div_trunc_bound, lemma_mul_val_zero_left, mul_ck, LIMIT,
    SCALE,
};
use crate::fixed::div_trunc_i128;
use crate::loss::{coeffs, residual_exec, residual_val};
use crate::model::{is_rect, vdata, vrow, wf_shapes};

verus! {

/// Sum over the first `k` rows of the residual times coefficient `i`:
/// the gradient contribution of those rows to weight `i`.
pub open spec fn grad_sum(w: Seq<int>, t: Seq<Seq<int>>, i: int, k: int) -> Option<int>
    decreases k,
{
    if k <= 0 {
        Some(0)
    } else {
        match (grad_sum(w, t, i, k - 1), residual_val(w, t[k - 1])) {
            (Some(s), Some(e)) => match mul_ck(e, coeffs(t[k - 1])[i]) {
                Some(p) => Some(s + p),
                None => None,
            },
            _ => None,
        }
    }
}

/// The updated value of weight `i`:
/// `w[i] + lr * (1/m) * sum_k (residual_k * c_k[i])`.
pub open spec fn new_weight(w: Seq<int>, t: Seq<Seq<int>>, lr: int, i: int) -> Option<int> {
    match grad_sum(w, t, i, t.len() as int) {
        Some(s) => match mul_ck(lr, div_trunc(s, t.len() as int)) {
            Some(d) => chk(w[i] + d),
            None => None,
        },
        None => None,
    }
}

/// Every weight of the step stays in range.
pub open spec fn step_ok(w: Seq<int>, t: Seq<Seq<int>>, lr: int) -> bool {
    forall|i: int| 0 <= i < w.len() ==> (#[trigger] new_weight(w, t, lr, i)) is Some
}

/// One batch gradient-descent step over the whole dataset.
pub open spec fn step_val(w: Seq<int>, t: Seq<Seq<int>>, lr: int) -> Option<Seq<int>> {
    if step_ok(w, t, lr) {
        Some(Seq::new(w.len(), |i: int| new_weight(w, t, lr, i).unwrap()))
    } else {
        None
    }
}

/// A gradient sum that is undefined stays undefined as it grows.
pub proof fn lemma_grad_sum_none(w: Seq<int>, t: Seq<Seq<int>>, i: int, k1: int, k2: int)
    requires
        0 <= k1 <= k2,
        grad_sum(w, t, i, k1) == None::<int>,
    ensures
        grad_sum(w, t, i, k2) == None::<int>,
    decreases k2,
{
    if k2 > k1 {
        lemma_grad_sum_none(w, t, i, k1, k2 - 1);
    }
}

/// An undefined residual in any row makes every gradient sum over that row
/// undefined.
pub proof fn lemma_grad_sum_residual_none(
    w: Seq<int>,
    t: Seq<Seq<int>>,
    i: int,
    k: int,
    m: int,
)
    requires
        0 <= k < m,
        residual_val(w, t[k]) == None::<int>,
    ensures
        grad_sum(w, t, i, m) == None::<int>,
{
    assert(grad_sum(w, t, i, k + 1) == None::<int>);
    lemma_grad_sum_none(w, t, i, k + 1, m);
}

/// A zero learning rate: any step that returns a weight vector returns the
/// weights unchanged.
pub proof fn lemma_step_zero_rate(w: Seq<int>, t: Seq<Seq<int>>)
    ensures
        (match step_val(w, t, 0) {
            Some(r) => r == w,
            None => true,
        }),
{
    match step_val(w, t, 0) {
        Some(r) => {
            assert forall|i: int| 0 <= i < w.len() implies new_weight(w, t, 0, i) == Some(
                w[i],
            ) by {
                assert(new_weight(w, t, 0, i) is Some);
                match grad_sum(w, t, i, t.len() as int) {
                    Some(s) => {
                        lemma_mul_val_zero_left(div_trunc(s, t.len() as int));
                        assert(mul_ck(0, div_trunc(s, t.len() as int)) == Some(0int));
                    },
                    None => {},
                }
            }
            assert_seqs_equal!(r == w, i => {
                assert(new_weight(w, t, 0, i) == Some(w[i]));
            });
        },
        None => {},
    }
}

/// One batch gradient-descent step: returns the new weight vector
/// `w[i] + lr * (1/m) * sum_k (residual_k * c_k[i])` without touching its
/// inputs.
pub fn step(w: &Vec<i64>, t: &Vec<Vec<i64>>, lr: i64) -> (r: Result<Vec<i64>, Error>)
    ensures
        t@.len() == 0 ==> r == Err::<Vec<i64>, Error>(Error::EmptyDataset),
        t@.len() > 0 && !wf_shapes(vrow(w@), vdata(t@)) ==> r == Err::<Vec<i64>, Error>(
            Error::ShapeMismatch,
        ),
        wf_shapes(vrow(w@), vdata(t@)) ==> (match r {
            Ok(nw) => step_val(vrow(w@), vdata(t@), lr as int) == Some(vrow(nw@)),
            Err(e) => e == Error::OutOfRange && step_val(vrow(w@), vdata(t@), lr as int)
                == None::<Seq<int>>,
        }),
{
    let m: usize = t.len();
    if m == 0 {
        return Err(Error::EmptyDataset);
    }
    if !is_rect(t) || t[0].len() < 2 || w.len() != t[0].len() {
        return Err(Error::ShapeMismatch);
    }
    let ghost gw = vrow(w@);
    let ghost gt = vdata(t@);
    let n: usize = w.len();

    let mut res: Vec<i64> = Vec::new();
    let mut k: usize = 0;
    while k < m
        invariant
            m == t@.len(),
            n == w@.len(),
            wf_shapes(gw, gt),
            gw == vrow(w@),
            gt == vdata(t@),
            k <= m,
            res@.len() == k,
            forall|k2: int| 0 <= k2 < k ==> residual_val(gw, gt[k2]) == Some(
                #[trigger] res@[k2] as int,
            ),
        decreases m - k,
    {
        proof {
            assert(gt[k as int] == vrow(t@[k as int]@));
            assert(gt[k as int].len() == gt[0].len());
        }
        match residual_exec(w, &t[k]) {
            Some(e) => {
                res.push(e);
            },
            None => {
                proof {
                    lemma_grad_sum_residual_none(gw, gt, 0, k as int, m as int);
                    assert(new_weight(gw, gt, lr as int, 0) == None::<int>);
                    assert(!step_ok(gw, gt, lr as int));
                }
                return Err(Error::OutOfRange);
            },
        }
        k = k + 1;
    }

    let mut out: Vec<i64> = Vec::new();
    let mut i: usize = 0;
    while i < n
        invariant
            m == t@.len(),
            n == w@.len(),
            wf_shapes(gw, gt),
            gw == vrow(w@),
            gt == vdata(t@),
            res@.len() == m,
            forall|k2: int| 0 <= k2 < m ==> residual_val(gw, gt[k2]) == Some(
                #[trigger] res@[k2] as int,
            ),
            i <= n,
            out@.len() == i,
            forall|j: int| 0 <= j < i ==> new_weight(gw, gt, lr as int, j) == Some(
                #[trigger] out@[j] as int,
            ),
        decreases n - i,
    {
        let mut g: i128 = 0;
        let mut k: usize = 0;
        while k < m
            invariant
                m == t@.len(),
                n == w@.len(),
                wf_shapes(gw, gt),
                gw == vrow(w@),
                gt == vdata(t@),
                res@.len() == m,
                forall|k2: int| 0 <= k2 < m ==> residual_val(gw, gt[k2]) == Some(
                    #[trigger] res@[k2] as int,
                ),
                i < n,
                k <= m,
                grad_sum(gw, gt, i as int, k as int) == Some(g as int),
                -((k as int) * LIMIT as int) <= g as int <= (k as int) * LIMIT as int,
            decreases m - k,
        {
            proof {
                assert(gt[k as int] == vrow(t@[k as int]@));
                assert(gt[k as int].len() == gt[0].len());
            }
            let ck: i64 = if i == 0 {
                SCALE
            } else {
                t[k][i - 1]
            };
            proof {
                if i == 0 {
                    assert(coeffs(gt[k as int])[i as int] == SCALE as int);
                } else {
                    assert(coeffs(gt[k as int])[i as int] == gt[k as int].take(
                        gt[k as int].len() - 1,
                    )[i - 1]);
                    assert(coeffs(gt[k as int])[i as int] == gt[k as int][i - 1]);
                }
            }
            match fp_mul(res[k], ck) {
                Some(p) => {
                    proof {
                        assert((k as int + 1) * LIMIT as int == (k as int) * LIMIT as int
                            + LIMIT as int) by (nonlinear_arith);
                        assert((k as int + 1) * LIMIT as int
                            <= 0xffff_ffff_ffff_ffffu64 as int * LIMIT as int) by (
                        nonlinear_arith)
                            requires
                                k as int + 1 <= 0xffff_ffff_ffff_ffffu64 as int,
                                LIMIT as int > 0,
                        ;
                    }
                    g = g + (p as i128);
                },
                None => {
                    proof {
                        lemma_grad_sum_none(gw, gt, i as int, k as int + 1, m as int);
                        assert(new_weight(gw, gt, lr as int, i as int) == None::<int>);
                        assert(!step_ok(gw, gt, lr as int));
                    }
                    return Err(Error::OutOfRange);
                },
            }
            k = k + 1;
        }
        proof {
            assert((m as int) * LIMIT as int == LIMIT as int * m as int) by (nonlinear_arith);
            lemma_div_trunc_bound(g as int, m as int, LIMIT as int);
        }
        let gi: i128 = div_trunc_i128(g, m as i128);
        match fp_mul(lr, gi as i64) {
            Some(d) => {
                let nv: i128 = (w[i] as i128) + (d as i128);
                if -(LIMIT as i128) <= nv && nv <= LIMIT as i128 {
                    out.push(nv as i64);
                } else {
                    proof {
                        assert(new_weight(gw, gt, lr as int, i as int) == None::<int>);
                        assert(!step_ok(gw, gt, lr as int));
                    }
                    return Err(Error::OutOfRange);
                }
            },
            None => {
                proof {
                    assert(new_weight(gw, gt, lr as int, i as int) == None::<int>);
                    assert(!step_ok(gw, gt, lr as int));
                }
                return Err(Error::OutOfRange);
            },
        }
        i = i + 1;
    }
    proof {
        assert forall|j: int| 0 <= j < gw.len() implies (#[trigger] new_weight(
            gw,
            gt,
            lr as int,
            j,
        )) is Some by {
            assert(new_weight(gw, gt, lr as int, j) == Some(out@[j] as int));
        }
        assert(step_ok(gw, gt, lr as int));
        let sv = Seq::new(gw.len(), |j: int| new_weight(gw, gt, lr as int, j).unwrap());
        assert_seqs_equal!(sv == vrow(out@), j => {
            assert(new_weight(gw, gt, lr as int, j) == Some(out@[j] as int));
        });
    }
    Ok(out)
}

} // verus!
