use vstd::prelude::*;
use vstd::assert_seqs_equal;
use crate::errors::Error;
use crate::gradient::{step, step_val};
use crate::loss::{mean_loss, mean_loss_val};
use crate::model::{is_rect, vdata, vrow, wf_shapes};

verus! {

/// The training loop after `n` iterations: the weight vector and the loss
/// trace, one mean loss appended per iteration; `None` once any iteration
/// leaves the fixed-point range.
pub open spec fn train_val(w: Seq<int>, t: Seq<Seq<int>>, lr: int, n: nat) -> Option<
    (Seq<int>, Seq<int>),
>
    decreases n,
{
    if n == 0 {
        Some((w, Seq::<int>::empty()))
    } else {
        match step_val(w, t, lr) {
            Some(w1) => match mean_loss_val(w1, t) {
                Some(l) => match train_val(w1, t, lr, (n - 1) as nat) {
                    Some(p) => Some((p.0, seq![l].add(p.1))),
                    None => None,
                },
                None => None,
            },
            None => None,
        }
    }
}

/// The training loop unrolled at its tail: one more iteration steps the
/// weights the loop has reached and appends that step's mean loss.
pub proof fn lemma_train_val_snoc(w: Seq<int>, t: Seq<Seq<int>>, lr: int, n: nat)
    ensures
        train_val(w, t, lr, n + 1) == (match train_val(w, t, lr, n) {
            Some(p) => match step_val(p.0, t, lr) {
                Some(w1) => match mean_loss_val(w1, t) {
                    Some(l) => Some((w1, p.1.push(l))),
                    None => None::<(Seq<int>, Seq<int>)>,
                },
                None => None::<(Seq<int>, Seq<int>)>,
            },
            None => None::<(Seq<int>, Seq<int>)>,
        }),
    decreases n,
{
    if n == 0 {
        match step_val(w, t, lr) {
            Some(w1) => match mean_loss_val(w1, t) {
                Some(l) => {
                    assert(train_val(w1, t, lr, 0) == Some((w1, Seq::<int>::empty())));
                    assert(seq![l].add(Seq::<int>::empty()) =~= Seq::<int>::empty().push(l));
                },
                None => {},
            },
            None => {},
        }
    } else {
        match step_val(w, t, lr) {
            Some(w1) => match mean_loss_val(w1, t) {
                Some(l) => {
                    lemma_train_val_snoc(w1, t, lr, (n - 1) as nat);
                    match train_val(w1, t, lr, (n - 1) as nat) {
                        Some(q) => {
                            match step_val(q.0, t, lr) {
                                Some(w2) => match mean_loss_val(w2, t) {
                                    Some(l2) => {
                                        assert(seq![l].add(q.1.push(l2)) =~= seq![l].add(
                                            q.1,
                                        ).push(l2));
                                    },
                                    None => {},
                                },
                                None => {},
                            }
                        },
                        None => {},
                    }
                },
                None => {},
            },
            None => {},
        }
    }
}

/// A training run that has left the range stays out of range however much
/// longer it runs.
pub proof fn lemma_train_val_none(w: Seq<int>, t: Seq<Seq<int>>, lr: int, n1: nat, n2: nat)
    requires
        n1 <= n2,
        train_val(w, t, lr, n1) == None::<(Seq<int>, Seq<int>)>,
    ensures
        train_val(w, t, lr, n2) == None::<(Seq<int>, Seq<int>)>,
    decreases n2,
{
    if n1 > 0 && n2 > n1 {
        match step_val(w, t, lr) {
            Some(w1) => match mean_loss_val(w1, t) {
                Some(l) => {
                    lemma_train_val_none(w1, t, lr, (n1 - 1) as nat, (n2 - 1) as nat);
                },
                None => {},
            },
            None => {},
        }
    }
}

/// Runs exactly `iterations` gradient-descent steps from the given starting
/// weights, recording the mean loss after each step; returns the final
/// weights and the loss trace.
pub fn train(w0: Vec<i64>, t: &Vec<Vec<i64>>, lr: i64, iterations: u64) -> (r: Result<
    (Vec<i64>, Vec<i64>),
    Error,
>)
    ensures
        t@.len() == 0 ==> r == Err::<(Vec<i64>, Vec<i64>), Error>(Error::EmptyDataset),
        t@.len() > 0 && !wf_shapes(vrow(w0@), vdata(t@)) ==> r == Err::<
            (Vec<i64>, Vec<i64>),
            Error,
        >(Error::ShapeMismatch),
        wf_shapes(vrow(w0@), vdata(t@)) ==> (match r {
            Ok(p) => train_val(vrow(w0@), vdata(t@), lr as int, iterations as nat) == Some(
                (vrow(p.0@), vrow(p.1@)),
            ),
            Err(e) => e == Error::OutOfRange && train_val(
                vrow(w0@),
                vdata(t@),
                lr as int,
                iterations as nat,
            ) == None::<(Seq<int>, Seq<int>)>,
        }),
{
    let m: usize = t.len();
    if m == 0 {
        return Err(Error::EmptyDataset);
    }
    if !is_rect(t) || t[0].len() < 2 || w0.len() != t[0].len() {
        return Err(Error::ShapeMismatch);
    }
    let ghost gw0 = vrow(w0@);
    let ghost gt = vdata(t@);
    let mut w: Vec<i64> = w0;
    let mut trace: Vec<i64> = Vec::new();
    let mut it: u64 = 0;
    #[verifier::loop_isolation(false)]
    while it < iterations
        invariant
            m == t@.len(),
            gt == vdata(t@),
            wf_shapes(gw0, gt),
            it <= iterations,
            w@.len() == gw0.len(),
            train_val(gw0, gt, lr as int, it as nat) == Some((vrow(w@), vrow(trace@))),
        decreases iterations - it,
    {
        proof {
            lemma_train_val_snoc(gw0, gt, lr as int, it as nat);
        }
        proof {
            assert(vrow(w@).len() == gw0.len());
            assert(wf_shapes(vrow(w@), gt));
        }
        let nw = match step(&w, t, lr) {
            Ok(nw) => nw,
            Err(_) => {
                proof {
                    assert(step_val(vrow(w@), gt, lr as int) == None::<Seq<int>>);
                    assert(train_val(gw0, gt, lr as int, (it + 1) as nat) == None::<
                        (Seq<int>, Seq<int>),
                    >);
                    lemma_train_val_none(gw0, gt, lr as int, (it + 1) as nat, iterations as nat);
                }
                return Err(Error::OutOfRange);
            },
        };
        proof {
            assert(step_val(vrow(w@), gt, lr as int) == Some(vrow(nw@)));
            assert(vrow(nw@).len() == vrow(w@).len());
            assert(wf_shapes(vrow(nw@), gt));
        }
        w = nw;
        let l = match mean_loss(&w, t) {
            Ok(l) => l,
            Err(_) => {
                proof {
                    assert(mean_loss_val(vrow(w@), gt) == None::<int>);
                    assert(train_val(gw0, gt, lr as int, (it + 1) as nat) == None::<
                        (Seq<int>, Seq<int>),
                    >);
                    lemma_train_val_none(gw0, gt, lr as int, (it + 1) as nat, iterations as nat);
                }
                return Err(Error::OutOfRange);
            },
        };
        let ghost prev_trace = trace@;
        trace.push(l);
        proof {
            assert_seqs_equal!(vrow(trace@) == vrow(prev_trace).push(l as int), i => {
                if i < prev_trace.len() {
                    assert(trace@[i] == prev_trace[i]);
                }
            });
        }
        it = it + 1;
    }
    Ok((w, trace))
}

} // verus!
