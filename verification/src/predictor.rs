use vstd::prelude::*;
use crate::errors::Error;
use crate::fixed::SCALE;
use crate::loss::{dot_exec, dot_val};
use crate::model::vrow;

verus! {

/// Predicted label for an already bias-augmented row: the fixed-point dot
/// product of the weights and the row.
pub fn predict(w: &Vec<i64>, row: &Vec<i64>) -> (r: Result<i64, Error>)
    ensures
        w@.len() != row@.len() ==> r == Err::<i64, Error>(Error::ShapeMismatch),
        w@.len() == row@.len() ==> (match r {
            Ok(v) => dot_val(vrow(w@), vrow(row@)) == Some(v as int),
            Err(e) => e == Error::OutOfRange && dot_val(vrow(w@), vrow(row@)) == None::<int>,
        }),
{
    if w.len() != row.len() {
        return Err(Error::ShapeMismatch);
    }
    match dot_exec(w, row) {
        Some(v) => Ok(v),
        None => Err(Error::OutOfRange),
    }
}

/// Prepends the constant coefficient 1.0 to every row, so that the bias
/// weight multiplies it like any other column. The input is not touched.
pub fn prepend_bias(t: &Vec<Vec<i64>>) -> (r: Vec<Vec<i64>>)
    ensures
        r@.len() == t@.len(),
        forall|k: int| 0 <= k < t@.len() ==> #[trigger] r@[k]@ == seq![SCALE].add(t@[k]@),
{
    let mut out: Vec<Vec<i64>> = Vec::new();
    let mut k: usize = 0;
    while k < t.len()
        invariant
            k <= t@.len(),
            out@.len() == k,
            forall|k2: int| 0 <= k2 < k ==> #[trigger] out@[k2]@ == seq![SCALE].add(t@[k2]@),
        decreases t@.len() - k,
    {
        let mut nr: Vec<i64> = Vec::new();
        nr.push(SCALE);
        let mut j: usize = 0;
        while j < t[k].len()
            invariant
                k < t@.len(),
                j <= t@[k as int]@.len(),
                nr@.len() == j + 1,
                nr@[0] == SCALE,
                forall|j2: int| 1 <= j2 < nr@.len() ==> #[trigger] nr@[j2] == t@[k as int]@[j2
                    - 1],
            decreases t@[k as int]@.len() - j,
        {
            nr.push(t[k][j]);
            j = j + 1;
        }
        proof {
            assert(nr@ =~= seq![SCALE].add(t@[k as int]@));
        }
        out.push(nr);
        k = k + 1;
    }
    out
}

} // verus!
