use vstd::prelude::*;

verus! {

/// A row or weight vector as a sequence of mathematical integers.
pub open spec fn vrow(s: Seq<i64>) -> Seq<int> {
    s.map_values(|x: i64| x as int)
}

/// A dataset as a sequence of integer rows.
pub open spec fn vdata(t: Seq<Vec<i64>>) -> Seq<Seq<int>> {
    t.map_values(|r: Vec<i64>| vrow(r@))
}

/// Every row has the length of the first one.
pub open spec fn rect(t: Seq<Seq<int>>) -> bool {
    forall|k: int| 0 <= k < t.len() ==> (#[trigger] t[k]).len() == t[0].len()
}

/// Column count of a dataset (meaningful when it has at least one row).
pub open spec fn width(t: Seq<Seq<int>>) -> int
    recommends
        t.len() > 0,
{
    t[0].len() as int
}

/// A non-empty rectangular dataset of rows wide enough to hold at least one
/// feature and a label, with a weight vector of matching length.
pub open spec fn wf_shapes(w: Seq<int>, t: Seq<Seq<int>>) -> bool {
    &&& t.len() > 0
    &&& rect(t)
    &&& width(t) >= 2
    &&& w.len() == width(t)
}

/// Reports whether all rows of `t` share the length of the first.
pub fn is_rect(t: &Vec<Vec<i64>>) -> (r: bool)
    ensures
        r == rect(vdata(t@)),
{
    if t.len() == 0 {
        return true;
    }
    let w0: usize = t[0].len();
    let mut k: usize = 1;
    while k < t.len()
        invariant
            1 <= k <= t@.len(),
            t@.len() > 0,
            w0 == t@[0]@.len(),
            forall|k2: int| 0 <= k2 < k ==> (#[trigger] vdata(t@)[k2]).len() == w0 as int,
        decreases t@.len() - k,
    {
        if t[k].len() != w0 {
            assert(vdata(t@)[k as int].len() != vdata(t@)[0].len());
            return false;
        }
        k = k + 1;
    }
    true
}

} // verus!
