use vstd::prelude::*;

verus! {

/// Why an operation of the pipeline was refused.
#[derive(Clone, Copy, Debug, PartialEq, Eq, Structural)]
pub enum Error {
    /// The dataset has zero rows.
    EmptyDataset,
    /// Rows of unequal length, a row too short to hold a feature and a label,
    /// or a weight vector whose length does not match the row length.
    ShapeMismatch,
    /// A normalization factor of zero for a column that is being normalized.
    DegenerateColumn,
    /// A value or an intermediate result left the representable fixed-point
    /// range.
    OutOfRange,
}

} // verus!
