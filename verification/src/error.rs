//! The ways in which building a matrix from margins can fail.
use vstd::prelude::*;

verus! {

/// A column, with the sum it has and the sum it should have.
#[derive(Debug, Clone, Copy, PartialEq, Eq, Structural)]
pub struct ColumnSum {
    pub column: usize,
    pub current: i32,
    pub target: i32,
}

impl ColumnSum {
    /// The record holds what the column sums `current` and the targets
    /// `target` hold at its column.
    pub open spec fn reports(self, current: Seq<int>, target: Seq<int>) -> bool {
        &&& self.column < current.len()
        &&& self.column < target.len()
        &&& self.current == current[self.column as int]
        &&& self.target == target[self.column as int]
    }
}

/// Why no matrix was built.
#[derive(Debug, Clone, Copy, PartialEq, Eq, Structural)]
pub enum MarginError {
    /// There is no row sum, or no column sum.
    EmptyMargins,
    /// There are more row sums, or more column sums, than a margin can
    /// count.
    MarginsTooLong,
    /// The row sum at index `row` is negative.
    NegativeRowSum { row: usize },
    /// The column sum at index `column` is negative.
    NegativeColumnSum { column: usize },
    /// The domination test failed: no binary matrix has these margins.
    InfeasibleMargins,
    /// The row sums and the column sums do not add up to the same number.
    TotalSumMismatch { row_total: i64, column_total: i64 },
    /// The column sums differ from their targets, but none is above its own.
    /// `deficient` is the first column below its target.
    NoExcessColumnFound { deficient: ColumnSum },
    /// The column sums differ from their targets, but none is below its own.
    /// `excess` is the first column above its target.
    NoDeficientColumnFound { excess: ColumnSum },
    /// No row holds a one that can move from a column above its target to a
    /// column below its own. The two columns are those that were picked.
    NoSwapCandidateRow { excess: ColumnSum, deficient: ColumnSum },
}

impl MarginError {
    /// What `message` says of each error.
    pub open spec fn text(self) -> Seq<char> {
        match self {
            MarginError::EmptyMargins => "No row sums or no column sums were given."@,
            MarginError::MarginsTooLong => "Too many row sums or column sums were given."@,
            MarginError::NegativeRowSum { .. } => "A row sum is negative."@,
            MarginError::NegativeColumnSum { .. } => "A column sum is negative."@,
            MarginError::InfeasibleMargins => "Matrix failed majorization check."@,
            MarginError::TotalSumMismatch { .. } => {
                "Row sums and column sums have different totals."@
            },
            MarginError::NoExcessColumnFound { .. } => {
                "Could not find any columns with excess sum."@
            },
            MarginError::NoDeficientColumnFound { .. } => {
                "Could not find any columns with deficient sum."@
            },
            MarginError::NoSwapCandidateRow { .. } => "No possible row switchings."@,
        }
    }

    /// A sentence that describes the error.
    pub fn message(&self) -> (text: String)
        ensures
            text@ == self.text(),
    {
        match self {
            MarginError::EmptyMargins => "No row sums or no column sums were given.".to_owned(),
            MarginError::MarginsTooLong => {
                "Too many row sums or column sums were given.".to_owned()
            },
            MarginError::NegativeRowSum { .. } => "A row sum is negative.".to_owned(),
            MarginError::NegativeColumnSum { .. } => "A column sum is negative.".to_owned(),
            MarginError::InfeasibleMargins => "Matrix failed majorization check.".to_owned(),
            MarginError::TotalSumMismatch { .. } => {
                "Row sums and column sums have different totals.".to_owned()
            },
            MarginError::NoExcessColumnFound { .. } => {
                "Could not find any columns with excess sum.".to_owned()
            },
            MarginError::NoDeficientColumnFound { .. } => {
                "Could not find any columns with deficient sum.".to_owned()
            },
            MarginError::NoSwapCandidateRow { .. } => "No possible row switchings.".to_owned(),
        }
    }
}

} // verus!
