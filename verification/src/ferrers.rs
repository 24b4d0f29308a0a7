//! The left-packed matrix of a row-sum sequence, and its column sums.
use vstd::prelude::*;
use crate::margins::{
    column, column_sum, grid, ints, is_binary, lemma_margins_agree, lemma_total_zeros,
    rectangular, row_margin, total, width,
};

verus! {

/// A row of `cols` cells whose first `r` cells are 1 and whose other cells
/// are 0. Where `r` is negative the row holds no 1; where `r` exceeds `cols`
/// the row holds `cols` of them.
pub open spec fn staircase_row(r: int, cols: nat) -> Seq<int> {
    Seq::new(cols, |j: int| if j < r { 1int } else { 0int })
}

/// The left-packed matrix of the row sums `r` with `cols` columns: row `i`
/// is the staircase row of `r[i]`.
pub open spec fn ferrers(r: Seq<int>, cols: nat) -> Seq<Seq<int>> {
    Seq::new(r.len(), |i: int| staircase_row(r[i], cols))
}

/// The number of ones that the staircase row of `r` holds.
pub open spec fn clip(r: int, cols: nat) -> int {
    if r < 0 {
        0
    } else if r > cols {
        cols as int
    } else {
        r
    }
}

/// The conjugate sequence of `r`: the column sums of its left-packed
/// matrix, one for each of `cols` columns.
pub open spec fn conjugate(r: Seq<int>, cols: nat) -> Seq<int> {
    Seq::new(cols, |j: int| column_sum(ferrers(r, cols), j))
}

/// For each row sum of `r`, the number of ones that its staircase row holds.
pub open spec fn clipped(r: Seq<int>, cols: nat) -> Seq<int> {
    Seq::new(r.len(), |i: int| clip(r[i], cols))
}

/// The left-packed matrix is rectangular and binary, with one row for each
/// row sum and with `cols` columns.
pub proof fn lemma_ferrers_shape(r: Seq<int>, cols: nat)
    ensures
        rectangular(ferrers(r, cols)),
        is_binary(ferrers(r, cols)),
        ferrers(r, cols).len() == r.len(),
        r.len() > 0 ==> width(ferrers(r, cols)) == cols,
{
}

/// A staircase row sums to its clipped row sum.
pub proof fn lemma_staircase_total(r: int, cols: nat)
    ensures
        total(staircase_row(r, cols)) == clip(r, cols),
    decreases cols,
{
    if cols > 0 {
        lemma_staircase_total(r, (cols - 1) as nat);
        assert(staircase_row(r, cols).drop_last() =~= staircase_row(r, (cols - 1) as nat));
    }
}

/// The row sums of the left-packed matrix are the clipped row sums.
pub proof fn lemma_ferrers_rows(r: Seq<int>, cols: nat)
    ensures
        row_margin(ferrers(r, cols)) == clipped(r, cols),
{
    assert forall|i: int| 0 <= i < r.len() implies total(ferrers(r, cols)[i]) == clip(
        r[i],
        cols,
    ) by {
        lemma_staircase_total(r[i], cols);
    }
}

/// The conjugate sequence sums to what the clipped row sums sum to.
pub proof fn lemma_conjugate_total(r: Seq<int>, cols: nat)
    ensures
        total(conjugate(r, cols)) == total(clipped(r, cols)),
{
    let f = ferrers(r, cols);
    lemma_ferrers_shape(r, cols);
    lemma_ferrers_rows(r, cols);
    if r.len() > 0 {
        lemma_margins_agree(f);
    } else {
        lemma_total_zeros(conjugate(r, cols));
    }
}

/// The first `k` entries of a conjugate sequence are the conjugate sequence
/// for `k` columns.
pub proof fn lemma_conjugate_prefix(r: Seq<int>, cols: nat, k: nat)
    requires
        k <= cols,
    ensures
        conjugate(r, cols).take(k as int) == conjugate(r, k),
{
    assert forall|j: int| 0 <= j < k implies conjugate(r, cols)[j] == conjugate(r, k)[j] by {
        assert(column(ferrers(r, cols), j) =~= column(ferrers(r, k), j));
    }
}

/// Builds the left-packed matrix of `row_sums` with `col_len` columns.
pub fn ferrers_matrix(row_sums: &Vec<i32>, col_len: usize) -> (matrix: Vec<Vec<i32>>)
    ensures
        grid(matrix@) == ferrers(ints(row_sums@), col_len as nat),
{
    let row_len: usize = row_sums.len();
    let mut matrix: Vec<Vec<i32>> = Vec::new();
    let ghost target = ferrers(ints(row_sums@), col_len as nat);
    for i in 0..row_len
        invariant
            row_len == row_sums@.len(),
            target == ferrers(ints(row_sums@), col_len as nat),
            matrix@.len() == i,
            forall|r: int| 0 <= r < i ==> ints(#[trigger] matrix@[r]@) == target[r],
    {
        let mut row: Vec<i32> = Vec::new();
        let mut num_ones: i32 = row_sums[i];
        for j in 0..col_len
            invariant
                0 <= i < row_len,
                row_len == row_sums@.len(),
                row@.len() == j,
                num_ones as int == if row_sums@[i as int] > j {
                    row_sums@[i as int] - j
                } else if row_sums@[i as int] > 0 {
                    0
                } else {
                    row_sums@[i as int] as int
                },
                forall|c: int|
                    0 <= c < j ==> row@[c] as int == if c < row_sums@[i as int] {
                        1int
                    } else {
                        0int
                    },
        {
            if num_ones > 0 {
                row.push(1);
                num_ones = num_ones - 1;
            } else {
                row.push(0);
            }
        }
        matrix.push(row);
    }
    matrix
}

} // verus!
