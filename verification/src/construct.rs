//! Building a binary matrix with given row sums and column sums.
use vstd::prelude::*;
use crate::deviation::{
    deviation, lemma_deviation_bounds, lemma_deviation_limit, lemma_deviation_step,
    lemma_one_sided,
};
use crate::error::MarginError;
use crate::feasibility::{is_matrix_possible, lemma_no_truncation, majorization_holds};
use crate::ferrers::{conjugate, ferrers, ferrers_matrix, lemma_ferrers_shape};
use crate::margins::{
    column_margin, get_column_sums, grid, has_shape, ints, is_binary, lemma_margins_agree,
    lemma_total_take_next, rectangular, row_margin, total, width,
};
use crate::switching::{blocked_by, switch_once};

verus! {

/// Tells whether two sequences of sums hold the same numbers in the same
/// places.
pub fn same_sums(a: &Vec<i32>, b: &Vec<i32>) -> (same: bool)
    ensures
        same == (ints(a@) == ints(b@)),
{
    if a.len() != b.len() {
        assert(ints(a@).len() != ints(b@).len());
        return false;
    }
    for i in 0..a.len()
        invariant
            a@.len() == b@.len(),
            forall|k: int| 0 <= k < i ==> a@[k] == b@[k],
    {
        if a[i] != b[i] {
            assert(ints(a@)[i as int] != ints(b@)[i as int]);
            return false;
        }
    }
    assert(ints(a@) =~= ints(b@));
    true
}

/// The sum of `values`.
pub fn sum_of(values: &Vec<i32>) -> (sum: i64)
    requires
        values@.len() <= i32::MAX,
    ensures
        sum == total(ints(values@)),
{
    let mut sum: i64 = 0;
    for i in 0..values.len()
        invariant
            values@.len() <= i32::MAX,
            sum == total(ints(values@).take(i as int)),
            -(i as int) * 0x8000_0000 <= sum <= (i as int) * 0x8000_0000,
    {
        proof {
            lemma_total_take_next(ints(values@), i as int);
        }
        sum = sum + values[i] as i64;
    }
    assert(ints(values@).take(values@.len() as int) =~= ints(values@));
    sum
}

/// What a run of moves came to: how many ones were moved, and the failure
/// that ended the run, if one did.
#[derive(Debug, Clone, Copy, PartialEq, Eq, Structural)]
pub struct Adjustment {
    pub swaps: u64,
    pub failure: Option<MarginError>,
}

/// Moves ones between the columns of `matrix`, one at a time and each within
/// its row, until the column sums are `column_sums` or no further move can
/// be made.
///
/// Every move takes a one from a column above its target to a column below
/// its own, so each lowers the total deviation by one: the number of moves
/// made is the total deviation at the start less the total deviation at the
/// end. No row sum changes.
pub fn adjust_columns(matrix: &mut Vec<Vec<i32>>, column_sums: &Vec<i32>) -> (done: Adjustment)
    requires
        rectangular(grid(old(matrix)@)),
        is_binary(grid(old(matrix)@)),
        old(matrix)@.len() <= i32::MAX,
        column_sums@.len() <= i32::MAX,
        width(grid(old(matrix)@)) == column_sums@.len(),
    ensures
        rectangular(grid(final(matrix)@)),
        is_binary(grid(final(matrix)@)),
        final(matrix)@.len() == old(matrix)@.len(),
        width(grid(final(matrix)@)) == width(grid(old(matrix)@)),
        row_margin(grid(final(matrix)@)) == row_margin(grid(old(matrix)@)),
        done.swaps + deviation(column_margin(grid(final(matrix)@)), ints(column_sums@))
            == deviation(column_margin(grid(old(matrix)@)), ints(column_sums@)),
        done.swaps <= deviation(column_margin(grid(old(matrix)@)), ints(column_sums@)),
        column_margin(grid(old(matrix)@)) == ints(column_sums@) ==> final(matrix)@ == old(matrix)@,
        match done.failure {
            None => column_margin(grid(final(matrix)@)) == ints(column_sums@),
            Some(e) => blocked_by(
                e,
                grid(final(matrix)@),
                column_margin(grid(final(matrix)@)),
                ints(column_sums@),
            ),
        },
{
    let ghost g0 = grid(matrix@);
    let ghost t = ints(column_sums@);
    let mut swaps: u64 = 0;
    let mut current_col_sums: Vec<i32> = get_column_sums(matrix);
    proof {
        lemma_deviation_limit(column_margin(g0), t, 0xFFFF_FFFF);
        lemma_deviation_bounds(column_margin(g0), t);
    }
    while !same_sums(&current_col_sums, column_sums)
        invariant
            t == ints(column_sums@),
            g0 == grid(old(matrix)@),
            rectangular(grid(matrix@)),
            is_binary(grid(matrix@)),
            matrix@.len() == g0.len(),
            matrix@.len() <= i32::MAX,
            column_sums@.len() <= i32::MAX,
            width(grid(matrix@)) == width(g0),
            width(g0) == column_sums@.len(),
            row_margin(grid(matrix@)) == row_margin(g0),
            ints(current_col_sums@) == column_margin(grid(matrix@)),
            swaps + deviation(column_margin(grid(matrix@)), t) == deviation(column_margin(g0), t),
            deviation(column_margin(grid(matrix@)), t) >= 0,
            deviation(column_margin(g0), t) <= 0x7FFF_FFFF * 0xFFFF_FFFF,
            swaps == 0 ==> matrix@ == old(matrix)@,
            swaps > 0 ==> column_margin(g0) != t,
        decreases deviation(column_margin(grid(matrix@)), t),
    {
        let ghost g = grid(matrix@);
        let ghost c = column_margin(g);
        match switch_once(matrix, &current_col_sums, column_sums) {
            Ok(swap) => {
                proof {
                    lemma_deviation_step(c, t, swap.from as int, swap.to as int);
                    lemma_deviation_bounds(column_margin(grid(matrix@)), t);
                }
            },
            Err(e) => {
                return Adjustment { swaps, failure: Some(e) };
            },
        }
        swaps = swaps + 1;
        current_col_sums = get_column_sums(matrix);
    }
    proof {
        lemma_deviation_bounds(column_margin(grid(matrix@)), t);
    }
    Adjustment { swaps, failure: None }
}

/// `i` is the first index at which `s` holds a negative number.
pub open spec fn is_first_negative(s: Seq<int>, i: int) -> bool {
    &&& 0 <= i < s.len()
    &&& s[i] < 0
    &&& forall|k: int| 0 <= k < i ==> s[k] >= 0
}

/// `s` holds a negative number.
pub open spec fn has_negative(s: Seq<int>) -> bool {
    exists|i: int| 0 <= i < s.len() && s[i] < 0
}

/// The first index at which `s` holds a negative number, where it holds one.
pub open spec fn first_negative(s: Seq<int>) -> int {
    choose|i: int| is_first_negative(s, i)
}

/// Looks for the first negative number of `values`.
pub fn find_negative(values: &Vec<i32>) -> (found: Option<usize>)
    ensures
        match found {
            Some(i) => is_first_negative(ints(values@), i as int) && i == first_negative(
                ints(values@),
            ),
            None => !has_negative(ints(values@)),
        },
{
    for i in 0..values.len()
        invariant
            forall|k: int| 0 <= k < i ==> ints(values@)[k] >= 0,
    {
        if values[i] < 0 {
            proof {
                // there is one first negative number, and no other
                let s = ints(values@);
                assert(is_first_negative(s, i as int));
                assert(is_first_negative(s, first_negative(s)));
            }
            return Some(i);
        }
    }
    None
}

/// Why the row sums `r` and the column sums `c` are turned down before any
/// matrix is built, if they are. The reasons are tried in this order: a
/// sequence is empty; a sequence is too long; a row sum is negative; a
/// column sum is negative; the domination test fails; the two totals differ.
pub open spec fn rejection(r: Seq<int>, c: Seq<int>) -> Option<MarginError> {
    if r.len() == 0 || c.len() == 0 {
        Some(MarginError::EmptyMargins)
    } else if r.len() > i32::MAX || c.len() > i32::MAX {
        Some(MarginError::MarginsTooLong)
    } else if has_negative(r) {
        Some(MarginError::NegativeRowSum { row: first_negative(r) as usize })
    } else if has_negative(c) {
        Some(MarginError::NegativeColumnSum { column: first_negative(c) as usize })
    } else if !majorization_holds(r, c) {
        Some(MarginError::InfeasibleMargins)
    } else if total(r) != total(c) {
        Some(
            MarginError::TotalSumMismatch {
                row_total: total(r) as i64,
                column_total: total(c) as i64,
            },
        )
    } else {
        None
    }
}

/// Checks a pair of margins before a matrix is built from them.
pub fn check_margins(row_sums: &Vec<i32>, column_sums: &Vec<i32>) -> (checked: Result<
    (),
    MarginError,
>)
    ensures
        checked == match rejection(ints(row_sums@), ints(column_sums@)) {
            Some(why) => Err::<(), MarginError>(why),
            None => Ok::<(), MarginError>(()),
        },
{
    let row_len: usize = row_sums.len();
    let col_len: usize = column_sums.len();
    if row_len == 0 || col_len == 0 {
        return Err(MarginError::EmptyMargins);
    }
    if row_len > 0x7FFF_FFFF || col_len > 0x7FFF_FFFF {
        return Err(MarginError::MarginsTooLong);
    }
    match find_negative(row_sums) {
        Some(row) => {
            return Err(MarginError::NegativeRowSum { row });
        },
        None => {},
    }
    match find_negative(column_sums) {
        Some(column) => {
            return Err(MarginError::NegativeColumnSum { column });
        },
        None => {},
    }
    if !is_matrix_possible(row_sums, column_sums) {
        return Err(MarginError::InfeasibleMargins);
    }
    let row_total: i64 = sum_of(row_sums);
    let column_total: i64 = sum_of(column_sums);
    if row_total != column_total {
        return Err(MarginError::TotalSumMismatch { row_total, column_total });
    }
    Ok(())
}

/// Some binary matrix with the row sums `r` is not yet at the column sums
/// `c` and allows no further move towards them, which is what `e` reports.
pub open spec fn dead_end(e: MarginError, r: Seq<int>, c: Seq<int>) -> bool {
    exists|g: Seq<Seq<int>>|
        {
            &&& has_shape(g, r.len(), c.len())
            &&& is_binary(g)
            &&& row_margin(g) == r
            &&& #[trigger] blocked_by(e, g, column_margin(g), c)
        }
}

/// Builds a binary matrix whose row sums are `row_sums` and whose column
/// sums are `column_sums`.
///
/// The margins are checked first. From the left-packed matrix of the row
/// sums, ones are then moved between columns, each within its row, until the
/// column sums are met. The moves are picked at random; a run of them can
/// end where no further move is possible, and the call then fails.
pub fn generate_matrix_for(row_sums: &Vec<i32>, column_sums: &Vec<i32>) -> (outcome: Result<
    Vec<Vec<i32>>,
    MarginError,
>)
    ensures
        match outcome {
            Ok(matrix) => {
                &&& rejection(ints(row_sums@), ints(column_sums@)) is None
                &&& has_shape(grid(matrix@), row_sums@.len(), column_sums@.len())
                &&& is_binary(grid(matrix@))
                &&& row_margin(grid(matrix@)) == ints(row_sums@)
                &&& column_margin(grid(matrix@)) == ints(column_sums@)
            },
            Err(e) => match rejection(ints(row_sums@), ints(column_sums@)) {
                Some(why) => e == why,
                None => e is NoSwapCandidateRow && dead_end(
                    e,
                    ints(row_sums@),
                    ints(column_sums@),
                ),
            },
        },
        rejection(ints(row_sums@), ints(column_sums@)) is None && conjugate(
            ints(row_sums@),
            column_sums@.len(),
        ) == ints(column_sums@) ==> outcome is Ok && grid(outcome->Ok_0@) == ferrers(
            ints(row_sums@),
            column_sums@.len(),
        ),
{
    match check_margins(row_sums, column_sums) {
        Err(e) => {
            return Err(e);
        },
        Ok(()) => {},
    }
    let ghost r = ints(row_sums@);
    let ghost c = ints(column_sums@);
    let col_len: usize = column_sums.len();
    let mut matrix = ferrers_matrix(row_sums, col_len);
    proof {
        lemma_ferrers_shape(r, col_len as nat);
        lemma_no_truncation(r, c);
    }
    let done = adjust_columns(&mut matrix, column_sums);
    proof {
        let g = grid(matrix@);
        lemma_margins_agree(g);
        if column_margin(g) != c {
            lemma_one_sided(column_margin(g), c);
        }
    }
    match done.failure {
        None => Ok(matrix),
        Some(e) => Err(e),
    }
}

} // verus!
