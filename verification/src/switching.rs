//! Moving single ones between columns of a matrix, row sums unchanged.
use vstd::prelude::*;
use crate::deviation::{
    ascending, deficient_columns, enumerates, excess_columns, is_deficient, is_excess,
    is_first_deficient, is_first_excess,
};
use crate::error::{ColumnSum, MarginError};
use crate::margins::{
    column, column_margin, column_sum, grid, ints, is_binary, lemma_total_update, rectangular,
    row_margin, row_sum, width,
};
use crate::random::pick;

verus! {

/// A one can move within row `row` from column `from` to column `to`: the
/// row holds a one in the first and a zero in the second.
pub open spec fn can_swap(g: Seq<Seq<int>>, row: int, from: int, to: int) -> bool {
    &&& 0 <= row < g.len()
    &&& 0 <= from < g[row].len()
    &&& 0 <= to < g[row].len()
    &&& g[row][from] == 1
    &&& g[row][to] == 0
}

/// Some row of `g` allows a move from column `from` to column `to`.
pub open spec fn swappable(g: Seq<Seq<int>>, from: int, to: int) -> bool {
    exists|row: int| can_swap(g, row, from, to)
}

/// `g` after the cell of row `row` in column `from` became 0 and its cell in
/// column `to` became 1.
pub open spec fn swapped(g: Seq<Seq<int>>, row: int, from: int, to: int) -> Seq<Seq<int>> {
    g.update(row, g[row].update(from, 0).update(to, 1))
}

/// A move of a one within a row keeps the matrix binary and of the same
/// shape, leaves every row sum as it was, takes one from the sum of the
/// column it leaves and adds one to the sum of the column it enters.
pub proof fn lemma_swap_margins(g: Seq<Seq<int>>, row: int, from: int, to: int)
    requires
        rectangular(g),
        is_binary(g),
        can_swap(g, row, from, to),
    ensures
        rectangular(swapped(g, row, from, to)),
        is_binary(swapped(g, row, from, to)),
        swapped(g, row, from, to).len() == g.len(),
        width(swapped(g, row, from, to)) == width(g),
        row_margin(swapped(g, row, from, to)) == row_margin(g),
        column_margin(swapped(g, row, from, to)) == column_margin(g).update(
            from,
            column_sum(g, from) - 1,
        ).update(to, column_sum(g, to) + 1),
{
    let h = swapped(g, row, from, to);
    let n = width(g);
    assert forall|i: int| 0 <= i < g.len() implies row_sum(h, i) == row_sum(g, i) by {
        if i == row {
            lemma_total_update(g[row], from, 0);
            lemma_total_update(g[row].update(from, 0), to, 1);
        }
    }
    let expected = column_margin(g).update(from, column_sum(g, from) - 1).update(
        to,
        column_sum(g, to) + 1,
    );
    assert forall|j: int| 0 <= j < n implies column_sum(h, j) == expected[j] by {
        assert(column(h, j) =~= column(g, j).update(row, h[row][j]));
        lemma_total_update(column(g, j), row, h[row][j]);
    }
}

/// Moves the one of row `row` from column `from` to column `to`.
pub fn apply_swap(matrix: &mut Vec<Vec<i32>>, row: usize, from: usize, to: usize)
    requires
        rectangular(grid(old(matrix)@)),
        is_binary(grid(old(matrix)@)),
        can_swap(grid(old(matrix)@), row as int, from as int, to as int),
    ensures
        grid(final(matrix)@) == swapped(grid(old(matrix)@), row as int, from as int, to as int),
        rectangular(grid(final(matrix)@)),
        is_binary(grid(final(matrix)@)),
        final(matrix)@.len() == old(matrix)@.len(),
        width(grid(final(matrix)@)) == width(grid(old(matrix)@)),
        row_margin(grid(final(matrix)@)) == row_margin(grid(old(matrix)@)),
        column_margin(grid(final(matrix)@)) == column_margin(grid(old(matrix)@)).update(
            from as int,
            column_sum(grid(old(matrix)@), from as int) - 1,
        ).update(to as int, column_sum(grid(old(matrix)@), to as int) + 1),
{
    matrix[row][from] = 0;
    matrix[row][to] = 1;
    proof {
        let before = grid(old(matrix)@);
        let after = swapped(before, row as int, from as int, to as int);
        assert forall|r: int| 0 <= r < after.len() implies grid(matrix@)[r] == after[r] by {}
        lemma_swap_margins(before, row as int, from as int, to as int);
    }
}

/// The rows in which a one can move from column `from` to column `to`, in
/// ascending order.
pub fn swap_candidate_rows(matrix: &Vec<Vec<i32>>, from: usize, to: usize) -> (rows: Vec<usize>)
    requires
        rectangular(grid(matrix@)),
        from < width(grid(matrix@)),
        to < width(grid(matrix@)),
    ensures
        enumerates(rows@, |r: int| can_swap(grid(matrix@), r, from as int, to as int)),
        rows@.len() > 0 <==> swappable(grid(matrix@), from as int, to as int),
{
    let row_len: usize = matrix.len();
    let mut rows: Vec<usize> = Vec::new();
    let ghost g = grid(matrix@);
    for row in 0..row_len
        invariant
            g == grid(matrix@),
            row_len == matrix@.len(),
            rectangular(g),
            from < width(g),
            to < width(g),
            ascending(rows@),
            forall|k: int| 0 <= k < rows@.len() ==> rows@[k] < row,
            forall|k: int|
                0 <= k < rows@.len() ==> can_swap(
                    g,
                    #[trigger] rows@[k] as int,
                    from as int,
                    to as int,
                ),
            forall|r: usize|
                r < row && can_swap(g, r as int, from as int, to as int)
                    ==> #[trigger] rows@.contains(r),
    {
        assert(g[row as int].len() == width(g));
        if matrix[row][from] == 1 && matrix[row][to] == 0 {
            let ghost before = rows@;
            rows.push(row);
            assert(rows@[before.len() as int] == row);
            assert forall|r: usize|
                r < row + 1 && can_swap(
                    g,
                    r as int,
                    from as int,
                    to as int,
                ) implies #[trigger] rows@.contains(r) by {
                if r < row {
                    assert(before.contains(r));
                    let k = choose|k: int| 0 <= k < before.len() && before[k] == r;
                    assert(rows@[k] == r);
                }
            }
        }
    }
    proof {
        if rows@.len() > 0 {
            assert(can_swap(g, rows@[0] as int, from as int, to as int));
        }
        if swappable(g, from as int, to as int) {
            let r = choose|r: int| can_swap(g, r, from as int, to as int);
            assert(rows@.contains(r as usize));
        }
    }
    rows
}

/// No one can move from a column of `excess` to a column of `deficient`.
pub open spec fn none_swappable(
    g: Seq<Seq<int>>,
    excess: Seq<usize>,
    deficient: Seq<usize>,
) -> bool {
    forall|e: usize, d: usize|
        excess.contains(e) && deficient.contains(d) ==> !swappable(g, e as int, d as int)
}

/// Among the pairs of a column of `excess` and a column of `deficient`
/// between which a one can move, `(from, to)` has the smallest first column
/// and, with that first column, the smallest second.
pub open spec fn leads(
    g: Seq<Seq<int>>,
    excess: Seq<usize>,
    deficient: Seq<usize>,
    from: usize,
    to: usize,
) -> bool {
    &&& excess.contains(from)
    &&& deficient.contains(to)
    &&& swappable(g, from as int, to as int)
    &&& forall|e: usize, d: usize|
        excess.contains(e) && deficient.contains(d) && swappable(g, e as int, d as int) ==> from
            < e || (from == e && to <= d)
}

/// Looks for a pair of a column of `excess` and a column of `deficient`
/// between which a one can move, trying the columns of `excess` in order
/// and, for each, those of `deficient` in order.
pub fn first_swappable_pair(
    matrix: &Vec<Vec<i32>>,
    excess: &Vec<usize>,
    deficient: &Vec<usize>,
) -> (found: Option<(usize, usize)>)
    requires
        rectangular(grid(matrix@)),
        ascending(excess@),
        ascending(deficient@),
        forall|k: int| 0 <= k < excess@.len() ==> excess@[k] < width(grid(matrix@)),
        forall|k: int| 0 <= k < deficient@.len() ==> deficient@[k] < width(grid(matrix@)),
    ensures
        match found {
            Some((from, to)) => leads(grid(matrix@), excess@, deficient@, from, to),
            None => none_swappable(grid(matrix@), excess@, deficient@),
        },
{
    let ghost g = grid(matrix@);
    for a in 0..excess.len()
        invariant
            g == grid(matrix@),
            rectangular(g),
            ascending(excess@),
            ascending(deficient@),
            forall|k: int| 0 <= k < excess@.len() ==> excess@[k] < width(g),
            forall|k: int| 0 <= k < deficient@.len() ==> deficient@[k] < width(g),
            forall|x: int, y: int|
                0 <= x < a && 0 <= y < deficient@.len() ==> !swappable(
                    g,
                    excess@[x] as int,
                    deficient@[y] as int,
                ),
    {
        let from: usize = excess[a];
        for b in 0..deficient.len()
            invariant
                g == grid(matrix@),
                rectangular(g),
                0 <= a < excess@.len(),
                from == excess@[a as int],
                ascending(excess@),
                ascending(deficient@),
                forall|k: int| 0 <= k < excess@.len() ==> excess@[k] < width(g),
                forall|k: int| 0 <= k < deficient@.len() ==> deficient@[k] < width(g),
                forall|x: int, y: int|
                    0 <= x < a && 0 <= y < deficient@.len() ==> !swappable(
                        g,
                        excess@[x] as int,
                        deficient@[y] as int,
                    ),
                forall|y: int|
                    0 <= y < b ==> !swappable(g, from as int, deficient@[y] as int),
        {
            let to: usize = deficient[b];
            let rows = swap_candidate_rows(matrix, from, to);
            if rows.len() > 0 {
                return Some((from, to));
            }
        }
    }
    None
}

/// Settles between which columns a one will move, given the pair
/// `(from, to)` that was picked: the picked pair where a one can move
/// between its columns, else the leading pair among those where one can.
/// There is none where no pair allows a move.
pub fn resolve_pair(
    matrix: &Vec<Vec<i32>>,
    excess: &Vec<usize>,
    deficient: &Vec<usize>,
    from: usize,
    to: usize,
) -> (pair: Option<(usize, usize)>)
    requires
        rectangular(grid(matrix@)),
        ascending(excess@),
        ascending(deficient@),
        forall|k: int| 0 <= k < excess@.len() ==> excess@[k] < width(grid(matrix@)),
        forall|k: int| 0 <= k < deficient@.len() ==> deficient@[k] < width(grid(matrix@)),
        excess@.contains(from),
        deficient@.contains(to),
    ensures
        match pair {
            Some((a, b)) => if swappable(grid(matrix@), from as int, to as int) {
                a == from && b == to
            } else {
                leads(grid(matrix@), excess@, deficient@, a, b)
            },
            None => none_swappable(grid(matrix@), excess@, deficient@),
        },
{
    let rows = swap_candidate_rows(matrix, from, to);
    if rows.len() > 0 {
        return Some((from, to));
    }
    first_swappable_pair(matrix, excess, deficient)
}

/// One move of a one: within row `row`, from column `from` to column `to`.
#[derive(Debug, Clone, Copy, PartialEq, Eq, Structural)]
pub struct Swap {
    pub row: usize,
    pub from: usize,
    pub to: usize,
}

/// No one can move from a column above its target to a column below its
/// own.
pub open spec fn stuck(g: Seq<Seq<int>>, current: Seq<int>, target: Seq<int>) -> bool {
    forall|from: int, to: int|
        is_excess(current, target, from) && is_deficient(current, target, to) ==> !swappable(
            g,
            from,
            to,
        )
}

/// What a failed move says of the matrix `g`, of its column sums `current`
/// and of their targets: which kind of column is missing, the first column of
/// the other kind, or that no one can move between the columns there are.
pub open spec fn blocked_by(
    e: MarginError,
    g: Seq<Seq<int>>,
    current: Seq<int>,
    target: Seq<int>,
) -> bool {
    match e {
        MarginError::NoExcessColumnFound { deficient } => {
            &&& forall|j: int| !is_excess(current, target, j)
            &&& deficient.reports(current, target)
            &&& is_first_deficient(current, target, deficient.column as int)
        },
        MarginError::NoDeficientColumnFound { excess } => {
            &&& forall|j: int| !is_deficient(current, target, j)
            &&& excess.reports(current, target)
            &&& is_first_excess(current, target, excess.column as int)
        },
        MarginError::NoSwapCandidateRow { excess, deficient } => {
            &&& excess.reports(current, target)
            &&& deficient.reports(current, target)
            &&& is_excess(current, target, excess.column as int)
            &&& is_deficient(current, target, deficient.column as int)
            &&& stuck(g, current, target)
        },
        _ => false,
    }
}

/// Moves one one from a column above its target to a column below its own,
/// in a row that allows it, and reports the move.
///
/// The two columns and the row are picked at random. Where the picked
/// columns allow no move, the leading pair that allows one takes their
/// place. `current` holds the column sums of `matrix`, which differ from
/// `target`.
///
/// Fails, and leaves the matrix as it is, where no column is above its
/// target, where none is below, or where no pair of such columns allows a
/// move.
pub fn switch_once(matrix: &mut Vec<Vec<i32>>, current: &Vec<i32>, target: &Vec<i32>) -> (outcome:
    Result<Swap, MarginError>)
    requires
        rectangular(grid(old(matrix)@)),
        is_binary(grid(old(matrix)@)),
        ints(current@) == column_margin(grid(old(matrix)@)),
        current@.len() == target@.len(),
        ints(current@) != ints(target@),
    ensures
        rectangular(grid(final(matrix)@)),
        is_binary(grid(final(matrix)@)),
        final(matrix)@.len() == old(matrix)@.len(),
        width(grid(final(matrix)@)) == width(grid(old(matrix)@)),
        row_margin(grid(final(matrix)@)) == row_margin(grid(old(matrix)@)),
        match outcome {
            Ok(swap) => {
                &&& is_excess(ints(current@), ints(target@), swap.from as int)
                &&& is_deficient(ints(current@), ints(target@), swap.to as int)
                &&& can_swap(grid(old(matrix)@), swap.row as int, swap.from as int, swap.to as int)
                &&& grid(final(matrix)@) == swapped(
                    grid(old(matrix)@),
                    swap.row as int,
                    swap.from as int,
                    swap.to as int,
                )
                &&& column_margin(grid(final(matrix)@)) == ints(current@).update(
                    swap.from as int,
                    current@[swap.from as int] - 1,
                ).update(swap.to as int, current@[swap.to as int] + 1)
            },
            Err(e) => {
                &&& final(matrix)@ == old(matrix)@
                &&& blocked_by(e, grid(old(matrix)@), ints(current@), ints(target@))
            },
        },
{
    let ghost g = grid(matrix@);
    let ghost c = ints(current@);
    let ghost t = ints(target@);
    assert(c.len() == current.len());
    let excess = excess_columns(current, target);
    let deficient = deficient_columns(current, target);
    proof {
        // a column whose sum is not its target is above it or below it
        if forall|j: int| 0 <= j < c.len() ==> c[j] == t[j] {
            assert(c =~= t);
        }
        let j = choose|j: int| 0 <= j < c.len() && c[j] != t[j];
        if c[j] > t[j] {
            assert(excess@.contains(j as usize));
        } else {
            assert(deficient@.contains(j as usize));
        }
    }
    if excess.len() == 0 {
        let column: usize = deficient[0];
        assert forall|j: int| !is_excess(c, t, j) by {
            if is_excess(c, t, j) {
                assert(excess@.contains(j as usize));
            }
        }
        assert forall|l: int| 0 <= l < column implies !is_deficient(c, t, l) by {
            if is_deficient(c, t, l) {
                assert(deficient@.contains(l as usize));
            }
        }
        return Err(
            MarginError::NoExcessColumnFound {
                deficient: ColumnSum { column, current: current[column], target: target[column] },
            },
        );
    }
    if deficient.len() == 0 {
        let column: usize = excess[0];
        assert forall|j: int| !is_deficient(c, t, j) by {
            if is_deficient(c, t, j) {
                assert(deficient@.contains(j as usize));
            }
        }
        assert forall|l: int| 0 <= l < column implies !is_excess(c, t, l) by {
            if is_excess(c, t, l) {
                assert(excess@.contains(l as usize));
            }
        }
        return Err(
            MarginError::NoDeficientColumnFound {
                excess: ColumnSum { column, current: current[column], target: target[column] },
            },
        );
    }
    let mut rng = rand::thread_rng();
    let picked_from: usize = pick(&excess, &mut rng).unwrap();
    let picked_to: usize = pick(&deficient, &mut rng).unwrap();
    let (from, to) = match resolve_pair(matrix, &excess, &deficient, picked_from, picked_to) {
        Some(pair) => pair,
        None => {
            return Err(
                MarginError::NoSwapCandidateRow {
                    excess: ColumnSum {
                        column: picked_from,
                        current: current[picked_from],
                        target: target[picked_from],
                    },
                    deficient: ColumnSum {
                        column: picked_to,
                        current: current[picked_to],
                        target: target[picked_to],
                    },
                },
            );
        },
    };
    let rows = swap_candidate_rows(matrix, from, to);
    let row: usize = pick(&rows, &mut rng).unwrap();
    apply_swap(matrix, row, from, to);
    Ok(Swap { row, from, to })
}

} // verus!
