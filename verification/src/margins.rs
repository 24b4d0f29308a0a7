//! Margins of a binary matrix: its row sums and its column sums.
use vstd::prelude::*;

verus! {

/// The sum of a finite sequence of integers.
pub open spec fn total(s: Seq<int>) -> int
    decreases s.len(),
{
    if s.len() == 0 {
        0
    } else {
        total(s.drop_last()) + s.last()
    }
}

/// A sequence of machine integers read as mathematical integers.
pub open spec fn ints(v: Seq<i32>) -> Seq<int> {
    Seq::new(v.len(), |i: int| v[i] as int)
}

/// The cells of a matrix, row by row, as mathematical integers.
pub open spec fn grid(matrix: Seq<Vec<i32>>) -> Seq<Seq<int>> {
    Seq::new(matrix.len(), |i: int| ints(matrix[i]@))
}

/// `g` has `rows` rows of `cols` cells each.
pub open spec fn has_shape(g: Seq<Seq<int>>, rows: nat, cols: nat) -> bool {
    &&& g.len() == rows
    &&& forall|i: int| 0 <= i < g.len() ==> (#[trigger] g[i]).len() == cols
}

/// The number of columns of `g`: the length of its first row, and 0 where it
/// has no row.
pub open spec fn width(g: Seq<Seq<int>>) -> nat {
    if g.len() == 0 {
        0
    } else {
        g[0].len()
    }
}

/// Every row of `g` is as long as its first.
pub open spec fn rectangular(g: Seq<Seq<int>>) -> bool {
    has_shape(g, g.len(), width(g))
}

/// Every cell of `g` is 0 or 1.
pub open spec fn is_binary(g: Seq<Seq<int>>) -> bool {
    forall|i: int, j: int|
        0 <= i < g.len() && 0 <= j < g[i].len() ==> 0 <= #[trigger] g[i][j] <= 1
}

/// Column `j` of `g`, top to bottom.
pub open spec fn column(g: Seq<Seq<int>>, j: int) -> Seq<int> {
    Seq::new(g.len(), |i: int| g[i][j])
}

/// The sum of row `i` of `g`.
pub open spec fn row_sum(g: Seq<Seq<int>>, i: int) -> int {
    total(g[i])
}

/// The sum of column `j` of `g`.
pub open spec fn column_sum(g: Seq<Seq<int>>, j: int) -> int {
    total(column(g, j))
}

/// The row sums of `g`, one for each row.
pub open spec fn row_margin(g: Seq<Seq<int>>) -> Seq<int> {
    Seq::new(g.len(), |i: int| row_sum(g, i))
}

/// The column sums of `g`, one for each column.
pub open spec fn column_margin(g: Seq<Seq<int>>) -> Seq<int> {
    Seq::new(width(g), |j: int| column_sum(g, j))
}

/// The sum of a prefix grows by the element that the prefix gains.
pub proof fn lemma_total_take_next(s: Seq<int>, k: int)
    requires
        0 <= k < s.len(),
    ensures
        total(s.take(k + 1)) == total(s.take(k)) + s[k],
{
    assert(s.take(k + 1).drop_last() =~= s.take(k));
}

/// A sequence whose elements lie between 0 and 1 sums to at least 0 and at
/// most its length.
pub proof fn lemma_total_of_bits(s: Seq<int>)
    requires
        forall|i: int| 0 <= i < s.len() ==> 0 <= #[trigger] s[i] <= 1,
    ensures
        0 <= total(s) <= s.len(),
    decreases s.len(),
{
    if s.len() > 0 {
        lemma_total_of_bits(s.drop_last());
    }
}

/// Replacing one element changes the sum by the difference of the two.
pub proof fn lemma_total_update(s: Seq<int>, i: int, v: int)
    requires
        0 <= i < s.len(),
    ensures
        total(s.update(i, v)) == total(s) - s[i] + v,
    decreases s.len(),
{
    if i == s.len() - 1 {
        assert(s.update(i, v).drop_last() =~= s.drop_last());
    } else {
        lemma_total_update(s.drop_last(), i, v);
        assert(s.update(i, v).drop_last() =~= s.drop_last().update(i, v));
    }
}

/// Where no element of `a` exceeds the element of `b` in its place, the sum
/// of `a` does not exceed the sum of `b`; and where the sums are equal, so
/// are the sequences.
pub proof fn lemma_total_monotone(a: Seq<int>, b: Seq<int>)
    requires
        a.len() == b.len(),
        forall|i: int| 0 <= i < a.len() ==> a[i] <= b[i],
    ensures
        total(a) <= total(b),
        total(a) == total(b) ==> a == b,
    decreases a.len(),
{
    if a.len() > 0 {
        lemma_total_monotone(a.drop_last(), b.drop_last());
        if total(a) == total(b) {
            assert(a =~= a.drop_last().push(a.last()));
        }
    }
}

/// The sum of the element-wise sum of two sequences is the sum of their sums.
pub proof fn lemma_total_zip(a: Seq<int>, b: Seq<int>)
    requires
        a.len() == b.len(),
    ensures
        total(Seq::new(a.len(), |i: int| a[i] + b[i])) == total(a) + total(b),
    decreases a.len(),
{
    let z = Seq::new(a.len(), |i: int| a[i] + b[i]);
    if a.len() > 0 {
        let a0 = a.drop_last();
        let b0 = b.drop_last();
        lemma_total_zip(a0, b0);
        assert(z.drop_last() =~= Seq::new(a0.len(), |i: int| a0[i] + b0[i]));
    }
}

/// A sequence of zeros sums to zero.
pub proof fn lemma_total_zeros(s: Seq<int>)
    requires
        forall|i: int| 0 <= i < s.len() ==> s[i] == 0,
    ensures
        total(s) == 0,
    decreases s.len(),
{
    if s.len() > 0 {
        lemma_total_zeros(s.drop_last());
    }
}

/// Counting the ones of a matrix row by row gives what counting them column
/// by column gives: the row sums and the column sums have the same sum.
pub proof fn lemma_margins_agree(g: Seq<Seq<int>>)
    requires
        rectangular(g),
    ensures
        total(row_margin(g)) == total(column_margin(g)),
    decreases g.len(),
{
    if g.len() > 0 {
        let h = g.drop_last();
        let last = g.last();
        let n = width(g);
        // the column sums of the rows above the last, for each column of `g`
        let upper = Seq::new(n, |j: int| column_sum(h, j));
        assert forall|j: int| 0 <= j < n implies column_sum(g, j) == upper[j] + last[j] by {
            assert(column(g, j).drop_last() =~= column(h, j));
        }
        assert(column_margin(g) =~= Seq::new(n, |j: int| upper[j] + last[j]));
        lemma_total_zip(upper, last);
        assert(row_margin(g).drop_last() =~= row_margin(h));
        if h.len() == 0 {
            lemma_total_zeros(upper);
        } else {
            lemma_margins_agree(h);
        }
        assert(total(upper) == total(row_margin(h)));
    }
}

/// Tells whether every row of `matrix` is as long as its first and every cell
/// is 0 or 1.
pub fn is_binary_matrix(matrix: &Vec<Vec<i32>>) -> (ok: bool)
    ensures
        ok == (rectangular(grid(matrix@)) && is_binary(grid(matrix@))),
{
    let row_len: usize = matrix.len();
    if row_len == 0 {
        return true;
    }
    let col_len: usize = matrix[0].len();
    let ghost g = grid(matrix@);
    for i in 0..row_len
        invariant
            g == grid(matrix@),
            row_len == matrix@.len(),
            row_len > 0,
            col_len == width(g),
            forall|r: int| 0 <= r < i ==> (#[trigger] g[r]).len() == col_len,
            forall|r: int, c: int|
                0 <= r < i && 0 <= c < g[r].len() ==> 0 <= #[trigger] g[r][c] <= 1,
    {
        assert(g[i as int] == ints(matrix@[i as int]@));
        if matrix[i].len() != col_len {
            return false;
        }
        for j in 0..col_len
            invariant
                g == grid(matrix@),
                0 <= i < row_len,
                row_len == matrix@.len(),
                g[i as int].len() == col_len,
                g[i as int] == ints(matrix@[i as int]@),
                forall|c: int| 0 <= c < j ==> 0 <= #[trigger] g[i as int][c] <= 1,
        {
            if matrix[i][j] != 0 && matrix[i][j] != 1 {
                assert(!(0 <= g[i as int][j as int] <= 1));
                return false;
            }
        }
    }
    true
}

/// The row sums of a matrix: for each row, the sum of its cells.
pub fn get_row_sums(matrix: &Vec<Vec<i32>>) -> (sums: Vec<i32>)
    requires
        rectangular(grid(matrix@)),
        is_binary(grid(matrix@)),
        width(grid(matrix@)) <= i32::MAX,
    ensures
        ints(sums@) == row_margin(grid(matrix@)),
{
    let row_len: usize = matrix.len();
    let mut sums: Vec<i32> = Vec::new();
    if row_len == 0 {
        return sums;
    }
    let col_len: usize = matrix[0].len();
    let ghost g = grid(matrix@);
    for i in 0..row_len
        invariant
            g == grid(matrix@),
            row_len == matrix@.len(),
            col_len == width(g),
            has_shape(g, row_len as nat, col_len as nat),
            is_binary(g),
            col_len <= i32::MAX,
            sums@.len() == i,
            forall|r: int| 0 <= r < i ==> sums@[r] as int == row_sum(g, r),
    {
        let mut sum: i32 = 0;
        assert(g[i as int].len() == col_len);
        for j in 0..col_len
            invariant
                g == grid(matrix@),
                row_len == matrix@.len(),
                0 <= i < row_len,
                col_len == g[i as int].len(),
                matrix@[i as int]@.len() == col_len,
                is_binary(g),
                col_len <= i32::MAX,
                sum as int == total(g[i as int].take(j as int)),
                0 <= sum <= j,
        {
            proof {
                lemma_total_take_next(g[i as int], j as int);
            }
            sum = sum + matrix[i][j];
        }
        proof {
            assert(g[i as int].take(col_len as int) =~= g[i as int]);
        }
        sums.push(sum);
    }
    sums
}

/// The column sums of a matrix: for each column, the sum of its cells over
/// all rows. A matrix without rows has no columns.
pub fn get_column_sums(matrix: &Vec<Vec<i32>>) -> (sums: Vec<i32>)
    requires
        rectangular(grid(matrix@)),
        is_binary(grid(matrix@)),
        matrix@.len() <= i32::MAX,
    ensures
        ints(sums@) == column_margin(grid(matrix@)),
{
    let row_len: usize = matrix.len();
    let mut sums: Vec<i32> = Vec::new();
    if row_len == 0 {
        return sums;
    }
    let col_len: usize = matrix[0].len();
    let ghost g = grid(matrix@);
    for j in 0..col_len
        invariant
            g == grid(matrix@),
            row_len == matrix@.len(),
            col_len == width(g),
            has_shape(g, row_len as nat, col_len as nat),
            is_binary(g),
            row_len <= i32::MAX,
            sums@.len() == j,
            forall|c: int| 0 <= c < j ==> sums@[c] as int == column_sum(g, c),
    {
        let mut sum: i32 = 0;
        for i in 0..row_len
            invariant
                g == grid(matrix@),
                row_len == matrix@.len(),
                0 <= j < col_len,
                has_shape(g, row_len as nat, col_len as nat),
                is_binary(g),
                row_len <= i32::MAX,
                sum as int == total(column(g, j as int).take(i as int)),
                0 <= sum <= i,
        {
            proof {
                lemma_total_take_next(column(g, j as int), i as int);
            }
            sum = sum + matrix[i][j];
        }
        proof {
            assert(column(g, j as int).take(row_len as int) =~= column(g, j as int));
        }
        sums.push(sum);
    }
    sums
}

} // verus!
