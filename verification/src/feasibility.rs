//! The prefix-sum domination test on a pair of margins.
use vstd::prelude::*;
use crate::ferrers::{
    clipped, conjugate, ferrers, ferrers_matrix, lemma_conjugate_prefix, lemma_conjugate_total,
    lemma_ferrers_rows, lemma_ferrers_shape,
};
use crate::margins::{
    column, column_margin, get_column_sums, ints, is_binary, lemma_margins_agree,
    lemma_total_monotone, lemma_total_of_bits, lemma_total_take_next, rectangular, row_margin,
    total,
};

verus! {

/// Every prefix of `a` sums to at least as much as the prefix of `b` of the
/// same length, for the prefix lengths up to `len`.
pub open spec fn dominates(a: Seq<int>, b: Seq<int>, len: int) -> bool {
    forall|k: int| 0 <= k <= len ==> total(a.take(k)) >= total(b.take(k))
}

/// The domination test on the row sums `r` and the column sums `c`: the
/// conjugate sequence of `r` dominates `c`.
pub open spec fn majorization_holds(r: Seq<int>, c: Seq<int>) -> bool {
    dominates(conjugate(r, c.len()), c, c.len() as int)
}

/// Where no row sum is negative, the test passes and the row sums add up to
/// what the column sums add up to, no row sum exceeds the number of columns:
/// the left-packed matrix has exactly the row sums `r`.
pub proof fn lemma_no_truncation(r: Seq<int>, c: Seq<int>)
    requires
        forall|i: int| 0 <= i < r.len() ==> r[i] >= 0,
        majorization_holds(r, c),
        total(r) == total(c),
    ensures
        forall|i: int| 0 <= i < r.len() ==> r[i] <= c.len(),
        row_margin(ferrers(r, c.len())) == r,
{
    let n = c.len();
    let conj = conjugate(r, n);
    assert(conj.take(n as int) =~= conj);
    assert(c.take(n as int) =~= c);
    lemma_conjugate_total(r, n);
    lemma_total_monotone(clipped(r, n), r);
    lemma_ferrers_rows(r, n);
}

/// The first `k` cells of each row of `g`.
pub open spec fn left_part(g: Seq<Seq<int>>, k: int) -> Seq<Seq<int>> {
    Seq::new(g.len(), |i: int| g[i].take(k))
}

/// A prefix of a sequence of zeros and ones sums to no more than the whole.
pub proof fn lemma_prefix_of_bits(s: Seq<int>, k: int)
    requires
        0 <= k <= s.len(),
        forall|i: int| 0 <= i < s.len() ==> 0 <= #[trigger] s[i] <= 1,
    ensures
        total(s.take(k)) <= total(s),
    decreases s.len() - k,
{
    if k < s.len() {
        lemma_total_take_next(s, k);
        lemma_prefix_of_bits(s, k + 1);
    } else {
        assert(s.take(k) =~= s);
    }
}

/// The margins of every binary matrix pass the domination test: where the
/// test fails, no binary matrix has the two sequences as its row sums and
/// its column sums.
pub proof fn lemma_margins_pass(g: Seq<Seq<int>>)
    requires
        rectangular(g),
        is_binary(g),
    ensures
        majorization_holds(row_margin(g), column_margin(g)),
{
    let r = row_margin(g);
    let c = column_margin(g);
    let n = c.len();
    let conj = conjugate(r, n);
    assert forall|k: int| 0 <= k <= n implies total(conj.take(k)) >= total(c.take(k)) by {
        lemma_conjugate_prefix(r, n, k as nat);
        lemma_conjugate_total(r, k as nat);
        let part = left_part(g, k);
        if g.len() > 0 {
            assert forall|j: int| 0 <= j < k implies c.take(k)[j] == column_margin(part)[j] by {
                assert(column(g, j) =~= column(part, j));
            }
            assert(c.take(k) =~= column_margin(part));
            lemma_margins_agree(part);
            assert forall|i: int| 0 <= i < g.len() implies row_margin(part)[i] <= clipped(
                r,
                k as nat,
            )[i] by {
                lemma_prefix_of_bits(g[i], k);
                lemma_total_of_bits(g[i].take(k));
                lemma_total_of_bits(g[i]);
            }
            lemma_total_monotone(row_margin(part), clipped(r, k as nat));
        }
    }
}

/// Decides whether the conjugate sequence of `row_sums` dominates
/// `column_sums`: whether, for every prefix length, the first columns of the
/// left-packed matrix of `row_sums` hold at least as many ones as
/// `column_sums` asks of them.
pub fn is_matrix_possible(row_sums: &Vec<i32>, column_sums: &Vec<i32>) -> (possible: bool)
    requires
        row_sums@.len() <= i32::MAX,
    ensures
        possible == majorization_holds(ints(row_sums@), ints(column_sums@)),
{
    let col_len: usize = column_sums.len();
    let ferrers_matrix = ferrers_matrix(row_sums, col_len);
    proof {
        lemma_ferrers_shape(ints(row_sums@), col_len as nat);
    }
    let conjugate_sums: Vec<i32> = get_column_sums(&ferrers_matrix);
    let conj_len: usize = conjugate_sums.len();
    let l: usize = if col_len >= conj_len { col_len } else { conj_len };
    let ghost conj = conjugate(ints(row_sums@), col_len as nat);
    let ghost c = ints(column_sums@);
    assert(ints(conjugate_sums@).len() == conj_len);
    let mut prefix_conj_sums: i128 = 0;
    let mut prefix_col_sums: i128 = 0;
    for i in 0..l
        invariant
            l == col_len,
            col_len == column_sums@.len(),
            conj_len == conjugate_sums@.len(),
            conj_len == col_len || conj_len == 0,
            conj == conjugate(ints(row_sums@), col_len as nat),
            c == ints(column_sums@),
            forall|j: int| 0 <= j < conj_len ==> conj[j] == conjugate_sums@[j] as int,
            forall|j: int| conj_len <= j < col_len ==> conj[j] == 0,
            prefix_conj_sums as int == total(conj.take(i as int)),
            prefix_col_sums as int == total(c.take(i as int)),
            -(i as int) * 0x8000_0000 <= prefix_conj_sums as int <= (i as int) * 0x8000_0000,
            -(i as int) * 0x8000_0000 <= prefix_col_sums as int <= (i as int) * 0x8000_0000,
            dominates(conj, c, i as int),
    {
        proof {
            lemma_total_take_next(conj, i as int);
            lemma_total_take_next(c, i as int);
        }
        if i < conj_len {
            prefix_conj_sums = prefix_conj_sums + conjugate_sums[i] as i128;
        }
        if i < col_len {
            prefix_col_sums = prefix_col_sums + column_sums[i] as i128;
        }
        if prefix_conj_sums < prefix_col_sums {
            return false;
        }
    }
    true
}

} // verus!
