//! When a binary matrix with given margins exists.
use vstd::prelude::*;
use crate::construct::{has_negative, rejection};
use crate::deviation::{
    deviation, lemma_deviation_bounds, lemma_deviation_step, lemma_one_sided,
};
use crate::error::MarginError;
use crate::feasibility::{dominates, lemma_margins_pass, lemma_no_truncation, majorization_holds};
use crate::ferrers::{conjugate, ferrers, lemma_ferrers_shape};
use crate::margins::{
    column, column_margin, column_sum, has_shape, is_binary, lemma_margins_agree,
    lemma_total_monotone, lemma_total_of_bits, lemma_total_update, lemma_total_zeros, rectangular,
    row_margin, total, width,
};
use crate::switching::{can_swap, lemma_swap_margins, swapped};

verus! {

/// No element of `c` is smaller than a later one.
pub open spec fn non_increasing(c: Seq<int>) -> bool {
    forall|a: int, b: int| 0 <= a <= b < c.len() ==> c[a] >= c[b]
}

/// `g` is a binary matrix with the row sums `r` and the column sums `c`.
pub open spec fn realizes(g: Seq<Seq<int>>, r: Seq<int>, c: Seq<int>) -> bool {
    &&& has_shape(g, r.len(), c.len())
    &&& is_binary(g)
    &&& row_margin(g) == r
    &&& forall|j: int| 0 <= j < c.len() ==> column_sum(g, j) == c[j]
}

/// Some binary matrix has the row sums `r` and the column sums `c`.
pub open spec fn realizable(r: Seq<int>, c: Seq<int>) -> bool {
    exists|g: Seq<Seq<int>>| realizes(g, r, c)
}

/// The least index below `n` of which `holds` is true, where there is one.
pub proof fn lemma_least(holds: spec_fn(int) -> bool, n: int) -> (i: int)
    requires
        exists|j: int| 0 <= j < n && #[trigger] holds(j),
    ensures
        0 <= i < n,
        holds(i),
        forall|l: int| 0 <= l < i ==> !#[trigger] holds(l),
    decreases n,
{
    if exists|j: int| 0 <= j < n - 1 && #[trigger] holds(j) {
        lemma_least(holds, n - 1)
    } else {
        n - 1
    }
}

/// A column that holds more ones than another holds a one in some row in
/// which the other holds a zero.
pub proof fn lemma_fuller_column(g: Seq<Seq<int>>, from: int, to: int) -> (row: int)
    requires
        rectangular(g),
        is_binary(g),
        0 <= from < width(g),
        0 <= to < width(g),
        column_sum(g, from) > column_sum(g, to),
    ensures
        can_swap(g, row, from, to),
{
    if forall|i: int| 0 <= i < g.len() ==> !can_swap(g, i, from, to) {
        assert forall|i: int| 0 <= i < g.len() implies column(g, from)[i] <= column(g, to)[i] by {
            assert(!can_swap(g, i, from, to));
        }
        lemma_total_monotone(column(g, from), column(g, to));
    }
    choose|i: int| 0 <= i < g.len() && can_swap(g, i, from, to)
}

/// Moving one unit from the first place at which `current` differs from
/// `target` to the first place at which it is smaller keeps `current`
/// dominating `target`.
proof fn lemma_transfer_dominates(current: Seq<int>, target: Seq<int>, from: int, to: int)
    requires
        current.len() == target.len(),
        dominates(current, target, current.len() as int),
        0 <= from < to < current.len(),
        current[from] > target[from],
        forall|l: int| 0 <= l < to ==> current[l] >= target[l],
    ensures
        dominates(
            current.update(from, current[from] - 1).update(to, current[to] + 1),
            target,
            current.len() as int,
        ),
{
    let n = current.len() as int;
    let next = current.update(from, current[from] - 1).update(to, current[to] + 1);
    assert forall|p: int| 0 <= p <= n implies total(next.take(p)) >= total(target.take(p)) by {
        if p <= from {
            assert(next.take(p) =~= current.take(p));
        } else if p <= to {
            assert(next.take(p) =~= current.take(p).update(from, current[from] - 1));
            lemma_total_update(current.take(p), from, current[from] - 1);
            let raised = target.take(p).update(from, target[from] + 1);
            lemma_total_update(target.take(p), from, target[from] + 1);
            lemma_total_monotone(raised, current.take(p));
        } else {
            let mid = current.take(p).update(from, current[from] - 1);
            assert(next.take(p) =~= mid.update(to, current[to] + 1));
            lemma_total_update(current.take(p), from, current[from] - 1);
            lemma_total_update(mid, to, current[to] + 1);
        }
    }
}

/// A binary matrix whose column sums dominate a non-increasing sequence of
/// the same total can be turned, by moves of ones within rows, into one
/// whose column sums are that sequence.
proof fn lemma_steer(g: Seq<Seq<int>>, c: Seq<int>) -> (h: Seq<Seq<int>>)
    requires
        rectangular(g),
        is_binary(g),
        g.len() > 0,
        width(g) == c.len(),
        non_increasing(c),
        dominates(column_margin(g), c, c.len() as int),
        total(column_margin(g)) == total(c),
    ensures
        rectangular(h),
        is_binary(h),
        h.len() == g.len(),
        width(h) == width(g),
        row_margin(h) == row_margin(g),
        column_margin(h) == c,
    decreases deviation(column_margin(g), c),
{
    let cur = column_margin(g);
    let n = c.len() as int;
    if cur == c {
        return g;
    }
    // `from`: the first column whose sum is not its target; it is above it
    assert(exists|j: int| 0 <= j < n && cur[j] != c[j]) by {
        if forall|j: int| 0 <= j < n ==> cur[j] == c[j] {
            assert(cur =~= c);
        }
    }
    let differs = |j: int| cur[j] != c[j];
    let some_difference = choose|j: int| 0 <= j < n && cur[j] != c[j];
    assert(differs(some_difference));
    let from = lemma_least(differs, n);
    assert forall|l: int| 0 <= l < from implies cur[l] == c[l] by {
        assert(!differs(l));
    }
    assert(cur[from] > c[from]) by {
        assert(cur.take(from) =~= c.take(from));
        assert(cur.take(from + 1).drop_last() =~= cur.take(from));
        assert(c.take(from + 1).drop_last() =~= c.take(from));
    }
    // `to`: the first column below its target; it comes after `from`
    lemma_one_sided(cur, c);
    let falls_short = |j: int| cur[j] < c[j];
    let some_shortfall = choose|j: int| 0 <= j < n && cur[j] < c[j];
    assert(falls_short(some_shortfall));
    let to = lemma_least(falls_short, n);
    assert forall|l: int| 0 <= l < to implies cur[l] >= c[l] by {
        assert(!falls_short(l));
    }
    // column `from` holds more ones than column `to`, so one can move
    let row = lemma_fuller_column(g, from, to);
    let next = swapped(g, row, from, to);
    lemma_swap_margins(g, row, from, to);
    lemma_transfer_dominates(cur, c, from, to);
    lemma_total_update(cur, from, cur[from] - 1);
    lemma_total_update(cur.update(from, cur[from] - 1), to, cur[to] + 1);
    lemma_deviation_step(cur, c, from, to);
    lemma_deviation_bounds(column_margin(next), c);
    lemma_steer(next, c)
}

/// Without rows, column sums that pass the test, are in non-increasing order
/// and add up to 0 are all 0.
proof fn lemma_columns_of_nothing(r: Seq<int>, c: Seq<int>)
    requires
        r.len() == 0,
        non_increasing(c),
        total(c) == 0,
        majorization_holds(r, c),
    ensures
        forall|j: int| 0 <= j < c.len() ==> c[j] == 0,
{
    let n = c.len();
    if n > 0 {
        let conj = conjugate(r, n);
        assert(conj.take(1).drop_last() =~= Seq::<int>::empty());
        assert(c.take(1).drop_last() =~= Seq::<int>::empty());
        let zeros = Seq::new(n, |j: int| 0int);
        lemma_total_zeros(zeros);
        lemma_total_monotone(c, zeros);
    }
}

/// The margins of a binary matrix pass the domination test.
pub proof fn lemma_realizable_passes(r: Seq<int>, c: Seq<int>)
    requires
        realizable(r, c),
    ensures
        majorization_holds(r, c),
{
    let g = choose|g: Seq<Seq<int>>| realizes(g, r, c);
    let n = c.len();
    if r.len() > 0 {
        assert(column_margin(g) =~= c);
        lemma_margins_pass(g);
    } else {
        let conj = conjugate(r, n);
        assert forall|k: int| 0 <= k <= n implies total(conj.take(k)) >= total(c.take(k)) by {
            lemma_total_zeros(conj.take(k));
            lemma_total_zeros(c.take(k));
        }
    }
}

/// Where no row sum is negative, the column sums are in non-increasing order
/// and both add up to the same number, a binary matrix with these margins
/// exists exactly where the domination test passes.
pub proof fn lemma_domination_decides(r: Seq<int>, c: Seq<int>)
    requires
        forall|i: int| 0 <= i < r.len() ==> r[i] >= 0,
        non_increasing(c),
        total(r) == total(c),
    ensures
        majorization_holds(r, c) <==> realizable(r, c),
{
    let n = c.len();
    if majorization_holds(r, c) {
        if r.len() > 0 {
            let f = ferrers(r, n);
            lemma_ferrers_shape(r, n);
            lemma_no_truncation(r, c);
            lemma_margins_agree(f);
            let g = lemma_steer(f, c);
            assert(realizes(g, r, c));
        } else {
            let g = Seq::<Seq<int>>::empty();
            lemma_columns_of_nothing(r, c);
            assert(row_margin(g) =~= r);
            assert(realizes(g, r, c));
        }
    }
    if realizable(r, c) {
        lemma_realizable_passes(r, c);
    }
}

/// A binary matrix has no negative row sum and no negative column sum, and
/// its row sums add up to what its column sums add up to.
pub proof fn lemma_realizable_margins(r: Seq<int>, c: Seq<int>)
    requires
        realizable(r, c),
    ensures
        !has_negative(r),
        !has_negative(c),
        r.len() > 0 ==> total(r) == total(c),
{
    let g = choose|g: Seq<Seq<int>>| realizes(g, r, c);
    assert forall|i: int| 0 <= i < r.len() implies r[i] >= 0 by {
        assert forall|j: int| 0 <= j < g[i].len() implies 0 <= #[trigger] g[i][j] <= 1 by {}
        lemma_total_of_bits(g[i]);
    }
    assert forall|j: int| 0 <= j < c.len() implies c[j] >= 0 by {
        lemma_total_of_bits(column(g, j));
    }
    if r.len() > 0 {
        assert(column_margin(g) =~= c);
        lemma_margins_agree(g);
    }
}

/// Margins that are turned down for a negative sum, by the domination test
/// or for their totals are the margins of no binary matrix.
pub proof fn lemma_rejected_unrealizable(r: Seq<int>, c: Seq<int>)
    requires
        rejection(r, c) is Some,
        rejection(r, c) != Some(MarginError::EmptyMargins),
        rejection(r, c) != Some(MarginError::MarginsTooLong),
    ensures
        !realizable(r, c),
{
    if realizable(r, c) {
        lemma_realizable_margins(r, c);
        lemma_realizable_passes(r, c);
    }
}

/// Margins that pass every check and whose column sums are in
/// non-increasing order are the margins of some binary matrix.
pub proof fn lemma_accepted_realizable(r: Seq<int>, c: Seq<int>)
    requires
        rejection(r, c) is None,
        non_increasing(c),
    ensures
        realizable(r, c),
{
    lemma_domination_decides(r, c);
}

} // verus!
