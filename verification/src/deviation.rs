//! How far column sums are from their targets, and in which columns.
use vstd::prelude::*;
use crate::margins::{ints, lemma_total_monotone, lemma_total_update, lemma_total_zeros, total};

verus! {

/// Column `j` holds more ones than its target asks for.
pub open spec fn is_excess(current: Seq<int>, target: Seq<int>, j: int) -> bool {
    0 <= j < current.len() && j < target.len() && current[j] > target[j]
}

/// Column `j` holds fewer ones than its target asks for.
pub open spec fn is_deficient(current: Seq<int>, target: Seq<int>, j: int) -> bool {
    0 <= j < current.len() && j < target.len() && current[j] < target[j]
}

/// Column `j` is the first that holds more ones than its target asks for.
pub open spec fn is_first_excess(current: Seq<int>, target: Seq<int>, j: int) -> bool {
    is_excess(current, target, j) && forall|l: int| 0 <= l < j ==> !is_excess(current, target, l)
}

/// Column `j` is the first that holds fewer ones than its target asks for.
pub open spec fn is_first_deficient(current: Seq<int>, target: Seq<int>, j: int) -> bool {
    is_deficient(current, target, j) && forall|l: int|
        0 <= l < j ==> !is_deficient(current, target, l)
}

/// Each element of `list` is smaller than the next.
pub open spec fn ascending(list: Seq<usize>) -> bool {
    forall|a: int, b: int| 0 <= a < b < list.len() ==> list[a] < list[b]
}

/// `list` holds, in ascending order, exactly the indices of which `holds` is
/// true.
pub open spec fn enumerates(list: Seq<usize>, holds: spec_fn(int) -> bool) -> bool {
    &&& ascending(list)
    &&& forall|k: int| 0 <= k < list.len() ==> holds(#[trigger] list[k] as int)
    &&& forall|j: usize| holds(j as int) ==> #[trigger] list.contains(j)
}

/// By how much each column exceeds its target; 0 for a column that does not.
pub open spec fn surplus(current: Seq<int>, target: Seq<int>) -> Seq<int> {
    Seq::new(
        current.len(),
        |j: int| if current[j] > target[j] { current[j] - target[j] } else { 0 },
    )
}

/// The total deviation: the sum over all columns of what each holds above
/// its target.
pub open spec fn deviation(current: Seq<int>, target: Seq<int>) -> int {
    total(surplus(current, target))
}

/// The total deviation is never negative, and it is 0 where the column sums
/// are their targets.
pub proof fn lemma_deviation_bounds(current: Seq<int>, target: Seq<int>)
    ensures
        deviation(current, target) >= 0,
        current == target ==> deviation(current, target) == 0,
{
    let s = surplus(current, target);
    let zeros = Seq::new(current.len(), |j: int| 0int);
    lemma_total_zeros(zeros);
    lemma_total_monotone(zeros, s);
    if current == target {
        lemma_total_zeros(s);
    }
}

/// Where every surplus is at most `bound`, the total deviation is at most
/// `bound` times the number of columns.
pub proof fn lemma_deviation_limit(current: Seq<int>, target: Seq<int>, bound: int)
    requires
        forall|j: int| 0 <= j < current.len() ==> current[j] - target[j] <= bound,
        bound >= 0,
    ensures
        deviation(current, target) <= current.len() * bound,
    decreases current.len(),
{
    let s = surplus(current, target);
    if current.len() > 0 {
        let c0 = current.drop_last();
        lemma_deviation_limit(c0, target, bound);
        assert(s.drop_last() =~= surplus(c0, target));
        assert(current.len() * bound == c0.len() * bound + bound) by (nonlinear_arith)
            requires
                current.len() == c0.len() + 1,
        ;
    }
}

/// Taking a one from a column above its target and giving it to a column
/// below its target lowers the total deviation by exactly one.
pub proof fn lemma_deviation_step(current: Seq<int>, target: Seq<int>, from: int, to: int)
    requires
        current.len() == target.len(),
        is_excess(current, target, from),
        is_deficient(current, target, to),
    ensures
        deviation(current.update(from, current[from] - 1).update(to, current[to] + 1), target)
            == deviation(current, target) - 1,
{
    let next = current.update(from, current[from] - 1).update(to, current[to] + 1);
    let s = surplus(current, target);
    assert(surplus(next, target) =~= s.update(from, s[from] - 1));
    lemma_total_update(s, from, s[from] - 1);
}

/// Where the column sums differ from their targets and no column is above
/// its own, the column sums add up to less than the targets; where none is
/// below its own, to more.
pub proof fn lemma_one_sided(current: Seq<int>, target: Seq<int>)
    requires
        current.len() == target.len(),
        current != target,
    ensures
        (forall|j: int| !is_excess(current, target, j)) ==> total(current) < total(target),
        (forall|j: int| !is_deficient(current, target, j)) ==> total(current) > total(target),
{
    if forall|j: int| !is_excess(current, target, j) {
        assert forall|j: int| 0 <= j < current.len() implies current[j] <= target[j] by {
            assert(!is_excess(current, target, j));
        }
        lemma_total_monotone(current, target);
    }
    if forall|j: int| !is_deficient(current, target, j) {
        assert forall|j: int| 0 <= j < current.len() implies target[j] <= current[j] by {
            assert(!is_deficient(current, target, j));
        }
        lemma_total_monotone(target, current);
    }
}

/// The columns whose current sum is above its target, in ascending order.
pub fn excess_columns(current: &Vec<i32>, target: &Vec<i32>) -> (list: Vec<usize>)
    requires
        current@.len() == target@.len(),
    ensures
        enumerates(list@, |j: int| is_excess(ints(current@), ints(target@), j)),
{
    let col_len: usize = current.len();
    let mut list: Vec<usize> = Vec::new();
    for i in 0..col_len
        invariant
            col_len == current@.len(),
            col_len == target@.len(),
            ascending(list@),
            forall|k: int| 0 <= k < list@.len() ==> list@[k] < i,
            forall|k: int|
                0 <= k < list@.len() ==> is_excess(
                    ints(current@),
                    ints(target@),
                    #[trigger] list@[k] as int,
                ),
            forall|j: usize|
                j < i && is_excess(ints(current@), ints(target@), j as int)
                    ==> #[trigger] list@.contains(j),
    {
        if current[i] > target[i] {
            let ghost before = list@;
            list.push(i);
            assert(list@[before.len() as int] == i);
            assert forall|j: usize|
                j < i + 1 && is_excess(
                    ints(current@),
                    ints(target@),
                    j as int,
                ) implies #[trigger] list@.contains(j) by {
                if j < i {
                    assert(before.contains(j));
                    let k = choose|k: int| 0 <= k < before.len() && before[k] == j;
                    assert(list@[k] == j);
                }
            }
        }
    }
    list
}

/// The columns whose current sum is below its target, in ascending order.
pub fn deficient_columns(current: &Vec<i32>, target: &Vec<i32>) -> (list: Vec<usize>)
    requires
        current@.len() == target@.len(),
    ensures
        enumerates(list@, |j: int| is_deficient(ints(current@), ints(target@), j)),
{
    let col_len: usize = current.len();
    let mut list: Vec<usize> = Vec::new();
    for i in 0..col_len
        invariant
            col_len == current@.len(),
            col_len == target@.len(),
            ascending(list@),
            forall|k: int| 0 <= k < list@.len() ==> list@[k] < i,
            forall|k: int|
                0 <= k < list@.len() ==> is_deficient(
                    ints(current@),
                    ints(target@),
                    #[trigger] list@[k] as int,
                ),
            forall|j: usize|
                j < i && is_deficient(ints(current@), ints(target@), j as int)
                    ==> #[trigger] list@.contains(j),
    {
        if current[i] < target[i] {
            let ghost before = list@;
            list.push(i);
            assert(list@[before.len() as int] == i);
            assert forall|j: usize|
                j < i + 1 && is_deficient(
                    ints(current@),
                    ints(target@),
                    j as int,
                ) implies #[trigger] list@.contains(j) by {
                if j < i {
                    assert(before.contains(j));
                    let k = choose|k: int| 0 <= k < before.len() && before[k] == j;
                    assert(list@[k] == j);
                }
            }
        }
    }
    list
}

} // verus!
