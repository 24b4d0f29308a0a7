use gale_ryser::deviation::{deficient_columns, excess_columns};
use gale_ryser::error::{ColumnSum, MarginError};
use gale_ryser::margins::{get_column_sums, get_row_sums};
use gale_ryser::switching::{
    apply_swap, first_swappable_pair, resolve_pair, swap_candidate_rows, switch_once, Swap,
};

fn staircase() -> Vec<Vec<i32>> {
    vec![
        vec![1, 1, 1, 0],
        vec![1, 1, 1, 0],
        vec![1, 0, 0, 0],
        vec![1, 0, 0, 0],
        vec![1, 0, 0, 0],
    ]
}

#[test]
fn excess_and_deficient_columns_are_listed_in_order() {
    let current = vec![5, 2, 2, 0];
    let target = vec![4, 3, 1, 1];
    assert_eq!(excess_columns(&current, &target), vec![0, 2]);
    assert_eq!(deficient_columns(&current, &target), vec![1, 3]);
}

#[test]
fn equal_sums_have_no_excess_and_no_deficient_column() {
    let sums = vec![1, 1, 1];
    assert_eq!(excess_columns(&sums, &sums), Vec::<usize>::new());
    assert_eq!(deficient_columns(&sums, &sums), Vec::<usize>::new());
    assert_eq!(excess_columns(&Vec::new(), &Vec::new()), Vec::<usize>::new());
}

#[test]
fn candidate_rows_hold_a_one_to_move() {
    let matrix = staircase();
    assert_eq!(swap_candidate_rows(&matrix, 0, 3), vec![0, 1, 2, 3, 4]);
    assert_eq!(swap_candidate_rows(&matrix, 0, 1), vec![2, 3, 4]);
    assert_eq!(swap_candidate_rows(&matrix, 2, 3), vec![0, 1]);
    assert_eq!(swap_candidate_rows(&matrix, 2, 1), Vec::<usize>::new());
    assert_eq!(swap_candidate_rows(&matrix, 3, 0), Vec::<usize>::new());
    assert_eq!(swap_candidate_rows(&matrix, 1, 1), Vec::<usize>::new());
}

#[test]
fn swap_moves_one_cell_and_keeps_row_sums() {
    let mut matrix = staircase();
    apply_swap(&mut matrix, 2, 0, 3);
    assert_eq!(
        matrix,
        vec![
            vec![1, 1, 1, 0],
            vec![1, 1, 1, 0],
            vec![0, 0, 0, 1],
            vec![1, 0, 0, 0],
            vec![1, 0, 0, 0],
        ]
    );
    assert_eq!(get_row_sums(&matrix), vec![3, 3, 1, 1, 1]);
    assert_eq!(get_column_sums(&matrix), vec![4, 2, 2, 1]);
}

#[test]
fn first_pair_is_the_leading_one_that_allows_a_move() {
    let matrix = staircase();
    assert_eq!(
        first_swappable_pair(&matrix, &vec![0, 2], &vec![1, 3]),
        Some((0, 1))
    );
    assert_eq!(
        first_swappable_pair(&matrix, &vec![2], &vec![1, 3]),
        Some((2, 3))
    );
    assert_eq!(first_swappable_pair(&matrix, &vec![1, 2], &vec![0]), None);
    assert_eq!(first_swappable_pair(&matrix, &vec![], &vec![1]), None);
    assert_eq!(first_swappable_pair(&matrix, &vec![0], &vec![]), None);
}

#[test]
fn picked_pair_stands_where_it_allows_a_move() {
    let matrix = staircase();
    assert_eq!(
        resolve_pair(&matrix, &vec![0, 2], &vec![1, 3], 2, 3),
        Some((2, 3))
    );
    assert_eq!(
        resolve_pair(&matrix, &vec![0, 2], &vec![1, 3], 0, 3),
        Some((0, 3))
    );
}

#[test]
fn picked_pair_gives_way_where_it_allows_no_move() {
    let matrix = staircase();
    assert_eq!(
        resolve_pair(&matrix, &vec![0, 2], &vec![1, 3], 2, 1),
        Some((0, 1))
    );
}

#[test]
fn no_pair_allows_a_move() {
    let mut matrix = staircase();
    matrix[2] = vec![0, 0, 0, 1];
    assert_eq!(resolve_pair(&matrix, &vec![2], &vec![1], 2, 1), None);
}

#[test]
fn one_step_moves_a_one_towards_the_targets() {
    for _ in 0..200 {
        let mut matrix = staircase();
        let current = get_column_sums(&matrix);
        let target = vec![4, 3, 1, 1];
        let before = matrix.clone();
        let swap: Swap = switch_once(&mut matrix, &current, &target).unwrap();
        assert!(swap.from == 0 || swap.from == 2);
        assert!(swap.to == 1 || swap.to == 3);
        assert_eq!(before[swap.row][swap.from], 1);
        assert_eq!(before[swap.row][swap.to], 0);
        let mut expected = before.clone();
        expected[swap.row][swap.from] = 0;
        expected[swap.row][swap.to] = 1;
        assert_eq!(matrix, expected);
        assert_eq!(get_row_sums(&matrix), vec![3, 3, 1, 1, 1]);
        let mut sums = current.clone();
        sums[swap.from] -= 1;
        sums[swap.to] += 1;
        assert_eq!(get_column_sums(&matrix), sums);
    }
}

#[test]
fn one_step_fails_without_an_excess_column() {
    let mut matrix = vec![vec![1, 0], vec![0, 0]];
    let current = vec![1, 0];
    assert_eq!(
        switch_once(&mut matrix, &current, &vec![1, 1]),
        Err(MarginError::NoExcessColumnFound {
            deficient: ColumnSum {
                column: 1,
                current: 0,
                target: 1
            }
        })
    );
    assert_eq!(
        switch_once(&mut matrix, &current, &vec![3, 2]),
        Err(MarginError::NoExcessColumnFound {
            deficient: ColumnSum {
                column: 0,
                current: 1,
                target: 3
            }
        })
    );
    assert_eq!(matrix, vec![vec![1, 0], vec![0, 0]]);
}

#[test]
fn one_step_fails_without_a_deficient_column() {
    let mut matrix = vec![vec![1, 0], vec![0, 0]];
    let current = vec![1, 0];
    assert_eq!(
        switch_once(&mut matrix, &current, &vec![0, 0]),
        Err(MarginError::NoDeficientColumnFound {
            excess: ColumnSum {
                column: 0,
                current: 1,
                target: 0
            }
        })
    );
    assert_eq!(matrix, vec![vec![1, 0], vec![0, 0]]);
}

#[test]
fn one_step_fails_where_no_one_can_move() {
    let mut matrix = vec![vec![1, 1], vec![0, 0]];
    let current = vec![1, 1];
    assert_eq!(
        switch_once(&mut matrix, &current, &vec![0, 2]),
        Err(MarginError::NoSwapCandidateRow {
            excess: ColumnSum {
                column: 0,
                current: 1,
                target: 0
            },
            deficient: ColumnSum {
                column: 1,
                current: 1,
                target: 2
            }
        })
    );
    assert_eq!(matrix, vec![vec![1, 1], vec![0, 0]]);
}
