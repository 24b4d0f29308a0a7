use gale_ryser::construct::{
    adjust_columns, check_margins, find_negative, generate_matrix_for, same_sums, sum_of,
    Adjustment,
};
use gale_ryser::error::{ColumnSum, MarginError};
use gale_ryser::feasibility::is_matrix_possible;
use gale_ryser::ferrers::ferrers_matrix;
use gale_ryser::margins::{get_column_sums, get_row_sums};

fn is_binary(matrix: &Vec<Vec<i32>>) -> bool {
    matrix.iter().all(|row| row.iter().all(|&cell| cell == 0 || cell == 1))
}

fn has_margins(matrix: &Vec<Vec<i32>>, rows: &Vec<i32>, columns: &Vec<i32>) -> bool {
    matrix.len() == rows.len()
        && matrix.iter().all(|row| row.len() == columns.len())
        && is_binary(matrix)
        && get_row_sums(matrix) == *rows
        && get_column_sums(matrix) == *columns
}

fn sequences(len: usize, max: i32) -> Vec<Vec<i32>> {
    let mut all: Vec<Vec<i32>> = vec![Vec::new()];
    for _ in 0..len {
        let mut longer = Vec::new();
        for s in &all {
            for v in 0..=max {
                let mut t = s.clone();
                t.push(v);
                longer.push(t);
            }
        }
        all = longer;
    }
    all
}

fn deviation(current: &Vec<i32>, target: &Vec<i32>) -> u64 {
    let mut sum = 0u64;
    for j in 0..current.len() {
        if current[j] > target[j] {
            sum += (current[j] - target[j]) as u64;
        }
    }
    sum
}

#[test]
fn two_rows_and_three_columns() {
    let rows = vec![2, 1];
    let columns = vec![1, 1, 1];
    assert!(is_matrix_possible(&rows, &columns));
    let matrix = generate_matrix_for(&rows, &columns).unwrap();
    assert!(has_margins(&matrix, &rows, &columns));
    assert!(
        matrix == vec![vec![1, 1, 0], vec![0, 0, 1]]
            || matrix == vec![vec![0, 1, 1], vec![1, 0, 0]]
    );
    let accepted = vec![vec![1, 1, 0], vec![0, 0, 1]];
    assert_eq!(get_row_sums(&accepted), vec![2, 1]);
    assert_eq!(get_column_sums(&accepted), vec![1, 1, 1]);
}

#[test]
fn full_two_by_two() {
    let rows = vec![2, 2];
    let columns = vec![2, 2];
    assert!(is_matrix_possible(&rows, &columns));
    assert_eq!(
        generate_matrix_for(&rows, &columns),
        Ok(vec![vec![1, 1], vec![1, 1]])
    );
}

#[test]
fn totals_that_differ_are_turned_down() {
    assert_eq!(
        generate_matrix_for(&vec![3], &vec![1, 1]),
        Err(MarginError::TotalSumMismatch {
            row_total: 3,
            column_total: 2
        })
    );
    assert_eq!(
        generate_matrix_for(&vec![1, 1], &vec![1, 0]),
        Err(MarginError::TotalSumMismatch {
            row_total: 2,
            column_total: 1
        })
    );
}

#[test]
fn repeated_calls_all_meet_the_margins() {
    let rows = vec![2, 1];
    let columns = vec![1, 1, 1];
    let mut first = false;
    let mut second = false;
    for _ in 0..1000 {
        let matrix = generate_matrix_for(&rows, &columns).unwrap();
        assert!(has_margins(&matrix, &rows, &columns));
        if matrix == vec![vec![1, 1, 0], vec![0, 0, 1]] {
            first = true;
        }
        if matrix == vec![vec![0, 1, 1], vec![1, 0, 0]] {
            second = true;
        }
    }
    assert!(first && second);
}

#[test]
fn repeated_calls_on_larger_margins() {
    let rows = vec![4, 3, 3, 2, 1, 1];
    let columns = vec![3, 3, 3, 3, 2];
    let mut built = 0;
    for _ in 0..300 {
        match generate_matrix_for(&rows, &columns) {
            Ok(matrix) => {
                assert!(has_margins(&matrix, &rows, &columns));
                built += 1;
            }
            Err(e) => assert!(matches!(e, MarginError::NoSwapCandidateRow { .. })),
        }
    }
    assert!(built > 0);
}

#[test]
fn a_run_can_end_without_a_move() {
    let rows = vec![3, 3, 1, 1, 1];
    let columns = vec![4, 3, 1, 1];
    let mut built = 0;
    let mut ended = 0;
    for _ in 0..2000 {
        match generate_matrix_for(&rows, &columns) {
            Ok(matrix) => {
                assert!(has_margins(&matrix, &rows, &columns));
                built += 1;
            }
            Err(e) => {
                assert_eq!(
                    e,
                    MarginError::NoSwapCandidateRow {
                        excess: ColumnSum {
                            column: 2,
                            current: 2,
                            target: 1
                        },
                        deficient: ColumnSum {
                            column: 1,
                            current: 2,
                            target: 3
                        }
                    }
                );
                ended += 1;
            }
        }
    }
    assert!(built > 0);
    assert!(ended > 0);
}

#[test]
fn columns_that_no_matrix_has() {
    assert_eq!(
        generate_matrix_for(&vec![2, 0], &vec![0, 2]),
        Err(MarginError::NoSwapCandidateRow {
            excess: ColumnSum {
                column: 0,
                current: 1,
                target: 0
            },
            deficient: ColumnSum {
                column: 1,
                current: 1,
                target: 2
            }
        })
    );
}

#[test]
fn starting_matrix_that_already_fits_is_returned() {
    assert_eq!(
        generate_matrix_for(&vec![3, 1, 0], &vec![2, 1, 1]),
        Ok(vec![vec![1, 1, 1], vec![1, 0, 0], vec![0, 0, 0]])
    );
    assert_eq!(generate_matrix_for(&vec![0], &vec![0]), Ok(vec![vec![0]]));
    assert_eq!(generate_matrix_for(&vec![1], &vec![1]), Ok(vec![vec![1]]));
}

#[test]
fn empty_margins_are_turned_down() {
    assert_eq!(
        generate_matrix_for(&Vec::new(), &vec![0]),
        Err(MarginError::EmptyMargins)
    );
    assert_eq!(
        generate_matrix_for(&vec![0], &Vec::new()),
        Err(MarginError::EmptyMargins)
    );
    assert_eq!(
        generate_matrix_for(&Vec::new(), &Vec::new()),
        Err(MarginError::EmptyMargins)
    );
}

#[test]
fn negative_margins_are_turned_down() {
    assert_eq!(
        generate_matrix_for(&vec![1, -1, -2], &vec![0, -1]),
        Err(MarginError::NegativeRowSum { row: 1 })
    );
    assert_eq!(
        generate_matrix_for(&vec![0, 0], &vec![1, 0, -1, -1]),
        Err(MarginError::NegativeColumnSum { column: 2 })
    );
}

#[test]
fn margins_that_fail_the_test_are_turned_down() {
    assert_eq!(
        generate_matrix_for(&vec![2, 0], &vec![2, 0]),
        Err(MarginError::InfeasibleMargins)
    );
    assert_eq!(
        generate_matrix_for(&vec![1], &vec![2]),
        Err(MarginError::InfeasibleMargins)
    );
    assert_eq!(
        generate_matrix_for(&vec![2, 1], &vec![2, 2]),
        Err(MarginError::InfeasibleMargins)
    );
}

#[test]
fn checks_follow_their_order() {
    assert_eq!(check_margins(&vec![2, 1], &vec![1, 1, 1]), Ok(()));
    assert_eq!(
        check_margins(&Vec::new(), &vec![-1]),
        Err(MarginError::EmptyMargins)
    );
    assert_eq!(
        check_margins(&vec![-1], &vec![-1]),
        Err(MarginError::NegativeRowSum { row: 0 })
    );
    assert_eq!(
        check_margins(&vec![5], &vec![7, -1]),
        Err(MarginError::NegativeColumnSum { column: 1 })
    );
    assert_eq!(
        check_margins(&vec![1], &vec![2]),
        Err(MarginError::InfeasibleMargins)
    );
    assert_eq!(
        check_margins(&vec![2], &vec![1]),
        Err(MarginError::TotalSumMismatch {
            row_total: 2,
            column_total: 1
        })
    );
    assert_eq!(check_margins(&vec![2, 0], &vec![0, 2]), Ok(()));
}

#[test]
fn first_negative_number_is_found() {
    assert_eq!(find_negative(&vec![0, 3, -1, -7]), Some(2));
    assert_eq!(find_negative(&vec![-1]), Some(0));
    assert_eq!(find_negative(&vec![0, 1, 2]), None);
    assert_eq!(find_negative(&Vec::new()), None);
}

#[test]
fn sums_and_comparisons() {
    assert_eq!(sum_of(&vec![3, 3, 1, 1, 1]), 9);
    assert_eq!(sum_of(&vec![i32::MAX, i32::MAX, 1]), 4294967295);
    assert_eq!(sum_of(&vec![i32::MIN, -1]), -2147483649);
    assert_eq!(sum_of(&Vec::new()), 0);
    assert!(same_sums(&vec![1, 2], &vec![1, 2]));
    assert!(!same_sums(&vec![1, 2], &vec![2, 1]));
    assert!(!same_sums(&vec![1, 2], &vec![1, 2, 0]));
    assert!(same_sums(&Vec::new(), &Vec::new()));
}

#[test]
fn number_of_moves_is_the_deviation_removed() {
    let rows = vec![2, 1];
    let target = vec![1, 1, 1];
    let mut matrix = ferrers_matrix(&rows, 3);
    assert_eq!(deviation(&get_column_sums(&matrix), &target), 1);
    let done = adjust_columns(&mut matrix, &target);
    assert_eq!(
        done,
        Adjustment {
            swaps: 1,
            failure: None
        }
    );
    assert!(has_margins(&matrix, &rows, &target));
}

#[test]
fn number_of_moves_never_exceeds_the_first_deviation() {
    let rows = vec![3, 3, 1, 1, 1];
    let target = vec![4, 3, 1, 1];
    for _ in 0..500 {
        let mut matrix = ferrers_matrix(&rows, 4);
        let start = deviation(&get_column_sums(&matrix), &target);
        assert_eq!(start, 2);
        let done = adjust_columns(&mut matrix, &target);
        let end = deviation(&get_column_sums(&matrix), &target);
        assert_eq!(done.swaps + end, start);
        assert!(done.swaps <= start);
        assert_eq!(get_row_sums(&matrix), rows);
        assert!(is_binary(&matrix));
        match done.failure {
            None => assert_eq!(done.swaps, 2),
            Some(e) => {
                assert_eq!(done.swaps, 1);
                assert_eq!(
                    e,
                    MarginError::NoSwapCandidateRow {
                        excess: ColumnSum {
                            column: 2,
                            current: 2,
                            target: 1
                        },
                        deficient: ColumnSum {
                            column: 1,
                            current: 2,
                            target: 3
                        }
                    }
                );
            }
        }
    }
}

#[test]
fn adjustment_of_a_matrix_that_fits_changes_nothing() {
    let mut matrix = vec![vec![0, 1, 1], vec![1, 0, 0]];
    let done = adjust_columns(&mut matrix, &vec![1, 1, 1]);
    assert_eq!(
        done,
        Adjustment {
            swaps: 0,
            failure: None
        }
    );
    assert_eq!(matrix, vec![vec![0, 1, 1], vec![1, 0, 0]]);
}

#[test]
fn adjustment_towards_sums_of_another_total() {
    let mut matrix = vec![vec![1, 0], vec![1, 0]];
    let done = adjust_columns(&mut matrix, &vec![1, 2]);
    assert_eq!(done.swaps, 1);
    assert_eq!(
        done.failure,
        Some(MarginError::NoExcessColumnFound {
            deficient: ColumnSum {
                column: 1,
                current: 1,
                target: 2
            }
        })
    );
    assert_eq!(get_column_sums(&matrix), vec![1, 1]);

    let mut matrix = vec![vec![1, 0], vec![1, 0]];
    let done = adjust_columns(&mut matrix, &vec![0, 1]);
    assert_eq!(done.swaps, 1);
    assert_eq!(
        done.failure,
        Some(MarginError::NoDeficientColumnFound {
            excess: ColumnSum {
                column: 0,
                current: 1,
                target: 0
            }
        })
    );
    assert_eq!(get_column_sums(&matrix), vec![1, 1]);
}

#[test]
fn every_outcome_on_small_margins_is_as_the_checks_say() {
    for rows in 1..=3usize {
        for cols in 1..=3usize {
            for r in sequences(rows, cols as i32 + 1) {
                for c in sequences(cols, rows as i32 + 1) {
                    let checked = check_margins(&r, &c);
                    match generate_matrix_for(&r, &c) {
                        Ok(matrix) => {
                            assert_eq!(checked, Ok(()));
                            assert!(has_margins(&matrix, &r, &c), "{:?} {:?}", r, c);
                        }
                        Err(e) => match checked {
                            Err(why) => assert_eq!(e, why),
                            Ok(()) => {
                                assert!(matches!(e, MarginError::NoSwapCandidateRow { .. }))
                            }
                        },
                    }
                }
            }
        }
    }
}

#[test]
fn errors_describe_themselves() {
    assert_eq!(
        MarginError::InfeasibleMargins.message(),
        "Matrix failed majorization check."
    );
    let some = ColumnSum {
        column: 0,
        current: 1,
        target: 2,
    };
    assert_eq!(
        MarginError::NoExcessColumnFound { deficient: some }.message(),
        "Could not find any columns with excess sum."
    );
    assert_eq!(
        MarginError::NoDeficientColumnFound { excess: some }.message(),
        "Could not find any columns with deficient sum."
    );
    assert_eq!(
        MarginError::NoSwapCandidateRow {
            excess: some,
            deficient: some
        }
        .message(),
        "No possible row switchings."
    );
    assert_eq!(
        MarginError::TotalSumMismatch {
            row_total: 3,
            column_total: 2
        }
        .message(),
        "Row sums and column sums have different totals."
    );
    assert_eq!(
        MarginError::EmptyMargins.message(),
        "No row sums or no column sums were given."
    );
    assert_eq!(
        MarginError::MarginsTooLong.message(),
        "Too many row sums or column sums were given."
    );
    assert_eq!(
        MarginError::NegativeRowSum { row: 0 }.message(),
        "A row sum is negative."
    );
    assert_eq!(
        MarginError::NegativeColumnSum { column: 0 }.message(),
        "A column sum is negative."
    );
}
