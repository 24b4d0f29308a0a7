use gale_ryser::ferrers::ferrers_matrix;
use gale_ryser::margins::{get_column_sums, get_row_sums, is_binary_matrix};

#[test]
fn row_sums_of_a_small_matrix() {
    let matrix = vec![vec![1, 1, 0], vec![0, 0, 1]];
    assert_eq!(get_row_sums(&matrix), vec![2, 1]);
}

#[test]
fn column_sums_of_a_small_matrix() {
    let matrix = vec![vec![1, 1, 0], vec![0, 0, 1]];
    assert_eq!(get_column_sums(&matrix), vec![1, 1, 1]);
}

#[test]
fn margins_of_a_full_matrix() {
    let matrix = vec![vec![1, 1], vec![1, 1]];
    assert_eq!(get_row_sums(&matrix), vec![2, 2]);
    assert_eq!(get_column_sums(&matrix), vec![2, 2]);
}

#[test]
fn margins_of_a_zero_matrix() {
    let matrix = vec![vec![0, 0, 0, 0], vec![0, 0, 0, 0], vec![0, 0, 0, 0]];
    assert_eq!(get_row_sums(&matrix), vec![0, 0, 0]);
    assert_eq!(get_column_sums(&matrix), vec![0, 0, 0, 0]);
}

#[test]
fn margins_of_a_matrix_without_rows() {
    let matrix: Vec<Vec<i32>> = Vec::new();
    assert_eq!(get_row_sums(&matrix), Vec::<i32>::new());
    assert_eq!(get_column_sums(&matrix), Vec::<i32>::new());
}

#[test]
fn margins_of_a_matrix_without_columns() {
    let matrix: Vec<Vec<i32>> = vec![Vec::new(), Vec::new()];
    assert_eq!(get_row_sums(&matrix), vec![0, 0]);
    assert_eq!(get_column_sums(&matrix), Vec::<i32>::new());
}

#[test]
fn margins_of_a_single_cell() {
    assert_eq!(get_row_sums(&vec![vec![1]]), vec![1]);
    assert_eq!(get_column_sums(&vec![vec![1]]), vec![1]);
    assert_eq!(get_row_sums(&vec![vec![0]]), vec![0]);
    assert_eq!(get_column_sums(&vec![vec![0]]), vec![0]);
}

#[test]
fn both_margins_have_the_same_total() {
    let matrix = vec![vec![1, 0, 1, 1], vec![0, 0, 1, 0], vec![1, 1, 1, 1]];
    let rows: i32 = get_row_sums(&matrix).iter().sum();
    let columns: i32 = get_column_sums(&matrix).iter().sum();
    assert_eq!(rows, 8);
    assert_eq!(columns, 8);
}

#[test]
fn left_packed_matrix_of_row_sums() {
    assert_eq!(
        ferrers_matrix(&vec![2, 1], 3),
        vec![vec![1, 1, 0], vec![1, 0, 0]]
    );
    assert_eq!(
        ferrers_matrix(&vec![3, 3, 1, 1, 1], 4),
        vec![
            vec![1, 1, 1, 0],
            vec![1, 1, 1, 0],
            vec![1, 0, 0, 0],
            vec![1, 0, 0, 0],
            vec![1, 0, 0, 0]
        ]
    );
}

#[test]
fn left_packed_matrix_clips_row_sums() {
    assert_eq!(ferrers_matrix(&vec![3], 2), vec![vec![1, 1]]);
    assert_eq!(ferrers_matrix(&vec![-1, 0], 2), vec![vec![0, 0], vec![0, 0]]);
    assert_eq!(ferrers_matrix(&vec![1, 2], 0), vec![Vec::<i32>::new(), Vec::new()]);
    assert_eq!(ferrers_matrix(&Vec::new(), 3), Vec::<Vec<i32>>::new());
}

#[test]
fn left_packed_matrix_has_the_conjugate_as_column_sums() {
    let matrix = ferrers_matrix(&vec![3, 3, 1, 1, 1], 4);
    assert_eq!(get_column_sums(&matrix), vec![5, 2, 2, 0]);
    assert_eq!(get_row_sums(&matrix), vec![3, 3, 1, 1, 1]);
}

#[test]
fn binary_matrices_are_told_from_others() {
    assert!(is_binary_matrix(&vec![vec![1, 1, 0], vec![0, 0, 1]]));
    assert!(is_binary_matrix(&Vec::new()));
    assert!(is_binary_matrix(&vec![Vec::new(), Vec::new()]));
    assert!(!is_binary_matrix(&vec![vec![1, 1, 0], vec![0, 1]]));
    assert!(!is_binary_matrix(&vec![vec![1], vec![0, 1]]));
    assert!(!is_binary_matrix(&vec![vec![1, 2], vec![0, 1]]));
    assert!(!is_binary_matrix(&vec![vec![1, 0], vec![0, -1]]));
}
