//! Realization of bipartite degree sequences as binary matrices.
//!
//! Given a row-sum sequence and a column-sum sequence, the library decides by
//! a prefix-sum domination test whether a 0/1 matrix with these margins can
//! exist, and builds one by moving single ones between columns of a
//! left-packed starting matrix.
pub mod construct;
pub mod deviation;
pub mod error;
pub mod feasibility;
pub mod ferrers;
pub mod margins;
pub mod random;
pub mod realization;
pub mod switching;

pub use crate::construct::{adjust_columns, check_margins, generate_matrix_for, Adjustment};
pub use crate::error::{ColumnSum, MarginError};
pub use crate::feasibility::is_matrix_possible;
pub use crate::ferrers::ferrers_matrix;
pub use crate::margins::{get_column_sums, get_row_sums, is_binary_matrix};
pub use crate::switching::{apply_swap, switch_once, Swap};
