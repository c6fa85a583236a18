//! Search and sort algorithms with machine-checked contracts: binary and
//! interpolation search, a bounded stack, a merge of two sorted sequences,
//! and a sorted-result wrapper produced by pluggable sorting solutions.

pub mod csort;
pub mod merge_two_sorted;
pub mod search;
pub mod sorted;
pub mod stable;
pub mod test_data;
pub mod test_utils;

pub use sorted::{ByCompare, ByKey, LessThan, Natural, Solution, Sorted};
pub use stable::Stable;
