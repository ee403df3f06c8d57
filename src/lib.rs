//! A gather (take) engine for columns split into chunks: given a column and
//! an index column, it builds the column whose row `k` is the row that index
//! `k` names, with nulls carried over from either side, a bounds check for
//! the checked entry points and the order hint of the result.
pub mod array;
pub mod binview;
pub mod bounds;
pub mod fixed;
pub mod gather;
pub mod laws;
pub mod list;
pub mod literal;
pub mod parquet;
pub mod resolve;
pub mod series;
pub mod sorted;
pub mod structs;
