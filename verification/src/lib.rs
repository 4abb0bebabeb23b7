//! Schema-driven validation and transformation of tabular data.
//!
//! A raw table of loosely typed cells is coerced column by column to a
//! declared target type, validated by per-column predicate lists, filtered
//! or repaired according to a per-column invalid-data policy, and finally
//! materialized as generic records ready for structural decoding.

pub mod builder;
pub mod cast;
pub mod cell;
pub mod classify;
pub mod errors;
pub mod laws;
pub mod num_order;
pub mod schema;
pub mod table;
pub mod transformer;
pub mod validator;

pub use builder::{ColumnBuilder, CsvTransformerBuilder};
pub use cell::CellValue;
pub use errors::CsvTransformerError;
pub use schema::{ColSpec, ColType, OnInvalid};
pub use table::Table;
pub use transformer::{CsvTransformer, Record};
pub use validator::Validator;
