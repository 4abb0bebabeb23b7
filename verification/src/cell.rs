//! The dynamically typed cell value exchanged between the tabular engine
//! and the pipeline.
//!
//! Floating-point cells are carried as their IEEE-754 binary64 bit
//! patterns; the ordering predicates of `num_order` give them their
//! numeric meaning.

use vstd::prelude::*;

verus! {

/// Mathematical image of a [`CellValue`]: the same tagged union with the
/// text field abstracted to a sequence of characters.
pub enum CellV {
    Null,
    Bool(bool),
    Int(i64),
    Float(u64),
    Text(Seq<char>),
}

/// One row/column intersection's dynamically typed scalar, including null.
///
/// `Float` holds the IEEE-754 binary64 bit pattern of the value.
#[derive(Debug, Clone)]
pub enum CellValue {
    Null,
    Bool(bool),
    Int(i64),
    Float(u64),
    Text(String),
}

impl CellValue {
    /// The mathematical value of this cell.
    pub open spec fn v(&self) -> CellV {
        match self {
            CellValue::Null => CellV::Null,
            CellValue::Bool(b) => CellV::Bool(*b),
            CellValue::Int(i) => CellV::Int(*i),
            CellValue::Float(bits) => CellV::Float(*bits),
            CellValue::Text(s) => CellV::Text(s@),
        }
    }
}

} // verus!
