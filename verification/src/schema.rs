//! Column specifications: the declarative contract for one extraction
//! run.

use vstd::prelude::*;
use crate::cell::{CellV, CellValue};
use crate::validator::{validator_accepts, Validator};

verus! {

/// Target type of one output column.
#[derive(Debug, Clone, Copy, PartialEq, Eq, Structural)]
pub enum ColType {
    Text,
    Integer,
    Float,
}

/// Per-column rule for handling a validation or coercion failure:
/// abort the whole run, drop the offending row, or null the offending
/// cell and keep the row.
#[derive(Debug, Clone, Copy, PartialEq, Eq, Structural)]
pub enum OnInvalid {
    Error,
    Ignore,
    Nullify,
}

/// Declares one output column: name, target type, ordered validator
/// list, and invalid-data policy. Immutable once built.
#[derive(Debug, Clone)]
pub struct ColSpec {
    pub name: String,
    pub dtype: ColType,
    pub validators: Vec<Validator>,
    pub on_invalid: OnInvalid,
}

/// Whether every validator of the list accepts the cell: validators
/// compose by logical AND.
pub open spec fn validators_accept(vs: Seq<Validator>, c: CellV) -> bool {
    forall|i: int| 0 <= i < vs.len() ==> validator_accepts(#[trigger] vs[i], c)
}

/// Whether every validator of `s` accepts the cell.
pub open spec fn spec_accepts(s: ColSpec, c: CellV) -> bool {
    validators_accept(s.validators@, c)
}

impl ColSpec {
    /// Checks the cell against every validator of this column.
    pub fn validate(&self, val: &CellValue) -> (r: bool)
        ensures
            r == spec_accepts(*self, val.v()),
    {
        let mut i: usize = 0;
        while i < self.validators.len()
            invariant
                i <= self.validators@.len(),
                forall|j: int|
                    0 <= j < i ==> validator_accepts(#[trigger] self.validators@[j], val.v()),
            decreases self.validators@.len() - i,
        {
            if !self.validators[i].ok(val) {
                return false;
            }
            i = i + 1;
        }
        true
    }
}

} // verus!
