//! Fluent construction of column specifications and transformers.
//!
//! This layer only assembles the data model: a column starts with a
//! name and target type, validators are pushed in declaration order,
//! and the invalid-data policy defaults to aborting the run.

use vstd::prelude::*;
use crate::schema::{ColSpec, ColType, OnInvalid};
use crate::transformer::CsvTransformer;
use crate::validator::Validator;

verus! {

/// Assembles one column specification.
#[derive(Debug)]
pub struct ColumnBuilder {
    pub name: String,
    pub dtype: ColType,
    pub validators: Vec<Validator>,
    pub on_invalid: OnInvalid,
}

impl ColumnBuilder {
    /// Starts a column with the given name and target type, no
    /// validators, and the abort policy.
    pub fn new(name: String, dtype: ColType) -> (r: ColumnBuilder)
        ensures
            r.name == name,
            r.dtype == dtype,
            r.validators@.len() == 0,
            r.on_invalid == OnInvalid::Error,
    {
        ColumnBuilder { name, dtype, validators: Vec::new(), on_invalid: OnInvalid::Error }
    }

    /// Switches the column to the drop policy: rows this column
    /// rejects are silently excluded.
    pub fn ignore_invalid_type(self) -> (r: ColumnBuilder)
        ensures
            r.name == self.name,
            r.dtype == self.dtype,
            r.validators == self.validators,
            r.on_invalid == OnInvalid::Ignore,
    {
        ColumnBuilder { on_invalid: OnInvalid::Ignore, ..self }
    }

    /// Switches the column to the repair policy: cells this column
    /// rejects are replaced by null and their rows kept.
    pub fn nullify_invalid(self) -> (r: ColumnBuilder)
        ensures
            r.name == self.name,
            r.dtype == self.dtype,
            r.validators == self.validators,
            r.on_invalid == OnInvalid::Nullify,
    {
        ColumnBuilder { on_invalid: OnInvalid::Nullify, ..self }
    }

    /// Appends a validator, preserving declaration order.
    pub fn with_validator(self, v: Validator) -> (r: ColumnBuilder)
        ensures
            r.name == self.name,
            r.dtype == self.dtype,
            r.validators@ == self.validators@.push(v),
            r.on_invalid == self.on_invalid,
    {
        let mut b = self;
        b.validators.push(v);
        b
    }

    /// Finishes the column specification.
    pub fn to_col_spec(self) -> (r: ColSpec)
        ensures
            r.name == self.name,
            r.dtype == self.dtype,
            r.validators == self.validators,
            r.on_invalid == self.on_invalid,
    {
        ColSpec {
            name: self.name,
            dtype: self.dtype,
            validators: self.validators,
            on_invalid: self.on_invalid,
        }
    }
}

/// Assembles a transformer from columns, in declaration order.
#[derive(Debug)]
pub struct CsvTransformerBuilder {
    pub columns: Vec<ColumnBuilder>,
}

impl CsvTransformerBuilder {
    /// Starts with no columns.
    pub fn new() -> (r: CsvTransformerBuilder)
        ensures
            r.columns@.len() == 0,
    {
        CsvTransformerBuilder { columns: Vec::new() }
    }

    /// Appends one column.
    pub fn add_column(self, col: ColumnBuilder) -> (r: CsvTransformerBuilder)
        ensures
            r.columns@ == self.columns@.push(col),
    {
        let mut b = self;
        b.columns.push(col);
        b
    }

    /// Finishes the transformer: each added column becomes one column
    /// specification, in order.
    pub fn build(self) -> (r: CsvTransformer)
        ensures
            r.cols@.len() == self.columns@.len(),
            forall|i: int|
                0 <= i < self.columns@.len() ==> (#[trigger] r.cols@[i]).name == self.columns@[
                    i].name && r.cols@[i].dtype == self.columns@[i].dtype && r.cols@[i].validators
                    == self.columns@[i].validators && r.cols@[i].on_invalid == self.columns@[
                    i].on_invalid,
    {
        let ghost orig = self.columns@;
        let mut rest = self.columns;
        let mut cols: Vec<ColSpec> = Vec::new();
        while rest.len() > 0
            invariant
                cols@.len() + rest@.len() == orig.len(),
                forall|i: int| 0 <= i < rest@.len() ==> #[trigger] rest@[i] == orig[cols@.len() + i],
                forall|i: int|
                    0 <= i < cols@.len() ==> (#[trigger] cols@[i]).name == orig[i].name && cols@[
                        i].dtype == orig[i].dtype && cols@[i].validators == orig[i].validators
                        && cols@[i].on_invalid == orig[i].on_invalid,
            decreases rest@.len(),
        {
            let cb = rest.remove(0);
            cols.push(cb.to_col_spec());
        }
        CsvTransformer { cols }
    }
}

} // verus!
