//! The validator predicate set: pure, total predicates over one cell.

use vstd::prelude::*;
use crate::cell::{CellV, CellValue};
use crate::num_order::{f64_gt, f64_lt, int_gt_f64, int_lt_f64};
use crate::num_order::{f64_bits_gt, f64_bits_lt, i64_gt_f64_bits, i64_lt_f64_bits};

verus! {

/// A named, parameterized predicate over a single cell value.
///
/// Numeric thresholds are IEEE-754 binary64 bit patterns. A validator
/// applied to a cell whose runtime type it does not understand passes
/// (permissive default); only `NotNull` acts on every type.
#[derive(Debug, Clone)]
pub enum Validator {
    NotNull,
    NumGreaterThan(u64),
    NumLessThan(u64),
    TextStartsWith(String),
}

/// What a validator accepts: the exact predicate computed by
/// [`Validator::ok`].
pub open spec fn validator_accepts(v: Validator, c: CellV) -> bool {
    match v {
        Validator::NotNull => !(c matches CellV::Null),
        Validator::NumGreaterThan(t) => match c {
            CellV::Int(x) => int_gt_f64(x as int, t),
            CellV::Float(b) => f64_gt(b, t),
            _ => true,
        },
        Validator::NumLessThan(t) => match c {
            CellV::Int(x) => int_lt_f64(x as int, t),
            CellV::Float(b) => f64_lt(b, t),
            _ => true,
        },
        Validator::TextStartsWith(p) => match c {
            CellV::Text(s) => s.len() >= p@.len() && s.subrange(0, p@.len() as int) == p@,
            _ => true,
        },
    }
}

/// Whether the characters of `p` are a prefix of the characters of `s`.
fn text_starts_with(s: &str, p: &str) -> (r: bool)
    ensures
        r == (s@.len() >= p@.len() && s@.subrange(0, p@.len() as int) == p@),
{
    let pl: usize = p.unicode_len();
    let sl: usize = s.unicode_len();
    if sl < pl {
        return false;
    }
    let mut i: usize = 0;
    while i < pl
        invariant
            i <= pl,
            pl == p@.len(),
            pl <= s@.len(),
            forall|j: int| 0 <= j < i ==> s@[j] == p@[j],
        decreases pl - i,
    {
        if s.get_char(i) != p.get_char(i) {
            proof {
                assert(s@.subrange(0, pl as int)[i as int] == s@[i as int]);
            }
            return false;
        }
        i = i + 1;
    }
    proof {
        assert(s@.subrange(0, pl as int) =~= p@);
    }
    true
}

impl Validator {
    /// Pure, total check of one cell against this validator.
    pub fn ok(&self, val: &CellValue) -> (r: bool)
        ensures
            r == validator_accepts(*self, val.v()),
    {
        match (self, val) {
            (Validator::NotNull, CellValue::Null) => false,
            (Validator::NotNull, _) => true,
            (Validator::NumGreaterThan(min), CellValue::Int(x)) => i64_gt_f64_bits(*x, *min),
            (Validator::NumGreaterThan(min), CellValue::Float(x)) => f64_bits_gt(*x, *min),
            (Validator::NumLessThan(max), CellValue::Int(x)) => i64_lt_f64_bits(*x, *max),
            (Validator::NumLessThan(max), CellValue::Float(x)) => f64_bits_lt(*x, *max),
            (Validator::TextStartsWith(prefix), CellValue::Text(s)) => text_starts_with(
                s.as_str(),
                prefix.as_str(),
            ),
            _ => true,
        }
    }
}

} // verus!
