//! The cast phase's cell-level coercions.
//!
//! A cell either already carries the declared target type, is null (null
//! survives every cast), or is coerced: text parses to an integer where
//! the column is integer-typed, and integer cells stand exactly for
//! themselves in floating-point columns (a number is carried exactly; the
//! record layer does not distinguish the two numeric shapes). Every other
//! combination is a coercion failure, handled by the column's policy.

use vstd::prelude::*;
use crate::cell::{CellV, CellValue};
use crate::num_order::f_is_finite;
use crate::schema::ColType;

verus! {

/// A decimal digit.
pub open spec fn is_digit_char(c: char) -> bool {
    '0' <= c && c <= '9'
}

/// Numeric value of a decimal digit.
pub open spec fn digit_val(c: char) -> int {
    c as u32 - '0' as u32
}

/// Whether every character is a decimal digit.
pub open spec fn all_digits(s: Seq<char>) -> bool {
    forall|i: int| 0 <= i < s.len() ==> is_digit_char(#[trigger] s[i])
}

/// Value of a digit string read most-significant first.
pub open spec fn digits_value(s: Seq<char>) -> int
    decreases s.len(),
{
    if s.len() == 0 {
        0
    } else {
        digits_value(s.drop_last()) * 10 + digit_val(s.last())
    }
}

/// The exact integer denoted by the text: an optional leading minus
/// sign followed by one or more decimal digits, and nothing else.
pub open spec fn parse_int_spec(s: Seq<char>) -> Option<int> {
    let neg = s.len() > 0 && s[0] == '-';
    let body = if neg {
        s.skip(1)
    } else {
        s
    };
    if body.len() == 0 || !all_digits(body) {
        None
    } else if neg {
        Some(-digits_value(body))
    } else {
        Some(digits_value(body))
    }
}

/// A digit string's value is never negative.
proof fn lemma_digits_nonneg(s: Seq<char>)
    requires
        all_digits(s),
    ensures
        digits_value(s) >= 0,
    decreases s.len(),
{
    if s.len() > 0 {
        assert(all_digits(s.drop_last())) by {
            assert(forall|i: int|
                0 <= i < s.len() - 1 ==> s.drop_last()[i] == #[trigger] s[i]);
        }
        lemma_digits_nonneg(s.drop_last());
    }
}

/// Extending a digit string never shrinks its value.
proof fn lemma_digits_prefix_le(s: Seq<char>, i: int)
    requires
        all_digits(s),
        0 <= i <= s.len(),
    ensures
        digits_value(s.take(i)) <= digits_value(s),
    decreases s.len() - i,
{
    if i < s.len() {
        lemma_digits_prefix_le(s, i + 1);
        assert(s.take(i + 1).drop_last() =~= s.take(i));
        assert(s.take(i + 1).last() == s[i]);
        assert(all_digits(s.take(i))) by {
            assert(forall|j: int| 0 <= j < i ==> s.take(i)[j] == #[trigger] s[j]);
        }
        lemma_digits_nonneg(s.take(i));
        assert(digits_value(s.take(i)) * 10 >= digits_value(s.take(i))) by (nonlinear_arith)
            requires
                digits_value(s.take(i)) >= 0,
        ;
    } else {
        assert(s.take(i) =~= s);
    }
}

/// Parses the text as an `i64`: `Some` exactly when the text denotes an
/// integer in the `i64` range.
pub fn parse_i64(s: &str) -> (r: Option<i64>)
    ensures
        match r {
            Some(x) => parse_int_spec(s@) == Some(x as int),
            None => parse_int_spec(s@) matches None || !(i64::MIN <= parse_int_spec(
                s@,
            ).unwrap() <= i64::MAX),
        },
{
    let n: usize = s.unicode_len();
    let neg: bool = n > 0 && s.get_char(0) == '-';
    let start: usize = if neg {
        1
    } else {
        0
    };
    if n == start {
        return None;
    }
    let ghost body = if neg {
        s@.skip(1)
    } else {
        s@
    };
    let mut acc: u128 = 0;
    let mut too_big: bool = false;
    let mut i: usize = start;
    while i < n
        invariant
            start <= i <= n,
            n == s@.len(),
            neg ==> s@[0] == '-',
            !neg ==> (s@.len() == 0 || s@[0] != '-'),
            start == if neg { 1int } else { 0int },
            body == if neg { s@.skip(1) } else { s@ },
            all_digits(body.take(i - start)),
            !too_big ==> acc <= 0x8000_0000_0000_0000u128 && acc as int == digits_value(
                body.take(i - start),
            ),
            too_big ==> digits_value(body.take(i - start)) > 0x8000_0000_0000_0000,
        decreases n - i,
    {
        let c: char = s.get_char(i);
        if !(c >= '0' && c <= '9') {
            proof {
                assert(body[i - start] == s@[i as int]);
                assert(!all_digits(body));
            }
            return None;
        }
        proof {
            assert(body.take(i + 1 - start).drop_last() =~= body.take(i - start));
            assert(body.take(i + 1 - start).last() == body[i - start]);
            assert(body[i - start] == s@[i as int]);
        }
        let d: u32 = (c as u32) - ('0' as u32);
        if !too_big {
            let next: u128 = acc * 10 + (d as u128);
            if next > 0x8000_0000_0000_0000 {
                too_big = true;
            } else {
                acc = next;
            }
        } else {
            proof {
                lemma_digits_nonneg(body.take(i - start));
                assert(digits_value(body.take(i - start)) * 10 + digit_val(s@[i as int])
                    > 0x8000_0000_0000_0000) by (nonlinear_arith)
                    requires
                        digits_value(body.take(i - start)) > 0x8000_0000_0000_0000,
                        digit_val(s@[i as int]) >= 0,
                ;
            }
        }
        i = i + 1;
    }
    proof {
        assert(body.take(n - start) =~= body);
    }
    if too_big {
        return None;
    }
    if neg {
        let x: i128 = -(acc as i128);
        if x < -0x8000_0000_0000_0000i128 {
            return None;
        }
        Some(x as i64)
    } else {
        if acc > 0x7FFF_FFFF_FFFF_FFFF {
            return None;
        }
        Some(acc as i64)
    }
}

/// The coercion of one cell to a target type: `None` is a coercion
/// failure to be handled by the column's policy.
pub open spec fn spec_cast_cell(c: CellV, ty: ColType) -> Option<CellV> {
    match c {
        CellV::Null => Some(CellV::Null),
        _ => match ty {
            ColType::Text => match c {
                CellV::Text(_) => Some(c),
                _ => None,
            },
            ColType::Integer => match c {
                CellV::Int(_) => Some(c),
                CellV::Text(s) => match parse_int_spec(s) {
                    Some(v) => if i64::MIN <= v <= i64::MAX {
                        Some(CellV::Int(v as i64))
                    } else {
                        None
                    },
                    None => None,
                },
                _ => None,
            },
            ColType::Float => match c {
                CellV::Float(_) => Some(c),
                CellV::Int(_) => Some(c),
                _ => None,
            },
        },
    }
}

/// An owned copy of a cell.
pub fn clone_cell(c: &CellValue) -> (r: CellValue)
    ensures
        r.v() == c.v(),
{
    match c {
        CellValue::Null => CellValue::Null,
        CellValue::Bool(b) => CellValue::Bool(*b),
        CellValue::Int(x) => CellValue::Int(*x),
        CellValue::Float(bits) => CellValue::Float(*bits),
        CellValue::Text(s) => CellValue::Text(s.clone()),
    }
}

/// Coerces one cell to the target type.
pub fn cast_cell(c: &CellValue, ty: ColType) -> (r: Option<CellValue>)
    ensures
        match r {
            Some(cv) => spec_cast_cell(c.v(), ty) == Some(cv.v()),
            None => spec_cast_cell(c.v(), ty) matches None,
        },
{
    match c {
        CellValue::Null => Some(CellValue::Null),
        CellValue::Text(s) => match ty {
            ColType::Text => Some(CellValue::Text(s.clone())),
            ColType::Integer => match parse_i64(s.as_str()) {
                Some(x) => Some(CellValue::Int(x)),
                None => None,
            },
            ColType::Float => None,
        },
        CellValue::Int(x) => match ty {
            ColType::Integer => Some(CellValue::Int(*x)),
            ColType::Float => Some(CellValue::Int(*x)),
            ColType::Text => None,
        },
        CellValue::Float(bits) => match ty {
            ColType::Float => Some(CellValue::Float(*bits)),
            _ => None,
        },
        CellValue::Bool(_) => None,
    }
}

/// The record-layer image of a cell: a non-finite floating-point cell
/// has no number representation and becomes null; every other cell is
/// itself.
pub open spec fn spec_to_json_cell(c: CellV) -> CellV {
    match c {
        CellV::Float(b) => if f_is_finite(b) {
            c
        } else {
            CellV::Null
        },
        _ => c,
    }
}

/// Converts a cell to its record-layer image.
pub fn to_json_cell(c: &CellValue) -> (r: CellValue)
    ensures
        r.v() == spec_to_json_cell(c.v()),
{
    match c {
        CellValue::Float(bits) => {
            if ((*bits >> 52) & 0x7FF) != 0x7FF {
                CellValue::Float(*bits)
            } else {
                CellValue::Null
            }
        },
        _ => clone_cell(c),
    }
}

} // verus!
