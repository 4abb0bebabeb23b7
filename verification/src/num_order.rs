//! Exact numeric ordering for cells.
//!
//! Floating-point cells are carried as IEEE-754 binary64 bit patterns.
//! A finite pattern with sign `s`, biased exponent `E` and fraction `F`
//! denotes `(-1)^s * m * 2^(E - 1075)` where `m = 2^52 + F` for a normal
//! value (`E >= 1`) and the subnormal `E == 0` denotes
//! `(-1)^s * F * 2^(-1074)`. Scaling every finite value by `2^1075` turns
//! the denoted reals into integers, so comparisons can be stated and
//! proved in exact integer arithmetic; infinities scale past every finite
//! value, and a comparison involving a NaN pattern is false. Integer
//! cells are compared against a pattern's exact real value, never through
//! a lossy conversion.

use vstd::prelude::*;
use vstd::arithmetic::power2::{pow2, lemma_pow2_adds, lemma_pow2_pos, lemma_pow2_strictly_increases, lemma2_to64, lemma2_to64_rest};

verus! {

/// Fraction field of a binary64 bit pattern (low 52 bits).
pub open spec fn f_frac(b: u64) -> u64 {
    b & 0xF_FFFF_FFFF_FFFFu64
}

/// Biased exponent field of a binary64 bit pattern (bits 52..63).
pub open spec fn f_exp(b: u64) -> u64 {
    (b >> 52) & 0x7FFu64
}

/// Sign bit of a binary64 bit pattern.
pub open spec fn f_neg(b: u64) -> bool {
    (b >> 63) == 1u64
}

/// Whether the pattern denotes a NaN.
pub open spec fn f_is_nan(b: u64) -> bool {
    f_exp(b) == 0x7FFu64 && f_frac(b) != 0u64
}

/// The magnitude denoted by `b`, scaled by `2^1075` to an exact natural
/// number. Infinite patterns land beyond every finite one.
pub open spec fn f_mag_scaled(b: u64) -> int {
    if f_exp(b) == 0u64 {
        2 * f_frac(b)
    } else {
        (0x10_0000_0000_0000u64 + f_frac(b)) * pow2(f_exp(b) as nat)
    }
}

/// The signed value denoted by `b`, scaled by `2^1075` to an exact integer.
pub open spec fn f_val_scaled(b: u64) -> int {
    if f_neg(b) {
        -f_mag_scaled(b)
    } else {
        f_mag_scaled(b)
    }
}

/// IEEE-754 `<` on two binary64 bit patterns: false if either is NaN,
/// otherwise exact comparison of the denoted values (so `-0 < +0` is
/// false).
pub open spec fn f64_lt(a: u64, b: u64) -> bool {
    &&& !f_is_nan(a)
    &&& !f_is_nan(b)
    &&& f_val_scaled(a) < f_val_scaled(b)
}

/// IEEE-754 `>` on two binary64 bit patterns.
pub open spec fn f64_gt(a: u64, b: u64) -> bool {
    f64_lt(b, a)
}

/// Exact `x < value(b)` for an integer `x`: false if `b` is NaN.
pub open spec fn int_lt_f64(x: int, b: u64) -> bool {
    &&& !f_is_nan(b)
    &&& x * pow2(1075) < f_val_scaled(b)
}

/// Exact `x > value(b)` for an integer `x`: false if `b` is NaN.
pub open spec fn int_gt_f64(x: int, b: u64) -> bool {
    &&& !f_is_nan(b)
    &&& f_val_scaled(b) < x * pow2(1075)
}

/// Whether the pattern denotes a finite value (neither NaN nor infinite).
pub open spec fn f_is_finite(b: u64) -> bool {
    f_exp(b) != 0x7FFu64
}

/// The low 63 bits of a pattern order finite magnitudes: they are the
/// lexicographic pair (exponent, fraction), and the scaled magnitude
/// grows strictly along that order.
proof fn lemma_mag_bits_order(a: u64, b: u64)
    ensures
        ((a & 0x7FFF_FFFF_FFFF_FFFFu64) < (b & 0x7FFF_FFFF_FFFF_FFFFu64)) <==> f_mag_scaled(a)
            < f_mag_scaled(b),
        ((a & 0x7FFF_FFFF_FFFF_FFFFu64) == (b & 0x7FFF_FFFF_FFFF_FFFFu64)) <==> f_mag_scaled(a)
            == f_mag_scaled(b),
{
    assert((a & 0x7FFF_FFFF_FFFF_FFFFu64) == ((a >> 52) & 0x7FFu64) * 0x10_0000_0000_0000u64 + (a
        & 0xF_FFFF_FFFF_FFFFu64)) by (bit_vector);
    assert((b & 0x7FFF_FFFF_FFFF_FFFFu64) == ((b >> 52) & 0x7FFu64) * 0x10_0000_0000_0000u64 + (b
        & 0xF_FFFF_FFFF_FFFFu64)) by (bit_vector);
    assert((a & 0xF_FFFF_FFFF_FFFFu64) < 0x10_0000_0000_0000u64) by (bit_vector);
    assert((b & 0xF_FFFF_FFFF_FFFFu64) < 0x10_0000_0000_0000u64) by (bit_vector);
    lemma_scaled_follows_lex(f_exp(a), f_frac(a), f_exp(b), f_frac(b));
}

/// Scaled magnitude as a function of the two fields.
spec fn mag_of_fields(e: u64, f: u64) -> int {
    if e == 0u64 {
        2 * f
    } else {
        (0x10_0000_0000_0000u64 + f) * pow2(e as nat)
    }
}

/// Strict growth of the scaled magnitude along the lexicographic field
/// order, for fractions below `2^52`.
proof fn lemma_scaled_follows_lex(ea: u64, fa: u64, eb: u64, fb: u64)
    requires
        fa < 0x10_0000_0000_0000u64,
        fb < 0x10_0000_0000_0000u64,
    ensures
        (ea * 0x10_0000_0000_0000u64 + fa < eb * 0x10_0000_0000_0000u64 + fb) <==> mag_of_fields(
            ea,
            fa,
        ) < mag_of_fields(eb, fb),
        (ea * 0x10_0000_0000_0000u64 + fa == eb * 0x10_0000_0000_0000u64 + fb) <==> mag_of_fields(
            ea,
            fa,
        ) == mag_of_fields(eb, fb),
{
    assert((ea * 0x10_0000_0000_0000u64 + fa < eb * 0x10_0000_0000_0000u64 + fb) <==> (ea < eb || (
    ea == eb && fa < fb))) by (nonlinear_arith)
        requires
            fa < 0x10_0000_0000_0000u64,
            fb < 0x10_0000_0000_0000u64,
    ;
    assert((ea * 0x10_0000_0000_0000u64 + fa == eb * 0x10_0000_0000_0000u64 + fb) <==> (ea == eb
        && fa == fb)) by (nonlinear_arith)
        requires
            fa < 0x10_0000_0000_0000u64,
            fb < 0x10_0000_0000_0000u64,
    ;
    if ea < eb {
        lemma_mag_grows(ea, fa, eb, fb);
    } else if eb < ea {
        lemma_mag_grows(eb, fb, ea, fa);
    } else {
        if ea != 0u64 {
            lemma_pow2_pos(ea as nat);
            let p = pow2(ea as nat) as int;
            let xa = 0x10_0000_0000_0000u64 + fa;
            let xb = 0x10_0000_0000_0000u64 + fb;
            assert(((xa < xb) <==> (xa * p < xb * p)) && ((xa == xb) <==> (xa * p == xb * p)))
                by (nonlinear_arith)
                requires
                    p > 0,
            ;
        }
    }
}

/// The strict case of the growth lemma: a strictly smaller exponent, or
/// an equal exponent with a smaller fraction, gives a strictly smaller
/// scaled magnitude.
proof fn lemma_mag_grows(ea: u64, fa: u64, eb: u64, fb: u64)
    requires
        fa < 0x10_0000_0000_0000u64,
        fb < 0x10_0000_0000_0000u64,
        ea < eb,
    ensures
        mag_of_fields(ea, fa) < mag_of_fields(eb, fb),
{
    lemma2_to64();
    lemma_pow2_pos(eb as nat);
    if ea == 0u64 {
        // 2 * fa < 2^53 <= (2^52 + fb) * 2^eb
        lemma_pow2_strictly_increases(0, eb as nat);
        assert(2 * fa < 0x20_0000_0000_0000) by (nonlinear_arith)
            requires
                fa < 0x10_0000_0000_0000u64,
        ;
        assert((0x10_0000_0000_0000u64 + fb) * pow2(eb as nat) >= 0x20_0000_0000_0000)
            by (nonlinear_arith)
            requires
                pow2(eb as nat) >= 2,
        ;
    } else {
        // (2^52 + fa) * 2^ea < 2^52 * 2^(ea+1) <= 2^52 * 2^eb <= (2^52 + fb) * 2^eb
        lemma_pow2_pos(ea as nat);
        lemma_pow2_adds(ea as nat, 1);
        if ea + 1 < eb {
            lemma_pow2_strictly_increases((ea + 1) as nat, eb as nat);
        }
        assert(pow2((ea + 1) as nat) == pow2(ea as nat) * 2);
        assert((0x10_0000_0000_0000u64 + fa) * pow2(ea as nat) < (0x10_0000_0000_0000u64 + fb)
            * pow2(eb as nat)) by (nonlinear_arith)
            requires
                fa < 0x10_0000_0000_0000u64,
                pow2(ea as nat) > 0,
                pow2(eb as nat) >= pow2(ea as nat) * 2,
        ;
    }
}

/// A zero magnitude field pair means a zero scaled magnitude.
proof fn lemma_mag_zero(b: u64)
    ensures
        (f_mag_scaled(b) == 0) <==> ((b & 0x7FFF_FFFF_FFFF_FFFFu64) == 0u64),
{
    assert(((b & 0x7FFF_FFFF_FFFF_FFFFu64) == 0u64) <==> (((b >> 52) & 0x7FFu64) == 0u64 && (b
        & 0xF_FFFF_FFFF_FFFFu64) == 0u64)) by (bit_vector);
    if f_exp(b) != 0u64 {
        lemma_pow2_pos(f_exp(b) as nat);
        assert((0x10_0000_0000_0000u64 + f_frac(b)) * pow2(f_exp(b) as nat) > 0)
            by (nonlinear_arith)
            requires
                pow2(f_exp(b) as nat) > 0,
        ;
    }
}

/// Executable IEEE-754 `<` on two binary64 bit patterns.
pub fn f64_bits_lt(a: u64, b: u64) -> (r: bool)
    ensures
        r == f64_lt(a, b),
{
    let ea: u64 = (a >> 52) & 0x7FF;
    let eb: u64 = (b >> 52) & 0x7FF;
    let fa: u64 = a & 0xF_FFFF_FFFF_FFFF;
    let fb: u64 = b & 0xF_FFFF_FFFF_FFFF;
    if (ea == 0x7FF && fa != 0) || (eb == 0x7FF && fb != 0) {
        return false;
    }
    let na: bool = (a >> 63) == 1;
    let nb: bool = (b >> 63) == 1;
    let ma: u64 = a & 0x7FFF_FFFF_FFFF_FFFF;
    let mb: u64 = b & 0x7FFF_FFFF_FFFF_FFFF;
    proof {
        lemma_mag_bits_order(a, b);
        lemma_mag_zero(a);
        lemma_mag_zero(b);
    }
    if na && nb {
        mb < ma
    } else if !na && !nb {
        ma < mb
    } else if na {
        // negative versus positive: strictly below unless both are zeros
        !(ma == 0 && mb == 0)
    } else {
        false
    }
}

/// Executable IEEE-754 `>` on two binary64 bit patterns.
pub fn f64_bits_gt(a: u64, b: u64) -> (r: bool)
    ensures
        r == f64_gt(a, b),
{
    f64_bits_lt(b, a)
}

/// The scaled magnitude is never negative.
proof fn lemma_mag_nonneg(b: u64)
    ensures
        f_mag_scaled(b) >= 0,
{
    if f_exp(b) != 0u64 {
        lemma_pow2_pos(f_exp(b) as nat);
        assert((0x10_0000_0000_0000u64 + f_frac(b)) * pow2(f_exp(b) as nat) >= 0)
            by (nonlinear_arith)
            requires
                pow2(f_exp(b) as nat) > 0,
        ;
    }
}

/// Doubles `x` exactly `k` times, proved equal to `x * 2^k`.
fn mul_pow2_u128(x: u128, k: u64) -> (r: u128)
    requires
        (x as int) * pow2(k as nat) <= u128::MAX as int,
    ensures
        (r as int) == (x as int) * pow2(k as nat),
{
    let mut r: u128 = x;
    let mut i: u64 = 0;
    proof {
        lemma2_to64();
    }
    while i < k
        invariant
            i <= k,
            (r as int) == (x as int) * pow2(i as nat),
            (x as int) * pow2(k as nat) <= u128::MAX as int,
        decreases k - i,
    {
        proof {
            lemma_pow2_adds(i as nat, 1);
            lemma2_to64();
            if i + 1 < k {
                lemma_pow2_strictly_increases((i + 1) as nat, k as nat);
            }
            assert((x as int) * pow2((i + 1) as nat) <= (x as int) * pow2(k as nat))
                by (nonlinear_arith)
                requires
                    pow2((i + 1) as nat) <= pow2(k as nat),
                    x >= 0,
            ;
            assert((r as int) * 2 == (x as int) * pow2((i + 1) as nat)) by (nonlinear_arith)
                requires
                    (r as int) == (x as int) * pow2(i as nat),
                    pow2((i + 1) as nat) == pow2(i as nat) * 2,
            ;
        }
        r = r * 2;
        i = i + 1;
    }
    r
}

/// Compares `n * 2^1075` with the scaled magnitude of the pattern `b`:
/// negative, zero or positive according to the exact integer order.
fn cmp_u64_with_fmag(n: u64, b: u64) -> (r: i8)
    ensures
        (r == -1i8) <==> ((n as int) * pow2(1075) < f_mag_scaled(b)),
        (r == 0i8) <==> ((n as int) * pow2(1075) == f_mag_scaled(b)),
        (r == 1i8) <==> ((n as int) * pow2(1075) > f_mag_scaled(b)),
{
    let e: u64 = (b >> 52) & 0x7FF;
    let f: u64 = b & 0xF_FFFF_FFFF_FFFF;
    proof {
        lemma2_to64();
        lemma2_to64_rest();
        lemma_pow2_pos(1075);
        assert((b & 0xF_FFFF_FFFF_FFFF) < 0x10_0000_0000_0000u64) by (bit_vector);
    }
    if e == 0 {
        // magnitude is 2 * f, far below 2^1075
        if n == 0 {
            if f == 0 {
                0
            } else {
                -1
            }
        } else {
            proof {
                lemma_pow2_strictly_increases(53, 1075);
                assert((n as int) * pow2(1075) >= pow2(1075)) by (nonlinear_arith)
                    requires
                        n >= 1,
                        pow2(1075) > 0,
                ;
            }
            1
        }
    } else {
        let m: u64 = 0x10_0000_0000_0000 + f;
        if e > 1075 {
            // compare n against m * 2^(e - 1075)
            let d: u64 = e - 1075;
            proof {
                lemma_pow2_adds(1075, d as nat);
                lemma_pow2_pos(d as nat);
                assert((m as int) * pow2(e as nat) == ((m as int) * pow2(d as nat)) * pow2(1075))
                    by (nonlinear_arith)
                    requires
                        pow2(e as nat) == pow2(1075) * pow2(d as nat),
                ;
                let q = (m as int) * pow2(d as nat);
                assert((((n as int) < q) <==> ((n as int) * pow2(1075) < q * pow2(1075))) && (((
                n as int) == q) <==> ((n as int) * pow2(1075) == q * pow2(1075))))
                    by (nonlinear_arith)
                    requires
                        pow2(1075) > 0,
                ;
            }
            if d >= 12 {
                proof {
                    if d > 12 {
                        lemma_pow2_strictly_increases(12, d as nat);
                    }
                    assert((m as int) * pow2(d as nat) >= 0x10_0000_0000_0000 * 0x1000)
                        by (nonlinear_arith)
                        requires
                            m >= 0x10_0000_0000_0000u64,
                            pow2(d as nat) >= 0x1000,
                    ;
                }
                -1
            } else {
                proof {
                    lemma_pow2_strictly_increases(d as nat, 12);
                    assert((m as int) * pow2(d as nat) <= 0x20_0000_0000_0000 * 0x1000)
                        by (nonlinear_arith)
                        requires
                            m < 0x20_0000_0000_0000u64,
                            pow2(d as nat) <= 0x1000,
                    ;
                }
                let rhs: u128 = mul_pow2_u128(m as u128, d);
                let lhs: u128 = n as u128;
                if lhs < rhs {
                    -1
                } else if lhs == rhs {
                    0
                } else {
                    1
                }
            }
        } else {
            // compare n * 2^(1075 - e) against m
            let d: u64 = 1075 - e;
            proof {
                lemma_pow2_adds(d as nat, e as nat);
                lemma_pow2_pos(e as nat);
                lemma_pow2_pos(d as nat);
                assert((n as int) * pow2(1075) == ((n as int) * pow2(d as nat)) * pow2(e as nat))
                    by (nonlinear_arith)
                    requires
                        pow2(1075) == pow2(d as nat) * pow2(e as nat),
                ;
                let q = (n as int) * pow2(d as nat);
                let mm = m as int;
                assert(((q < mm) <==> (q * pow2(e as nat) < mm * pow2(e as nat))) && ((q == mm)
                    <==> (q * pow2(e as nat) == mm * pow2(e as nat)))) by (nonlinear_arith)
                    requires
                        pow2(e as nat) > 0,
                ;
            }
            if n == 0 {
                -1
            } else if d >= 53 {
                proof {
                    if d > 53 {
                        lemma_pow2_strictly_increases(53, d as nat);
                    }
                    assert((n as int) * pow2(d as nat) >= 0x20_0000_0000_0000)
                        by (nonlinear_arith)
                        requires
                            n >= 1,
                            pow2(d as nat) >= 0x20_0000_0000_0000,
                    ;
                }
                1
            } else {
                proof {
                    if d < 52 {
                        lemma_pow2_strictly_increases(d as nat, 52);
                    }
                    assert((n as int) * pow2(d as nat) <= 0xFFFF_FFFF_FFFF_FFFFu64
                        * 0x10_0000_0000_0000) by (nonlinear_arith)
                        requires
                            n <= 0xFFFF_FFFF_FFFF_FFFFu64,
                            pow2(d as nat) <= 0x10_0000_0000_0000,
                    ;
                }
                let lhs: u128 = mul_pow2_u128(n as u128, d);
                let rhs: u128 = m as u128;
                if lhs < rhs {
                    -1
                } else if lhs == rhs {
                    0
                } else {
                    1
                }
            }
        }
    }
}

/// Executable exact `x < value(b)` for an `i64` against a binary64 bit
/// pattern.
pub fn i64_lt_f64_bits(x: i64, b: u64) -> (r: bool)
    ensures
        r == int_lt_f64(x as int, b),
{
    let e: u64 = (b >> 52) & 0x7FF;
    let f: u64 = b & 0xF_FFFF_FFFF_FFFF;
    if e == 0x7FF && f != 0 {
        return false;
    }
    let neg_b: bool = (b >> 63) == 1;
    proof {
        lemma_mag_nonneg(b);
        lemma_pow2_pos(1075);
    }
    if x >= 0 {
        if neg_b {
            proof {
                assert((x as int) * pow2(1075) >= 0) by (nonlinear_arith)
                    requires
                        x >= 0,
                        pow2(1075) > 0,
                ;
            }
            false
        } else {
            cmp_u64_with_fmag(x as u64, b) == -1
        }
    } else {
        if !neg_b {
            proof {
                assert((x as int) * pow2(1075) < 0) by (nonlinear_arith)
                    requires
                        x < 0,
                        pow2(1075) > 0,
                ;
            }
            true
        } else {
            let ux: u64 = (-(x as i128)) as u64;
            proof {
                assert((ux as int) * pow2(1075) == -((x as int) * pow2(1075))) by (nonlinear_arith)
                    requires
                        ux as int == -(x as int),
                ;
            }
            cmp_u64_with_fmag(ux, b) == 1
        }
    }
}

/// Executable exact `x > value(b)` for an `i64` against a binary64 bit
/// pattern.
pub fn i64_gt_f64_bits(x: i64, b: u64) -> (r: bool)
    ensures
        r == int_gt_f64(x as int, b),
{
    let e: u64 = (b >> 52) & 0x7FF;
    let f: u64 = b & 0xF_FFFF_FFFF_FFFF;
    if e == 0x7FF && f != 0 {
        return false;
    }
    let neg_b: bool = (b >> 63) == 1;
    proof {
        lemma_mag_nonneg(b);
        lemma_mag_zero(b);
        lemma_pow2_pos(1075);
    }
    if x >= 0 {
        if neg_b {
            // above every negative value except the zeros when x is zero
            proof {
                assert((x as int) * pow2(1075) >= 0 && (x > 0 ==> (x as int) * pow2(1075) > 0))
                    by (nonlinear_arith)
                    requires
                        x >= 0,
                        pow2(1075) > 0,
                ;
            }
            !(x == 0 && (b & 0x7FFF_FFFF_FFFF_FFFF) == 0)
        } else {
            cmp_u64_with_fmag(x as u64, b) == 1
        }
    } else {
        if !neg_b {
            proof {
                assert((x as int) * pow2(1075) < 0) by (nonlinear_arith)
                    requires
                        x < 0,
                        pow2(1075) > 0,
                ;
            }
            false
        } else {
            let ux: u64 = (-(x as i128)) as u64;
            proof {
                assert((ux as int) * pow2(1075) == -((x as int) * pow2(1075))) by (nonlinear_arith)
                    requires
                        ux as int == -(x as int),
                ;
            }
            cmp_u64_with_fmag(ux, b) == -1
        }
    }
}

} // verus!
