//! Exact integer arithmetic used by the engine: saturation to the `i64`
//! range, truncating division by a positive divisor, and sums of sequences.

use vstd::prelude::*;

verus! {

/// Absolute value of a mathematical integer.
pub open spec fn abs_int(x: int) -> int {
    if x >= 0 {
        x
    } else {
        -x
    }
}

/// Saturation of a mathematical integer to the `i64` range.
pub open spec fn sat64(x: int) -> int {
    if x > i64::MAX as int {
        i64::MAX as int
    } else if x < i64::MIN as int {
        i64::MIN as int
    } else {
        x
    }
}

/// Division truncated toward zero, for a positive divisor.
///
/// On nonnegative dividends this is Euclidean division; on negative ones the
/// quotient of the magnitudes is negated, as machine division does.
pub open spec fn tdiv(a: int, b: int) -> int
    recommends
        b > 0,
{
    if a >= 0 {
        a / b
    } else {
        -((-a) / b)
    }
}

/// Sum of a sequence of mathematical integers.
pub open spec fn seq_sum(s: Seq<int>) -> int
    decreases s.len(),
{
    if s.len() == 0 {
        0
    } else {
        seq_sum(s.drop_last()) + s.last()
    }
}

/// Clamps an `i128` into the `i64` range.
pub fn clamp_to_i64(x: i128) -> (r: i64)
    ensures
        r as int == sat64(x as int),
{
    if x > i64::MAX as i128 {
        i64::MAX
    } else if x < i64::MIN as i128 {
        i64::MIN
    } else {
        x as i64
    }
}

/// `i64` addition saturating at the ends of the range.
pub fn sat_add64(a: i64, b: i64) -> (r: i64)
    ensures
        r as int == sat64(a + b),
{
    clamp_to_i64(a as i128 + b as i128)
}

/// `i64` multiplication saturating at the ends of the range.
pub fn sat_mul64(a: i64, b: i64) -> (r: i64)
    ensures
        r as int == sat64(a * b),
{
    match a.checked_mul(b) {
        Some(p) => p,
        None => {
            proof {
                assert(a > 0 && b > 0 ==> a as int * b as int > 0) by (nonlinear_arith);
                assert(a <= 0 && b <= 0 ==> a as int * b as int >= 0) by (nonlinear_arith);
                assert(a > 0 && b <= 0 ==> a as int * b as int <= 0) by (nonlinear_arith);
                assert(a <= 0 && b > 0 ==> a as int * b as int <= 0) by (nonlinear_arith);
            }
            if (a > 0) == (b > 0) {
                i64::MAX
            } else {
                i64::MIN
            }
        },
    }
}

/// Division of an `i128` by a positive divisor, truncated toward zero.
pub fn div_trunc(a: i128, b: u64) -> (r: i128)
    requires
        b > 0,
        a != i128::MIN,
    ensures
        r as int == tdiv(a as int, b as int),
{
    if a >= 0 {
        let q: u128 = (a as u128) / (b as u128);
        proof {
            vstd::arithmetic::div_mod::lemma_fundamental_div_mod(a as int, b as int);
            vstd::arithmetic::div_mod::lemma_mod_bound(a as int, b as int);
            assert(a as int / b as int <= a as int) by (nonlinear_arith)
                requires
                    a as int == b as int * (a as int / b as int) + (a as int % b as int),
                    0 <= a as int % b as int,
                    b as int >= 1,
                    a as int >= 0,
            ;
        }
        q as i128
    } else {
        let m: i128 = -a;
        let q: u128 = (m as u128) / (b as u128);
        proof {
            vstd::arithmetic::div_mod::lemma_fundamental_div_mod(m as int, b as int);
            vstd::arithmetic::div_mod::lemma_mod_bound(m as int, b as int);
            assert(m as int / b as int <= m as int) by (nonlinear_arith)
                requires
                    m as int == b as int * (m as int / b as int) + (m as int % b as int),
                    0 <= m as int % b as int,
                    b as int >= 1,
                    m as int >= 0,
            ;
        }
        -(q as i128)
    }
}

/// Division truncated toward zero never grows the magnitude when the scaled
/// numerator stays below the divisor times the bound.
pub proof fn lemma_tdiv_scaled_le(d: int, p: int, scale: int)
    requires
        d >= 0,
        0 <= p <= scale,
        scale > 0,
    ensures
        0 <= tdiv(d * p, scale) <= d,
{
    assert(d * p >= 0) by (nonlinear_arith)
        requires
            d >= 0,
            p >= 0,
    ;
    assert(d * p <= d * scale) by (nonlinear_arith)
        requires
            d >= 0,
            p <= scale,
    ;
    vstd::arithmetic::div_mod::lemma_div_is_ordered(d * p, d * scale, scale);
    vstd::arithmetic::div_mod::lemma_div_by_multiple(d, scale);
    vstd::arithmetic::div_mod::lemma_div_pos_is_pos(d * p, scale);
}

} // verus!
