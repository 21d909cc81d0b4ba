//! Fixed-point scalar arithmetic.
//!
//! Every real quantity of the engine (positions, masses, compliances,
//! time steps) is carried as an `i64` holding the quantity scaled by
//! `FX_ONE`.  All operations saturate at the `i64` range and round
//! toward zero, and each executable operation has an exact
//! specification, so the whole solver can be reasoned about as plain
//! integer arithmetic.

use vstd::prelude::*;

verus! {

/// Number of raw units in 1.0: raw value `r` denotes the real `r / FX_ONE`.
pub const FX_ONE: i64 = 1_000_000_000;

/// Saturation of a mathematical integer into the `i64` range.
pub open spec fn sat64(x: int) -> int {
    if x > i64::MAX as int {
        i64::MAX as int
    } else if x < i64::MIN as int {
        i64::MIN as int
    } else {
        x
    }
}

/// Absolute value.
pub open spec fn absi(x: int) -> int {
    if x >= 0 {
        x
    } else {
        -x
    }
}

/// Quotient rounded toward zero (the rounding of machine division).
pub open spec fn q_tz(a: int, b: int) -> int {
    if (a >= 0) == (b >= 0) {
        absi(a) / absi(b)
    } else {
        -(absi(a) / absi(b))
    }
}

/// Saturating fixed-point addition.
pub open spec fn fx_add_s(a: int, b: int) -> int {
    sat64(a + b)
}

/// Saturating fixed-point subtraction.
pub open spec fn fx_sub_s(a: int, b: int) -> int {
    sat64(a - b)
}

/// Saturating fixed-point multiplication: `(a * b) / FX_ONE` toward zero.
pub open spec fn fx_mul_s(a: int, b: int) -> int {
    sat64(q_tz(a * b, FX_ONE as int))
}

/// Saturating fixed-point division: `(a * FX_ONE) / b` toward zero.
pub open spec fn fx_div_s(a: int, b: int) -> int {
    sat64(q_tz(a * FX_ONE, b))
}

/// `r` is the integer square root of `x`.
pub open spec fn is_isqrt(x: int, r: int) -> bool {
    &&& 0 <= r
    &&& r * r <= x
    &&& x < (r + 1) * (r + 1)
}

/// The integer square root, as a function.
pub open spec fn isqrt_spec(x: int) -> int {
    choose|r: int| is_isqrt(x, r)
}

/// Fixed-point square root: `sqrt(a / FX_ONE) * FX_ONE = sqrt(a * FX_ONE)`.
pub open spec fn fx_sqrt_s(a: int) -> int {
    isqrt_spec(a * FX_ONE)
}

proof fn lemma_isqrt_exists(x: nat)
    ensures
        exists|r: int| is_isqrt(x as int, r),
    decreases x,
{
    if x == 0 {
        assert(is_isqrt(0, 0));
    } else {
        lemma_isqrt_exists((x - 1) as nat);
        let y: int = (x - 1) as int;
        let r0 = choose|r: int| is_isqrt(y, r);
        if (r0 + 1) * (r0 + 1) <= x as int {
            assert((x - 1) < (r0 + 1) * (r0 + 1));
            assert(x < (r0 + 2) * (r0 + 2)) by (nonlinear_arith)
                requires
                    x as int <= (r0 + 1) * (r0 + 1),
                    0 <= r0,
            ;
            assert(is_isqrt(x as int, r0 + 1));
        } else {
            assert(is_isqrt(x as int, r0));
        }
    }
}

proof fn lemma_isqrt_unique(x: int, r1: int, r2: int)
    requires
        is_isqrt(x, r1),
        is_isqrt(x, r2),
    ensures
        r1 == r2,
{
    if r1 < r2 {
        assert(r2 * r2 <= x);
        assert((r1 + 1) * (r1 + 1) <= r2 * r2) by (nonlinear_arith)
            requires
                0 <= r1 + 1,
                r1 + 1 <= r2,
        ;
    }
    if r2 < r1 {
        assert((r2 + 1) * (r2 + 1) <= r1 * r1) by (nonlinear_arith)
            requires
                0 <= r2 + 1,
                r2 + 1 <= r1,
        ;
    }
}

/// The defining property of `isqrt_spec`, available to callers.
pub proof fn lemma_isqrt(x: int)
    requires
        x >= 0,
    ensures
        is_isqrt(x, isqrt_spec(x)),
{
    lemma_isqrt_exists(x as nat);
}

/// A fixed-point quotient of non-negative values is non-negative.
pub proof fn lemma_div_nonneg(a: int, b: int)
    requires
        a >= 0,
        b > 0,
    ensures
        fx_div_s(a, b) >= 0,
{
    assert(a * FX_ONE >= 0) by (nonlinear_arith)
        requires
            a >= 0,
    ;
    vstd::arithmetic::div_mod::lemma_div_is_ordered(0, absi(a * FX_ONE), absi(b));
}

/// A fixed-point product of non-negative values is non-negative.
pub proof fn lemma_mul_nonneg(a: int, b: int)
    requires
        a >= 0,
        b >= 0,
    ensures
        fx_mul_s(a, b) >= 0,
{
    assert(a * b >= 0) by (nonlinear_arith)
        requires
            a >= 0,
            b >= 0,
    ;
    vstd::arithmetic::div_mod::lemma_div_is_ordered(0, absi(a * b), absi(FX_ONE as int));
}

/// Saturation of an `i128` into `i64`.
fn sat_i64(x: i128) -> (r: i64)
    ensures
        r as int == sat64(x as int),
{
    if x > i64::MAX as i128 {
        i64::MAX
    } else if x < i64::MIN as i128 {
        i64::MIN
    } else {
        x as i64
    }
}

/// Machine division of `i128` values, rounding toward zero.
fn div_i128_tz(n: i128, d: i128) -> (q: i128)
    requires
        d != 0,
        n != i128::MIN,
        d != i128::MIN,
    ensures
        q as int == q_tz(n as int, d as int),
{
    let nn: u128 = if n >= 0 {
        n as u128
    } else {
        (-n) as u128
    };
    let dd: u128 = if d >= 0 {
        d as u128
    } else {
        (-d) as u128
    };
    let qq: u128 = nn / dd;
    assert(nn as int == absi(n as int));
    assert(dd as int == absi(d as int));
    assert(qq as int == absi(n as int) / absi(d as int));
    assert(qq <= nn) by {
        vstd::arithmetic::div_mod::lemma_fundamental_div_mod(nn as int, dd as int);
        assert((qq as int) * (dd as int) >= qq as int) by (nonlinear_arith)
            requires
                qq as int >= 0,
                dd as int >= 1,
        ;
    }
    if (n >= 0) == (d >= 0) {
        qq as i128
    } else {
        -(qq as i128)
    }
}

/// Saturating addition.
pub fn fx_add(a: i64, b: i64) -> (r: i64)
    ensures
        r as int == fx_add_s(a as int, b as int),
{
    sat_i64(a as i128 + b as i128)
}

/// Saturating subtraction.
pub fn fx_sub(a: i64, b: i64) -> (r: i64)
    ensures
        r as int == fx_sub_s(a as int, b as int),
{
    sat_i64(a as i128 - b as i128)
}

/// Saturating fixed-point multiplication.
pub fn fx_mul(a: i64, b: i64) -> (r: i64)
    ensures
        r as int == fx_mul_s(a as int, b as int),
{
    assert(i128::MIN < (a as int) * (b as int) <= i128::MAX) by (nonlinear_arith)
        requires
            i64::MIN <= a as int <= i64::MAX,
            i64::MIN <= b as int <= i64::MAX,
    ;
    let p: i128 = a as i128 * b as i128;
    let q = div_i128_tz(p, FX_ONE as i128);
    sat_i64(q)
}

/// Saturating fixed-point division.  Division by zero is excluded by
/// contract; every caller tests the denominator first.
pub fn fx_div(a: i64, b: i64) -> (r: i64)
    requires
        b != 0,
    ensures
        r as int == fx_div_s(a as int, b as int),
{
    let n: i128 = a as i128 * FX_ONE as i128;
    assert(n != i128::MIN) by (nonlinear_arith)
        requires
            n == (a as int) * (FX_ONE as int),
            i64::MIN <= a as int <= i64::MAX,
            FX_ONE == 1_000_000_000i64,
    ;
    let q = div_i128_tz(n, b as i128);
    sat_i64(q)
}

/// Saturating absolute value.
pub fn fx_abs(a: i64) -> (r: i64)
    ensures
        r as int == sat64(absi(a as int)),
{
    if a == i64::MIN {
        i64::MAX
    } else if a < 0 {
        -a
    } else {
        a
    }
}

/// Integer square root by bisection.
fn isqrt_u128(x: u128) -> (r: u128)
    requires
        x < 0x10000000000000000000000000u128,  // 2^100
    ensures
        r as int == isqrt_spec(x as int),
        is_isqrt(x as int, r as int),
{
    let mut lo: u128 = 0;
    let mut hi: u128 = 0x8000000000000u128;  // 2^51
    assert(hi * hi > x) by (nonlinear_arith)
        requires
            hi == 0x8000000000000u128,
            x < 0x10000000000000000000000000u128,
    ;
    while lo + 1 < hi
        invariant
            lo < hi,
            hi <= 0x8000000000000u128,
            (lo as int) * (lo as int) <= x as int,
            (x as int) < (hi as int) * (hi as int),
        decreases hi - lo,
    {
        let mid: u128 = lo + (hi - lo) / 2;
        assert(lo < mid < hi);
        assert(mid * mid < 0x40000000000000000000000000u128) by (nonlinear_arith)
            requires
                mid < 0x8000000000000u128,
        ;
        if mid * mid <= x {
            lo = mid;
        } else {
            hi = mid;
        }
    }
    proof {
        assert(is_isqrt(x as int, lo as int));
        lemma_isqrt(x as int);
        lemma_isqrt_unique(x as int, lo as int, isqrt_spec(x as int));
    }
    lo
}

/// Fixed-point square root of a non-negative value.
pub fn fx_sqrt(a: i64) -> (r: i64)
    requires
        a >= 0,
    ensures
        r as int == fx_sqrt_s(a as int),
        is_isqrt(a * FX_ONE, r as int),
{
    assert((a as int) * (FX_ONE as int) < 0x10000000000000000000000000int) by (nonlinear_arith)
        requires
            0 <= a as int <= i64::MAX as int,
            FX_ONE == 1_000_000_000i64,
    ;
    let x: u128 = a as u128 * FX_ONE as u128;
    let r = isqrt_u128(x);
    proof {
        lemma_isqrt(x as int);
        if r as int >= 0x4000000000000i128 as int {
            assert((r as int) * (r as int) >= 0x10000000000000000000000000i128 as int)
                by (nonlinear_arith)
                requires
                    r as int >= 0x4000000000000i128 as int,
            ;
        }
    }
    r as i64
}

} // verus!
