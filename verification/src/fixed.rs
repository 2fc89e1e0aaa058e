//! Scalar fixed-point arithmetic: `i64` values carrying sixteen fractional
//! bits, with truncating (round-toward-zero) rescaling, and an exact integer
//! square root.

use vstd::prelude::*;

verus! {

/// One whole unit in the fixed-point encoding (sixteen fractional bits).
pub const FP_ONE: i64 = 65536;

/// Magnitude bound kept by all scene coordinates, directions and colour
/// channels (256 whole units); it leaves room in an `i64` for the
/// intermediate products of the intersection quadratic.
pub const FP_BOUND: i64 = 0x100_0000;

/// Largest parametric ray distance the renderer considers; stands in for
/// "infinity" when a primary ray is cast.
pub const T_MAX: i64 = 0x10_0000_0000;

/// Truncating division by a positive divisor, rounding toward zero as `/` on
/// `i64` does (`/` on `int` in specifications is Euclidean).
pub open spec fn tdiv(a: int, b: int) -> int {
    if a >= 0 {
        a / b
    } else {
        -((-a) / b)
    }
}

/// Product of two fixed-point numbers, rescaled back to fixed point.
pub open spec fn spec_fmul(a: int, b: int) -> int {
    tdiv(a * b, FP_ONE as int)
}

/// Quotient of two fixed-point numbers, rescaled back to fixed point,
/// rounding toward zero.
pub open spec fn spec_fdiv(a: int, b: int) -> int {
    if b >= 0 {
        tdiv(a * FP_ONE, b)
    } else {
        -tdiv(a * FP_ONE, -b)
    }
}

/// `r` is the integer square root of `n`: the greatest integer whose square
/// does not exceed `n`.
pub open spec fn is_sqrt(n: int, r: int) -> bool {
    r >= 0 && r * r <= n && n < (r + 1) * (r + 1)
}

/// The integer square root as a function, for use in contracts.
pub closed spec fn sqrt_floor(n: int) -> int {
    choose|r: int| #[trigger] is_sqrt(n, r)
}

/// Truncating division by a positive divisor keeps the magnitude bound of
/// the dividend, scaled down by the divisor, and never flips the sign.
pub proof fn lemma_tdiv_abs(a: int, b: int, m: int)
    requires
        b >= 1,
        0 <= m,
        -m <= a <= m,
    ensures
        -(m / b) <= tdiv(a, b) <= m / b,
        -m <= tdiv(a, b) <= m,
        a >= 0 ==> 0 <= tdiv(a, b),
        a <= 0 ==> tdiv(a, b) <= 0,
{
    vstd::arithmetic::div_mod::lemma_div_basics_2(m);
    vstd::arithmetic::div_mod::lemma_div_is_ordered_by_denominator(m, 1, b);
    if a >= 0 {
        vstd::arithmetic::div_mod::lemma_div_is_ordered(a, m, b);
        vstd::arithmetic::div_mod::lemma_div_pos_is_pos(a, b);
    } else {
        vstd::arithmetic::div_mod::lemma_div_is_ordered(-a, m, b);
        vstd::arithmetic::div_mod::lemma_div_pos_is_pos(-a, b);
    }
}

/// Truncating division is odd in its dividend.
pub proof fn lemma_tdiv_neg(a: int, b: int)
    requires
        b >= 1,
    ensures
        tdiv(-a, b) == -tdiv(a, b),
{
    if a == 0 {
        assert(0int / b == 0) by {
            vstd::arithmetic::div_mod::lemma_div_of0(b);
        }
    }
}

/// Truncating division is monotone in its dividend.
pub proof fn lemma_tdiv_mono(a: int, b: int, d: int)
    requires
        a <= b,
        d >= 1,
    ensures
        tdiv(a, d) <= tdiv(b, d),
{
    if a >= 0 {
        vstd::arithmetic::div_mod::lemma_div_is_ordered(a, b, d);
    } else if b >= 0 {
        vstd::arithmetic::div_mod::lemma_div_pos_is_pos(-a, d);
        vstd::arithmetic::div_mod::lemma_div_pos_is_pos(b, d);
    } else {
        vstd::arithmetic::div_mod::lemma_div_is_ordered(-b, -a, d);
    }
}

/// Rescaling by the unit and dividing truncates: the quotient, brought back
/// onto multiples of the divisor, lands within one divisor of the scaled
/// value.
pub proof fn lemma_scaled_div_err(d: int, b: int)
    requires
        b >= 1,
    ensures
        -b < tdiv(d * FP_ONE, b) * b - d * FP_ONE <= b,
{
    let a = d * FP_ONE;
    if a >= 0 {
        vstd::arithmetic::div_mod::lemma_fundamental_div_mod(a, b);
        vstd::arithmetic::div_mod::lemma_mod_division_less_than_divisor(a, b);
        assert((a / b) * b == b * (a / b)) by (nonlinear_arith);
    } else {
        vstd::arithmetic::div_mod::lemma_fundamental_div_mod(-a, b);
        vstd::arithmetic::div_mod::lemma_mod_division_less_than_divisor(-a, b);
        assert((-((-a) / b)) * b == -(b * ((-a) / b))) by (nonlinear_arith);
    }
}

/// A product of values bounded in magnitude is bounded by the product of the
/// bounds.
pub proof fn lemma_mul_abs(a: int, b: int, m: int, n: int)
    by (nonlinear_arith)
    requires
        -m <= a <= m,
        -n <= b <= n,
    ensures
        -(m * n) <= a * b <= m * n,
{
}

/// A fixed-point product of two values in `[0, 1]` stays in `[0, 1]`.
pub proof fn lemma_fmul_unit(a: int, b: int)
    requires
        0 <= a <= FP_ONE,
        0 <= b <= FP_ONE,
    ensures
        0 <= spec_fmul(a, b) <= FP_ONE,
{
    vstd::arithmetic::mul::lemma_mul_nonnegative(a, b);
    lemma_mul_abs(a, b, FP_ONE as int, FP_ONE as int);
    lemma_tdiv_abs(a * b, FP_ONE as int, FP_ONE as int * FP_ONE as int);
}

proof fn lemma_sqrt_exists(n: nat)
    ensures
        exists|r: int| #[trigger] is_sqrt(n as int, r),
    decreases n,
{
    if n == 0 {
        assert(is_sqrt(0, 0));
    } else {
        lemma_sqrt_exists((n - 1) as nat);
        let r = choose|r: int| #[trigger] is_sqrt(n as int - 1, r);
        if (r + 1) * (r + 1) <= n {
            assert(is_sqrt(n as int, r + 1)) by (nonlinear_arith)
                requires
                    is_sqrt(n as int - 1, r) && (r + 1) * (r + 1) <= n,
            ;
        } else {
            assert(is_sqrt(n as int, r));
        }
    }
}

/// For a nonnegative argument, `sqrt_floor` satisfies its defining bracket.
pub proof fn lemma_sqrt_floor_props(n: int)
    requires
        n >= 0,
    ensures
        is_sqrt(n, sqrt_floor(n)),
{
    lemma_sqrt_exists(n as nat);
}

/// The integer square root of a positive number is positive.
pub proof fn lemma_sqrt_floor_pos(n: int)
    requires
        n >= 1,
    ensures
        sqrt_floor(n) >= 1,
        is_sqrt(n, sqrt_floor(n)),
{
    lemma_sqrt_floor_props(n);
    let r = sqrt_floor(n);
    assert(r >= 1) by (nonlinear_arith)
        requires
            r >= 0 && n < (r + 1) * (r + 1) && n >= 1,
    ;
}

/// The integer square root is unique, so a bracketing witness pins
/// `sqrt_floor` down.
pub proof fn lemma_sqrt_is(n: int, r: int)
    requires
        is_sqrt(n, r),
    ensures
        sqrt_floor(n) == r,
{
    lemma_sqrt_exists(n as nat);
    let s = choose|s: int| #[trigger] is_sqrt(n, s);
    assert(s == r) by (nonlinear_arith)
        requires
            is_sqrt(n, s) && is_sqrt(n, r),
    ;
}

/// Fixed-point multiplication. The requirement keeps the rescaled product
/// inside `i64`.
pub fn fmul(a: i64, b: i64) -> (r: i64)
    requires
        -0x4000_0000_0000_0000_0000 <= a as int * b as int <= 0x4000_0000_0000_0000_0000,
    ensures
        r as int == spec_fmul(a as int, b as int),
{
    proof {
        lemma_tdiv_abs(a as int * b as int, FP_ONE as int, 0x4000_0000_0000_0000_0000);
    }
    let p: i128 = (a as i128) * (b as i128);
    (p / 65536) as i64
}

/// Fixed-point division. The dividend bound keeps the rescaled quotient
/// inside `i64` for any nonzero divisor.
pub fn fdiv(a: i64, b: i64) -> (r: i64)
    requires
        b != 0,
        -0x4000_0000_0000 <= a <= 0x4000_0000_0000,
    ensures
        r as int == spec_fdiv(a as int, b as int),
{
    let p: i128 = (a as i128) * 65536;
    let q: i128 = if b > 0 {
        proof {
            lemma_tdiv_abs(p as int, b as int, 0x4000_0000_0000_0000_0000);
        }
        p / (b as i128)
    } else {
        proof {
            lemma_tdiv_abs(p as int, -(b as int), 0x4000_0000_0000_0000_0000);
        }
        -(p / (-(b as i128)))
    };
    q as i64
}

/// Integer square root by bisection.
pub fn isqrt(n: u128) -> (r: u128)
    ensures
        is_sqrt(n as int, r as int),
        r as int == sqrt_floor(n as int),
{
    let mut lo: u128 = 0;
    let mut hi: u128 = 0x1_0000_0000_0000_0000;
    while lo + 1 < hi
        invariant
            0 <= lo < hi <= 0x1_0000_0000_0000_0000,
            lo as int * lo as int <= n as int,
            (n as int) < hi as int * hi as int,
        decreases hi - lo,
    {
        let mid: u128 = lo + (hi - lo) / 2;
        assert(mid as int * mid as int <= u128::MAX) by (nonlinear_arith)
            requires
                0 <= mid < 0x1_0000_0000_0000_0000,
        ;
        if mid * mid <= n {
            lo = mid;
        } else {
            hi = mid;
        }
    }
    proof {
        lemma_sqrt_is(n as int, lo as int);
    }
    lo
}

} // verus!
