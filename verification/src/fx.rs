//! Fixed-point scalar arithmetic.
//!
//! A real number `v` is stored as the `i64` tick count `round(v * SCALE)`.
//! Multiplication, division and square root of tick counts are defined here,
//! each with an exact contract over the spec-level counterparts `fmul`,
//! `tdiv` and `sqrt_val`.

use vstd::prelude::*;
use vstd::arithmetic::div_mod::lemma_fundamental_div_mod;

verus! {

/// Number of ticks in one unit of real value.
pub const SCALE: i64 = 1_000_000_000;

/// Half of `SCALE`, used where an exact halving of ticks is needed.
pub const HALF_SCALE: i64 = 500_000_000;

/// Tolerance, in ticks, on the squared magnitude of a unit vector
/// (`1e-6` in real value).
pub const UNIT_TOL: i64 = 1_000;

/// Largest coordinate magnitude, in ticks, that the geometry admits.
pub const COORD_MAX: i64 = 100 * SCALE;

/// Largest component magnitude, in ticks, a dot product accepts.
pub const DOT_MAX: i64 = 4_000 * SCALE;

/// Truncating (round-toward-zero) division, defined for a positive divisor.
pub open spec fn tdiv(a: int, b: int) -> int {
    if a >= 0 {
        a / b
    } else {
        -((-a) / b)
    }
}

/// Absolute value of an integer.
pub open spec fn abs1(a: int) -> int {
    if a >= 0 {
        a
    } else {
        -a
    }
}

/// `r` is the floor of the square root of `n`.
pub open spec fn is_sqrt(n: int, r: int) -> bool {
    0 <= r && r * r <= n && n < (r + 1) * (r + 1)
}

/// The floor of the square root of a nonnegative integer.
pub open spec fn sqrt_val(n: int) -> int {
    choose|r: int| is_sqrt(n, r)
}

/// Product of two tick counts, itself in ticks: `a * b / SCALE`, truncated.
pub open spec fn fmul(a: int, b: int) -> int {
    tdiv(a * b, SCALE as int)
}

/// Square root of a tick count, itself in ticks: since `a` counts ticks of a
/// squared value, the root in ticks is `sqrt(a * SCALE)`.
pub open spec fn fsqrt(a: int) -> int {
    sqrt_val(a * (SCALE as int))
}

/// Sign and rounding facts of truncating division.
pub proof fn lemma_tdiv_facts(a: int, b: int)
    requires
        b > 0,
    ensures
        a >= 0 ==> 0 <= tdiv(a, b) && b * tdiv(a, b) <= a < b * (tdiv(a, b) + 1),
        a < 0 ==> tdiv(a, b) <= 0 && b * tdiv(a, b) - b < a <= b * tdiv(a, b),
        abs1(tdiv(a, b)) * b <= abs1(a),
        abs1(a) < (abs1(tdiv(a, b)) + 1) * b,
{
    if a >= 0 {
        lemma_fundamental_div_mod(a, b);
        vstd::arithmetic::div_mod::lemma_mod_bound(a, b);
        vstd::arithmetic::div_mod::lemma_div_pos_is_pos(a, b);
        let q = a / b;
        let rm = a % b;
        assert(b * q <= a < b * (q + 1) && q * b <= a < (q + 1) * b) by (nonlinear_arith)
            requires
                a == b * q + rm,
                0 <= rm < b,
        ;
    } else {
        lemma_fundamental_div_mod(-a, b);
        vstd::arithmetic::div_mod::lemma_mod_bound(-a, b);
        vstd::arithmetic::div_mod::lemma_div_pos_is_pos(-a, b);
        let q = (-a) / b;
        let rm = (-a) % b;
        assert(b * (-q) - b < a <= b * (-q) && q * b <= -a < (q + 1) * b) by (nonlinear_arith)
            requires
                -a == b * q + rm,
                0 <= rm < b,
        ;
    }
}

/// Truncating division by a positive divisor is monotone on nonnegative
/// dividends.
pub proof fn lemma_tdiv_mono_nonneg(a1: int, a2: int, b: int)
    requires
        0 <= a1 <= a2,
        b > 0,
    ensures
        tdiv(a1, b) <= tdiv(a2, b),
{
    vstd::arithmetic::div_mod::lemma_div_is_ordered(a1, a2, b);
}

/// A product is bounded by the product of the bounds.
pub proof fn lemma_mul_abs_bound(a: int, b: int, ca: int, cb: int)
    by (nonlinear_arith)
    requires
        -ca <= a <= ca,
        -cb <= b <= cb,
    ensures
        -(ca * cb) <= a * b <= ca * cb,
{
}

/// Squaring is monotone on nonnegative integers.
pub proof fn lemma_square_mono(a: int, b: int)
    by (nonlinear_arith)
    requires
        0 <= a <= b,
    ensures
        a * a <= b * b,
{
}

proof fn lemma_sqrt_exists(n: nat)
    ensures
        exists|r: int| is_sqrt(n as int, r),
    decreases n,
{
    if n == 0 {
        assert(is_sqrt(0, 0));
    } else {
        let m: nat = (n - 1) as nat;
        lemma_sqrt_exists(m);
        let r = choose|r: int| is_sqrt(m as int, r);
        if n < (r + 1) * (r + 1) {
            assert(is_sqrt(n as int, r));
        } else {
            assert((r + 1) * (r + 1) < (r + 2) * (r + 2)) by (nonlinear_arith)
                requires
                    r >= 0,
            ;
            assert(is_sqrt(n as int, r + 1));
        }
    }
}

/// `sqrt_val(n)` really is the floor of the square root of `n`.
pub proof fn lemma_sqrt_is(n: int)
    requires
        n >= 0,
    ensures
        is_sqrt(n, sqrt_val(n)),
{
    lemma_sqrt_exists(n as nat);
    assert(is_sqrt(n, sqrt_val(n)));
}

/// The floor of the square root is unique.
pub proof fn lemma_sqrt_unique(n: int, r: int)
    requires
        is_sqrt(n, r),
    ensures
        r == sqrt_val(n),
{
    assert(r * r >= 0) by (nonlinear_arith);
    lemma_sqrt_is(n);
    let s = sqrt_val(n);
    if r < s {
        lemma_square_mono(r + 1, s);
    }
    if s < r {
        lemma_square_mono(s + 1, r);
    }
}

/// Truncating division of an `i128` by a positive divisor.
pub fn tdiv_i128(a: i128, b: i128) -> (r: i128)
    requires
        b > 0,
        a > i128::MIN,
    ensures
        r as int == tdiv(a as int, b as int),
        abs1(r as int) * (b as int) <= abs1(a as int),
{
    proof {
        lemma_tdiv_facts(a as int, b as int);
    }
    if a >= 0 {
        let q: u128 = (a as u128) / (b as u128);
        q as i128
    } else {
        let q: u128 = ((-a) as u128) / (b as u128);
        -(q as i128)
    }
}

/// Product of two tick counts, in ticks.
pub fn fx_mul(a: i64, b: i64) -> (r: i64)
    requires
        -(i64::MAX as int) <= fmul(a as int, b as int) <= i64::MAX as int,
    ensures
        r as int == fmul(a as int, b as int),
{
    proof {
        lemma_mul_abs_bound(
            a as int,
            b as int,
            9223372036854775808int,
            9223372036854775808int,
        );
    }
    let p: i128 = (a as i128) * (b as i128);
    let q: i128 = tdiv_i128(p, SCALE as i128);
    q as i64
}

/// Truncating division of an `i64` by a positive divisor.
pub fn div_pos(a: i64, b: i64) -> (r: i64)
    requires
        b > 0,
        a > i64::MIN,
    ensures
        r as int == tdiv(a as int, b as int),
{
    let q: i128 = tdiv_i128(a as i128, b as i128);
    proof {
        lemma_le_times(abs1(q as int), b as int, abs1(a as int));
    }
    q as i64
}

/// A nonnegative number at most `c` times a positive factor is at most `c`.
pub proof fn lemma_le_times(q: int, b: int, c: int)
    by (nonlinear_arith)
    requires
        q >= 0,
        b >= 1,
        q * b <= c,
    ensures
        q <= c,
{
}

/// Truncating halving of a tick count.
pub fn half_i64(a: i64) -> (r: i64)
    requires
        a > i64::MIN,
    ensures
        r as int == tdiv(a as int, 2),
{
    let q: i128 = tdiv_i128(a as i128, 2);
    q as i64
}

/// Floor square root of a `u128` below `2^94`.
fn isqrt128(n: u128) -> (r: u128)
    requires
        (n as int) < 19807040628566084398385987584int,
    ensures
        is_sqrt(n as int, r as int),
{
    let mut lo: u128 = 0;
    let mut hi: u128 = 140737488355328;
    proof {
        assert(140737488355329int * 140737488355329int > n as int);
    }
    while lo < hi
        invariant
            0 <= lo <= hi <= 140737488355328,
            (lo as int) * (lo as int) <= n as int,
            (n as int) < ((hi as int) + 1) * ((hi as int) + 1),
        decreases hi - lo,
    {
        let mid: u128 = lo + (hi - lo + 1) / 2;
        proof {
            lemma_square_mono(mid as int, 140737488355328int);
        }
        if mid * mid <= n {
            lo = mid;
        } else {
            hi = mid - 1;
        }
    }
    lo
}

/// Square root of a nonnegative tick count, in ticks.
pub fn fx_sqrt(a: i64) -> (r: i64)
    requires
        a >= 0,
    ensures
        r as int == fsqrt(a as int),
        r >= 0,
        is_sqrt(a as int * SCALE as int, r as int),
{
    let n: u128 = (a as u128) * 1_000_000_000u128;
    proof {
        assert(n as int == (a as int) * 1_000_000_000int);
        assert((n as int) < 19807040628566084398385987584int);
    }
    let r128: u128 = isqrt128(n);
    proof {
        if r128 as int >= 140737488355329int {
            lemma_square_mono(140737488355329int, r128 as int);
        }
        lemma_sqrt_unique(n as int, r128 as int);
    }
    r128 as i64
}

} // verus!
