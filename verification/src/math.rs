//! Fixed-point scalar arithmetic: truncating division, integer square
//! roots, interpolation, and quarter-wave trigonometry.
//!
//! A scalar distance is carried as an `i64` holding `FP_ONE` raw steps per
//! unit, so every operation here is exact integer arithmetic with a
//! mathematical definition that the executable code is proved to match.

use vstd::arithmetic::div_mod::{
    lemma_div_is_ordered, lemma_div_multiples_vanish, lemma_div_nonincreasing,
    lemma_div_pos_is_pos, lemma_multiply_divide_le, lemma_remainder, lemma_remainder_lower,
};
use vstd::arithmetic::mul::{
    lemma_mul_inequality, lemma_mul_is_commutative, lemma_mul_unary_negation,
};
use vstd::prelude::*;

verus! {

/// Scale factor of the fixed-point scalars: one unit of distance is
/// `FP_ONE` raw steps.
pub const FP_ONE: i64 = 65536;

/// One full turn (two pi) in fixed-point radians.
pub const TAU_FP: i64 = 411775;

/// A quarter turn (pi over two) in fixed-point radians.
pub const HALF_PI_FP: i64 = 102944;

/// Absolute value of a mathematical integer.
pub open spec fn abs_i(a: int) -> int {
    if a >= 0 {
        a
    } else {
        -a
    }
}

/// Truncating division (rounds toward zero), defined for positive divisors.
pub open spec fn tdiv(a: int, b: int) -> int
    recommends
        b > 0,
{
    if a >= 0 {
        a / b
    } else {
        -((-a) / b)
    }
}

/// Squares do not shrink: comparing magnitudes is the same as comparing squares.
pub proof fn lemma_sq_le(a: int, b: int)
    by (nonlinear_arith)
    requires
        a * a <= b * b,
        b >= 0,
    ensures
        -b <= a <= b,
{
}

/// Magnitude comparison carries over to squares.
pub proof fn lemma_le_sq(a: int, b: int)
    by (nonlinear_arith)
    requires
        -b <= a <= b,
    ensures
        a * a <= b * b,
        a * a >= 0,
{
}

/// Products of bounded factors are bounded by the product of the bounds.
pub proof fn lemma_abs_mul(u: int, v: int, bu: int, bv: int)
    by (nonlinear_arith)
    requires
        abs_i(u) <= bu,
        abs_i(v) <= bv,
    ensures
        abs_i(u * v) <= bu * bv,
{
}

/// The magnitude of a truncating quotient, scaled back up by the divisor,
/// never exceeds the magnitude of the dividend.
pub proof fn lemma_tdiv_abs(a: int, b: int)
    requires
        b > 0,
    ensures
        abs_i(tdiv(a, b)) * b <= abs_i(a),
        abs_i(tdiv(a, b)) <= abs_i(a),
        a >= 0 ==> tdiv(a, b) >= 0,
        a <= 0 ==> tdiv(a, b) <= 0,
{
    let m = abs_i(a);
    lemma_remainder_lower(m, b);
    lemma_div_nonincreasing(m, b);
    lemma_div_pos_is_pos(m, b);
}

/// A truncating quotient scaled by a bound on the dividend stays below
/// that bound: if `abs(a) <= c * b` then `abs(tdiv(a, b)) <= c`.
pub proof fn lemma_tdiv_bounded(a: int, b: int, c: int)
    requires
        b > 0,
        c >= 0,
        abs_i(a) <= c * b,
    ensures
        abs_i(tdiv(a, b)) <= c,
{
    let m = abs_i(a);
    assert(m <= b * c) by {
        lemma_mul_is_commutative(b, c);
    }
    lemma_multiply_divide_le(m, b, c);
    lemma_div_pos_is_pos(m, b);
}

/// Truncating division of `a` raw steps by a positive `b`, carried out on
/// `i128` so that wide intermediate products can be reduced.
pub fn tdiv_i128(a: i128, b: i128) -> (r: i128)
    requires
        b > 0,
        a > i128::MIN,
    ensures
        r == tdiv(a as int, b as int),
{
    if a >= 0 {
        let q: u128 = (a as u128) / (b as u128);
        proof {
            lemma_div_nonincreasing(a as int, b as int);
            lemma_div_pos_is_pos(a as int, b as int);
        }
        q as i128
    } else {
        let neg: i128 = -a;
        let q: u128 = (neg as u128) / (b as u128);
        proof {
            lemma_div_nonincreasing(neg as int, b as int);
            lemma_div_pos_is_pos(neg as int, b as int);
        }
        -(q as i128)
    }
}

/// Floor of the square root of `x`.
pub fn isqrt_u128(x: u128) -> (r: u64)
    requires
        x < 0x1000000000000000000000000000000u128,
    ensures
        (r as int) * (r as int) <= x as int,
        (x as int) < (r as int + 1) * (r as int + 1),
        r <= 0x1000000000000000u64,
        r == sqrt_floor(x as int),
{
    let mut lo: u64 = 0;
    let mut hi: u64 = 0x1000000000000000u64;
    proof {
        assert(0x1000000000000000int * 0x1000000000000000int
            == 0x1000000000000000000000000000000int);
    }
    while lo + 1 < hi
        invariant
            lo < hi,
            hi <= 0x1000000000000000u64,
            (lo as int) * (lo as int) <= x as int,
            (x as int) < (hi as int) * (hi as int),
        decreases hi - lo,
    {
        let mid: u64 = lo + (hi - lo) / 2;
        proof {
            lemma_div_nonincreasing(hi as int - lo as int, 2);
            lemma_le_sq(mid as int, 0x1000000000000000int);
        }
        if (mid as u128) * (mid as u128) <= x {
            lo = mid;
        } else {
            hi = mid;
        }
    }
    proof {
        lemma_sqrt_floor_unique(x as int, lo as int);
    }
    lo
}

/// Ceiling of the square root of `x`.
pub fn isqrt_ceil_u128(x: u128) -> (r: u64)
    requires
        x < 0x1000000000000000000000000000000u128,
    ensures
        (r as int) * (r as int) >= x as int,
        r > 0 ==> (r as int - 1) * (r as int - 1) < x as int,
        r == 0 ==> x == 0,
        r <= 0x1000000000000001u64,
        r == sqrt_ceil(x as int),
{
    let f = isqrt_u128(x);
    proof {
        assert(f as int > 0 ==> (f as int - 1) * (f as int - 1) < (f as int) * (f as int))
            by (nonlinear_arith);
    }
    if (f as u128) * (f as u128) == x {
        f
    } else {
        f + 1
    }
}

/// Floor of the mathematical square root, as a specification-level
/// function: the largest `r` with `r * r <= n`.
pub open spec fn sqrt_floor(n: int) -> int
    decreases n,
{
    if n <= 0 {
        0
    } else {
        let r = sqrt_floor(n - 1);
        if (r + 1) * (r + 1) <= n {
            r + 1
        } else {
            r
        }
    }
}

/// `sqrt_floor` brackets its argument between consecutive squares.
pub proof fn lemma_sqrt_floor_props(n: int)
    requires
        n >= 0,
    ensures
        sqrt_floor(n) >= 0,
        sqrt_floor(n) * sqrt_floor(n) <= n,
        n < (sqrt_floor(n) + 1) * (sqrt_floor(n) + 1),
    decreases n,
{
    if n == 0 {
        assert(sqrt_floor(0) == 0);
    } else {
        lemma_sqrt_floor_props(n - 1);
        let r = sqrt_floor(n - 1);
        assert((r + 1) * (r + 1) + 1 <= (r + 2) * (r + 2)) by (nonlinear_arith)
            requires
                r >= 0;
    }
}

/// Any value bracketed between consecutive squares is the square root floor.
pub proof fn lemma_sqrt_floor_unique(n: int, r: int)
    requires
        n >= 0,
        r >= 0,
        r * r <= n,
        n < (r + 1) * (r + 1),
    ensures
        r == sqrt_floor(n),
{
    lemma_sqrt_floor_props(n);
    let s = sqrt_floor(n);
    if r < s {
        assert((r + 1) * (r + 1) <= s * s) by (nonlinear_arith)
            requires
                0 <= r < s;
    }
    if s < r {
        assert((s + 1) * (s + 1) <= r * r) by (nonlinear_arith)
            requires
                0 <= s < r;
    }
}

/// Ceiling of the mathematical square root.
pub open spec fn sqrt_ceil(n: int) -> int {
    let f = sqrt_floor(n);
    if f * f == n {
        f
    } else {
        f + 1
    }
}

/// The square root ceiling brackets its argument and dominates the floor.
pub proof fn lemma_sqrt_ceil_props(n: int)
    requires
        n >= 0,
    ensures
        sqrt_ceil(n) >= sqrt_floor(n) >= 0,
        sqrt_ceil(n) * sqrt_ceil(n) >= n,
        sqrt_ceil(n) <= sqrt_floor(n) + 1,
{
    lemma_sqrt_floor_props(n);
}

/// A bound on a square is a bound on the square root ceiling.
pub proof fn lemma_sqrt_ceil_le(n: int, c: int)
    requires
        0 <= n,
        0 <= c,
        n <= c * c,
    ensures
        sqrt_ceil(n) <= c,
{
    lemma_sqrt_floor_props(n);
    let f = sqrt_floor(n);
    if f > c {
        assert(c * c < f * f) by (nonlinear_arith)
            requires
                0 <= c < f;
    }
    if f * f != n && f == c {
        assert(false);
    }
}

/// A bound on a square is a bound on the square root floor.
pub proof fn lemma_sqrt_floor_le_c(n: int, c: int)
    requires
        0 <= n,
        0 <= c,
        n <= c * c,
    ensures
        sqrt_floor(n) <= c,
{
    lemma_sqrt_floor_props(n);
    let f = sqrt_floor(n);
    if f > c {
        assert(c * c < f * f) by (nonlinear_arith)
            requires
                0 <= c < f;
    }
}

/// Fixed-point product reduced by the scale, rounding toward zero.
pub open spec fn fx_mul_spec(a: int, b: int) -> int {
    tdiv(a * b, FP_ONE as int)
}

/// Fixed-point multiplication: `a` times `b` in raw steps.
pub fn fx_mul(a: i64, b: i64) -> (r: i64)
    requires
        abs_i(a as int * b as int) <= 0x4000000000000000,
    ensures
        r == fx_mul_spec(a as int, b as int),
        abs_i(r as int) * (FP_ONE as int) <= abs_i(a as int * b as int),
{
    proof {
        lemma_tdiv_abs(a as int * b as int, FP_ONE as int);
        lemma_tdiv_bounded(a as int * b as int, FP_ONE as int, 0x400000000000);
    }
    let p: i128 = (a as i128) * (b as i128);
    let q = tdiv_i128(p, FP_ONE as i128);
    q as i64
}

/// Linear interpolation from `a` to `b` at fraction `p` of `n`.
pub open spec fn lerp_spec(a: int, b: int, p: int, n: int) -> int {
    a + tdiv((b - a) * p, n)
}

/// The interpolant stays between its endpoints.
pub proof fn lemma_lerp_between(a: int, b: int, p: int, n: int)
    requires
        0 <= p < n,
    ensures
        a <= b ==> a <= lerp_spec(a, b, p, n) <= b,
        b <= a ==> b <= lerp_spec(a, b, p, n) <= a,
        abs_i(lerp_spec(a, b, p, n) - a) <= abs_i(b - a),
{
    let d = b - a;
    let t = tdiv(d * p, n);
    if d >= 0 {
        assert(0 <= d * p) by {
            lemma_mul_inequality(0, d, p);
            lemma_mul_is_commutative(d, p);
        }
        assert(d * p <= n * d) by {
            lemma_mul_inequality(p, n, d);
            lemma_mul_is_commutative(d, p);
            lemma_mul_is_commutative(d, n);
        }
        lemma_tdiv_bounded(d * p, n, d);
        lemma_tdiv_abs(d * p, n);
    } else {
        assert(-(d * p) == (-d) * p) by {
            lemma_mul_unary_negation(d, p);
        }
        assert(0 <= (-d) * p) by {
            lemma_mul_inequality(0, -d, p);
            lemma_mul_is_commutative(-d, p);
        }
        assert((-d) * p <= n * (-d)) by {
            lemma_mul_inequality(p, n, -d);
            lemma_mul_is_commutative(-d, p);
            lemma_mul_is_commutative(-d, n);
        }
        lemma_tdiv_bounded(d * p, n, -d);
        lemma_tdiv_abs(d * p, n);
    }
}

/// Linear interpolation between two endpoints, evaluated at step `p` of `n`.
/// The result always lies between the endpoints.
pub fn lerp(a: i64, b: i64, p: u32, n: u32) -> (r: i64)
    requires
        p < n,
        abs_i(a as int) <= 0x100000000000,
        abs_i(b as int) <= 0x100000000000,
    ensures
        r == lerp_spec(a as int, b as int, p as int, n as int),
        a <= b ==> a <= r <= b,
        b <= a ==> b <= r <= a,
{
    proof {
        lemma_lerp_between(a as int, b as int, p as int, n as int);
        lemma_abs_mul(b as int - a as int, p as int, 0x200000000000int, 0x100000000int);
    }
    let d: i128 = (b as i128 - a as i128) * (p as i128);
    let q = tdiv_i128(d, n as i128);
    (a as i128 + q) as i64
}

/// Quarter-wave sine by a truncated Taylor series, on `[0, HALF_PI_FP]`.
pub open spec fn sin_quarter_spec(x: int) -> int {
    let x2 = fx_mul_spec(x, x);
    let x3 = fx_mul_spec(x2, x);
    let x5 = fx_mul_spec(x3, x2);
    let x7 = fx_mul_spec(x5, x2);
    x - tdiv(x3, 6) + tdiv(x5, 120) - tdiv(x7, 5040)
}

/// Sine on the first quarter turn, `x` in fixed-point radians.
pub fn sin_quarter(x: i64) -> (r: i64)
    requires
        0 <= x <= HALF_PI_FP,
    ensures
        r == sin_quarter_spec(x as int),
        abs_i(r as int) <= 0x200000,
{
    proof {
        lemma_abs_mul(x as int, x as int, HALF_PI_FP as int, HALF_PI_FP as int);
    }
    let x2 = fx_mul(x, x);
    proof {
        lemma_tdiv_bounded(x as int * x as int, FP_ONE as int, 0x30000);
        lemma_abs_mul(x2 as int, x as int, 0x30000, HALF_PI_FP as int);
    }
    let x3 = fx_mul(x2, x);
    proof {
        lemma_tdiv_bounded(x2 as int * x as int, FP_ONE as int, 0x80000);
        lemma_abs_mul(x3 as int, x2 as int, 0x80000, 0x30000);
    }
    let x5 = fx_mul(x3, x2);
    proof {
        lemma_tdiv_bounded(x3 as int * x2 as int, FP_ONE as int, 0x180000);
        lemma_abs_mul(x5 as int, x2 as int, 0x180000, 0x30000);
    }
    let x7 = fx_mul(x5, x2);
    proof {
        lemma_tdiv_bounded(x5 as int * x2 as int, FP_ONE as int, 0x480000);
        lemma_tdiv_abs(x3 as int, 6);
        lemma_tdiv_abs(x5 as int, 120);
        lemma_tdiv_abs(x7 as int, 5040);
    }
    let t3 = tdiv_i128(x3 as i128, 6) as i64;
    let t5 = tdiv_i128(x5 as i128, 120) as i64;
    let t7 = tdiv_i128(x7 as i128, 5040) as i64;
    x - t3 + t5 - t7
}

/// Sine over a full turn, `angle` in fixed-point radians in `[0, TAU_FP)`.
pub open spec fn sin_fp_spec(angle: int) -> int {
    let q = angle / (HALF_PI_FP as int);
    let rem = angle - q * (HALF_PI_FP as int);
    if q == 0 {
        sin_quarter_spec(rem)
    } else if q == 1 {
        sin_quarter_spec(HALF_PI_FP as int - rem)
    } else if q == 2 {
        -sin_quarter_spec(rem)
    } else {
        -sin_quarter_spec(HALF_PI_FP as int - rem)
    }
}

/// Cosine over a full turn, `angle` in fixed-point radians in `[0, TAU_FP)`.
pub open spec fn cos_fp_spec(angle: int) -> int {
    let q = angle / (HALF_PI_FP as int);
    let rem = angle - q * (HALF_PI_FP as int);
    if q == 0 {
        sin_quarter_spec(HALF_PI_FP as int - rem)
    } else if q == 1 {
        -sin_quarter_spec(rem)
    } else if q == 2 {
        -sin_quarter_spec(HALF_PI_FP as int - rem)
    } else {
        sin_quarter_spec(rem)
    }
}

/// Quadrant split of an angle in `[0, TAU_FP)`: quadrant index and remainder.
fn quadrant(angle: i64) -> (qr: (i64, i64))
    requires
        0 <= angle < TAU_FP,
    ensures
        qr.0 == angle as int / (HALF_PI_FP as int),
        qr.1 == angle as int - qr.0 * (HALF_PI_FP as int),
        0 <= qr.0 <= 3,
        0 <= qr.1 <= HALF_PI_FP,
{
    let q: u64 = (angle as u64) / (HALF_PI_FP as u64);
    proof {
        lemma_remainder(angle as int, HALF_PI_FP as int);
        lemma_div_is_ordered(angle as int, TAU_FP as int - 1, HALF_PI_FP as int);
        assert((TAU_FP - 1) as int / (HALF_PI_FP as int) == 3) by {
            lemma_div_multiples_vanish(4, HALF_PI_FP as int);
            lemma_div_is_ordered(TAU_FP as int - 1, HALF_PI_FP as int * 4, HALF_PI_FP as int);
            lemma_div_is_ordered(HALF_PI_FP as int * 3, TAU_FP as int - 1, HALF_PI_FP as int);
            lemma_div_multiples_vanish(3, HALF_PI_FP as int);
        }
    }
    let rem: i64 = angle - (q as i64) * HALF_PI_FP;
    (q as i64, rem)
}

/// Sine over a full turn in fixed-point radians.
pub fn sin_fp(angle: i64) -> (r: i64)
    requires
        0 <= angle < TAU_FP,
    ensures
        r == sin_fp_spec(angle as int),
        abs_i(r as int) <= 0x200000,
{
    let (q, rem) = quadrant(angle);
    if q == 0 {
        sin_quarter(rem)
    } else if q == 1 {
        sin_quarter(HALF_PI_FP - rem)
    } else if q == 2 {
        -sin_quarter(rem)
    } else {
        -sin_quarter(HALF_PI_FP - rem)
    }
}

/// Cosine over a full turn in fixed-point radians.
pub fn cos_fp(angle: i64) -> (r: i64)
    requires
        0 <= angle < TAU_FP,
    ensures
        r == cos_fp_spec(angle as int),
        abs_i(r as int) <= 0x200000,
{
    let (q, rem) = quadrant(angle);
    if q == 0 {
        sin_quarter(HALF_PI_FP - rem)
    } else if q == 1 {
        -sin_quarter(rem)
    } else if q == 2 {
        -sin_quarter(HALF_PI_FP - rem)
    } else {
        sin_quarter(rem)
    }
}

} // verus!
