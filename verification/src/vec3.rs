//! Three-dimensional vectors over the fixed-point scalar, with the exact
//! integer geometry the aggregation engine is proved against: squared
//! norms and distances, moves along a direction, and placement of a point
//! at a chosen distance from another along their connecting line.

use crate::math::{
    abs_i, isqrt_u128, lemma_abs_mul, lemma_le_sq, lemma_sqrt_floor_props, lemma_tdiv_bounded,
    sqrt_floor, tdiv, tdiv_i128, FP_ONE,
};
use vstd::prelude::*;

verus! {

/// Largest coordinate magnitude the vector operations are specified for.
pub const COORD_LIMIT: i64 = 0x1000000000000;

/// A point or direction in 3-D space, coordinates in fixed-point raw steps.
#[derive(Clone, Copy, PartialEq, Eq, Structural, Debug)]
pub struct V3 {
    pub x: i64,
    pub y: i64,
    pub z: i64,
}

/// All three coordinates have magnitude at most `b`.
pub open spec fn v3_bounded(v: V3, b: int) -> bool {
    abs_i(v.x as int) <= b && abs_i(v.y as int) <= b && abs_i(v.z as int) <= b
}

/// Squared Euclidean norm, as a mathematical integer.
pub open spec fn norm_sq_spec(v: V3) -> int {
    (v.x as int) * (v.x as int) + (v.y as int) * (v.y as int) + (v.z as int) * (v.z as int)
}

/// Squared Euclidean distance between two points.
pub open spec fn dist_sq_spec(a: V3, b: V3) -> int {
    let dx = a.x as int - b.x as int;
    let dy = a.y as int - b.y as int;
    let dz = a.z as int - b.z as int;
    dx * dx + dy * dy + dz * dz
}

/// A squared norm of bounded coordinates is nonnegative and small.
pub proof fn lemma_norm_sq_bounds(v: V3, b: int)
    requires
        v3_bounded(v, b),
        b >= 0,
    ensures
        0 <= norm_sq_spec(v) <= 3 * (b * b),
        (v.x as int) * (v.x as int) <= b * b,
        (v.y as int) * (v.y as int) <= b * b,
        (v.z as int) * (v.z as int) <= b * b,
        0 <= (v.x as int) * (v.x as int),
        0 <= (v.y as int) * (v.y as int),
        0 <= (v.z as int) * (v.z as int),
{
    lemma_le_sq(v.x as int, b);
    lemma_le_sq(v.y as int, b);
    lemma_le_sq(v.z as int, b);
}

/// A squared distance of bounded coordinates is nonnegative and small.
pub proof fn lemma_dist_sq_bounds(a: V3, b: V3, bound: int)
    requires
        v3_bounded(a, bound),
        v3_bounded(b, bound),
        bound >= 0,
    ensures
        0 <= dist_sq_spec(a, b) <= 12 * (bound * bound),
        (a.x as int - b.x as int) * (a.x as int - b.x as int) <= 4 * (bound * bound),
        (a.y as int - b.y as int) * (a.y as int - b.y as int) <= 4 * (bound * bound),
        (a.z as int - b.z as int) * (a.z as int - b.z as int) <= 4 * (bound * bound),
        0 <= (a.x as int - b.x as int) * (a.x as int - b.x as int),
        0 <= (a.y as int - b.y as int) * (a.y as int - b.y as int),
        0 <= (a.z as int - b.z as int) * (a.z as int - b.z as int),
{
    lemma_le_sq(a.x as int - b.x as int, 2 * bound);
    lemma_le_sq(a.y as int - b.y as int, 2 * bound);
    lemma_le_sq(a.z as int - b.z as int, 2 * bound);
    assert((2 * bound) * (2 * bound) == 4 * (bound * bound)) by (nonlinear_arith);
}

/// Squared norm of a point with bounded coordinates.
pub fn norm_sq(v: V3) -> (n: u128)
    requires
        v3_bounded(v, 0x4000000000000),
    ensures
        n as int == norm_sq_spec(v),
        n < 0x1000000000000000000000000000000u128,
{
    proof {
        lemma_norm_sq_bounds(v, 0x4000000000000);
    }
    let xx: i128 = (v.x as i128) * (v.x as i128);
    let yy: i128 = (v.y as i128) * (v.y as i128);
    let zz: i128 = (v.z as i128) * (v.z as i128);
    (xx + yy + zz) as u128
}

/// Squared distance between two points with bounded coordinates.
pub fn dist_sq(a: V3, b: V3) -> (n: u128)
    requires
        v3_bounded(a, COORD_LIMIT as int),
        v3_bounded(b, COORD_LIMIT as int),
    ensures
        n as int == dist_sq_spec(a, b),
        n < 0x1000000000000000000000000000000u128,
{
    proof {
        lemma_dist_sq_bounds(a, b, COORD_LIMIT as int);
    }
    let dx: i64 = a.x - b.x;
    let dy: i64 = a.y - b.y;
    let dz: i64 = a.z - b.z;
    let xx: i128 = (dx as i128) * (dx as i128);
    let yy: i128 = (dy as i128) * (dy as i128);
    let zz: i128 = (dz as i128) * (dz as i128);
    (xx + yy + zz) as u128
}

/// A value whose square is at most `ns` has magnitude at most the square
/// root floor of `ns`.
pub proof fn lemma_abs_le_sqrt(c: int, ns: int)
    requires
        ns >= 0,
        c * c <= ns,
    ensures
        abs_i(c) <= sqrt_floor(ns),
{
    lemma_sqrt_floor_props(ns);
    let n = sqrt_floor(ns);
    if abs_i(c) > n {
        assert((n + 1) * (n + 1) <= abs_i(c) * abs_i(c)) by (nonlinear_arith)
            requires
                0 <= n + 1 <= abs_i(c);
        assert(abs_i(c) * abs_i(c) == c * c) by (nonlinear_arith);
    }
}

/// Each coordinate is bounded by the square root floor of the squared norm.
pub proof fn lemma_coord_le_norm(v: V3)
    ensures
        norm_sq_spec(v) >= 0,
        abs_i(v.x as int) <= sqrt_floor(norm_sq_spec(v)),
        abs_i(v.y as int) <= sqrt_floor(norm_sq_spec(v)),
        abs_i(v.z as int) <= sqrt_floor(norm_sq_spec(v)),
{
    let ns = norm_sq_spec(v);
    assert(0 <= (v.x as int) * (v.x as int) && 0 <= (v.y as int) * (v.y as int) && 0 <= (v.z
        as int) * (v.z as int)) by (nonlinear_arith);
    lemma_abs_le_sqrt(v.x as int, ns);
    lemma_abs_le_sqrt(v.y as int, ns);
    lemma_abs_le_sqrt(v.z as int, ns);
}

/// A coordinate no larger than the divisor keeps the scaled quotient
/// within the scaling distance.
proof fn lemma_div_step(c: int, d: int, n: int)
    requires
        n > 0,
        abs_i(c) <= n,
    ensures
        abs_i(tdiv(c * d, n)) <= abs_i(d),
{
    lemma_abs_mul(c, d, n, abs_i(d));
    assert(n * abs_i(d) == abs_i(d) * n) by (nonlinear_arith);
    lemma_tdiv_bounded(c * d, n, abs_i(d));
}

/// The point at distance roughly `d` from `a`, along the ray from `a`
/// through `b`; each coordinate moves by at most `abs(d)`. When `a` and
/// `b` coincide the direction is degenerate and `a` itself is returned.
pub open spec fn lerp_toward_spec(a: V3, b: V3, d: int) -> V3 {
    let dx = b.x as int - a.x as int;
    let dy = b.y as int - a.y as int;
    let dz = b.z as int - a.z as int;
    let n = sqrt_floor(dx * dx + dy * dy + dz * dz);
    if n == 0 {
        a
    } else {
        V3 {
            x: (a.x as int + tdiv(dx * d, n)) as i64,
            y: (a.y as int + tdiv(dy * d, n)) as i64,
            z: (a.z as int + tdiv(dz * d, n)) as i64,
        }
    }
}

/// Componentwise: the result of `lerp_toward_spec` stays within `abs(d)`
/// of the starting point `a`.
pub proof fn lemma_lerp_toward_close(a: V3, b: V3, d: int)
    requires
        v3_bounded(a, COORD_LIMIT as int),
        v3_bounded(b, COORD_LIMIT as int),
        abs_i(d) <= COORD_LIMIT as int,
    ensures
        abs_i(lerp_toward_spec(a, b, d).x as int - a.x as int) <= abs_i(d),
        abs_i(lerp_toward_spec(a, b, d).y as int - a.y as int) <= abs_i(d),
        abs_i(lerp_toward_spec(a, b, d).z as int - a.z as int) <= abs_i(d),
{
    let dx = b.x as int - a.x as int;
    let dy = b.y as int - a.y as int;
    let dz = b.z as int - a.z as int;
    let diff = V3 { x: (dx) as i64, y: (dy) as i64, z: (dz) as i64 };
    let ns = dx * dx + dy * dy + dz * dz;
    assert(norm_sq_spec(diff) == ns);
    let n = sqrt_floor(ns);
    lemma_coord_le_norm(diff);
    if n != 0 {
        lemma_div_step(dx, d, n);
        lemma_div_step(dy, d, n);
        lemma_div_step(dz, d, n);
    }
}

/// Moves from `a` toward (or away from) `b`, ending at truncated distance
/// `d` from `a` along the connecting line.
pub fn lerp_toward(a: V3, b: V3, d: i64) -> (r: V3)
    requires
        v3_bounded(a, COORD_LIMIT as int),
        v3_bounded(b, COORD_LIMIT as int),
        0 <= d <= COORD_LIMIT,
    ensures
        r == lerp_toward_spec(a, b, d as int),
        v3_bounded(r, COORD_LIMIT as int + d as int),
{
    proof {
        lemma_lerp_toward_close(a, b, d as int);
    }
    let dx: i64 = b.x - a.x;
    let dy: i64 = b.y - a.y;
    let dz: i64 = b.z - a.z;
    let dv = V3 { x: dx, y: dy, z: dz };
    let ns = norm_sq(dv);
    let n = isqrt_u128(ns);
    if n == 0 {
        a
    } else {
        proof {
            lemma_coord_le_norm(dv);
            lemma_abs_mul(dx as int, d as int, 0x4000000000000int, 0x1000000000000int);
            lemma_abs_mul(dy as int, d as int, 0x4000000000000int, 0x1000000000000int);
            lemma_abs_mul(dz as int, d as int, 0x4000000000000int, 0x1000000000000int);
            lemma_abs_mul(dx as int, d as int, n as int, d as int);
            lemma_abs_mul(dy as int, d as int, n as int, d as int);
            lemma_abs_mul(dz as int, d as int, n as int, d as int);
            assert((n as int) * (d as int) == (d as int) * (n as int)) by (nonlinear_arith);
            lemma_tdiv_bounded(dx as int * d as int, n as int, d as int);
            lemma_tdiv_bounded(dy as int * d as int, n as int, d as int);
            lemma_tdiv_bounded(dz as int * d as int, n as int, d as int);
        }
        let ox = tdiv_i128((dx as i128) * (d as i128), n as i128) as i64;
        let oy = tdiv_i128((dy as i128) * (d as i128), n as i128) as i64;
        let oz = tdiv_i128((dz as i128) * (d as i128), n as i128) as i64;
        V3 { x: a.x + ox, y: a.y + oy, z: a.z + oz }
    }
}

/// The point reached from `p` by a step of length scale `m` along the
/// fixed-point direction `dir` (a vector of roughly unit length).
pub open spec fn add_scaled_spec(p: V3, dir: V3, m: int) -> V3 {
    V3 {
        x: (p.x as int + tdiv(dir.x as int * m, FP_ONE as int)) as i64,
        y: (p.y as int + tdiv(dir.y as int * m, FP_ONE as int)) as i64,
        z: (p.z as int + tdiv(dir.z as int * m, FP_ONE as int)) as i64,
    }
}

/// Steps from `p` along direction `dir` with magnitude `m`; each
/// coordinate moves by at most `2 * m + 1`.
pub fn add_scaled(p: V3, dir: V3, m: i64) -> (r: V3)
    requires
        v3_bounded(p, COORD_LIMIT as int),
        v3_bounded(dir, 0x20000),
        0 <= m <= COORD_LIMIT,
    ensures
        r == add_scaled_spec(p, dir, m as int),
        v3_bounded(r, COORD_LIMIT as int + 2 * m as int),
{
    proof {
        lemma_scaled_bounds(dir.x as int, m as int);
        lemma_scaled_bounds(dir.y as int, m as int);
        lemma_scaled_bounds(dir.z as int, m as int);
    }
    let ox = tdiv_i128((dir.x as i128) * (m as i128), FP_ONE as i128) as i64;
    let oy = tdiv_i128((dir.y as i128) * (m as i128), FP_ONE as i128) as i64;
    let oz = tdiv_i128((dir.z as i128) * (m as i128), FP_ONE as i128) as i64;
    V3 { x: p.x + ox, y: p.y + oy, z: p.z + oz }
}

/// A fixed-point direction component scaled by `m` moves by at most `2 m`.
proof fn lemma_scaled_bounds(c: int, m: int)
    requires
        abs_i(c) <= 0x20000,
        0 <= m,
    ensures
        abs_i(tdiv(c * m, FP_ONE as int)) <= 2 * m,
{
    lemma_abs_mul(c, m, 0x20000, m);
    assert(0x20000 * m == (2 * m) * 0x10000) by (nonlinear_arith);
    lemma_tdiv_bounded(c * m, FP_ONE as int, 2 * m);
}

/// The point on the sphere of radius scale `k` in direction `dir`.
pub open spec fn scale_dir_spec(dir: V3, k: int) -> V3 {
    V3 {
        x: tdiv(dir.x as int * k, FP_ONE as int) as i64,
        y: tdiv(dir.y as int * k, FP_ONE as int) as i64,
        z: tdiv(dir.z as int * k, FP_ONE as int) as i64,
    }
}

/// Scales a fixed-point unit direction up to radius `k`.
pub fn scale_dir(dir: V3, k: i64) -> (r: V3)
    requires
        v3_bounded(dir, 0x20000),
        0 <= k <= COORD_LIMIT,
    ensures
        r == scale_dir_spec(dir, k as int),
        v3_bounded(r, 2 * k as int),
{
    proof {
        lemma_scaled_bounds(dir.x as int, k as int);
        lemma_scaled_bounds(dir.y as int, k as int);
        lemma_scaled_bounds(dir.z as int, k as int);
    }
    let ox = tdiv_i128((dir.x as i128) * (k as i128), FP_ONE as i128) as i64;
    let oy = tdiv_i128((dir.y as i128) * (k as i128), FP_ONE as i128) as i64;
    let oz = tdiv_i128((dir.z as i128) * (k as i128), FP_ONE as i128) as i64;
    V3 { x: ox, y: oy, z: oz }
}


} // verus!
