//! Seeded deterministic random source: a xoshiro256+ stream seeded from a
//! single 64-bit value through a splitmix64 expansion, plus the draws the
//! aggregation engine consumes — a 16-bit uniform fraction and a uniform
//! direction on the unit sphere (by rejection sampling of a disc point).
//!
//! Every step is an exact function of the generator state, so a run of the
//! engine is reproducible bit for bit from its seed.

use crate::math::{isqrt_u128, sqrt_floor, tdiv, tdiv_i128, FP_ONE};
use crate::vec3::{v3_bounded, V3};
use vstd::prelude::*;

verus! {

/// Number of rejection-sampling attempts granted to one unit-sphere draw.
/// Each attempt is accepted with probability about pi over four, so the
/// bound is never reached in practice; it makes every draw a total function.
pub const SPHERE_ATTEMPTS: u64 = 64;

/// State of the xoshiro256+ generator: four 64-bit words.
#[derive(Clone, Copy, PartialEq, Eq, Structural, Debug)]
pub struct Rng {
    pub s0: u64,
    pub s1: u64,
    pub s2: u64,
    pub s3: u64,
}

/// One splitmix64 step: the advanced state and the mixed output word.
pub open spec fn splitmix_spec(x: u64) -> (u64, u64) {
    let x1 = x.wrapping_add(0x9e3779b97f4a7c15);
    let z0 = x1;
    let z1 = (z0 ^ (z0 >> 30)).wrapping_mul(0xbf58476d1ce4e5b9);
    let z2 = (z1 ^ (z1 >> 27)).wrapping_mul(0x94d049bb133111eb);
    let z3 = z2 ^ (z2 >> 31);
    (x1, z3)
}

/// The generator state grown from a 64-bit seed: four successive
/// splitmix64 outputs.
pub open spec fn seed_spec(seed: u64) -> Rng {
    let (x1, w0) = splitmix_spec(seed);
    let (x2, w1) = splitmix_spec(x1);
    let (x3, w2) = splitmix_spec(x2);
    let (x4, w3) = splitmix_spec(x3);
    Rng { s0: w0, s1: w1, s2: w2, s3: w3 }
}

/// The output word of the xoshiro256+ state: sum of first and last word.
pub open spec fn rng_out_spec(r: Rng) -> u64 {
    r.s0.wrapping_add(r.s3)
}

/// The xoshiro256+ state transition.
pub open spec fn rng_step_spec(r: Rng) -> Rng {
    let t = r.s1 << 17;
    let s2a = r.s2 ^ r.s0;
    let s3a = r.s3 ^ r.s1;
    let s1b = r.s1 ^ s2a;
    let s0b = r.s0 ^ s3a;
    let s2b = s2a ^ t;
    let s3b = (s3a << 45) | (s3a >> 19);
    Rng { s0: s0b, s1: s1b, s2: s2b, s3: s3b }
}

/// One splitmix64 step.
fn splitmix(x: u64) -> (r: (u64, u64))
    ensures
        r == splitmix_spec(x),
{
    let x1 = x.wrapping_add(0x9e3779b97f4a7c15);
    let z0 = x1;
    let z1 = (z0 ^ (z0 >> 30)).wrapping_mul(0xbf58476d1ce4e5b9);
    let z2 = (z1 ^ (z1 >> 27)).wrapping_mul(0x94d049bb133111eb);
    let z3 = z2 ^ (z2 >> 31);
    (x1, z3)
}

impl Rng {
    /// Builds the generator state for a 64-bit seed.
    pub fn seed(seed: u64) -> (r: Rng)
        ensures
            r == seed_spec(seed),
    {
        let (x1, w0) = splitmix(seed);
        let (x2, w1) = splitmix(x1);
        let (x3, w2) = splitmix(x2);
        let (_x4, w3) = splitmix(x3);
        Rng { s0: w0, s1: w1, s2: w2, s3: w3 }
    }

    /// The next output word of the stream.
    pub fn out(self) -> (o: u64)
        ensures
            o == rng_out_spec(self),
    {
        self.s0.wrapping_add(self.s3)
    }

    /// The state after one draw.
    pub fn step(self) -> (r: Rng)
        ensures
            r == rng_step_spec(self),
    {
        let t = self.s1 << 17;
        let s2a = self.s2 ^ self.s0;
        let s3a = self.s3 ^ self.s1;
        let s1b = self.s1 ^ s2a;
        let s0b = self.s0 ^ s3a;
        let s2b = s2a ^ t;
        let s3b = (s3a << 45) | (s3a >> 19);
        Rng { s0: s0b, s1: s1b, s2: s2b, s3: s3b }
    }
}

/// The 16-bit fraction drawn for one join decision: the top 16 bits of the
/// next output word, a uniform value in `[0, FP_ONE)`.
pub open spec fn fraction16_spec(r: Rng) -> u64 {
    rng_out_spec(r) >> 48
}

/// Draws a uniform fraction in `[0, FP_ONE)` and advances the stream.
pub fn draw_fraction16(r: Rng) -> (out: (u64, Rng))
    ensures
        out.0 == fraction16_spec(r),
        out.0 < 0x10000,
        out.1 == rng_step_spec(r),
{
    let o = r.out();
    proof {
        assert(o >> 48 < 0x10000u64) by (bit_vector);
    }
    (o >> 48, r.step())
}

/// A signed fixed-point coordinate in `[-FP_ONE, FP_ONE)` built from the
/// top 17 bits of an output word.
pub open spec fn signed17_spec(w: u64) -> int {
    (w >> 47) - 65536
}

/// One rejection-sampling attempt for a point on the unit sphere: two
/// coordinates drawn on the square, accepted when they fall inside the
/// unit disc; the accepted pair is lifted onto the sphere.
pub open spec fn sphere_attempt_spec(r: Rng) -> (Option<V3>, Rng) {
    let x1 = signed17_spec(rng_out_spec(r));
    let r1 = rng_step_spec(r);
    let x2 = signed17_spec(rng_out_spec(r1));
    let r2 = rng_step_spec(r1);
    let s = x1 * x1 + x2 * x2;
    if s < (FP_ONE as int) * (FP_ONE as int) {
        let f = 2 * sqrt_floor((FP_ONE as int) * (FP_ONE as int) - s);
        let v = V3 {
            x: tdiv(x1 * f, FP_ONE as int) as i64,
            y: tdiv(x2 * f, FP_ONE as int) as i64,
            z: (FP_ONE as int - tdiv(2 * s, FP_ONE as int)) as i64,
        };
        (Some(v), r2)
    } else {
        (None, r2)
    }
}

/// A uniform direction on the unit sphere, by rejection sampling with a
/// bounded number of attempts: the drawn direction and the advanced state,
/// or the advanced state alone when every attempt was rejected.
pub open spec fn sphere_spec(r: Rng, fuel: nat) -> Result<(V3, Rng), Rng>
    decreases fuel,
{
    if fuel == 0 {
        Err(r)
    } else {
        let (v, r2) = sphere_attempt_spec(r);
        match v {
            Some(dir) => Ok((dir, r2)),
            None => sphere_spec(r2, (fuel - 1) as nat),
        }
    }
}

/// Every direction the sphere draw returns has coordinates within twice
/// the unit scale.
pub proof fn lemma_sphere_bounded(r: Rng, fuel: nat)
    ensures
        sphere_spec(r, fuel) matches Ok((dir, _)) ==> v3_bounded(dir, 0x20000),
    decreases fuel,
{
    if fuel > 0 {
        let (v, r2) = sphere_attempt_spec(r);
        match v {
            Some(dir) => {
                lemma_attempt_bounded(r);
            },
            None => {
                lemma_sphere_bounded(r2, (fuel - 1) as nat);
            },
        }
    }
}

/// One accepted attempt yields coordinates within twice the unit scale.
proof fn lemma_attempt_bounded(r: Rng)
    ensures
        sphere_attempt_spec(r).0 matches Some(dir) ==> v3_bounded(dir, 0x20000),
{
    let w0 = rng_out_spec(r);
    let r1 = rng_step_spec(r);
    let w1 = rng_out_spec(r1);
    assert(w0 >> 47 < 0x20000u64) by (bit_vector);
    assert(w1 >> 47 < 0x20000u64) by (bit_vector);
    let x1 = signed17_spec(w0);
    let x2 = signed17_spec(w1);
    let s = x1 * x1 + x2 * x2;
    if s < (FP_ONE as int) * (FP_ONE as int) {
        assert(0 <= x1 * x1 && 0 <= x2 * x2) by (nonlinear_arith);
        let f = 2 * sqrt_floor((FP_ONE as int) * (FP_ONE as int) - s);
        crate::math::lemma_sqrt_floor_props((FP_ONE as int) * (FP_ONE as int) - s);
        assert(sqrt_floor((FP_ONE as int) * (FP_ONE as int) - s) <= 0x10000) by {
            lemma_sqrt_floor_le((FP_ONE as int) * (FP_ONE as int) - s, 0x100000000);
            crate::math::lemma_sqrt_floor_unique(0x100000000, 0x10000);
        }
        assert(crate::math::abs_i(x1) <= 0x10000);
        assert(crate::math::abs_i(x2) <= 0x10000);
        crate::math::lemma_abs_mul(x1, f, 0x10000, 0x20000);
        crate::math::lemma_abs_mul(x2, f, 0x10000, 0x20000);
        assert(0x10000int * 0x20000int == 0x20000int * 0x10000int) by (nonlinear_arith);
        crate::math::lemma_tdiv_bounded(x1 * f, FP_ONE as int, 0x20000);
        crate::math::lemma_tdiv_bounded(x2 * f, FP_ONE as int, 0x20000);
        assert(2 * s <= 0x20000int * 0x10000int) by (nonlinear_arith)
            requires
                0 <= s,
                s < 0x100000000;
        crate::math::lemma_tdiv_bounded(2 * s, FP_ONE as int, 0x20000);
        crate::math::lemma_tdiv_abs(2 * s, FP_ONE as int);
    }
}

/// The square root floor is monotone.
pub proof fn lemma_sqrt_floor_le(a: int, b: int)
    requires
        0 <= a <= b,
    ensures
        sqrt_floor(a) <= sqrt_floor(b),
{
    crate::math::lemma_sqrt_floor_props(a);
    crate::math::lemma_sqrt_floor_props(b);
    let sa = sqrt_floor(a);
    let sb = sqrt_floor(b);
    if sb < sa {
        assert((sb + 1) * (sb + 1) <= sa * sa) by (nonlinear_arith)
            requires
                0 <= sb + 1 <= sa;
    }
}

/// Draws a direction on the unit sphere, advancing the stream by two words
/// per attempt. Returns `Err` with the advanced state when every attempt
/// was rejected.
pub fn draw_sphere(r: Rng) -> (res: Result<(V3, Rng), Rng>)
    ensures
        res == sphere_spec(r, SPHERE_ATTEMPTS as nat),
        res matches Ok((dir, _)) ==> v3_bounded(dir, 0x20000),
{
    let mut cur = r;
    let mut left: u64 = SPHERE_ATTEMPTS;
    proof {
        lemma_sphere_bounded(r, SPHERE_ATTEMPTS as nat);
    }
    while left > 0
        invariant
            left <= SPHERE_ATTEMPTS,
            sphere_spec(r, SPHERE_ATTEMPTS as nat) == sphere_spec(cur, left as nat),
        decreases left,
    {
        let w0 = cur.out();
        let r1 = cur.step();
        let w1 = r1.out();
        let r2 = r1.step();
        proof {
            assert(w0 >> 47 < 0x20000u64) by (bit_vector);
            assert(w1 >> 47 < 0x20000u64) by (bit_vector);
        }
        let x1: i64 = ((w0 >> 47) as i64) - 65536;
        let x2: i64 = ((w1 >> 47) as i64) - 65536;
        proof {
            crate::math::lemma_le_sq(x1 as int, 0x10000);
            crate::math::lemma_le_sq(x2 as int, 0x10000);
        }
        let s: i64 = x1 * x1 + x2 * x2;
        if s < FP_ONE * FP_ONE {
            proof {
                lemma_attempt_bounded(cur);
            }
            let f_root = isqrt_u128((FP_ONE as u128) * (FP_ONE as u128) - (s as u128));
            let f: i64 = 2 * (f_root as i64);
            proof {
                lemma_sqrt_floor_le(
                    (FP_ONE as int) * (FP_ONE as int) - s as int,
                    0x100000000int,
                );
                crate::math::lemma_sqrt_floor_unique(0x100000000, 0x10000);
                crate::math::lemma_abs_mul(x1 as int, f as int, 0x10000, 0x20000);
                crate::math::lemma_abs_mul(x2 as int, f as int, 0x10000, 0x20000);
            }
            let vx = tdiv_i128((x1 as i128) * (f as i128), FP_ONE as i128) as i64;
            let vy = tdiv_i128((x2 as i128) * (f as i128), FP_ONE as i128) as i64;
            let vz = FP_ONE - tdiv_i128(2 * (s as i128), FP_ONE as i128) as i64;
            proof {
                assert(0x10000int * 0x20000int == 0x20000int * 0x10000int) by (nonlinear_arith);
                crate::math::lemma_tdiv_bounded(x1 as int * f as int, FP_ONE as int, 0x20000);
                crate::math::lemma_tdiv_bounded(x2 as int * f as int, FP_ONE as int, 0x20000);
                assert(2 * (s as int) <= 0x20000int * 0x10000int) by (nonlinear_arith)
                    requires
                        0 <= (s as int),
                        (s as int) < 0x100000000;
                crate::math::lemma_tdiv_bounded(2 * (s as int), FP_ONE as int, 0x20000);
                crate::math::lemma_tdiv_abs(2 * (s as int), FP_ONE as int);
            }
            return Ok((V3 { x: vx, y: vy, z: vz }, r2));
        }
        cur = r2;
        left = left - 1;
    }
    Err(cur)
}

} // verus!
