//! The aggregation engine: run parameters and their validation, the
//! particle store with its join-attempt counters and bounding radius, the
//! join policy, and the diffusion walk that grows the cluster particle by
//! particle.
//!
//! Every executable step is proved equal to a specification-level
//! transition function of the engine state, so the whole run is an exact
//! function of the configuration and the random seed.

use crate::index::{nearest_in, SpatialIndex};
use crate::math::{
    abs_i, cos_fp, cos_fp_spec, fx_mul, fx_mul_spec, isqrt_ceil_u128, isqrt_u128, lemma_abs_mul,
    lemma_le_sq, lemma_sq_le, lemma_sqrt_ceil_le, lemma_sqrt_ceil_props, lemma_sqrt_floor_le_c,
    lemma_sqrt_floor_props, lerp, lerp_spec, sin_fp, sin_fp_spec, sqrt_ceil, sqrt_floor, tdiv,
    tdiv_i128, FP_ONE, TAU_FP,
};
use crate::rng::{
    draw_fraction16, draw_sphere, fraction16_spec, rng_out_spec, rng_step_spec, seed_spec,
    sphere_spec, Rng, SPHERE_ATTEMPTS,
};
use crate::vec3::{
    add_scaled, add_scaled_spec, dist_sq, dist_sq_spec, lemma_coord_le_norm,
    lemma_dist_sq_bounds, lemma_norm_sq_bounds, lerp_toward, lerp_toward_spec, norm_sq,
    norm_sq_spec, scale_dir, scale_dir_spec, v3_bounded, V3, COORD_LIMIT,
};
use vstd::prelude::*;

verus! {

/// Largest magnitude accepted for a configured distance or scale.
pub const INPUT_LIMIT: i64 = 0x10000000000;

/// Largest bounding radius the engine lets the cluster reach; a placement
/// that would exceed it stops the run instead of overflowing.
pub const RADIUS_LIMIT: i64 = 0x100000000000;

/// Initial shape of the cluster before the diffusion loop runs.
#[derive(Clone, Copy, PartialEq, Eq, Structural, Debug)]
pub enum StartShape {
    /// A single seed particle at the origin.
    Point,
    /// `count` seed particles evenly spaced on a circle of the given
    /// diameter in the plane `z = 0`, in increasing angle order from zero.
    Ring { diameter: i64, count: u32 },
}

/// Run configuration, all scalars in fixed-point raw steps.
#[derive(Clone, Copy, PartialEq, Eq, Structural, Debug)]
pub struct Params {
    /// Seed of the random stream.
    pub random_seed: u64,
    /// Total particle budget, seed particles included.
    pub particles: u32,
    /// A walker within this distance of a particle is in contact.
    pub attraction_distance: i64,
    /// Extra distance a rejected walker is pushed away.
    pub repulsion_distance: i64,
    /// Acceptance probability of a qualifying contact, in `[0, FP_ONE]`.
    pub stickiness: i64,
    /// Number of contacts a parent must see before it can accept.
    pub stubbornness: u8,
    /// Seed geometry.
    pub start_shape: StartShape,
    /// Particle spacing at the start and end of the run; interpolated.
    pub spacing_start: i64,
    pub spacing_end: i64,
    /// Display scale at the start and end of the run; interpolated.
    pub scale_start: i64,
    pub scale_end: i64,
    /// Cap on the walk iterations of one diffusion step; `None` grants
    /// the largest representable budget.
    pub max_walk_steps: Option<u64>,
}

/// Failures of the engine.
#[derive(Clone, Copy, PartialEq, Eq, Structural, Debug)]
pub enum Error {
    /// The configuration was rejected at construction.
    InvalidParameter,
    /// A diffusion step exhausted its iteration budget, or a placement
    /// would have left the supported coordinate range.
    StuckParticle,
}

/// A placed particle: its position and its display scale.
#[derive(Clone, Copy, PartialEq, Eq, Structural, Debug)]
pub struct Particle {
    pub pos: V3,
    pub radius: i64,
}

/// The engine state as mathematical values.
#[verifier::ext_equal]
pub ghost struct ModelV {
    pub params: Params,
    pub particles: Seq<Particle>,
    pub attempts: Seq<u8>,
    pub parents: Seq<usize>,
    pub radius: int,
    pub spacing: int,
    pub rng: Rng,
}

/// The positions of a particle sequence, in insertion order.
pub open spec fn positions_of(ps: Seq<Particle>) -> Seq<V3> {
    ps.map_values(|p: Particle| p.pos)
}

/// Validity of a configuration: no negative distance, probability and
/// budget in range, and a ring seed that fits the coordinate range.
pub open spec fn valid_params_spec(p: Params) -> bool {
    &&& p.particles >= 1
    &&& 0 <= p.attraction_distance <= INPUT_LIMIT
    &&& 0 <= p.repulsion_distance <= INPUT_LIMIT
    &&& 0 <= p.stickiness <= FP_ONE
    &&& 0 <= p.spacing_start <= INPUT_LIMIT
    &&& 0 <= p.spacing_end <= INPUT_LIMIT
    &&& 0 <= p.scale_start <= INPUT_LIMIT
    &&& 0 <= p.scale_end <= INPUT_LIMIT
    &&& match p.start_shape {
        StartShape::Point => true,
        StartShape::Ring { diameter, count } => {
            &&& 0 <= diameter <= INPUT_LIMIT
            &&& 1 <= count <= p.particles
            &&& 32 * (diameter as int) + p.attraction_distance as int + 1 <= RADIUS_LIMIT as int
        },
    }
}

/// A stored particle respects the bounding radius: the radius covers its
/// distance from the origin plus one attraction distance.
pub open spec fn particle_ok(part: Particle, radius: int, attr: int) -> bool {
    &&& sqrt_ceil(norm_sq_spec(part.pos)) + attr <= radius
    &&& v3_bounded(part.pos, RADIUS_LIMIT as int)
}

/// Invariant of the engine state.
pub open spec fn model_inv(v: ModelV) -> bool {
    &&& valid_params_spec(v.params)
    &&& v.attempts.len() == v.particles.len()
    &&& v.parents.len() == v.particles.len()
    &&& 0 <= v.radius <= RADIUS_LIMIT
    &&& 0 <= v.spacing <= INPUT_LIMIT
    &&& forall|j: int|
        0 <= j < v.particles.len() ==> particle_ok(
            #[trigger] v.particles[j],
            v.radius,
            v.params.attraction_distance as int,
        )
}

/// The empty engine state for a configuration: no particles, radius zero,
/// unit spacing, and the seeded random stream.
pub open spec fn init_spec(p: Params) -> ModelV {
    ModelV {
        params: p,
        particles: Seq::empty(),
        attempts: Seq::empty(),
        parents: Seq::empty(),
        radius: 0,
        spacing: FP_ONE as int,
        rng: seed_spec(p.random_seed),
    }
}

/// Appending a particle: counters and parent recorded in lockstep, and
/// the bounding radius raised to cover the new position plus one
/// attraction distance.
pub open spec fn add_spec(v: ModelV, pos: V3, scale: int, parent: usize) -> ModelV {
    let rc = sqrt_ceil(norm_sq_spec(pos)) + v.params.attraction_distance as int;
    ModelV {
        particles: v.particles.push(Particle { pos, radius: scale as i64 }),
        attempts: v.attempts.push(0),
        parents: v.parents.push(parent),
        radius: if rc > v.radius {
            rc
        } else {
            v.radius
        },
        ..v
    }
}

/// The join policy: count the contact, reject while the counter is below
/// the stubbornness threshold, otherwise accept with probability
/// stickiness using one draw of the stream.
pub open spec fn decide_spec(v: ModelV, parent: int) -> (ModelV, bool) {
    let c0 = v.attempts[parent];
    let c1: u8 = if c0 < 255 {
        (c0 + 1) as u8
    } else {
        c0
    };
    let v1 = ModelV { attempts: v.attempts.update(parent, c1), ..v };
    if (c1 as int) < v.params.stubbornness as int {
        (v1, false)
    } else {
        let d = fraction16_spec(v.rng);
        let v2 = ModelV { rng: rng_step_spec(v.rng), ..v1 };
        (v2, d as int <= v.params.stickiness as int)
    }
}

/// The walk budget of one diffusion step.
pub open spec fn walk_fuel(p: Params) -> nat {
    match p.max_walk_steps {
        None => u64::MAX as nat,
        Some(k) => k as nat,
    }
}

/// One diffusion walk from a spawned position: query the nearest
/// particle, join on an accepted contact, push away on a rejected one,
/// otherwise take a random step and respawn after escaping the bounding
/// sphere. `Err` carries the state left behind when the budget runs out.
pub open spec fn walk_spec(v: ModelV, w: V3, scale: int, fuel: nat) -> Result<ModelV, ModelV>
    decreases fuel,
{
    let attr = v.params.attraction_distance as int;
    let rep = v.params.repulsion_distance as int;
    if fuel == 0 {
        Err(v)
    } else {
        let pi = nearest_in(positions_of(v.particles), w, v.particles.len() as int);
        let ppos = v.particles[pi].pos;
        let d2 = dist_sq_spec(w, ppos);
        if d2 < attr * attr {
            let (v1, accepted) = decide_spec(v, pi);
            if accepted {
                let placed = lerp_toward_spec(ppos, w, v1.spacing);
                let rc = sqrt_ceil(norm_sq_spec(placed)) + attr;
                if rc <= RADIUS_LIMIT as int {
                    Ok(add_spec(v1, placed, scale, pi as usize))
                } else {
                    Err(v1)
                }
            } else {
                walk_spec(v1, lerp_toward_spec(ppos, w, attr + rep), scale, (fuel - 1) as nat)
            }
        } else {
            let sd = sqrt_floor(d2);
            let m = if sd - attr > rep {
                sd - attr
            } else {
                rep
            };
            match sphere_spec(v.rng, SPHERE_ATTEMPTS as nat) {
                Err(r2) => Err(ModelV { rng: r2, ..v }),
                Ok((dir, r2)) => {
                    let v1 = ModelV { rng: r2, ..v };
                    let w2 = add_scaled_spec(w, dir, m);
                    if norm_sq_spec(w2) > (4 * v.radius) * v.radius {
                        match sphere_spec(r2, SPHERE_ATTEMPTS as nat) {
                            Err(r3) => Err(ModelV { rng: r3, ..v }),
                            Ok((dir2, r3)) => walk_spec(
                                ModelV { rng: r3, ..v },
                                scale_dir_spec(dir2, v.radius),
                                scale,
                                (fuel - 1) as nat,
                            ),
                        }
                    } else {
                        walk_spec(v1, w2, scale, (fuel - 1) as nat)
                    }
                },
            }
        }
    }
}

/// One diffusion step: spawn on the bounding sphere, then walk.
pub open spec fn diffuse_spec(v: ModelV, scale: int, fuel: nat) -> Result<ModelV, ModelV> {
    match sphere_spec(v.rng, SPHERE_ATTEMPTS as nat) {
        Err(r2) => Err(ModelV { rng: r2, ..v }),
        Ok((dir, r2)) => walk_spec(
            ModelV { rng: r2, ..v },
            scale_dir_spec(dir, v.radius),
            scale,
            fuel,
        ),
    }
}

/// Position of ring seed `i` of `count` on a circle of the given
/// diameter: angle `i / count` of a full turn, at `z = 0`.
pub open spec fn ring_point_spec(i: int, count: int, diameter: int) -> V3 {
    let angle = tdiv(TAU_FP as int * i, count);
    let rad = diameter / 2;
    V3 {
        x: fx_mul_spec(cos_fp_spec(angle), rad) as i64,
        y: fx_mul_spec(sin_fp_spec(angle), rad) as i64,
        z: 0,
    }
}

/// Seeds the ring shape: particles `i` to `count - 1`, appended in order.
pub open spec fn seed_ring_spec(v: ModelV, i: int, count: int, diameter: int) -> ModelV
    decreases count - i,
{
    if i >= count {
        v
    } else {
        let v1 = add_spec(
            v,
            ring_point_spec(i, count, diameter),
            v.params.scale_start as int,
            v.particles.len() as usize,
        );
        seed_ring_spec(v1, i + 1, count, diameter)
    }
}

/// The seeded state and the number of seed particles consumed.
pub open spec fn seeded_spec(v: ModelV) -> (ModelV, int) {
    match v.params.start_shape {
        StartShape::Point => (
            add_spec(v, V3 { x: 0, y: 0, z: 0 }, v.params.scale_start as int, v.particles.len() as usize),
            1,
        ),
        StartShape::Ring { diameter, count } => (
            seed_ring_spec(v, 0, count as int, diameter as int),
            count as int,
        ),
    }
}

/// The main loop: for each remaining particle, interpolate spacing and
/// scale at fraction `p / total` and run one diffusion step.
pub open spec fn run_loop_spec(v: ModelV, p: int, total: int, fuel: nat) -> Result<ModelV, ModelV>
    decreases total - p,
{
    if p >= total {
        Ok(v)
    } else {
        let sp = lerp_spec(v.params.spacing_start as int, v.params.spacing_end as int, p, total);
        let sc = lerp_spec(v.params.scale_start as int, v.params.scale_end as int, p, total);
        let v1 = ModelV { spacing: sp, ..v };
        match diffuse_spec(v1, sc, fuel) {
            Err(ve) => Err(ve),
            Ok(v2) => run_loop_spec(v2, p + 1, total, fuel),
        }
    }
}

/// A whole run from a given state: seeding, then the main loop over the
/// remaining budget. `Err` carries the partial state of a stuck run.
pub open spec fn run_of(v: ModelV) -> Result<ModelV, ModelV> {
    let (sv, seeds) = seeded_spec(v);
    run_loop_spec(sv, 0, v.params.particles as int - seeds, walk_fuel(v.params))
}

/// The aggregation engine.
pub struct Model {
    params: Params,
    particle_spacing: i64,
    bounding_radius: i64,
    particles: Vec<Particle>,
    join_attempts: Vec<u8>,
    parents: Vec<usize>,
    index: SpatialIndex,
    rng: Rng,
}

impl Model {
    /// The state as mathematical values.
    pub closed spec fn view(&self) -> ModelV {
        ModelV {
            params: self.params,
            particles: self.particles@,
            attempts: self.join_attempts@,
            parents: self.parents@,
            radius: self.bounding_radius as int,
            spacing: self.particle_spacing as int,
            rng: self.rng,
        }
    }

    /// Well-formedness: the state invariant, and a spatial index holding
    /// exactly the stored positions.
    pub closed spec fn inv(&self) -> bool {
        &&& model_inv(self@)
        &&& self.index@ == positions_of(self.particles@)
    }

    /// Validated construction: `Ok` exactly on configurations that
    /// `valid_params_spec` admits, `Err(InvalidParameter)` on the rest.
    pub fn new(params: &Params) -> (res: Result<Model, Error>)
        ensures
            valid_params_spec(*params) ==> (res matches Ok(m) && m@ == init_spec(*params)
                && m.inv()),
            !valid_params_spec(*params) ==> res == Err::<Model, Error>(Error::InvalidParameter),
    {
        let ok = params.particles >= 1 && 0 <= params.attraction_distance
            && params.attraction_distance <= INPUT_LIMIT && 0 <= params.repulsion_distance
            && params.repulsion_distance <= INPUT_LIMIT && 0 <= params.stickiness
            && params.stickiness <= FP_ONE && 0 <= params.spacing_start && params.spacing_start
            <= INPUT_LIMIT && 0 <= params.spacing_end && params.spacing_end <= INPUT_LIMIT && 0
            <= params.scale_start && params.scale_start <= INPUT_LIMIT && 0 <= params.scale_end
            && params.scale_end <= INPUT_LIMIT && match params.start_shape {
            StartShape::Point => true,
            StartShape::Ring { diameter, count } => 0 <= diameter && diameter <= INPUT_LIMIT && 1
                <= count && count <= params.particles && 32 * diameter
                + params.attraction_distance + 1 <= RADIUS_LIMIT,
        };
        if !ok {
            return Err(Error::InvalidParameter);
        }
        let m = Model {
            params: *params,
            particle_spacing: FP_ONE,
            bounding_radius: 0,
            particles: Vec::new(),
            join_attempts: Vec::new(),
            parents: Vec::new(),
            index: SpatialIndex::new(),
            rng: Rng::seed(params.random_seed),
        };
        proof {
            assert(m@ =~~= init_spec(*params));
            assert(m.index@ =~= positions_of(m.particles@));
        }
        Ok(m)
    }

    /// The ordered particle snapshot: positions and display scales in
    /// insertion order.
    pub fn particles(&self) -> (r: &Vec<Particle>)
        ensures
            r@ == self@.particles,
    {
        &self.particles
    }

    /// The current bounding radius.
    pub fn bounding_radius(&self) -> (r: i64)
        ensures
            r == self@.radius,
    {
        self.bounding_radius
    }

    /// The per-particle join attempt counters, in insertion order.
    pub fn join_attempts(&self) -> (r: &Vec<u8>)
        ensures
            r@ == self@.attempts,
    {
        &self.join_attempts
    }

    /// The accepting parent of each particle; a seed particle records its
    /// own identity.
    pub fn parents(&self) -> (r: &Vec<usize>)
        ensures
            r@ == self@.parents,
    {
        &self.parents
    }

    /// Appends a particle with the given display scale, updating the
    /// spatial index, the counters and the bounding radius; the recorded
    /// parent is the given one.
    fn add_with_parent(&mut self, point: V3, scale: i64, parent: usize)
        requires
            old(self).inv(),
            0 <= scale <= INPUT_LIMIT,
            sqrt_ceil(norm_sq_spec(point)) + old(self)@.params.attraction_distance
                <= RADIUS_LIMIT as int,
        ensures
            final(self).inv(),
            final(self)@ == add_spec(old(self)@, point, scale as int, parent),
    {
        proof {
            lemma_norm_sq_bounds_for_add(old(self)@, point);
        }
        let ns = norm_sq(point);
        let root = isqrt_ceil_u128(ns);
        proof {
            lemma_sqrt_ceil_props(ns as int);
        }
        let rc: i64 = (root as i64) + self.params.attraction_distance;
        let index = self.particles.len();
        self.index.insert(point);
        self.particles.push(Particle { pos: point, radius: scale });
        self.join_attempts.push(0);
        self.parents.push(parent);
        if rc > self.bounding_radius {
            self.bounding_radius = rc;
        }
        proof {
            lemma_add_preserves_inv(old(self)@, point, scale as int, parent);
            assert(self@ =~~= add_spec(old(self)@, point, scale as int, parent));
            assert(self.index@ =~= positions_of(self.particles@));
        }
    }

    /// Manual insertion, used by seeding: appends a particle that records
    /// itself as its parent.
    pub fn add(&mut self, point: V3, scale: i64)
        requires
            old(self).inv(),
            0 <= scale <= INPUT_LIMIT,
            sqrt_ceil(norm_sq_spec(point)) + old(self)@.params.attraction_distance
                <= RADIUS_LIMIT as int,
        ensures
            final(self).inv(),
            final(self)@ == add_spec(old(self)@, point, scale as int, old(self)@.particles.len() as usize),
    {
        let parent = self.particles.len();
        self.add_with_parent(point, scale, parent);
    }

    /// Identity of the stored particle nearest to `point`.
    pub fn nearest_particle(&self, point: V3) -> (i: usize)
        requires
            self.inv(),
            self@.particles.len() >= 1,
            v3_bounded(point, COORD_LIMIT as int),
        ensures
            i == nearest_in(positions_of(self@.particles), point, self@.particles.len() as int),
            i < self@.particles.len(),
    {
        proof {
            lemma_particles_bounded(self@);
            assert(forall|j: int|
                0 <= j < self.index@.len() ==> v3_bounded(
                    #[trigger] self.index@[j],
                    COORD_LIMIT as int,
                ));
        }
        self.index.nearest(point)
    }

    /// Whether a walker has escaped: strictly outside twice the bounding
    /// radius.
    pub fn out_of_bounds(&self, point: V3) -> (r: bool)
        requires
            self.inv(),
            v3_bounded(point, 0x4000000000000),
        ensures
            r == (norm_sq_spec(point) > (4 * self@.radius) * self@.radius),
    {
        let ns = norm_sq(point);
        let rr = self.bounding_radius as u128;
        proof {
            assert((4 * (rr as int)) * (rr as int) <= 0x1000000000000000000000000) by (nonlinear_arith)
                requires
                    0 <= rr as int <= 0x100000000000;
        }
        ns > (4 * rr) * rr
    }

    /// The join policy: counts this contact against `parent` and decides
    /// whether the walker may adhere now.
    pub fn should_join(&mut self, parent: usize) -> (accept: bool)
        requires
            old(self).inv(),
            parent < old(self)@.particles.len(),
        ensures
            final(self).inv(),
            final(self)@ == decide_spec(old(self)@, parent as int).0,
            accept == decide_spec(old(self)@, parent as int).1,
    {
        let c0 = self.join_attempts[parent];
        let c1: u8 = if c0 < 255 {
            c0 + 1
        } else {
            c0
        };
        self.join_attempts.set(parent, c1);
        if c1 < self.params.stubbornness {
            proof {
                assert(self@ =~~= decide_spec(old(self)@, parent as int).0);
            }
            false
        } else {
            let (d, r2) = draw_fraction16(self.rng);
            self.rng = r2;
            proof {
                assert(self@ =~~= decide_spec(old(self)@, parent as int).0);
            }
            (d as i64) <= self.params.stickiness
        }
    }

    /// The resting position of an accepted walker: on the line from its
    /// parent through the walker, at the current particle spacing.
    pub fn place_particle(&self, point: V3, parent: usize) -> (r: V3)
        requires
            self.inv(),
            parent < self@.particles.len(),
            v3_bounded(point, COORD_LIMIT as int),
        ensures
            r == lerp_toward_spec(self@.particles[parent as int].pos, point, self@.spacing),
    {
        proof {
            lemma_particles_bounded(self@);
        }
        lerp_toward(self.particles[parent].pos, point, self.particle_spacing)
    }

    /// A fresh direction drawn uniformly on the unit sphere; `None` when
    /// the rejection-sampling budget was exhausted.
    pub fn random_point_on_unit_sphere(&mut self) -> (res: Option<V3>)
        requires
            old(self).inv(),
        ensures
            final(self).inv(),
            final(self)@.particles == old(self)@.particles,
            final(self)@.params == old(self)@.params,
            final(self)@.attempts == old(self)@.attempts,
            final(self)@.parents == old(self)@.parents,
            final(self)@.radius == old(self)@.radius,
            final(self)@.spacing == old(self)@.spacing,
            match sphere_spec(old(self)@.rng, SPHERE_ATTEMPTS as nat) {
                Ok((dir, r2)) => res == Some(dir) && final(self)@.rng == r2 && v3_bounded(
                    dir,
                    0x20000,
                ),
                Err(r2) => res == None::<V3> && final(self)@.rng == r2,
            },
    {
        match draw_sphere(self.rng) {
            Ok((dir, r2)) => {
                self.rng = r2;
                Some(dir)
            },
            Err(r2) => {
                self.rng = r2;
                None
            },
        }
    }

    /// A spawn position for a new walker: a random direction scaled to
    /// the surface of the bounding sphere.
    pub fn random_particle(&mut self) -> (res: Option<V3>)
        requires
            old(self).inv(),
        ensures
            final(self).inv(),
            final(self)@.particles == old(self)@.particles,
            final(self)@.params == old(self)@.params,
            final(self)@.attempts == old(self)@.attempts,
            final(self)@.parents == old(self)@.parents,
            final(self)@.radius == old(self)@.radius,
            final(self)@.spacing == old(self)@.spacing,
            match sphere_spec(old(self)@.rng, SPHERE_ATTEMPTS as nat) {
                Ok((dir, r2)) => res == Some(scale_dir_spec(dir, old(self)@.radius))
                    && final(self)@.rng == r2 && v3_bounded(
                    scale_dir_spec(dir, old(self)@.radius),
                    2 * old(self)@.radius,
                ),
                Err(r2) => res == None::<V3> && final(self)@.rng == r2,
            },
    {
        match self.random_point_on_unit_sphere() {
            Some(dir) => Some(scale_dir(dir, self.bounding_radius)),
            None => None,
        }
    }
}

/// Helper bound: a point within one placement of the cluster fits the
/// squared-norm machine range.
proof fn lemma_norm_sq_bounds_for_add(v: ModelV, point: V3)
    requires
        sqrt_ceil(norm_sq_spec(point)) + v.params.attraction_distance <= RADIUS_LIMIT as int,
        v.params.attraction_distance >= 0,
    ensures
        v3_bounded(point, 0x4000000000000),
        norm_sq_spec(point) >= 0,
{
    lemma_coord_le_norm(point);
    let ns = norm_sq_spec(point);
    lemma_sqrt_ceil_props(ns);
}

/// All stored positions fit the coordinate range of the vector operations.
proof fn lemma_particles_bounded(v: ModelV)
    requires
        model_inv(v),
    ensures
        forall|j: int|
            0 <= j < v.particles.len() ==> v3_bounded(
                (#[trigger] v.particles[j]).pos,
                v.radius - v.params.attraction_distance,
            ),
        forall|j: int|
            0 <= j < positions_of(v.particles).len() ==> v3_bounded(
                #[trigger] positions_of(v.particles)[j],
                COORD_LIMIT as int,
            ),
{
    let attr = v.params.attraction_distance as int;
    assert forall|j: int| 0 <= j < v.particles.len() implies v3_bounded(
        (#[trigger] v.particles[j]).pos,
        v.radius - attr,
    ) by {
        let pos = v.particles[j].pos;
        lemma_coord_le_norm(pos);
        lemma_sqrt_ceil_props(norm_sq_spec(pos));
    }
    assert forall|j: int| 0 <= j < positions_of(v.particles).len() implies v3_bounded(
        #[trigger] positions_of(v.particles)[j],
        COORD_LIMIT as int,
    ) by {
        assert(positions_of(v.particles)[j] == v.particles[j].pos);
        assert(v3_bounded(v.particles[j].pos, v.radius - attr));
    }
}

/// Appending a particle within the radius limit preserves the invariant.
proof fn lemma_add_preserves_inv(v: ModelV, pos: V3, scale: int, parent: usize)
    requires
        model_inv(v),
        sqrt_ceil(norm_sq_spec(pos)) + v.params.attraction_distance <= RADIUS_LIMIT as int,
    ensures
        model_inv(add_spec(v, pos, scale, parent)),
        add_spec(v, pos, scale, parent).radius >= v.radius,
{
    let attr = v.params.attraction_distance as int;
    let v2 = add_spec(v, pos, scale, parent);
    let ns = norm_sq_spec(pos);
    lemma_coord_le_norm(pos);
    lemma_sqrt_ceil_props(ns);
    assert forall|j: int| 0 <= j < v2.particles.len() implies particle_ok(
        #[trigger] v2.particles[j],
        v2.radius,
        attr,
    ) by {
        if j < v.particles.len() {
            assert(v2.particles[j] == v.particles[j]);
            assert(particle_ok(v.particles[j], v.radius, attr));
        } else {
            assert(v2.particles[j].pos == pos);
        }
    }
}


/// A walker stays within the escape shell: twice the bounding radius,
/// plus the slack a repositioning after a rejected contact can add.
pub open spec fn walker_ok(w: V3, radius: int) -> bool {
    v3_bounded(w, 2 * radius + 0x20000000000)
}

/// A point whose squared norm is within the escape bound has coordinates
/// within twice the radius.
proof fn lemma_inside_bound(w: V3, radius: int)
    requires
        radius >= 0,
        norm_sq_spec(w) <= (4 * radius) * radius,
    ensures
        v3_bounded(w, 2 * radius),
{
    assert((2 * radius) * (2 * radius) == (4 * radius) * radius) by (nonlinear_arith);
    let x = w.x as int;
    let y = w.y as int;
    let z = w.z as int;
    assert(0 <= x * x && 0 <= y * y && 0 <= z * z) by (nonlinear_arith);
    lemma_sq_le(x, 2 * radius);
    lemma_sq_le(y, 2 * radius);
    lemma_sq_le(z, 2 * radius);
}

impl Model {
    /// Diffuses one walker from a fresh spawn until it adheres, appending
    /// it with the given display scale; `false` when a draw or the walk
    /// budget was exhausted, or a placement would leave the supported
    /// coordinate range.
    fn diffuse_particle(&mut self, scale: i64) -> (placed: bool)
        requires
            old(self).inv(),
            old(self)@.particles.len() >= 1,
            0 <= scale <= INPUT_LIMIT,
        ensures
            final(self).inv(),
            final(self)@.particles.len() >= old(self)@.particles.len(),
            final(self)@.params == old(self)@.params,
            final(self)@.spacing == old(self)@.spacing,
            match diffuse_spec(old(self)@, scale as int, walk_fuel(old(self)@.params)) {
                Ok(v) => placed && final(self)@ == v,
                Err(v) => !placed && final(self)@ == v,
            },
    {
        let mut w: V3;
        match self.random_particle() {
            Some(p) => {
                w = p;
            },
            None => {
                return false;
            },
        }
        let mut left: u64 = match self.params.max_walk_steps {
            Some(k) => k,
            None => u64::MAX,
        };
        let ghost v_entry = self@;
        let ghost w_entry = w;
        let ghost f_entry = left as nat;
        proof {
            assert(walk_fuel(old(self)@.params) == f_entry);
        }
        loop
            invariant
                self.inv(),
                self@.particles.len() >= 1,
                v_entry.particles == old(self)@.particles,
                v_entry.params == old(self)@.params,
                v_entry.spacing == old(self)@.spacing,
                self@.params == v_entry.params,
                self@.spacing == v_entry.spacing,
                self@.radius == v_entry.radius,
                self@.particles == v_entry.particles,
                self@.parents == v_entry.parents,
                walker_ok(w, self@.radius),
                left as nat <= f_entry,
                walk_spec(v_entry, w_entry, scale as int, f_entry) == walk_spec(
                    self@,
                    w,
                    scale as int,
                    left as nat,
                ),
                0 <= scale <= INPUT_LIMIT,
                diffuse_spec(old(self)@, scale as int, walk_fuel(old(self)@.params)) == walk_spec(
                    v_entry,
                    w_entry,
                    scale as int,
                    f_entry,
                ),
            decreases left,
        {
            if left == 0 {
                return false;
            }
            let ghost v_pre = self@;
            let ghost w_pre = w;
            let ghost left_pre = left as nat;
            proof {
                lemma_particles_bounded(self@);
            }
            let parent = self.nearest_particle(w);
            let ppos = self.particles[parent].pos;
            let d2 = dist_sq(w, ppos);
            let attr = self.params.attraction_distance;
            let rep = self.params.repulsion_distance;
            proof {
                lemma_le_sq(attr as int, INPUT_LIMIT as int);
            }
            if d2 < (attr as u128) * (attr as u128) {
                if self.should_join(parent) {
                    let pos = self.place_particle(w, parent);
                    proof {
                        crate::vec3::lemma_lerp_toward_close(ppos, w_pre, v_pre.spacing);
                        lemma_coord_le_norm(pos);
                    }
                    let ns = norm_sq(pos);
                    let root = isqrt_ceil_u128(ns);
                    if (root as i64) + attr <= RADIUS_LIMIT {
                        self.add_with_parent(pos, scale, parent);
                        return true;
                    } else {
                        return false;
                    }
                } else {
                    let dstep = attr + rep;
                    w = lerp_toward(ppos, w, dstep);
                    proof {
                        crate::vec3::lemma_lerp_toward_close(ppos, w_pre, dstep as int);
                    }
                }
            } else {
                proof {
                    lemma_dist_sq_bounds(w, ppos, 0x400000000000int);
                    lemma_sqrt_floor_le_c(d2 as int, COORD_LIMIT as int);
                }
                let sd = isqrt_u128(d2);
                let diff = (sd as i64) - attr;
                let m = if diff > rep {
                    diff
                } else {
                    rep
                };
                match self.random_point_on_unit_sphere() {
                    None => {
                        return false;
                    },
                    Some(dir) => {
                        let w2 = add_scaled(w, dir, m);
                        if self.out_of_bounds(w2) {
                            match self.random_particle() {
                                None => {
                                    return false;
                                },
                                Some(sp) => {
                                    w = sp;
                                },
                            }
                        } else {
                            w = w2;
                            proof {
                                lemma_inside_bound(w2, self@.radius);
                            }
                        }
                    },
                }
            }
            left = left - 1;
        }
    }
}


/// Computes ring seed `i` of `count` on a circle of the given diameter:
/// exact fixed-point trigonometry at angle `i / count` of a full turn.
fn ring_point(i: u32, count: u32, diameter: i64) -> (r: V3)
    requires
        1 <= count,
        i < count,
        0 <= diameter <= INPUT_LIMIT,
    ensures
        r == ring_point_spec(i as int, count as int, diameter as int),
        sqrt_ceil(norm_sq_spec(r)) <= 32 * diameter as int,
        r.z == 0,
{
    proof {
        lemma_abs_mul(TAU_FP as int, i as int, TAU_FP as int, 0x100000000int);
        vstd::arithmetic::mul::lemma_mul_strict_inequality(
            i as int,
            count as int,
            TAU_FP as int,
        );
        vstd::arithmetic::mul::lemma_mul_is_commutative(i as int, TAU_FP as int);
        vstd::arithmetic::mul::lemma_mul_is_commutative(count as int, TAU_FP as int);
        vstd::arithmetic::div_mod::lemma_multiply_divide_lt(
            TAU_FP as int * i as int,
            count as int,
            TAU_FP as int,
        );
        crate::math::lemma_tdiv_abs(TAU_FP as int * i as int, count as int);
    }
    let angle = tdiv_i128((TAU_FP as i128) * (i as i128), count as i128) as i64;
    let rad = ((diameter as u64) / 2) as i64;
    proof {
        vstd::arithmetic::div_mod::lemma_div_nonincreasing(diameter as int, 2);
        vstd::arithmetic::div_mod::lemma_div_pos_is_pos(diameter as int, 2);
    }
    let c = cos_fp(angle);
    let s = sin_fp(angle);
    proof {
        lemma_abs_mul(c as int, rad as int, 0x200000int, INPUT_LIMIT as int);
        lemma_abs_mul(s as int, rad as int, 0x200000int, INPUT_LIMIT as int);
        lemma_abs_mul(c as int, rad as int, 0x200000int, rad as int);
        lemma_abs_mul(s as int, rad as int, 0x200000int, rad as int);
    }
    let x = fx_mul(c, rad);
    let y = fx_mul(s, rad);
    let r = V3 { x, y, z: 0 };
    proof {
        assert(abs_i(x as int) * 0x10000 <= 0x200000 * (rad as int));
        assert(abs_i(x as int) <= 32 * (rad as int));
        assert(abs_i(y as int) <= 32 * (rad as int));
        lemma_norm_sq_bounds(r, 32 * rad as int);
        assert(3 * ((32 * rad as int) * (32 * rad as int)) <= (32 * diameter as int) * (32
            * diameter as int)) by (nonlinear_arith)
            requires
                0 <= rad as int,
                2 * (rad as int) <= diameter as int;
        lemma_sqrt_ceil_le(norm_sq_spec(r), 32 * diameter as int);
    }
    r
}

impl Model {
    /// Runs the whole aggregation: seeds the configured start shape, then
    /// grows the cluster one diffused particle at a time, interpolating
    /// spacing and display scale across the run. A stuck diffusion step
    /// (budget exhausted, or a placement outside the supported coordinate
    /// range) stops the run and reports `StuckParticle`, leaving the
    /// particles grown so far in place.
    #[verifier::rlimit(50)]
    pub fn run(&mut self) -> (res: Result<(), Error>)
        requires
            old(self).inv(),
        ensures
            final(self).inv(),
            match run_of(old(self)@) {
                Ok(v) => res == Ok::<(), Error>(()) && final(self)@ == v,
                Err(v) => res == Err::<(), Error>(Error::StuckParticle) && final(self)@ == v,
            },
    {
        let ghost v0 = self@;
        let seeds: u32;
        match self.params.start_shape {
            StartShape::Point => {
                proof {
                    assert(norm_sq_spec(V3 { x: 0, y: 0, z: 0 }) == 0) by (nonlinear_arith);
                    crate::math::lemma_sqrt_floor_props(0);
                    assert(sqrt_ceil(0) == 0);
                }
                let sc = self.params.scale_start;
                self.add(V3 { x: 0, y: 0, z: 0 }, sc);
                seeds = 1;
            },
            StartShape::Ring { diameter, count } => {
                let mut i: u32 = 0;
                while i < count
                    invariant
                        self.inv(),
                        i <= count,
                        self@.params == v0.params,
                        v0.params.start_shape == (StartShape::Ring { diameter, count }),
                        valid_params_spec(v0.params),
                        self@.particles.len() == v0.particles.len() + i as int,
                        seed_ring_spec(v0, 0, count as int, diameter as int) == seed_ring_spec(
                            self@,
                            i as int,
                            count as int,
                            diameter as int,
                        ),
                    decreases count - i,
                {
                    let pt = ring_point(i, count, diameter);
                    let sc = self.params.scale_start;
                    self.add(pt, sc);
                    i = i + 1;
                }
                seeds = count;
            },
        }
        let ghost v_seeded = self@;
        let ghost fuel = walk_fuel(v0.params);
        proof {
            assert(v_seeded == seeded_spec(v0).0);
            assert(seeds as int == seeded_spec(v0).1);
        }
        let total = self.params.particles - seeds;
        let mut p: u32 = 0;
        while p < total
            invariant
                v0 == old(self)@,
                self.inv(),
                p <= total,
                self@.particles.len() >= 1,
                self@.params == v0.params,
                total as int == v0.params.particles as int - seeded_spec(v0).1,
                fuel == walk_fuel(v0.params),
                run_loop_spec(v_seeded, 0, total as int, fuel) == run_loop_spec(
                    self@,
                    p as int,
                    total as int,
                    fuel,
                ),
                run_of(v0) == run_loop_spec(v_seeded, 0, total as int, fuel),
            decreases total - p,
        {
            let ghost v_iter = self@;
            let sp = lerp(self.params.spacing_start, self.params.spacing_end, p, total);
            let sc = lerp(self.params.scale_start, self.params.scale_end, p, total);
            self.particle_spacing = sp;
            let ghost v_step = self@;
            proof {
                assert(v_step == (ModelV {
                    spacing: lerp_spec(
                        v_iter.params.spacing_start as int,
                        v_iter.params.spacing_end as int,
                        p as int,
                        total as int,
                    ),
                    ..v_iter
                }));
            }
            if !self.diffuse_particle(sc) {
                proof {
                    assert(diffuse_spec(v_step, sc as int, fuel) == Err::<ModelV, ModelV>(self@));
                    assert(run_loop_spec(v_iter, p as int, total as int, fuel) == Err::<
                        ModelV,
                        ModelV,
                    >(self@));
                }
                return Err(Error::StuckParticle);
            }
            proof {
                assert(diffuse_spec(v_step, sc as int, fuel) == Ok::<ModelV, ModelV>(self@));
                assert(run_loop_spec(v_iter, p as int, total as int, fuel) == run_loop_spec(
                    self@,
                    p as int + 1,
                    total as int,
                    fuel,
                ));
            }
            p = p + 1;
        }
        Ok(())
    }
}


/// Determinism of the engine: two runs configured identically produce
/// identical results. Together with the contracts of `Model::new` and
/// `Model::run` — which pin the constructed state to `init_spec` and the
/// final state to `run_of` — this makes the ordered particle list a pure
/// function of the configuration and the random seed.
pub proof fn lemma_run_deterministic(a: Params, b: Params)
    requires
        a == b,
    ensures
        run_of(init_spec(a)) == run_of(init_spec(b)),
{
}

/// Bounding radius law: appending a particle never shrinks the bounding
/// radius, and afterwards the radius covers the inserted position plus
/// one attraction distance — in integer form, the squared distance of the
/// new particle from the origin is at most the square of the radius less
/// the attraction distance.
pub proof fn lemma_bounding_radius(v: ModelV, pos: V3, scale: int, parent: usize)
    requires
        model_inv(v),
        sqrt_ceil(norm_sq_spec(pos)) + v.params.attraction_distance <= RADIUS_LIMIT as int,
    ensures
        add_spec(v, pos, scale, parent).radius >= v.radius,
        add_spec(v, pos, scale, parent).radius >= sqrt_ceil(norm_sq_spec(pos))
            + v.params.attraction_distance,
        norm_sq_spec(pos) <= (add_spec(v, pos, scale, parent).radius
            - v.params.attraction_distance) * (add_spec(v, pos, scale, parent).radius
            - v.params.attraction_distance),
        model_inv(add_spec(v, pos, scale, parent)),
{
    lemma_add_preserves_inv(v, pos, scale, parent);
    let ns = norm_sq_spec(pos);
    lemma_coord_le_norm(pos);
    lemma_sqrt_ceil_props(ns);
    let c = sqrt_ceil(ns);
    let r2 = add_spec(v, pos, scale, parent).radius;
    lemma_le_sq(c, r2 - v.params.attraction_distance as int);
}

/// Stubbornness gating law: while a parent's post-increment attempt
/// counter is still below the stubbornness threshold, the join decision
/// rejects unconditionally and consumes no random draw — so a parent's
/// first `stubbornness - 1` evaluations always reject, whatever the
/// stickiness.
pub proof fn lemma_stubbornness_gating(v: ModelV, parent: int)
    requires
        0 <= parent < v.attempts.len(),
        v.attempts[parent] as int + 1 < v.params.stubbornness as int,
    ensures
        !decide_spec(v, parent).1,
        decide_spec(v, parent).0.rng == v.rng,
        decide_spec(v, parent).0.particles == v.particles,
{
}

/// Immediate acceptance law: with no stubbornness threshold and full
/// stickiness, every join evaluation accepts — the first in-range contact
/// of a walker adheres at once.
pub proof fn lemma_immediate_acceptance(v: ModelV, parent: int)
    requires
        0 <= parent < v.attempts.len(),
        v.params.stubbornness == 0,
        v.params.stickiness == FP_ONE,
    ensures
        decide_spec(v, parent).1,
{
    let w = rng_out_spec(v.rng);
    assert(w >> 48 < 0x10000u64) by (bit_vector);
}

/// Every ring seed lies in the plane `z = 0`.
pub proof fn lemma_ring_point_planar(i: int, count: int, diameter: int)
    ensures
        ring_point_spec(i, count, diameter).z == 0,
{
}

/// Ring seeding law: seeding a ring appends exactly `count - i` particles,
/// leaves the existing ones untouched, and pins seed `j` to the ring
/// position at angle `j / count` of a full turn.
pub proof fn lemma_ring_seeding(v: ModelV, i: int, count: int, diameter: int)
    requires
        0 <= i <= count,
    ensures
        seed_ring_spec(v, i, count, diameter).particles.len() == v.particles.len() + (count - i),
        forall|j: int|
            i <= j < count ==> (#[trigger] seed_ring_spec(v, i, count, diameter).particles[
                v.particles.len() + (j - i)
            ]).pos == ring_point_spec(j, count, diameter),
        forall|j: int|
            0 <= j < v.particles.len() ==> seed_ring_spec(v, i, count, diameter).particles[j]
                == v.particles[j],
    decreases count - i,
{
    if i < count {
        let v1 = add_spec(
            v,
            ring_point_spec(i, count, diameter),
            v.params.scale_start as int,
            v.particles.len() as usize,
        );
        lemma_ring_seeding(v1, i + 1, count, diameter);
        let res = seed_ring_spec(v, i, count, diameter);
        assert(res == seed_ring_spec(v1, i + 1, count, diameter));
        assert(v1.particles.len() == v.particles.len() + 1);
        assert(v1.particles[v.particles.len() as int].pos == ring_point_spec(i, count, diameter));
        assert forall|j: int| i <= j < count implies (#[trigger] res.particles[
            v.particles.len() + (j - i)
        ]).pos == ring_point_spec(j, count, diameter) by {
            if j == i {
                assert(res.particles[v.particles.len() as int] == v1.particles[
                    v.particles.len() as int
                ]);
            } else {
                assert(res.particles[v1.particles.len() + (j - (i + 1))].pos == ring_point_spec(
                    j,
                    count,
                    diameter,
                ));
                assert(v1.particles.len() + (j - (i + 1)) == v.particles.len() + (j - i));
            }
        }
        assert forall|j: int| 0 <= j < v.particles.len() implies res.particles[j]
            == v.particles[j] by {
            assert(res.particles[j] == v1.particles[j]);
            assert(v1.particles[j] == v.particles[j]);
        }
    }
}



/// The bounding radius never decreases during a walk, whether the walker
/// adheres or the step gives up.
proof fn lemma_walk_radius(v: ModelV, w: V3, scale: int, fuel: nat)
    ensures
        (match walk_spec(v, w, scale, fuel) {
            Ok(r) => r.radius,
            Err(r) => r.radius,
        }) >= v.radius,
    decreases fuel,
{
    let attr = v.params.attraction_distance as int;
    let rep = v.params.repulsion_distance as int;
    if fuel != 0 {
        let pi = nearest_in(positions_of(v.particles), w, v.particles.len() as int);
        let ppos = v.particles[pi].pos;
        let d2 = dist_sq_spec(w, ppos);
        if d2 < attr * attr {
            let (v1, accepted) = decide_spec(v, pi);
            if !accepted {
                lemma_walk_radius(
                    v1,
                    lerp_toward_spec(ppos, w, attr + rep),
                    scale,
                    (fuel - 1) as nat,
                );
            }
        } else {
            let sd = sqrt_floor(d2);
            let m = if sd - attr > rep {
                sd - attr
            } else {
                rep
            };
            match sphere_spec(v.rng, SPHERE_ATTEMPTS as nat) {
                Err(_) => {},
                Ok((dir, r2)) => {
                    let w2 = add_scaled_spec(w, dir, m);
                    if norm_sq_spec(w2) > (4 * v.radius) * v.radius {
                        match sphere_spec(r2, SPHERE_ATTEMPTS as nat) {
                            Err(_) => {},
                            Ok((dir2, r3)) => {
                                lemma_walk_radius(
                                    ModelV { rng: r3, ..v },
                                    scale_dir_spec(dir2, v.radius),
                                    scale,
                                    (fuel - 1) as nat,
                                );
                            },
                        }
                    } else {
                        lemma_walk_radius(ModelV { rng: r2, ..v }, w2, scale, (fuel - 1) as nat);
                    }
                },
            }
        }
    }
}

/// The bounding radius never decreases over the seeding of a ring.
proof fn lemma_seed_ring_radius(v: ModelV, i: int, count: int, diameter: int)
    requires
        0 <= i <= count,
    ensures
        seed_ring_spec(v, i, count, diameter).radius >= v.radius,
    decreases count - i,
{
    if i < count {
        let v1 = add_spec(
            v,
            ring_point_spec(i, count, diameter),
            v.params.scale_start as int,
            v.particles.len() as usize,
        );
        lemma_seed_ring_radius(v1, i + 1, count, diameter);
    }
}

/// The bounding radius never decreases over the main loop.
proof fn lemma_run_loop_radius(v: ModelV, p: int, total: int, fuel: nat)
    ensures
        (match run_loop_spec(v, p, total, fuel) {
            Ok(r) => r.radius,
            Err(r) => r.radius,
        }) >= v.radius,
    decreases total - p,
{
    if p < total {
        let sp = lerp_spec(v.params.spacing_start as int, v.params.spacing_end as int, p, total);
        let sc = lerp_spec(v.params.scale_start as int, v.params.scale_end as int, p, total);
        let v1 = ModelV { spacing: sp, ..v };
        match sphere_spec(v1.rng, SPHERE_ATTEMPTS as nat) {
            Err(_) => {},
            Ok((dir, r2)) => {
                lemma_walk_radius(
                    ModelV { rng: r2, ..v1 },
                    scale_dir_spec(dir, v1.radius),
                    sc,
                    fuel,
                );
            },
        }
        match diffuse_spec(v1, sc, fuel) {
            Err(_) => {},
            Ok(v2) => {
                lemma_run_loop_radius(v2, p + 1, total, fuel);
            },
        }
    }
}

/// Bounding radius monotonicity over a whole run: whether the run
/// completes or reports a stuck particle, the bounding radius of the
/// resulting state is at least the starting one — it never shrinks.
pub proof fn lemma_run_radius_monotone(v: ModelV)
    ensures
        (match run_of(v) {
            Ok(r) => r.radius,
            Err(r) => r.radius,
        }) >= v.radius,
{
    let (sv, seeds) = seeded_spec(v);
    match v.params.start_shape {
        StartShape::Point => {},
        StartShape::Ring { diameter, count } => {
            lemma_seed_ring_radius(v, 0, count as int, diameter as int);
        },
    }
    lemma_run_loop_radius(sv, 0, v.params.particles as int - seeds, walk_fuel(v.params));
}


/// A walk that adheres appends exactly one particle; one that gives up
/// appends none.
proof fn lemma_walk_count(v: ModelV, w: V3, scale: int, fuel: nat)
    ensures
        walk_spec(v, w, scale, fuel) matches Ok(r) ==> r.particles.len() == v.particles.len()
            + 1,
        walk_spec(v, w, scale, fuel) matches Err(r) ==> r.particles.len()
            == v.particles.len(),
    decreases fuel,
{
    let attr = v.params.attraction_distance as int;
    let rep = v.params.repulsion_distance as int;
    if fuel != 0 {
        let pi = nearest_in(positions_of(v.particles), w, v.particles.len() as int);
        let ppos = v.particles[pi].pos;
        let d2 = dist_sq_spec(w, ppos);
        if d2 < attr * attr {
            let (v1, accepted) = decide_spec(v, pi);
            if !accepted {
                lemma_walk_count(
                    v1,
                    lerp_toward_spec(ppos, w, attr + rep),
                    scale,
                    (fuel - 1) as nat,
                );
            }
        } else {
            let sd = sqrt_floor(d2);
            let m = if sd - attr > rep {
                sd - attr
            } else {
                rep
            };
            match sphere_spec(v.rng, SPHERE_ATTEMPTS as nat) {
                Err(_) => {},
                Ok((dir, r2)) => {
                    let w2 = add_scaled_spec(w, dir, m);
                    if norm_sq_spec(w2) > (4 * v.radius) * v.radius {
                        match sphere_spec(r2, SPHERE_ATTEMPTS as nat) {
                            Err(_) => {},
                            Ok((dir2, r3)) => {
                                lemma_walk_count(
                                    ModelV { rng: r3, ..v },
                                    scale_dir_spec(dir2, v.radius),
                                    scale,
                                    (fuel - 1) as nat,
                                );
                            },
                        }
                    } else {
                        lemma_walk_count(ModelV { rng: r2, ..v }, w2, scale, (fuel - 1) as nat);
                    }
                },
            }
        }
    }
}

/// Every completed iteration of the main loop appends exactly one particle.
proof fn lemma_run_loop_count(v: ModelV, p: int, total: int, fuel: nat)
    requires
        p <= total,
    ensures
        run_loop_spec(v, p, total, fuel) matches Ok(r) ==> r.particles.len()
            == v.particles.len() + (total - p),
    decreases total - p,
{
    if p < total {
        let sp = lerp_spec(v.params.spacing_start as int, v.params.spacing_end as int, p, total);
        let sc = lerp_spec(v.params.scale_start as int, v.params.scale_end as int, p, total);
        let v1 = ModelV { spacing: sp, ..v };
        match sphere_spec(v1.rng, SPHERE_ATTEMPTS as nat) {
            Err(_) => {},
            Ok((dir, r2)) => {
                lemma_walk_count(
                    ModelV { rng: r2, ..v1 },
                    scale_dir_spec(dir, v1.radius),
                    sc,
                    fuel,
                );
            },
        }
        match diffuse_spec(v1, sc, fuel) {
            Err(_) => {},
            Ok(v2) => {
                lemma_run_loop_count(v2, p + 1, total, fuel);
            },
        }
    }
}

/// Particle budget law: a run that completes holds exactly the budgeted
/// number of particles — the configured seed count (one for a point seed,
/// the ring count for a ring) plus one walked particle per remaining
/// budget entry. In particular a completed run started on an empty state
/// ends with exactly `params.particles` particles.
pub proof fn lemma_run_particle_count(v: ModelV)
    requires
        valid_params_spec(v.params),
    ensures
        run_of(v) matches Ok(r) ==> r.particles.len() == v.particles.len()
            + v.params.particles as int,
{
    let (sv, seeds) = seeded_spec(v);
    match v.params.start_shape {
        StartShape::Point => {},
        StartShape::Ring { diameter, count } => {
            lemma_ring_seeding(v, 0, count as int, diameter as int);
        },
    }
    assert(sv.particles.len() == v.particles.len() + seeds);
    lemma_run_loop_count(sv, 0, v.params.particles as int - seeds, walk_fuel(v.params));
}


} // verus!
