//! End-to-end behaviour of the aggregation engine: determinism, the
//! bounding-radius and spacing laws, join-policy gating, seeding shapes,
//! and the error contract.

use rdla::math::FP_ONE;
use rdla::model::{Error, Model, Params, StartShape};
use rdla::vec3::V3;

fn base_params() -> Params {
    Params {
        random_seed: 42,
        particles: 100,
        attraction_distance: 3 * FP_ONE,
        repulsion_distance: FP_ONE,
        stickiness: FP_ONE,
        stubbornness: 0,
        start_shape: StartShape::Point,
        spacing_start: FP_ONE,
        spacing_end: FP_ONE,
        scale_start: 2 * FP_ONE,
        scale_end: 2 * FP_ONE,
        max_walk_steps: None,
    }
}

fn norm_f64(p: V3) -> f64 {
    let x = p.x as f64 / FP_ONE as f64;
    let y = p.y as f64 / FP_ONE as f64;
    let z = p.z as f64 / FP_ONE as f64;
    (x * x + y * y + z * z).sqrt()
}

fn dist_f64(a: V3, b: V3) -> f64 {
    let x = (a.x - b.x) as f64 / FP_ONE as f64;
    let y = (a.y - b.y) as f64 / FP_ONE as f64;
    let z = (a.z - b.z) as f64 / FP_ONE as f64;
    (x * x + y * y + z * z).sqrt()
}

#[test]
fn aggregation_scenario_point_seed() {
    let params = base_params();
    let mut model = Model::new(&params).unwrap();
    model.run().unwrap();
    let particles = model.particles();
    assert_eq!(particles.len(), 100);
    let first = particles[0];
    assert_eq!((first.pos.x, first.pos.y, first.pos.z), (0, 0, 0));
    assert_eq!(first.radius, 2 * FP_ONE);
}

#[test]
fn identical_seed_and_configuration_reproduce_the_particle_list() {
    let params = base_params();
    let mut a = Model::new(&params).unwrap();
    let mut b = Model::new(&params).unwrap();
    a.run().unwrap();
    b.run().unwrap();
    let pa = a.particles();
    let pb = b.particles();
    assert_eq!(pa.len(), pb.len());
    for i in 0..pa.len() {
        assert_eq!(pa[i], pb[i], "particle {}", i);
    }
}

#[test]
fn different_seeds_diverge() {
    let mut pa = base_params();
    pa.particles = 20;
    let mut pb = pa;
    pb.random_seed = 43;
    let mut a = Model::new(&pa).unwrap();
    let mut b = Model::new(&pb).unwrap();
    a.run().unwrap();
    b.run().unwrap();
    // The seed particle agrees; some later particle must differ.
    assert!(a.particles()[1..] != b.particles()[1..]);
}

#[test]
fn bounding_radius_covers_every_particle() {
    let params = base_params();
    let mut model = Model::new(&params).unwrap();
    model.run().unwrap();
    let attraction = 3.0;
    let radius = model.bounding_radius() as f64 / FP_ONE as f64;
    for p in model.particles() {
        assert!(radius >= norm_f64(p.pos) + attraction - 1e-9);
    }
}

#[test]
fn bounding_radius_is_monotone_under_insertion() {
    let params = base_params();
    let mut model = Model::new(&params).unwrap();
    let mut last = model.bounding_radius();
    for k in 0..20i64 {
        model.add(V3 { x: k * FP_ONE, y: 0, z: 0 }, FP_ONE);
        let r = model.bounding_radius();
        assert!(r >= last);
        assert!(r >= k * FP_ONE + 3 * FP_ONE);
        last = r;
    }
}

#[test]
fn spacing_law_distance_to_parent_matches_schedule() {
    let mut params = base_params();
    params.particles = 60;
    params.spacing_start = FP_ONE;
    params.spacing_end = 2 * FP_ONE;
    let mut model = Model::new(&params).unwrap();
    model.run().unwrap();
    let particles = model.particles().clone();
    let parents = model.parents().clone();
    let seeds = 1usize;
    let total = (params.particles as usize - seeds) as u32;
    for i in seeds..particles.len() {
        let step = (i - seeds) as u32;
        let spacing =
            rdla::math::lerp(params.spacing_start, params.spacing_end, step, total) as f64
                / FP_ONE as f64;
        let parent = parents[i];
        assert!(parent < i, "parent of {} is {}", i, parent);
        let d = dist_f64(particles[i].pos, particles[parent].pos);
        assert!(
            (d - spacing).abs() < 0.1 * spacing + 0.01,
            "particle {}: distance {} vs spacing {}",
            i,
            d,
            spacing
        );
    }
}

#[test]
fn stubbornness_gates_the_first_evaluations() {
    let mut params = base_params();
    params.stubbornness = 3;
    let mut model = Model::new(&params).unwrap();
    model.add(V3 { x: 0, y: 0, z: 0 }, FP_ONE);
    // Post-increment counts 1 and 2 are below the threshold: always reject,
    // even at full stickiness.
    assert!(!model.should_join(0));
    assert!(!model.should_join(0));
    assert_eq!(model.join_attempts()[0], 2);
    // The third evaluation reaches the threshold and full stickiness accepts.
    assert!(model.should_join(0));
    assert_eq!(model.join_attempts()[0], 3);
}

#[test]
fn full_stickiness_accepts_the_first_contact() {
    let params = base_params();
    let mut model = Model::new(&params).unwrap();
    model.add(V3 { x: 0, y: 0, z: 0 }, FP_ONE);
    assert!(model.should_join(0));
    assert_eq!(model.join_attempts()[0], 1);
}

#[test]
fn ring_seeding_shape() {
    let diameter = 100 * FP_ONE;
    let count = 8u32;
    let mut params = base_params();
    params.particles = count;
    params.start_shape = StartShape::Ring { diameter, count };
    let mut model = Model::new(&params).unwrap();
    model.run().unwrap();
    let particles = model.particles();
    assert_eq!(particles.len(), count as usize);
    let radius = 50.0;
    let mut angles = Vec::new();
    for p in particles {
        assert_eq!(p.pos.z, 0);
        let d = norm_f64(p.pos);
        assert!((d - radius).abs() < 0.1, "ring radius {} vs {}", d, radius);
        let a = (p.pos.y as f64).atan2(p.pos.x as f64);
        angles.push(a);
    }
    let tau = std::f64::consts::PI * 2.0;
    for i in 1..angles.len() {
        let mut step = angles[i] - angles[i - 1];
        if step < 0.0 {
            step += tau;
        }
        assert!(
            (step - tau / count as f64).abs() < 1e-3,
            "angle step {} at {}",
            step,
            i
        );
    }
}

#[test]
fn ring_seeds_count_against_the_budget() {
    let mut params = base_params();
    params.particles = 20;
    params.start_shape = StartShape::Ring {
        diameter: 40 * FP_ONE,
        count: 12,
    };
    let mut model = Model::new(&params).unwrap();
    model.run().unwrap();
    assert_eq!(model.particles().len(), 20);
}

#[test]
fn invalid_parameters_are_rejected() {
    let mut p = base_params();
    p.particles = 0;
    assert_eq!(Model::new(&p).err(), Some(Error::InvalidParameter));

    let mut p = base_params();
    p.attraction_distance = -1;
    assert_eq!(Model::new(&p).err(), Some(Error::InvalidParameter));

    let mut p = base_params();
    p.stickiness = FP_ONE + 1;
    assert_eq!(Model::new(&p).err(), Some(Error::InvalidParameter));

    let mut p = base_params();
    p.stickiness = -1;
    assert_eq!(Model::new(&p).err(), Some(Error::InvalidParameter));

    let mut p = base_params();
    p.spacing_start = -FP_ONE;
    assert_eq!(Model::new(&p).err(), Some(Error::InvalidParameter));

    let mut p = base_params();
    p.start_shape = StartShape::Ring {
        diameter: 10 * FP_ONE,
        count: 101,
    };
    assert_eq!(Model::new(&p).err(), Some(Error::InvalidParameter));

    assert!(Model::new(&base_params()).is_ok());
}

#[test]
fn exhausted_walk_budget_reports_a_stuck_particle() {
    let mut params = base_params();
    params.particles = 2;
    params.max_walk_steps = Some(0);
    let mut model = Model::new(&params).unwrap();
    assert_eq!(model.run(), Err(Error::StuckParticle));
    // The seed particle is still in place.
    assert_eq!(model.particles().len(), 1);
}

#[test]
fn stuck_runs_are_reproducible() {
    let mut params = base_params();
    params.particles = 50;
    params.stickiness = 0;
    params.stubbornness = 200;
    params.max_walk_steps = Some(500);
    let mut a = Model::new(&params).unwrap();
    let mut b = Model::new(&params).unwrap();
    let ra = a.run();
    let rb = b.run();
    assert_eq!(ra, rb);
    assert_eq!(a.particles(), b.particles());
    assert_eq!(a.join_attempts(), b.join_attempts());
}

#[test]
fn nearest_particle_breaks_ties_toward_the_earliest() {
    let params = base_params();
    let mut model = Model::new(&params).unwrap();
    model.add(V3 { x: 10 * FP_ONE, y: 0, z: 0 }, FP_ONE);
    model.add(V3 { x: -10 * FP_ONE, y: 0, z: 0 }, FP_ONE);
    // The origin is equidistant from both: the earlier particle wins.
    assert_eq!(model.nearest_particle(V3 { x: 0, y: 0, z: 0 }), 0);
    // An off-center query picks the strictly closer one.
    assert_eq!(model.nearest_particle(V3 { x: -FP_ONE, y: 0, z: 0 }), 1);
}

#[test]
fn placement_on_a_coinciding_walker_is_degenerate() {
    let params = base_params();
    let mut model = Model::new(&params).unwrap();
    model.add(V3 { x: FP_ONE, y: 2 * FP_ONE, z: 0 }, FP_ONE);
    // A walker exactly on its parent has no direction to move along:
    // the placement stays at the parent.
    let placed = model.place_particle(V3 { x: FP_ONE, y: 2 * FP_ONE, z: 0 }, 0);
    assert_eq!(placed, V3 { x: FP_ONE, y: 2 * FP_ONE, z: 0 });
}

#[test]
fn placement_lies_at_the_spacing_along_the_walker_direction() {
    let params = base_params();
    let mut model = Model::new(&params).unwrap();
    model.add(V3 { x: 0, y: 0, z: 0 }, FP_ONE);
    // Walker on the x axis: the placement lands one spacing from the
    // parent along that axis, whatever the contact distance was.
    for k in 2..6i64 {
        let placed = model.place_particle(V3 { x: k * FP_ONE, y: 0, z: 0 }, 0);
        assert_eq!((placed.y, placed.z), (0, 0));
        assert!((placed.x - FP_ONE).abs() <= 2, "placed.x {}", placed.x);
    }
}
