//! The library's random source must reproduce the xoshiro256+ stream of
//! the rand_xoshiro crate bit for bit, including the splitmix64 seeding.

use rand_xoshiro::rand_core::{RngCore, SeedableRng};
use rand_xoshiro::Xoshiro256Plus;
use rdla::rng::Rng;

fn assert_stream_matches(seed: u64, draws: usize) {
    let mut reference = Xoshiro256Plus::seed_from_u64(seed);
    let mut state = Rng::seed(seed);
    for i in 0..draws {
        let expected = reference.next_u64();
        let got = state.out();
        assert_eq!(got, expected, "draw {} of seed {}", i, seed);
        state = state.step();
    }
}

#[test]
fn stream_matches_reference_seed_42() {
    assert_stream_matches(42, 1000);
}

#[test]
fn stream_matches_reference_other_seeds() {
    assert_stream_matches(0, 200);
    assert_stream_matches(1, 200);
    assert_stream_matches(0xdeadbeef, 200);
    assert_stream_matches(u64::MAX, 200);
}

#[test]
fn fraction16_is_top_bits_and_in_range() {
    let mut state = Rng::seed(7);
    for _ in 0..100 {
        let (d, next) = rdla::rng::draw_fraction16(state);
        assert_eq!(d, state.out() >> 48);
        assert!(d < 65536);
        state = next;
    }
}

#[test]
fn sphere_draws_are_unit_length() {
    let mut state = Rng::seed(42);
    for _ in 0..200 {
        match rdla::rng::draw_sphere(state) {
            Ok((dir, next)) => {
                let x = dir.x as f64 / 65536.0;
                let y = dir.y as f64 / 65536.0;
                let z = dir.z as f64 / 65536.0;
                let norm = (x * x + y * y + z * z).sqrt();
                assert!((norm - 1.0).abs() < 1e-3, "norm {}", norm);
                state = next;
            }
            Err(_) => panic!("a sphere draw ran out of attempts"),
        }
    }
}

#[test]
fn sphere_draw_is_deterministic() {
    let state = Rng::seed(99);
    let a = rdla::rng::draw_sphere(state);
    let b = rdla::rng::draw_sphere(state);
    assert_eq!(a.is_ok(), b.is_ok());
    let (da, ra) = a.unwrap();
    let (db, rb) = b.unwrap();
    assert_eq!((da.x, da.y, da.z), (db.x, db.y, db.z));
    assert_eq!(ra, rb);
}
