//! The deterministic generator and the rejection samplers.

use raytrace::fixed::Fixed;
use raytrace::random::{
    random_in_hemisphere, random_in_unit_sphere, random_unit_vector, random_vector_range, Rng,
};
use raytrace::vec3::{dot, vector};

const S: i64 = 65536;

fn fx(raw: i64) -> Fixed {
    Fixed { raw }
}

#[test]
fn vector_range_stays_within_bounds() {
    let mut rng = Rng::seeded(12345);
    for _ in 0..50 {
        let v = random_vector_range(&mut rng, fx(-S), fx(S));
        for c in [v.x.raw, v.y.raw, v.z.raw] {
            assert!(-S <= c && c <= S, "component {c} escaped the range");
        }
    }
}

#[test]
fn unit_sphere_samples_are_strictly_inside() {
    let mut rng = Rng::seeded(1);
    for _ in 0..50 {
        let p = random_in_unit_sphere(&mut rng);
        let ls = p.length_squared().raw;
        assert!(1 <= ls && ls < S, "squared length {ls} out of [1, 1.0)");
    }
}

#[test]
fn unit_sphere_sampling_is_deterministic() {
    let mut a = Rng::seeded(1);
    let p = random_in_unit_sphere(&mut a);
    assert_eq!((p.x.raw, p.y.raw, p.z.raw), (-21282, -38570, 48490));
    let mut b = Rng::seeded(1);
    let q = random_in_unit_sphere(&mut b);
    assert_eq!(p, q);
}

#[test]
fn random_unit_vectors_are_normalized() {
    let mut rng = Rng::seeded(1);
    let u = random_unit_vector(&mut rng);
    assert_eq!((u.x.raw, u.y.raw, u.z.raw), (-21291, -38585, 48508));
    let ls = u.length_squared().raw;
    assert!((ls - S).abs() <= 8, "unit sample squared length was {ls}");
}

#[test]
fn hemisphere_samples_do_not_oppose_the_normal() {
    let normal = vector(fx(0), fx(S), fx(0));
    let mut rng = Rng::seeded(7);
    for _ in 0..50 {
        let p = random_in_hemisphere(&mut rng, normal);
        assert!(dot(p, normal).raw >= 0, "sample points against the normal");
    }
}

#[test]
fn hemisphere_keeps_tiny_positive_alignment() {
    // The seed-7 draw has x = 12568, a positive alignment smaller than one
    // fixed-point unit against this axis; it must be kept, not flipped.
    let normal = vector(fx(1), fx(0), fx(0));
    let mut rng = Rng::seeded(7);
    let p = random_in_hemisphere(&mut rng, normal);
    assert_eq!((p.x.raw, p.y.raw, p.z.raw), (12568, 44668, 35379));
}

#[test]
fn hemisphere_negating_the_axis_negates_the_sample() {
    let up = vector(fx(0), fx(1), fx(0));
    let down = vector(fx(0), fx(-1), fx(0));
    let mut a = Rng::seeded(7);
    let p = random_in_hemisphere(&mut a, up);
    let mut b = Rng::seeded(7);
    let q = random_in_hemisphere(&mut b, down);
    assert_eq!((q.x.raw, q.y.raw, q.z.raw), (-p.x.raw, -p.y.raw, -p.z.raw));
}

#[test]
fn hemisphere_flips_samples_pointing_away() {
    // Against a -y normal, the seed-7 draw points into +y and must come back
    // negated.
    let normal = vector(fx(0), fx(-S), fx(0));
    let mut rng = Rng::seeded(7);
    let p = random_in_hemisphere(&mut rng, normal);
    assert_eq!((p.x.raw, p.y.raw, p.z.raw), (-12568, -44668, -35379));
}
