//! Vector algebra and fixed-point scalar behaviour.

use raytrace::fixed::{Fixed, SCALE};
use raytrace::vec3::{color, dot, point3, unit, vector, Vec3};

fn fx(raw: i64) -> Fixed {
    Fixed { raw }
}

fn v3(x: i64, y: i64, z: i64) -> Vec3 {
    vector(fx(x), fx(y), fx(z))
}

#[test]
fn dot_self_equals_length_squared() {
    let samples = [
        v3(3 * SCALE, 4 * SCALE, 0),
        v3(-SCALE, SCALE / 2, 7 * SCALE),
        v3(123, -456, 789),
        v3(0, 0, 0),
    ];
    for a in samples {
        assert_eq!(dot(a, a).raw, a.length_squared().raw);
    }
}

#[test]
fn length_squared_is_nonnegative() {
    let a = v3(-5 * SCALE, 3 * SCALE, -SCALE);
    assert!(a.length_squared().raw >= 0);
    assert_eq!(a.length_squared().raw, 35 * SCALE);
}

#[test]
fn unit_vector_has_length_one() {
    let a = v3(3 * SCALE, 4 * SCALE, 0);
    let u = unit(a);
    assert_eq!(u.x.raw, 39321);
    assert_eq!(u.y.raw, 52428);
    assert_eq!(u.z.raw, 0);
    let ls = u.length_squared().raw;
    assert!((ls - SCALE).abs() <= 4, "unit length squared was {ls}");
}

#[test]
fn unit_of_positively_scaled_vector_matches() {
    let a = v3(3 * SCALE, 4 * SCALE, 0);
    let b = v3(6 * SCALE, 8 * SCALE, 0);
    assert_eq!(unit(a), unit(b));
}

#[test]
fn vector_arithmetic_is_component_wise() {
    let a = v3(SCALE, 2 * SCALE, 3 * SCALE);
    let b = v3(4 * SCALE, -SCALE, SCALE / 2);
    let sum = a.add(b);
    assert_eq!((sum.x.raw, sum.y.raw, sum.z.raw), (5 * SCALE, SCALE, 229376));
    let diff = a.sub(b);
    assert_eq!((diff.x.raw, diff.y.raw, diff.z.raw), (-3 * SCALE, 3 * SCALE, 163840));
    let neg = a.neg();
    assert_eq!((neg.x.raw, neg.y.raw, neg.z.raw), (-SCALE, -2 * SCALE, -3 * SCALE));
    let scaled = a.scale(fx(SCALE / 2));
    assert_eq!((scaled.x.raw, scaled.y.raw, scaled.z.raw), (SCALE / 2, SCALE, 98304));
    let halved = a.div_scalar(fx(2 * SCALE));
    assert_eq!((halved.x.raw, halved.y.raw, halved.z.raw), (SCALE / 2, SCALE, 98304));
}

#[test]
fn scalar_multiplication_commutes() {
    let s = fx(3 * SCALE / 2);
    let t = fx(-2 * SCALE);
    assert_eq!(s.mul(t).raw, t.mul(s).raw);
    assert_eq!(s.mul(t).raw, -3 * SCALE);
}

#[test]
fn fixed_square_root_is_exact_on_squares() {
    assert_eq!(fx(4 * SCALE).sqrt().raw, 2 * SCALE);
    assert_eq!(fx(0).sqrt().raw, 0);
    // sqrt(2) to the resolution of the representation.
    assert_eq!(fx(2 * SCALE).sqrt().raw, 92681);
}

#[test]
fn constructors_carry_components() {
    let p = point3(fx(1), fx(2), fx(3));
    let c = color(fx(1), fx(2), fx(3));
    assert_eq!((p.x.raw, p.y.raw, p.z.raw), (1, 2, 3));
    assert_eq!(p, c);
}
