//! Ray-sphere intersection and the scene aggregate's closest-hit rule.

use raytrace::fixed::Fixed;
use raytrace::hittable::Surface;
use raytrace::hittables::Hittables;
use raytrace::ray::{Ray, T_FAR};
use raytrace::sphere::Sphere;
use raytrace::vec3::{point3, vector};

const S: i64 = 65536;

fn fx(raw: i64) -> Fixed {
    Fixed { raw }
}

fn down_z_ray() -> Ray {
    Ray::ray(point3(fx(0), fx(0), fx(0)), vector(fx(0), fx(0), fx(-S)))
}

#[test]
fn head_on_hit_at_distance_minus_radius() {
    // A unit sphere two units away, struck head on: t = distance - radius.
    let s = Sphere::sphere(point3(fx(0), fx(0), fx(-2 * S)), fx(S));
    let rec = s.hit(&down_z_ray(), fx(0), fx(T_FAR)).expect("head-on ray must hit");
    assert_eq!(rec.t.raw, S);
    assert!(rec.front_face);
    assert_eq!((rec.normal.x.raw, rec.normal.y.raw, rec.normal.z.raw), (0, 0, S));
    assert_eq!((rec.p.x.raw, rec.p.y.raw, rec.p.z.raw), (0, 0, -S));
}

#[test]
fn tangent_ray_is_a_hit_not_a_miss() {
    // Grazing the sphere at height one: the discriminant is exactly zero and
    // the single root is accepted.
    let s = Sphere::sphere(point3(fx(0), fx(0), fx(-2 * S)), fx(S));
    let r = Ray::ray(point3(fx(0), fx(S), fx(0)), vector(fx(0), fx(0), fx(-S)));
    let rec = s.hit(&r, fx(0), fx(T_FAR)).expect("tangent ray must hit");
    assert_eq!(rec.t.raw, 2 * S);
    // At the tangent point the direction is perpendicular to the outward
    // normal, so the front-face test (strictly opposing) reports false.
    assert!(!rec.front_face);
    assert_eq!((rec.normal.x.raw, rec.normal.y.raw, rec.normal.z.raw), (0, -S, 0));
}

#[test]
fn ray_beside_sphere_reports_no_hit() {
    let s = Sphere::sphere(point3(fx(0), fx(0), fx(-2 * S)), fx(S));
    let r = Ray::ray(point3(fx(0), fx(4 * S), fx(0)), vector(fx(0), fx(0), fx(-S)));
    assert!(s.hit(&r, fx(0), fx(T_FAR)).is_none());
}

#[test]
fn ray_pointing_away_reports_no_hit() {
    // The line through the ray meets the sphere, but only at negative
    // parameters.
    let s = Sphere::sphere(point3(fx(0), fx(0), fx(-2 * S)), fx(S));
    let r = Ray::ray(point3(fx(0), fx(0), fx(0)), vector(fx(0), fx(0), fx(S)));
    assert!(s.hit(&r, fx(0), fx(T_FAR)).is_none());
}

#[test]
fn far_root_is_taken_when_near_root_is_below_t_min() {
    let s = Sphere::sphere(point3(fx(0), fx(0), fx(-2 * S)), fx(S));
    let rec = s.hit(&down_z_ray(), fx(70000), fx(T_FAR)).expect("far root must qualify");
    assert_eq!(rec.t.raw, 3 * S);
    // Leaving through the back of the sphere: the normal is flipped.
    assert!(!rec.front_face);
    assert_eq!((rec.normal.x.raw, rec.normal.y.raw, rec.normal.z.raw), (0, 0, S));
}

#[test]
fn closest_of_two_overlapping_spheres_wins() {
    // Two spheres overlapping along the ray: the reported parameter is the
    // minimum of the two individual parameters, in either insertion order.
    let a = Surface::Sphere(Sphere::sphere(point3(fx(0), fx(0), fx(-2 * S)), fx(S)));
    let b = Surface::Sphere(Sphere::sphere(point3(fx(0), fx(0), fx(-163840)), fx(S)));

    let mut front_first = Hittables::new();
    front_first.add(a);
    front_first.add(b);
    let rec = front_first.hit(&down_z_ray(), fx(0), fx(T_FAR)).expect("scene must hit");
    assert_eq!(rec.t.raw, S);

    let mut back_first = Hittables::new();
    back_first.add(b);
    back_first.add(a);
    let rec2 = back_first.hit(&down_z_ray(), fx(0), fx(T_FAR)).expect("scene must hit");
    assert_eq!(rec2.t.raw, S);
}

#[test]
fn individual_parameters_of_overlapping_spheres() {
    let a = Sphere::sphere(point3(fx(0), fx(0), fx(-2 * S)), fx(S));
    let b = Sphere::sphere(point3(fx(0), fx(0), fx(-163840)), fx(S));
    let ta = a.hit(&down_z_ray(), fx(0), fx(T_FAR)).expect("a hits").t.raw;
    let tb = b.hit(&down_z_ray(), fx(0), fx(T_FAR)).expect("b hits").t.raw;
    assert_eq!(ta, S);
    assert_eq!(tb, 98304);
    assert_eq!(ta.min(tb), S);
}

#[test]
fn empty_scene_never_hits() {
    let world = Hittables::new();
    assert!(world.hit(&down_z_ray(), fx(0), fx(T_FAR)).is_none());
}

#[test]
fn ray_evaluates_points_along_itself() {
    let r = Ray::ray(
        point3(fx(S), fx(2 * S), fx(3 * S)),
        vector(fx(S), fx(-S), fx(S / 2)),
    );
    assert_eq!(r.origin(), r.origin);
    assert_eq!(r.direction(), r.direction);
    let p = r.at(fx(2 * S));
    assert_eq!((p.x.raw, p.y.raw, p.z.raw), (3 * S, 0, 4 * S));
}

#[test]
fn surface_dispatch_matches_sphere() {
    let s = Sphere::sphere(point3(fx(0), fx(0), fx(-2 * S)), fx(S));
    let su = Surface::Sphere(s);
    let direct = s.hit(&down_z_ray(), fx(0), fx(T_FAR)).expect("sphere hits");
    let through = su.hit(&down_z_ray(), fx(0), fx(T_FAR)).expect("surface hits");
    assert_eq!(direct, through);
}
