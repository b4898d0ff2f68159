//! The camera, the shader, and the render driver.

use raytrace::camera::Camera;
use raytrace::fixed::Fixed;
use raytrace::hittable::Surface;
use raytrace::hittables::Hittables;
use raytrace::ray::{Ray, T_FAR};
use raytrace::render::{image_height, pixel_of, ray_color, render};
use raytrace::sphere::Sphere;
use raytrace::vec3::{color, point3, vector};

const S: i64 = 65536;

fn fx(raw: i64) -> Fixed {
    Fixed { raw }
}

/// The reference configuration: 16/9 viewport, height two, focal length one,
/// camera at the origin.
fn standard_camera() -> Camera {
    Camera::camera(fx(16 * S / 9), fx(2 * S), fx(S), point3(fx(0), fx(0), fx(0)))
}

/// The reference scene: a small sphere ahead of the camera and a large
/// ground sphere below it.
fn standard_world() -> Hittables {
    let mut world = Hittables::new();
    world.add(Surface::Sphere(Sphere::sphere(point3(fx(0), fx(0), fx(-S)), fx(S / 2))));
    world.add(Surface::Sphere(Sphere::sphere(
        point3(fx(0), fx(-201 * S / 2), fx(-S)),
        fx(100 * S),
    )));
    world
}

#[test]
fn width_400_at_sixteen_ninths_gives_height_225() {
    assert_eq!(image_height(400, fx(16 * S / 9)), 225);
}

#[test]
fn camera_derives_the_documented_viewport() {
    let cam = standard_camera();
    assert_eq!((cam.horizontal.x.raw, cam.horizontal.y.raw, cam.horizontal.z.raw), (233016, 0, 0));
    assert_eq!((cam.vertical.x.raw, cam.vertical.y.raw, cam.vertical.z.raw), (0, 2 * S, 0));
    assert_eq!(
        (
            cam.lower_left_corner.x.raw,
            cam.lower_left_corner.y.raw,
            cam.lower_left_corner.z.raw,
        ),
        (-116508, -S, -S),
    );
    let r = cam.get_ray(fx(0), fx(0));
    assert_eq!((r.direction.x.raw, r.direction.y.raw, r.direction.z.raw), (-116508, -S, -S));
}

#[test]
fn center_pixel_hits_the_small_sphere() {
    // Pixel (i=200, j=112) of the 400x225 image: u and v as the driver
    // computes them.
    let cam = standard_camera();
    let world = standard_world();
    let u = fx(200 * S / 399);
    let v = fx(112 * S / 224);
    let r = cam.get_ray(u, v);
    assert_eq!((r.direction.x.raw, r.direction.y.raw, r.direction.z.raw), (291, 0, -S));
    let rec = world.hit(&r, fx(0), fx(T_FAR)).expect("center ray must strike the small sphere");
    assert!(rec.front_face);
    assert!((rec.normal.z.raw - S).abs() <= 16, "normal z was {}", rec.normal.z.raw);
    assert!((rec.t.raw - S / 2).abs() <= 16, "t was {}", rec.t.raw);
}

#[test]
fn ray_away_from_all_surfaces_gets_the_background() {
    // From below the ground sphere, pointing further down: no hit, and the
    // bottom end of the gradient is pure white.
    let world = standard_world();
    let r = Ray::ray(point3(fx(0), fx(-201 * S), fx(0)), vector(fx(0), fx(-S), fx(0)));
    assert!(world.hit(&r, fx(0), fx(T_FAR)).is_none());
    let c = ray_color(&r, &world);
    assert_eq!((c.x.raw, c.y.raw, c.z.raw), (S, S, S));
}

#[test]
fn gradient_top_is_sky_blue() {
    let world = Hittables::new();
    let r = Ray::ray(point3(fx(0), fx(0), fx(0)), vector(fx(0), fx(S), fx(0)));
    let c = ray_color(&r, &world);
    assert_eq!((c.x.raw, c.y.raw, c.z.raw), (S / 2, 45875, S));
    let px = pixel_of(c);
    assert_eq!((px.r, px.g, px.b), (128, 179, 255));
}

#[test]
fn top_row_pixel_of_the_reference_image() {
    // Pixel (i=0, j=224) of the 400x225 image misses both spheres; its color
    // is the gradient blend at that height, with the blue channel at full
    // intensity.
    let cam = standard_camera();
    let world = standard_world();
    let u = fx(0);
    let v = fx(224 * S / 224);
    let r = cam.get_ray(u, v);
    assert_eq!((r.direction.x.raw, r.direction.y.raw, r.direction.z.raw), (-116508, S, -S));
    assert!(world.hit(&r, fx(0), fx(T_FAR)).is_none());
    let c = ray_color(&r, &world);
    assert_eq!((c.x.raw, c.y.raw, c.z.raw), (41940, 51378, S));
    let px = pixel_of(c);
    assert_eq!((px.r, px.g, px.b), (163, 200, 255));
}

#[test]
fn image_height_accepts_aspect_ratios_below_one() {
    assert_eq!(image_height(100, fx(S / 2)), 200);
}

#[test]
fn pixel_mapping_clamps_channels() {
    let over = pixel_of(color(fx(2 * S), fx(S), fx(65470)));
    assert_eq!((over.r, over.g, over.b), (255, 255, 255));
    let under = pixel_of(color(fx(-S), fx(0), fx(S / 2)));
    assert_eq!((under.r, under.g, under.b), (0, 0, 128));
}

#[test]
fn render_emits_one_pixel_per_point_in_raster_order() {
    let cam = standard_camera();
    let world = standard_world();
    let width: usize = 4;
    let height: usize = 2;
    let pixels = render(&cam, &world, width, height);
    assert_eq!(pixels.len(), width * height);

    // The first emitted pixel is the top-left one: row j = height - 1.
    let u = fx(0);
    let v = fx(S);
    let r = cam.get_ray(u, v);
    let expected = pixel_of(ray_color(&r, &world));
    assert_eq!(pixels[0], expected);

    // The last emitted pixel is the bottom-right one: row j = 0, i = 3.
    let u_last = fx(3 * S / 3);
    let v_last = fx(0);
    let r_last = cam.get_ray(u_last, v_last);
    let expected_last = pixel_of(ray_color(&r_last, &world));
    assert_eq!(pixels[width * height - 1], expected_last);
}

#[test]
fn rendered_image_has_width_times_height_pixels() {
    let cam = standard_camera();
    let world = standard_world();
    let pixels = render(&cam, &world, 16, 9);
    assert_eq!(pixels.len(), 144);
}
