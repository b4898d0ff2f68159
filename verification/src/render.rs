//! The shader and the render driver.  A ray is resolved to a color: the
//! normal-visualization shade on a hit, a vertical white-to-sky-blue
//! gradient otherwise.  The driver walks the image in raster order (top row
//! first, left to right) and yields one clamped pixel triple per point.

use crate::camera::{cam_ray_dir, Camera};
use crate::fixed::{lemma_smul_bound, lemma_smul_unit, smul, Fixed, SCALE};
use crate::hittable::{surface_hit, Surface};
use crate::hittables::{scene_fold, scene_hit, scene_wf, Hittables};
use crate::ray::{ray_wf, Ray, COORD_MAX, T_FAR};
use crate::sphere::lemma_sph_rec_fits;
use crate::vec3::{
    color, unit, vadd, vbounded, vscale, vunit, Color, Vec3, V3,
};
use vstd::arithmetic::div_mod::{lemma_div_is_ordered, lemma_div_pos_is_pos};
use vstd::prelude::*;

verus! {

/// One half, in raw steps.
pub const HALF: i64 = 32768;

/// The largest raw intensity that survives output clamping (just below one).
pub const CLAMP_MAX: i64 = 65470;

/// Pure white: every channel at full intensity.
pub open spec fn white() -> V3 {
    V3 { x: SCALE as int, y: SCALE as int, z: SCALE as int }
}

/// The sky color at the top of the background gradient.
pub open spec fn sky_blue() -> V3 {
    V3 { x: HALF as int, y: 45875, z: SCALE as int }
}

/// The background gradient: blend white and sky blue by the height of the
/// unit direction.
pub open spec fn background_color(d: V3) -> V3 {
    let u = vunit(d);
    let t = smul(HALF as int, u.y + SCALE as int);
    vadd(vscale(SCALE as int - t, white()), vscale(t, sky_blue()))
}

/// The color a ray resolves to: the normal-visualization shade when the
/// scene is struck within `[0, T_FAR]`, the background gradient otherwise.
pub open spec fn ray_color_model(o: V3, d: V3, items: Seq<Surface>) -> V3 {
    match scene_hit(items, o, d, 0, T_FAR as int) {
        Some(m) => vscale(HALF as int, vadd(m.normal, white())),
        None => background_color(d),
    }
}

/// The gradient never dims the blue channel: white and the sky color both
/// carry it at full intensity, so every blend does too.
pub proof fn lemma_background_blue_full(d: V3)
    ensures
        background_color(d).z == SCALE as int,
{
    let t = smul(HALF as int, vunit(d).y + SCALE as int);
    lemma_smul_unit(SCALE as int - t);
    lemma_smul_unit(t);
}

/// Every record the closest-hit reduction can produce keeps its parameter in
/// the search interval and its point and normal within bounds.
pub proof fn lemma_scene_fold_bounds(
    items: Seq<Surface>,
    o: V3,
    d: V3,
    t_min: int,
    t_max: int,
    n: int,
)
    requires
        scene_wf(items),
        vbounded(o, COORD_MAX as int),
        vbounded(d, COORD_MAX as int),
        0 <= t_min <= t_max <= T_FAR as int,
        n <= items.len(),
    ensures
        ({
            let (cl, b) = scene_fold(items, o, d, t_min, t_max, n);
            &&& t_min <= cl <= t_max
            &&& (b is Some ==> cl == b->0.t)
            &&& (b is Some ==> vbounded(b->0.normal, 0x100_0000_0000_0001))
            &&& (b is Some ==> vbounded(b->0.p, 0x80_0000_0000))
        }),
    decreases n,
{
    if n > 0 {
        lemma_scene_fold_bounds(items, o, d, t_min, t_max, n - 1);
        let (cl, b) = scene_fold(items, o, d, t_min, t_max, n - 1);
        match surface_hit(items[n - 1], o, d, t_min, cl) {
            Some(m) => {
                match items[n - 1] {
                    Surface::Sphere(s) => {
                        lemma_sph_rec_fits(s.center@, s.radius@, o, d, m.t);
                    },
                }
            },
            None => {},
        }
    }
}

/// Resolve the color of a ray against the scene.
pub fn ray_color(r: &Ray, world: &Hittables) -> (c: Color)
    requires
        ray_wf(*r),
        world.wf(),
    ensures
        c@ == ray_color_model(r.origin@, r.direction@, world.items@),
        scene_hit(world.items@, r.origin@, r.direction@, 0, T_FAR as int) is None ==> c@.z
            == SCALE as int,
{
    let zero = Fixed::new(0);
    let t_far = Fixed::new(T_FAR);
    let white_c: Color = color(Fixed::new(SCALE), Fixed::new(SCALE), Fixed::new(SCALE));
    let half = Fixed::new(HALF);
    proof {
        lemma_scene_fold_bounds(
            world.items@,
            r.origin@,
            r.direction@,
            0,
            T_FAR as int,
            world.items@.len() as int,
        );
    }
    match world.hit(r, zero, t_far) {
        Some(rec) => {
            proof {
                let nb: int = 0x100_0000_0000_0001;
                lemma_smul_bound(HALF as int, rec.normal@.x + SCALE as int, HALF as int, nb + 0x1_0000);
                lemma_smul_bound(HALF as int, rec.normal@.y + SCALE as int, HALF as int, nb + 0x1_0000);
                lemma_smul_bound(HALF as int, rec.normal@.z + SCALE as int, HALF as int, nb + 0x1_0000);
            }
            rec.normal.add(white_c).scale(half)
        },
        None => {
            let u: Vec3 = unit(r.direction);
            proof {
                let ub: int = 0x40_0000_0000_0001;
                lemma_smul_bound(HALF as int, u@.y + SCALE as int, HALF as int, ub + 0x1_0000);
                let t = smul(HALF as int, u@.y + SCALE as int);
                lemma_smul_bound(SCALE as int - t, SCALE as int, ub + 0x2_0001, SCALE as int);
                lemma_smul_bound(t, HALF as int, ub + 0x1_0001, SCALE as int);
                lemma_smul_bound(t, 45875, ub + 0x1_0001, SCALE as int);
                lemma_smul_bound(t, SCALE as int, ub + 0x1_0001, SCALE as int);
            }
            proof {
                lemma_background_blue_full(r.direction@);
            }
            let t: Fixed = half.mul(u.y.add(Fixed::new(SCALE)));
            let blue: Color = color(Fixed::new(HALF), Fixed::new(45875), Fixed::new(SCALE));
            white_c.scale(Fixed::new(SCALE).sub(t)).add(blue.scale(t))
        },
    }
}

/// One output pixel: three clamped channels.
#[derive(Clone, Copy, PartialEq, Eq, Structural, Debug)]
pub struct Pixel {
    pub r: u8,
    pub g: u8,
    pub b: u8,
}

/// The output channel for a raw intensity: clamped to `[0, CLAMP_MAX]`, then
/// mapped onto `[0, 255]`.
pub open spec fn channel_of(c: int) -> int {
    let cl = if c < 0 {
        0
    } else if c > CLAMP_MAX as int {
        CLAMP_MAX as int
    } else {
        c
    };
    (cl * 256) / (SCALE as int)
}

/// An output channel always lies in `[0, 255]`.
pub proof fn lemma_channel_range(c: int)
    ensures
        0 <= channel_of(c) <= 255,
{
    let cl = if c < 0 {
        0
    } else if c > CLAMP_MAX as int {
        CLAMP_MAX as int
    } else {
        c
    };
    lemma_div_pos_is_pos(cl * 256, SCALE as int);
    lemma_div_is_ordered(cl * 256, (CLAMP_MAX as int) * 256, SCALE as int);
}

/// Map one raw intensity to its output channel.
fn channel(v: Fixed) -> (ch: u8)
    ensures
        ch as int == channel_of(v@),
{
    let cl: i64 = if v.raw < 0 {
        0
    } else if v.raw > CLAMP_MAX {
        CLAMP_MAX
    } else {
        v.raw
    };
    proof {
        lemma_channel_range(v@);
    }
    (((cl as u64) * 256) / 65536) as u8
}

/// The pixel a resolved color maps to.
pub fn pixel_of(c: Color) -> (px: Pixel)
    ensures
        px.r as int == channel_of(c@.x),
        px.g as int == channel_of(c@.y),
        px.b as int == channel_of(c@.z),
{
    Pixel { r: channel(c.x), g: channel(c.y), b: channel(c.z) }
}

/// Normalized image coordinate of index `i` out of `n`: `i / (n - 1)` in
/// fixed point, hitting 0 and 1 exactly at the extremes.
pub open spec fn norm_coord(i: int, n: int) -> int
    recommends
        n >= 2,
{
    (i * (SCALE as int)) / (n - 1)
}

/// The pixel the renderer emits for column `i` and viewport row `j` (`j`
/// counted from the bottom).
pub open spec fn pixel_model(cam: Camera, items: Seq<Surface>, w: int, h: int, i: int, j: int) -> Pixel {
    let u = norm_coord(i, w);
    let v = norm_coord(j, h);
    let d = cam_ray_dir(cam, u, v);
    let c = ray_color_model(cam.origin@, d, items);
    Pixel { r: channel_of(c.x) as u8, g: channel_of(c.y) as u8, b: channel_of(c.z) as u8 }
}

/// Normalized coordinate as a fixed-point scalar.
fn norm_fixed(i: usize, n: usize) -> (f: Fixed)
    requires
        2 <= n <= 0x1_0000,
        i < n,
    ensures
        f@ == norm_coord(i as int, n as int),
        0 <= f@ <= SCALE as int,
{
    let q: u64 = ((i as u64) * 65536) / ((n - 1) as u64);
    proof {
        lemma_div_pos_is_pos((i as int) * 65536, (n - 1) as int);
        lemma_div_is_ordered((i as int) * 65536, ((n - 1) as int) * 65536, (n - 1) as int);
        vstd::arithmetic::div_mod::lemma_div_by_multiple(65536, (n - 1) as int);
        assert(((n - 1) as int) * 65536 == 65536 * ((n - 1) as int)) by (nonlinear_arith);
    }
    Fixed { raw: q as i64 }
}

/// The image height that pairs a width with a positive aspect ratio: the
/// width over the ratio, truncated to a whole number of rows.  The height
/// must fit the machine's word, which every ratio of at least one grants.
pub fn image_height(width: usize, aspect_ratio: Fixed) -> (h: usize)
    requires
        1 <= aspect_ratio@,
        width <= 0x1_0000,
        ((width as int) * (SCALE as int)) / aspect_ratio@ <= 0xFFFF_FFFF,
    ensures
        h as int == ((width as int) * (SCALE as int)) / aspect_ratio@,
{
    let q: u64 = ((width as u64) * 65536) / (aspect_ratio.raw as u64);
    proof {
        lemma_div_pos_is_pos((width as int) * 65536, aspect_ratio@);
    }
    q as usize
}

/// Render the image: walk rows from the top of the image to the bottom and
/// columns left to right, resolving one ray per pixel, and return the pixel
/// triples in exactly that raster order.
pub fn render(cam: &Camera, world: &Hittables, width: usize, height: usize) -> (pixels: Vec<Pixel>)
    requires
        cam.wf(),
        world.wf(),
        2 <= width <= 0x1_0000,
        2 <= height <= 0x1_0000,
    ensures
        pixels@.len() == width * height,
        forall|row: int, i: int|
            0 <= row < height && 0 <= i < width ==> pixels@[row * width + i] == #[trigger] pixel_model(
                *cam,
                world.items@,
                width as int,
                height as int,
                i,
                height - 1 - row,
            ),
{
    let mut pixels: Vec<Pixel> = Vec::new();
    let mut row: usize = 0;
    while row < height
        invariant
            cam.wf(),
            world.wf(),
            2 <= width <= 0x1_0000,
            2 <= height <= 0x1_0000,
            row <= height,
            pixels@.len() == row * width,
            forall|r2: int, i2: int|
                0 <= r2 < row && 0 <= i2 < width ==> pixels@[r2 * width + i2] == #[trigger] pixel_model(
                    *cam,
                    world.items@,
                    width as int,
                    height as int,
                    i2,
                    height - 1 - r2,
                ),
        decreases height - row,
    {
        let j: usize = height - 1 - row;
        let mut i: usize = 0;
        while i < width
            invariant
                cam.wf(),
                world.wf(),
                2 <= width <= 0x1_0000,
                2 <= height <= 0x1_0000,
                row < height,
                j == height - 1 - row,
                i <= width,
                pixels@.len() == row * width + i,
                forall|r2: int, i2: int|
                    0 <= r2 < row && 0 <= i2 < width ==> pixels@[r2 * width + i2] == #[trigger] pixel_model(
                        *cam,
                        world.items@,
                        width as int,
                        height as int,
                        i2,
                        height - 1 - r2,
                    ),
                forall|i2: int|
                    0 <= i2 < i ==> pixels@[row * width + i2] == #[trigger] pixel_model(
                        *cam,
                        world.items@,
                        width as int,
                        height as int,
                        i2,
                        j as int,
                    ),
            decreases width - i,
        {
            let u: Fixed = norm_fixed(i, width);
            let v: Fixed = norm_fixed(j, height);
            let r: Ray = cam.get_ray(u, v);
            let c: Color = ray_color(&r, world);
            let px: Pixel = pixel_of(c);
            proof {
                lemma_channel_range(c@.x);
                lemma_channel_range(c@.y);
                lemma_channel_range(c@.z);
            }
            let ghost prev = pixels@;
            pixels.push(px);
            proof {
                assert forall|r2: int, i2: int|
                    0 <= r2 < row && 0 <= i2 < width implies pixels@[r2 * width + i2]
                    == #[trigger] pixel_model(
                    *cam,
                    world.items@,
                    width as int,
                    height as int,
                    i2,
                    height - 1 - r2,
                ) by {
                    assert(r2 * width + i2 < row * width) by (nonlinear_arith)
                        requires
                            0 <= r2,
                            r2 < row,
                            0 <= i2,
                            i2 < width,
                    ;
                    assert(pixels@[r2 * width + i2] == prev[r2 * width + i2]);
                }
            }
            i = i + 1;
        }
        proof {
            assert((row + 1) * width == row * width + width) by (nonlinear_arith);
            assert forall|r2: int, i2: int|
                0 <= r2 < row + 1 && 0 <= i2 < width implies pixels@[r2 * width + i2]
                == #[trigger] pixel_model(
                *cam,
                world.items@,
                width as int,
                height as int,
                i2,
                height - 1 - r2,
            ) by {
                if r2 == row {
                    assert(pixels@[row * width + i2] == pixel_model(
                        *cam,
                        world.items@,
                        width as int,
                        height as int,
                        i2,
                        j as int,
                    ));
                }
            }
        }
        row = row + 1;
    }
    proof {
        assert((height as int) * (width as int) == (width as int) * (height as int))
            by (nonlinear_arith);
    }
    pixels
}

} // verus!
