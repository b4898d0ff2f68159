//! The camera: derives the viewport geometry once, and maps normalized
//! image-plane coordinates (u, v) to a world-space ray from the camera
//! origin through the viewport.  Ray directions are kept as computed, not
//! normalized.

use crate::fixed::{
    lemma_div_neg_lower, lemma_smul_bound, lemma_square_nonneg, sdiv, smul, Fixed, SCALE,
};
use crate::ray::{ray_wf, Ray};
use crate::vec3::{vadd, vbounded, vdiv, vector, vls, vscale, vsub, Point3, Vec3, V3};
use vstd::arithmetic::div_mod::{
    lemma_div_is_ordered, lemma_div_of0, lemma_fundamental_div_mod, lemma_mod_bound,
};
use vstd::prelude::*;

verus! {

/// Fixed render geometry: the camera origin and the derived viewport frame.
pub struct Camera {
    pub origin: Point3,
    pub lower_left_corner: Point3,
    pub horizontal: Vec3,
    pub vertical: Vec3,
}

/// The horizontal viewport span for the given aspect ratio and viewport
/// height.
pub open spec fn cam_horizontal(ar: int, vh: int) -> V3 {
    V3 { x: smul(ar, vh), y: 0, z: 0 }
}

/// The vertical viewport span for the given viewport height.
pub open spec fn cam_vertical(vh: int) -> V3 {
    V3 { x: 0, y: vh, z: 0 }
}

/// The lower-left corner of the viewport: the origin moved back by half of
/// each span and by the focal length along -z.
pub open spec fn cam_llc(ar: int, vh: int, fl: int, o: V3) -> V3 {
    vsub(
        vsub(
            vsub(o, vdiv(cam_horizontal(ar, vh), 2 * (SCALE as int))),
            vdiv(cam_vertical(vh), 2 * (SCALE as int)),
        ),
        V3 { x: 0, y: 0, z: fl },
    )
}

/// The direction of the camera ray for normalized coordinates (u, v): from
/// the origin to the viewport point `lower_left + u*horizontal +
/// v*vertical`.
pub open spec fn cam_ray_dir(c: Camera, u: int, v: int) -> V3 {
    vsub(
        vadd(vadd(c.lower_left_corner@, vscale(u, c.horizontal@)), vscale(v, c.vertical@)),
        c.origin@,
    )
}

impl Camera {
    /// A camera frame the ray generator accepts: bounded fields, spans lying
    /// in the image plane, and a viewport standing off the origin.
    pub open spec fn wf(&self) -> bool {
        &&& vbounded(self.origin@, 0x10_0000)
        &&& vbounded(self.horizontal@, 0x100_0001)
        &&& vbounded(self.vertical@, 0x10_0001)
        &&& vbounded(self.lower_left_corner@, 0x200_0000)
        &&& self.horizontal@.z == 0
        &&& self.vertical@.z == 0
        &&& self.lower_left_corner@.z - self.origin@.z <= -256
    }

    /// Derive the viewport frame from the render configuration.
    pub fn camera(
        aspect_ratio: Fixed,
        viewport_height: Fixed,
        focal_length: Fixed,
        origin: Point3,
    ) -> (cam: Camera)
        requires
            0 < aspect_ratio@ <= 0x10_0000,
            0 < viewport_height@ <= 0x10_0000,
            256 <= focal_length@ <= 0x10_0000,
            vbounded(origin@, 0x10_0000),
        ensures
            cam.origin == origin,
            cam.horizontal@ == cam_horizontal(aspect_ratio@, viewport_height@),
            cam.vertical@ == cam_vertical(viewport_height@),
            cam.lower_left_corner@ == cam_llc(
                aspect_ratio@,
                viewport_height@,
                focal_length@,
                origin@,
            ),
            cam.wf(),
    {
        proof {
            lemma_smul_bound(aspect_ratio@, viewport_height@, 0x10_0000, 0x10_0000);
            lemma_sdiv_half_bound(smul(aspect_ratio@, viewport_height@), 0x100_0000);
            lemma_sdiv_half_bound(viewport_height@, 0x10_0000);
            lemma_sdiv_half_bound(0, 0x10_0000);
            lemma_div_of0(2 * (SCALE as int));
            assert(sdiv(0, 2 * (SCALE as int)) == 0);
        }
        let zero = Fixed::new(0);
        let vp_w: Fixed = aspect_ratio.mul(viewport_height);
        let horizontal: Vec3 = vector(vp_w, zero, zero);
        let vertical: Vec3 = vector(zero, viewport_height, zero);
        let two: Fixed = Fixed::from_int(2);
        let lower_left_corner: Point3 = origin.sub(horizontal.div_scalar(two)).sub(
            vertical.div_scalar(two),
        ).sub(vector(zero, zero, focal_length));
        Camera { origin, lower_left_corner, horizontal, vertical }
    }

    /// The ray from the origin through the viewport point for normalized
    /// coordinates (u, v), each within `[0, 1]`.
    pub fn get_ray(&self, u: Fixed, v: Fixed) -> (r: Ray)
        requires
            self.wf(),
            0 <= u@ <= SCALE as int,
            0 <= v@ <= SCALE as int,
        ensures
            r.origin == self.origin,
            r.direction@ == cam_ray_dir(*self, u@, v@),
            ray_wf(r),
    {
        proof {
            let s: int = SCALE as int;
            lemma_smul_bound(u@, self.horizontal@.x, s, 0x100_0001);
            lemma_smul_bound(u@, self.horizontal@.y, s, 0x100_0001);
            lemma_smul_bound(u@, self.horizontal@.z, s, 0x100_0001);
            lemma_smul_bound(v@, self.vertical@.x, s, 0x10_0001);
            lemma_smul_bound(v@, self.vertical@.y, s, 0x10_0001);
            lemma_smul_bound(v@, self.vertical@.z, s, 0x10_0001);
            assert(u@ * self.horizontal@.z == 0) by (nonlinear_arith)
                requires
                    self.horizontal@.z == 0,
            ;
            assert(v@ * self.vertical@.z == 0) by (nonlinear_arith)
                requires
                    self.vertical@.z == 0,
            ;
            lemma_div_of0(s);
        }
        let dir: Vec3 = self.lower_left_corner.add(self.horizontal.scale(u)).add(
            self.vertical.scale(v),
        ).sub(self.origin);
        proof {
            let dv = dir@;
            assert(dv.z <= -256);
            assert(dv.z * dv.z >= 0x1_0000) by (nonlinear_arith)
                requires
                    dv.z <= -256,
            ;
            lemma_square_nonneg(dv.x);
            lemma_square_nonneg(dv.y);
            lemma_div_is_ordered(0x1_0000, dv.x * dv.x + dv.y * dv.y + dv.z * dv.z, SCALE as int);
            assert(vls(dv) >= 1);
        }
        Ray { origin: self.origin, direction: dir }
    }
}

/// Halving a bounded scalar (a quotient by two units) keeps it bounded.
proof fn lemma_sdiv_half_bound(a: int, m: int)
    requires
        -m <= a <= m,
        0 <= m,
    ensures
        -m - 1 <= sdiv(a, 2 * (SCALE as int)) <= m,
{
    let s: int = SCALE as int;
    let b: int = 2 * s;
    lemma_fundamental_div_mod(m * s, b);
    lemma_mod_bound(m * s, b);
    lemma_div_is_ordered(a * s, m * s, b);
    lemma_div_is_ordered(-(m * s), a * s, b);
    assert(-(m * s) <= a * s <= m * s) by (nonlinear_arith)
        requires
            -m <= a <= m,
            s > 0,
    ;
    assert((m * s) / b <= m) by (nonlinear_arith)
        requires
            s > 0,
            b == 2 * s,
            m >= 0,
            (m * s) == b * ((m * s) / b) + (m * s) % b,
            0 <= (m * s) % b,
    ;
    lemma_div_neg_lower(m * s, b);
    assert((-(m * s)) / b >= -((m * s) / b) - 1);
}

} // verus!
