//! Spheres and the quadratic ray-sphere intersection.  The whole computation
//! is mirrored by spec functions over the raw integer model, so the contract
//! of `hit` names the exact discriminant, roots and record that the code
//! produces.

use crate::fixed::{
    fits, lemma_div_sign, lemma_sdiv_bound, lemma_smul_bound, lemma_square_nonneg,
    lemma_ssqrt_props, sdiv, smul, sqrt_floor, ssqrt, Fixed, SCALE,
};
use crate::hitrecord::Hitrecord;
use crate::ray::{ray_at, ray_wf, Ray, COORD_MAX, T_FAR};
use crate::vec3::{
    dot, lemma_length_squared_nonneg, lemma_vdot_bound, vbounded, vdiv, vdot, vdot_num, vls, vneg,
    vsub, Point3, Vec3, V3,
};
use vstd::prelude::*;

verus! {

/// A sphere: center and positive radius.
#[derive(Clone, Copy, PartialEq, Eq, Structural, Debug)]
pub struct Sphere {
    pub center: Point3,
    pub radius: Fixed,
}

/// A sphere the intersection arithmetic accepts: bounded center, radius of
/// at least one raw step.
pub open spec fn sphere_wf(s: Sphere) -> bool {
    &&& vbounded(s.center@, COORD_MAX as int)
    &&& 1 <= s.radius@ <= COORD_MAX as int
}

/// Quadratic coefficient `a`: squared length of the ray direction.
pub open spec fn sph_a(d: V3) -> int {
    vls(d)
}

/// Quadratic coefficient `half_b`: dot of (origin - center) with the
/// direction.
pub open spec fn sph_half_b(c: V3, o: V3, d: V3) -> int {
    vdot(vsub(o, c), d)
}

/// Quadratic coefficient `c`: squared distance of the origin from the center
/// minus the squared radius.
pub open spec fn sph_cq(c: V3, rad: int, o: V3) -> int {
    vls(vsub(o, c)) - smul(rad, rad)
}

/// The discriminant `half_b^2 - a*c` of the intersection quadratic.
pub open spec fn sph_disc(c: V3, rad: int, o: V3, d: V3) -> int {
    smul(sph_half_b(c, o, d), sph_half_b(c, o, d)) - smul(sph_a(d), sph_cq(c, rad, o))
}

/// The nearer root `(-half_b - sqrt(disc)) / a`.
pub open spec fn sph_root1(c: V3, rad: int, o: V3, d: V3) -> int {
    sdiv(-sph_half_b(c, o, d) - ssqrt(sph_disc(c, rad, o, d)), sph_a(d))
}

/// The farther root `(-half_b + sqrt(disc)) / a`.
pub open spec fn sph_root2(c: V3, rad: int, o: V3, d: V3) -> int {
    sdiv(-sph_half_b(c, o, d) + ssqrt(sph_disc(c, rad, o, d)), sph_a(d))
}

/// The mathematical model of an intersection record.
pub struct HitModel {
    pub p: V3,
    pub normal: V3,
    pub t: int,
    pub front_face: bool,
}

/// The record produced when a sphere is struck at parameter `root`.
pub open spec fn sph_rec(c: V3, rad: int, o: V3, d: V3, root: int) -> HitModel {
    let p = ray_at(o, d, root);
    let outward = vdiv(vsub(p, c), rad);
    let front = vdot_num(d, outward) < 0;
    HitModel {
        p,
        normal: if front {
            outward
        } else {
            vneg(outward)
        },
        t: root,
        front_face: front,
    }
}

/// The outcome of intersecting a ray with a sphere over `[t_min, t_max]`:
/// no hit when the discriminant is negative or neither root lies in the
/// interval, else the record of the nearer root in the interval.
pub open spec fn sph_hit(c: V3, rad: int, o: V3, d: V3, t_min: int, t_max: int) -> Option<
    HitModel,
> {
    if sph_disc(c, rad, o, d) < 0 {
        None
    } else if t_min <= sph_root1(c, rad, o, d) <= t_max {
        Some(sph_rec(c, rad, o, d, sph_root1(c, rad, o, d)))
    } else if t_min <= sph_root2(c, rad, o, d) <= t_max {
        Some(sph_rec(c, rad, o, d, sph_root2(c, rad, o, d)))
    } else {
        None
    }
}

/// An exec record carries exactly the values of a model record.
pub open spec fn rec_matches(rec: Hitrecord, m: HitModel) -> bool {
    &&& rec.p@ == m.p
    &&& rec.normal@ == m.normal
    &&& rec.t@ == m.t
    &&& rec.front_face == m.front_face
}

/// All intermediate quantities of the intersection quadratic stay within the
/// raw representation for well-formed inputs.
pub proof fn lemma_sph_bounds(c: V3, rad: int, o: V3, d: V3)
    requires
        vbounded(c, COORD_MAX as int),
        vbounded(o, COORD_MAX as int),
        vbounded(d, COORD_MAX as int),
        1 <= rad <= COORD_MAX as int,
        vls(d) >= 1,
    ensures
        vbounded(vsub(o, c), 0x800_0000),
        1 <= sph_a(d) <= 0x30_0000_0000,
        -0x60_0000_0001 <= sph_half_b(c, o, d) <= 0x60_0000_0000,
        0 <= vls(vsub(o, c)) <= 0xC0_0000_0000,
        0 <= smul(rad, rad) <= 0x10_0000_0000,
        -0x10_0000_0001 <= sph_cq(c, rad, o) <= 0xC0_0000_0000,
        0 <= smul(sph_half_b(c, o, d), sph_half_b(c, o, d)) <= 0x2500_0000_0000_0000,
        -0x2500_0000_0000_0001 <= smul(sph_a(d), sph_cq(c, rad, o)) <= 0x2500_0000_0000_0000,
        -0x4A00_0000_0000_0001 <= sph_disc(c, rad, o, d) <= 0x4A00_0000_0000_0000,
        sph_disc(c, rad, o, d) >= 0 ==> 0 <= ssqrt(sph_disc(c, rad, o, d)) < 0x100_0000_0000,
        sph_disc(c, rad, o, d) >= 0 ==> fits(sph_root1(c, rad, o, d)) && fits(
            sph_root2(c, rad, o, d),
        ),
{
    let cm: int = COORD_MAX as int;
    let oc = vsub(o, c);
    let a = sph_a(d);
    let hb = sph_half_b(c, o, d);
    let cq = sph_cq(c, rad, o);
    let disc = sph_disc(c, rad, o, d);
    lemma_vdot_bound(d, d, cm, cm);
    lemma_vdot_bound(oc, d, 2 * cm, cm);
    lemma_vdot_bound(oc, oc, 2 * cm, 2 * cm);
    lemma_length_squared_nonneg(oc);
    lemma_smul_bound(rad, rad, cm, cm);
    lemma_square_nonneg(rad);
    lemma_div_sign(rad * rad, SCALE as int);
    lemma_smul_bound(hb, hb, 0x60_0000_0001, 0x60_0000_0001);
    lemma_square_nonneg(hb);
    lemma_div_sign(hb * hb, SCALE as int);
    lemma_smul_bound(a, cq, 0x30_0000_0000, 0xC0_0000_0001);
    if disc >= 0 {
        lemma_ssqrt_props(disc);
        let sq = ssqrt(disc);
        assert(sq < 0x100_0000_0000) by (nonlinear_arith)
            requires
                sq * sq <= disc * (SCALE as int),
                disc <= 0x4A00_0000_0000_0000,
                sq >= 0,
        ;
        lemma_sdiv_bound(-hb - sq, a, 0x200_0000_0000);
        lemma_sdiv_bound(-hb + sq, a, 0x200_0000_0000);
    }
}

/// The record of a hit at a parameter within the far bound stays within the
/// raw representation.
pub proof fn lemma_sph_rec_fits(c: V3, rad: int, o: V3, d: V3, root: int)
    requires
        vbounded(c, COORD_MAX as int),
        vbounded(o, COORD_MAX as int),
        vbounded(d, COORD_MAX as int),
        1 <= rad <= COORD_MAX as int,
        0 <= root <= T_FAR as int,
    ensures
        fits(smul(root, d.x)),
        fits(smul(root, d.y)),
        fits(smul(root, d.z)),
        fits(o.x + smul(root, d.x)),
        fits(o.y + smul(root, d.y)),
        fits(o.z + smul(root, d.z)),
        vbounded(ray_at(o, d, root), 0x80_0000_0000),
        vbounded(vsub(ray_at(o, d, root), c), 0x100_0000_0000),
        fits(sdiv(vsub(ray_at(o, d, root), c).x, rad)),
        fits(sdiv(vsub(ray_at(o, d, root), c).y, rad)),
        fits(sdiv(vsub(ray_at(o, d, root), c).z, rad)),
        vbounded(vdiv(vsub(ray_at(o, d, root), c), rad), 0x100_0000_0000_0001),
        vbounded(sph_rec(c, rad, o, d, root).normal, 0x100_0000_0000_0001),
        vbounded(sph_rec(c, rad, o, d, root).p, 0x80_0000_0000),
{
    let cm: int = COORD_MAX as int;
    lemma_smul_bound(root, d.x, T_FAR as int, cm);
    lemma_smul_bound(root, d.y, T_FAR as int, cm);
    lemma_smul_bound(root, d.z, T_FAR as int, cm);
    let p = ray_at(o, d, root);
    let diff = vsub(p, c);
    lemma_sdiv_bound(diff.x, rad, 0x100_0000_0000);
    lemma_sdiv_bound(diff.y, rad, 0x100_0000_0000);
    lemma_sdiv_bound(diff.z, rad, 0x100_0000_0000);
}

/// However a hit record is oriented, its stored normal never points along
/// the incoming ray: on a front face it opposes the ray strictly, on a back
/// face the flipped normal makes the product non-positive.
pub proof fn lemma_hit_normal_opposes_ray(c: V3, rad: int, o: V3, d: V3, root: int)
    ensures
        vdot_num(d, sph_rec(c, rad, o, d, root).normal) <= 0,
{
    let outward = vdiv(vsub(ray_at(o, d, root), c), rad);
    if !(vdot_num(d, outward) < 0) {
        assert(vdot_num(d, vneg(outward)) == -vdot_num(d, outward)) by (nonlinear_arith);
    }
}

/// A tangent ray — discriminant exactly zero — is a hit, not a miss: both
/// roots coincide, and the one root is accepted whenever it lies in the
/// search interval.
pub proof fn lemma_tangent_is_hit(c: V3, rad: int, o: V3, d: V3, t_min: int, t_max: int)
    requires
        sph_disc(c, rad, o, d) == 0,
        t_min <= sph_root1(c, rad, o, d) <= t_max,
    ensures
        sph_root1(c, rad, o, d) == sph_root2(c, rad, o, d),
        sph_hit(c, rad, o, d, t_min, t_max) is Some,
        sph_hit(c, rad, o, d, t_min, t_max)->0.t == sph_root1(c, rad, o, d),
{
    assert(ssqrt(0) == 0) by {
        assert(0 * (SCALE as int) == 0);
        assert(sqrt_floor(0nat) == 0);
    }
}

/// The nearer root never exceeds the farther root.
pub proof fn lemma_root_order(c: V3, rad: int, o: V3, d: V3)
    requires
        sph_a(d) >= 1,
        sph_disc(c, rad, o, d) >= 0,
    ensures
        sph_root1(c, rad, o, d) <= sph_root2(c, rad, o, d),
{
    let hb = sph_half_b(c, o, d);
    let sq = ssqrt(sph_disc(c, rad, o, d));
    lemma_ssqrt_props(sph_disc(c, rad, o, d));
    vstd::arithmetic::div_mod::lemma_div_is_ordered(
        (-hb - sq) * (SCALE as int),
        (-hb + sq) * (SCALE as int),
        sph_a(d),
    );
}

/// Shrinking the upper end of the search interval keeps exactly the hits
/// whose parameter still lies inside it, with the same record.
pub proof fn lemma_sph_hit_shrink(
    c: V3,
    rad: int,
    o: V3,
    d: V3,
    t_min: int,
    t_max: int,
    new_max: int,
)
    requires
        sph_a(d) >= 1,
        sph_hit(c, rad, o, d, t_min, t_max) is Some,
        t_min <= new_max <= t_max,
    ensures
        sph_hit(c, rad, o, d, t_min, new_max) == if sph_hit(
            c,
            rad,
            o,
            d,
            t_min,
            t_max,
        )->0.t <= new_max {
            sph_hit(c, rad, o, d, t_min, t_max)
        } else {
            None::<HitModel>
        },
{
    lemma_root_order(c, rad, o, d);
}

impl Sphere {
    /// The sphere with the given center and radius.
    pub fn sphere(center: Point3, radius: Fixed) -> (s: Sphere)
        requires
            vbounded(center@, COORD_MAX as int),
            1 <= radius@ <= COORD_MAX as int,
        ensures
            s.center == center,
            s.radius == radius,
            sphere_wf(s),
    {
        Sphere { center, radius }
    }

    /// Intersect a ray with this sphere over `[t_min, t_max]`, reporting the
    /// record of the nearer root in the interval, if any.
    pub fn hit(&self, r: &Ray, t_min: Fixed, t_max: Fixed) -> (res: Option<Hitrecord>)
        requires
            sphere_wf(*self),
            ray_wf(*r),
            0 <= t_min@,
            t_min@ <= t_max@,
            t_max@ <= T_FAR as int,
        ensures
            (res is Some) == (sph_hit(
                self.center@,
                self.radius@,
                r.origin@,
                r.direction@,
                t_min@,
                t_max@,
            ) is Some),
            res is Some ==> rec_matches(
                res->0,
                sph_hit(self.center@, self.radius@, r.origin@, r.direction@, t_min@, t_max@)->0,
            ),
    {
        proof {
            lemma_sph_bounds(self.center@, self.radius@, r.origin@, r.direction@);
        }
        let oc: Vec3 = r.origin.sub(self.center);
        let a: Fixed = r.direction.length_squared();
        let half_b: Fixed = dot(oc, r.direction);
        let c_q: Fixed = oc.length_squared().sub(self.radius.mul(self.radius));
        let disc: Fixed = half_b.mul(half_b).sub(a.mul(c_q));
        if disc.raw < 0 {
            return None;
        }
        let sqrtd: Fixed = disc.sqrt();
        let num1: Fixed = half_b.neg().sub(sqrtd);
        let mut root: Fixed = num1.div(a);
        if root.raw < t_min.raw || t_max.raw < root.raw {
            let num2: Fixed = half_b.neg().add(sqrtd);
            root = num2.div(a);
            if root.raw < t_min.raw || t_max.raw < root.raw {
                return None;
            }
        }
        proof {
            lemma_sph_rec_fits(self.center@, self.radius@, r.origin@, r.direction@, root@);
        }
        let p: Point3 = r.at(root);
        let outward: Vec3 = p.sub(self.center).div_scalar(self.radius);
        let mut rec = Hitrecord { p, normal: outward, t: root, front_face: false };
        rec.set_face_normal(r, outward);
        Some(rec)
    }
}

} // verus!
