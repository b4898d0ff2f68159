//! The record a successful intersection produces: the point, the surface
//! normal there, the ray parameter, and whether the front face was struck.

use crate::fixed::{lemma_product_bound, Fixed};
use crate::ray::Ray;
use crate::vec3::{vbounded, vdot_num, vneg, Vec3};
use vstd::prelude::*;

verus! {

/// A populated intersection record.
#[derive(Clone, Copy, PartialEq, Eq, Structural, Debug)]
pub struct Hitrecord {
    pub p: Vec3,
    pub normal: Vec3,
    pub t: Fixed,
    pub front_face: bool,
}

impl Hitrecord {
    /// Orient `outward_normal` against the incoming ray: the front face is
    /// struck exactly when the ray direction opposes the outward normal, and
    /// the stored normal is flipped on a back-face hit so that it never
    /// points along the ray.
    pub fn set_face_normal(&mut self, r: &Ray, outward_normal: Vec3)
        requires
            vbounded(r.direction@, 0x4000_0000_0000_0000),
            vbounded(outward_normal@, 0x4000_0000_0000_0000),
        ensures
            final(self).front_face == (vdot_num(r.direction@, outward_normal@) < 0),
            final(self).normal@ == if vdot_num(r.direction@, outward_normal@) < 0 {
                outward_normal@
            } else {
                vneg(outward_normal@)
            },
            final(self).p == old(self).p,
            final(self).t == old(self).t,
            vdot_num(r.direction@, final(self).normal@) <= 0,
    {
        proof {
            let m: int = 0x4000_0000_0000_0000;
            lemma_product_bound(r.direction@.x, outward_normal@.x, m, m);
            lemma_product_bound(r.direction@.y, outward_normal@.y, m, m);
            lemma_product_bound(r.direction@.z, outward_normal@.z, m, m);
        }
        let px: i128 = (r.direction.x.raw as i128) * (outward_normal.x.raw as i128);
        let py: i128 = (r.direction.y.raw as i128) * (outward_normal.y.raw as i128);
        let pz: i128 = (r.direction.z.raw as i128) * (outward_normal.z.raw as i128);
        let front_face: bool = px + py + pz < 0;
        self.front_face = front_face;
        if front_face {
            self.normal = outward_normal;
        } else {
            self.normal = outward_normal.neg();
            proof {
                let d = r.direction@;
                let n = outward_normal@;
                assert(vdot_num(d, vneg(n)) == -vdot_num(d, n)) by (nonlinear_arith);
            }
        }
    }
}

} // verus!
