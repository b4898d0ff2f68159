//! Three-component vectors over fixed-point scalars, used for points in
//! space, directions and color triples alike.  The view of a `Vec3` is a
//! `V3`, a triple of unbounded integers (raw fixed-point values), and every
//! operation states its result exactly over that model.

use crate::fixed::{
    fits, lemma_div_neg_lower, lemma_product_bound, lemma_sdiv_bound, lemma_square_nonneg,
    lemma_ssqrt_props, sdiv, smul, ssqrt, Fixed, SCALE,
};
use vstd::arithmetic::div_mod::{lemma_div_is_ordered, lemma_div_pos_is_pos};
use vstd::prelude::*;

verus! {

/// A point in space, a direction, or a color triple.
#[derive(Clone, Copy, PartialEq, Eq, Structural, Debug)]
pub struct Vec3 {
    pub x: Fixed,
    pub y: Fixed,
    pub z: Fixed,
}

/// A point in space.
pub type Point3 = Vec3;

/// A color triple: channel intensities, one unit standing for full intensity.
pub type Color = Vec3;

/// The mathematical model of a `Vec3`: its three raw values.
pub struct V3 {
    pub x: int,
    pub y: int,
    pub z: int,
}

impl View for Vec3 {
    type V = V3;

    open spec fn view(&self) -> V3 {
        V3 { x: self.x@, y: self.y@, z: self.z@ }
    }
}

/// Component-wise sum.
pub open spec fn vadd(a: V3, b: V3) -> V3 {
    V3 { x: a.x + b.x, y: a.y + b.y, z: a.z + b.z }
}

/// Component-wise difference.
pub open spec fn vsub(a: V3, b: V3) -> V3 {
    V3 { x: a.x - b.x, y: a.y - b.y, z: a.z - b.z }
}

/// Component-wise negation.
pub open spec fn vneg(a: V3) -> V3 {
    V3 { x: -a.x, y: -a.y, z: -a.z }
}

/// Scalar multiple (fixed-point rounding in each component).
pub open spec fn vscale(s: int, a: V3) -> V3 {
    V3 { x: smul(s, a.x), y: smul(s, a.y), z: smul(s, a.z) }
}

/// Quotient by a positive scalar (fixed-point rounding in each component).
pub open spec fn vdiv(a: V3, s: int) -> V3 {
    V3 { x: sdiv(a.x, s), y: sdiv(a.y, s), z: sdiv(a.z, s) }
}

/// Sum of the raw component products, before any rescaling.  Its sign is the
/// sign of the geometric dot product.
pub open spec fn vdot_num(a: V3, b: V3) -> int {
    a.x * b.x + a.y * b.y + a.z * b.z
}

/// Dot product: the sum of the raw component products, brought back to one
/// fixed-point scaling.
pub open spec fn vdot(a: V3, b: V3) -> int {
    vdot_num(a, b) / (SCALE as int)
}

/// Squared length.
pub open spec fn vls(a: V3) -> int {
    vdot(a, a)
}

/// Length: fixed-point square root of the squared length.
pub open spec fn vlen(a: V3) -> int {
    ssqrt(vls(a))
}

/// The unit vector with the direction of `a`.
pub open spec fn vunit(a: V3) -> V3 {
    vdiv(a, vlen(a))
}

/// Every component within `[-m, m]`.
pub open spec fn vbounded(a: V3, m: int) -> bool {
    &&& -m <= a.x <= m
    &&& -m <= a.y <= m
    &&& -m <= a.z <= m
}

/// The dot product of a vector with itself is its squared length.
pub proof fn lemma_dot_self_is_length_squared(a: V3)
    ensures
        vdot(a, a) == vls(a),
{
}

/// A squared length is never negative.
pub proof fn lemma_length_squared_nonneg(a: V3)
    ensures
        vls(a) >= 0,
{
    lemma_square_nonneg(a.x);
    lemma_square_nonneg(a.y);
    lemma_square_nonneg(a.z);
    lemma_div_pos_is_pos(a.x * a.x + a.y * a.y + a.z * a.z, SCALE as int);
}

/// A dot product of vectors bounded by `m` and `k` is bounded.
pub proof fn lemma_vdot_bound(a: V3, b: V3, m: int, k: int)
    requires
        vbounded(a, m),
        vbounded(b, k),
        0 <= m,
        0 <= k,
    ensures
        -((3 * (m * k)) / (SCALE as int)) - 1 <= vdot(a, b) <= (3 * (m * k)) / (SCALE as int),
{
    lemma_product_bound(a.x, b.x, m, k);
    lemma_product_bound(a.y, b.y, m, k);
    lemma_product_bound(a.z, b.z, m, k);
    let p = a.x * b.x + a.y * b.y + a.z * b.z;
    lemma_div_is_ordered(p, 3 * (m * k), SCALE as int);
    lemma_div_is_ordered(-(3 * (m * k)), p, SCALE as int);
    lemma_div_neg_lower(3 * (m * k), SCALE as int);
}

impl Vec3 {
    /// The vector with the given components.
    pub fn new(x: Fixed, y: Fixed, z: Fixed) -> (r: Vec3)
        ensures
            r@ == (V3 { x: x@, y: y@, z: z@ }),
    {
        Vec3 { x, y, z }
    }

    /// Component-wise sum.
    pub fn add(self, o: Vec3) -> (r: Vec3)
        requires
            fits(self@.x + o@.x),
            fits(self@.y + o@.y),
            fits(self@.z + o@.z),
        ensures
            r@ == vadd(self@, o@),
    {
        Vec3 { x: self.x.add(o.x), y: self.y.add(o.y), z: self.z.add(o.z) }
    }

    /// Component-wise difference.
    pub fn sub(self, o: Vec3) -> (r: Vec3)
        requires
            fits(self@.x - o@.x),
            fits(self@.y - o@.y),
            fits(self@.z - o@.z),
        ensures
            r@ == vsub(self@, o@),
    {
        Vec3 { x: self.x.sub(o.x), y: self.y.sub(o.y), z: self.z.sub(o.z) }
    }

    /// Component-wise negation.
    pub fn neg(self) -> (r: Vec3)
        requires
            fits(-self@.x),
            fits(-self@.y),
            fits(-self@.z),
        ensures
            r@ == vneg(self@),
    {
        Vec3 { x: self.x.neg(), y: self.y.neg(), z: self.z.neg() }
    }

    /// Scalar multiple.
    pub fn scale(self, s: Fixed) -> (r: Vec3)
        requires
            fits(smul(s@, self@.x)),
            fits(smul(s@, self@.y)),
            fits(smul(s@, self@.z)),
        ensures
            r@ == vscale(s@, self@),
    {
        Vec3 { x: s.mul(self.x), y: s.mul(self.y), z: s.mul(self.z) }
    }

    /// Quotient by a positive scalar.
    pub fn div_scalar(self, s: Fixed) -> (r: Vec3)
        requires
            s@ > 0,
            fits(sdiv(self@.x, s@)),
            fits(sdiv(self@.y, s@)),
            fits(sdiv(self@.z, s@)),
        ensures
            r@ == vdiv(self@, s@),
    {
        Vec3 { x: self.x.div(s), y: self.y.div(s), z: self.z.div(s) }
    }

    /// Squared length.
    pub fn length_squared(self) -> (r: Fixed)
        requires
            vbounded(self@, 0x4000_0000_0000_0000),
            fits(vls(self@)),
        ensures
            r@ == vls(self@),
            r@ >= 0,
    {
        proof {
            lemma_length_squared_nonneg(self@);
        }
        dot(self, self)
    }

    /// Length.
    pub fn length(self) -> (r: Fixed)
        requires
            vbounded(self@, 0x4000_0000_0000_0000),
            fits(vls(self@)),
        ensures
            r@ == vlen(self@),
            r@ >= 0,
    {
        proof {
            lemma_length_squared_nonneg(self@);
        }
        self.length_squared().sqrt()
    }
}

/// The vector with the given components.
pub fn vector(x: Fixed, y: Fixed, z: Fixed) -> (r: Vec3)
    ensures
        r@ == (V3 { x: x@, y: y@, z: z@ }),
{
    Vec3 { x, y, z }
}

/// The point with the given coordinates.
pub fn point3(x: Fixed, y: Fixed, z: Fixed) -> (r: Point3)
    ensures
        r@ == (V3 { x: x@, y: y@, z: z@ }),
{
    Vec3 { x, y, z }
}

/// The color with the given channels.
pub fn color(x: Fixed, y: Fixed, z: Fixed) -> (r: Color)
    ensures
        r@ == (V3 { x: x@, y: y@, z: z@ }),
{
    Vec3 { x, y, z }
}

/// Dot product.
pub fn dot(a: Vec3, b: Vec3) -> (r: Fixed)
    requires
        vbounded(a@, 0x4000_0000_0000_0000),
        vbounded(b@, 0x4000_0000_0000_0000),
        fits(vdot(a@, b@)),
    ensures
        r@ == vdot(a@, b@),
{
    proof {
        lemma_product_bound(a@.x, b@.x, 0x4000_0000_0000_0000, 0x4000_0000_0000_0000);
        lemma_product_bound(a@.y, b@.y, 0x4000_0000_0000_0000, 0x4000_0000_0000_0000);
        lemma_product_bound(a@.z, b@.z, 0x4000_0000_0000_0000, 0x4000_0000_0000_0000);
    }
    let px: i128 = (a.x.raw as i128) * (b.x.raw as i128);
    let py: i128 = (a.y.raw as i128) * (b.y.raw as i128);
    let pz: i128 = (a.z.raw as i128) * (b.z.raw as i128);
    let q: i128 = crate::fixed::div_floor(px + py + pz, SCALE as i128);
    Fixed { raw: q as i64 }
}

/// The unit vector with the direction of `v`.  The direction must have at
/// least one raw step of squared length, so that the quotient is defined.
pub fn unit(v: Vec3) -> (r: Vec3)
    requires
        vbounded(v@, 0x40_0000_0000),
        vls(v@) >= 1,
    ensures
        r@ == vunit(v@),
        vbounded(r@, 0x40_0000_0000_0001),
{
    proof {
        lemma_unit_fits(v@);
    }
    let len = v.length();
    v.div_scalar(len)
}

/// Everything `unit` computes stays within the raw representation.
proof fn lemma_unit_fits(a: V3)
    requires
        vbounded(a, 0x40_0000_0000),
        vls(a) >= 1,
    ensures
        fits(vls(a)),
        vls(a) >= 1,
        1 <= vlen(a),
        vlen(a) <= 0x80_0000_0000,
        fits(sdiv(a.x, vlen(a))),
        fits(sdiv(a.y, vlen(a))),
        fits(sdiv(a.z, vlen(a))),
        vbounded(vunit(a), 0x40_0000_0000_0001),
        vbounded(a, 0x4000_0000_0000_0000),
{
    let s: int = SCALE as int;
    lemma_vdot_bound(a, a, 0x40_0000_0000, 0x40_0000_0000);
    let ls = vls(a);
    assert(ls <= 0x3000_0000_0000_0000);
    let len = vlen(a);
    lemma_ssqrt_props(ls);
    assert(ls * s <= 0x3000_0000_0000_0000_0000) by (nonlinear_arith)
        requires
            ls <= 0x3000_0000_0000_0000,
            s == 0x1_0000,
    ;
    assert(ls * s >= 0x1_0000) by (nonlinear_arith)
        requires
            ls >= 1,
            s == 0x1_0000,
    ;
    assert(len <= 0x80_0000_0000) by (nonlinear_arith)
        requires
            len * len <= 0x3000_0000_0000_0000_0000,
            len >= 0,
    ;
    assert(len >= 1) by (nonlinear_arith)
        requires
            0x1_0000 <= ls * s,
            ls * s < (len + 1) * (len + 1),
            len >= 0,
    ;
    lemma_sdiv_bound(a.x, len, 0x40_0000_0000);
    lemma_sdiv_bound(a.y, len, 0x40_0000_0000);
    lemma_sdiv_bound(a.z, len, 0x40_0000_0000);
}

} // verus!
