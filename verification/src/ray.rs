//! Rays: an origin point and a direction vector.  `at(t)` walks the ray to
//! the parameter `t`; the direction is kept as constructed, not normalized.

use crate::fixed::{fits, smul, Fixed};
use crate::vec3::{vadd, vbounded, vls, vscale, Point3, Vec3, V3};
use vstd::prelude::*;

verus! {

/// Bound on the raw coordinates (origin, direction, sphere centers and radii)
/// that the intersection arithmetic accepts.
pub const COORD_MAX: i64 = 0x400_0000;

/// Bound on the raw ray parameter up to which intersections are searched.
pub const T_FAR: i64 = 0x1000_0000;

/// An origin and a direction; immutable once constructed.
#[derive(Clone, Copy, PartialEq, Eq, Structural, Debug)]
pub struct Ray {
    pub origin: Point3,
    pub direction: Vec3,
}

/// The point a ray starting at `o` with direction `d` reaches at parameter
/// `t`.
pub open spec fn ray_at(o: V3, d: V3, t: int) -> V3 {
    vadd(o, vscale(t, d))
}

/// A ray the intersection arithmetic accepts: coordinates within bounds and
/// a direction that is not degenerately short.
pub open spec fn ray_wf(r: Ray) -> bool {
    &&& vbounded(r.origin@, COORD_MAX as int)
    &&& vbounded(r.direction@, COORD_MAX as int)
    &&& vls(r.direction@) >= 1
}

impl Ray {
    /// The ray with the given origin and direction.
    pub fn ray(origin: Point3, direction: Vec3) -> (r: Ray)
        ensures
            r.origin == origin,
            r.direction == direction,
    {
        Ray { origin, direction }
    }

    /// The origin.
    pub fn origin(&self) -> (o: Point3)
        ensures
            o == self.origin,
    {
        self.origin
    }

    /// The direction.
    pub fn direction(&self) -> (d: Vec3)
        ensures
            d == self.direction,
    {
        self.direction
    }

    /// The point reached at parameter `t`.
    pub fn at(&self, t: Fixed) -> (p: Point3)
        requires
            fits(smul(t@, self.direction@.x)),
            fits(smul(t@, self.direction@.y)),
            fits(smul(t@, self.direction@.z)),
            fits(self.origin@.x + smul(t@, self.direction@.x)),
            fits(self.origin@.y + smul(t@, self.direction@.y)),
            fits(self.origin@.z + smul(t@, self.direction@.z)),
        ensures
            p@ == ray_at(self.origin@, self.direction@, t@),
    {
        self.origin.add(self.direction.scale(t))
    }
}

} // verus!
