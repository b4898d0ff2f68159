//! The surface capability: a geometric object a ray can strike.  The shape
//! set here is closed, so the capability is a tagged variant; every variant
//! answers the same intersection question, and the scene aggregate treats
//! them uniformly.

use crate::fixed::Fixed;
use crate::hitrecord::Hitrecord;
use crate::ray::{ray_wf, Ray, T_FAR};
use crate::sphere::{rec_matches, sph_hit, sphere_wf, HitModel, Sphere};
use crate::vec3::V3;
use vstd::prelude::*;

verus! {

/// A surface a ray can strike.
#[derive(Clone, Copy, PartialEq, Eq, Structural, Debug)]
pub enum Surface {
    Sphere(Sphere),
}

/// A surface the intersection arithmetic accepts.
pub open spec fn surface_wf(su: Surface) -> bool {
    match su {
        Surface::Sphere(s) => sphere_wf(s),
    }
}

/// The outcome of intersecting a ray with a surface over `[t_min, t_max]`.
pub open spec fn surface_hit(su: Surface, o: V3, d: V3, t_min: int, t_max: int) -> Option<
    HitModel,
> {
    match su {
        Surface::Sphere(s) => sph_hit(s.center@, s.radius@, o, d, t_min, t_max),
    }
}

/// A reported intersection lies within the interval it was searched in.
pub proof fn lemma_surface_hit_t_range(su: Surface, o: V3, d: V3, t_min: int, t_max: int)
    ensures
        surface_hit(su, o, d, t_min, t_max) is Some ==> t_min <= surface_hit(
            su,
            o,
            d,
            t_min,
            t_max,
        )->0.t <= t_max,
{
}

impl Surface {
    /// Intersect a ray with this surface over `[t_min, t_max]`, reporting
    /// the closest acceptable intersection, if any.  The surface itself is
    /// never changed.
    pub fn hit(&self, r: &Ray, t_min: Fixed, t_max: Fixed) -> (res: Option<Hitrecord>)
        requires
            surface_wf(*self),
            ray_wf(*r),
            0 <= t_min@,
            t_min@ <= t_max@,
            t_max@ <= T_FAR as int,
        ensures
            (res is Some) == (surface_hit(*self, r.origin@, r.direction@, t_min@, t_max@) is Some),
            res is Some ==> rec_matches(
                res->0,
                surface_hit(*self, r.origin@, r.direction@, t_min@, t_max@)->0,
            ),
    {
        match self {
            Surface::Sphere(s) => s.hit(r, t_min, t_max),
        }
    }
}

} // verus!
