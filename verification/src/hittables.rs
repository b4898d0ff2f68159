//! The scene aggregate: an ordered collection of owned surfaces, answering
//! the same intersection question by taking the closest hit across members.
//! The reduction shrinks the upper bound of the search interval to the best
//! parameter seen so far, so later members can only improve on it.

use crate::fixed::Fixed;
use crate::hitrecord::Hitrecord;
use crate::hittable::{lemma_surface_hit_t_range, surface_hit, surface_wf, Surface};
use crate::ray::{ray_wf, Ray, T_FAR};
use crate::sphere::{rec_matches, HitModel};
use crate::vec3::V3;
use vstd::prelude::*;

verus! {

/// Every member accepted by the intersection arithmetic.
pub open spec fn scene_wf(items: Seq<Surface>) -> bool {
    forall|i: int| 0 <= i < items.len() ==> surface_wf(#[trigger] items[i])
}

/// The state of the closest-hit reduction after the first `n` members: the
/// current upper bound of the search interval, and the best record so far.
pub open spec fn scene_fold(
    items: Seq<Surface>,
    o: V3,
    d: V3,
    t_min: int,
    t_max: int,
    n: int,
) -> (int, Option<HitModel>)
    decreases n,
{
    if n <= 0 {
        (t_max, None)
    } else {
        let (closest, best) = scene_fold(items, o, d, t_min, t_max, n - 1);
        match surface_hit(items[n - 1], o, d, t_min, closest) {
            Some(m) => (m.t, Some(m)),
            None => (closest, best),
        }
    }
}

/// The closest hit across all members of the scene, if any.
pub open spec fn scene_hit(items: Seq<Surface>, o: V3, d: V3, t_min: int, t_max: int) -> Option<
    HitModel,
> {
    scene_fold(items, o, d, t_min, t_max, items.len() as int).1
}

/// The closest-hit reduction over two surfaces that a ray both strikes
/// individually reports the smaller of the two individual parameters (the
/// later member on a tie, whose parameter is the same).
pub proof fn lemma_two_surface_closest(
    s1: Surface,
    s2: Surface,
    o: V3,
    d: V3,
    t_min: int,
    t_max: int,
)
    requires
        crate::vec3::vls(d) >= 1,
        surface_hit(s1, o, d, t_min, t_max) is Some,
        surface_hit(s2, o, d, t_min, t_max) is Some,
    ensures
        ({
            let m1 = surface_hit(s1, o, d, t_min, t_max)->0;
            let m2 = surface_hit(s2, o, d, t_min, t_max)->0;
            let res = scene_hit(seq![s1, s2], o, d, t_min, t_max);
            &&& res is Some
            &&& res->0.t == if m2.t <= m1.t {
                m2.t
            } else {
                m1.t
            }
        }),
{
    let items = seq![s1, s2];
    let m1 = surface_hit(s1, o, d, t_min, t_max)->0;
    let m2 = surface_hit(s2, o, d, t_min, t_max)->0;
    lemma_surface_hit_t_range(s1, o, d, t_min, t_max);
    lemma_surface_hit_t_range(s2, o, d, t_min, t_max);
    assert(items[0] == s1);
    assert(items[1] == s2);
    assert(scene_fold(items, o, d, t_min, t_max, 0) == (t_max, None::<HitModel>));
    assert(scene_fold(items, o, d, t_min, t_max, 1) == (m1.t, Some(m1)));
    match s2 {
        Surface::Sphere(sp) => {
            crate::sphere::lemma_sph_hit_shrink(
                sp.center@,
                sp.radius@,
                o,
                d,
                t_min,
                t_max,
                m1.t,
            );
        },
    }
    assert(items.len() == 2);
}

/// Closest-hit selection is commutative over the members: for two surfaces
/// a ray strikes individually, either insertion order reports the same
/// closest parameter.
pub proof fn lemma_insertion_order_keeps_closest(
    s1: Surface,
    s2: Surface,
    o: V3,
    d: V3,
    t_min: int,
    t_max: int,
)
    requires
        crate::vec3::vls(d) >= 1,
        surface_hit(s1, o, d, t_min, t_max) is Some,
        surface_hit(s2, o, d, t_min, t_max) is Some,
    ensures
        scene_hit(seq![s1, s2], o, d, t_min, t_max) is Some,
        scene_hit(seq![s2, s1], o, d, t_min, t_max) is Some,
        scene_hit(seq![s1, s2], o, d, t_min, t_max)->0.t == scene_hit(
            seq![s2, s1],
            o,
            d,
            t_min,
            t_max,
        )->0.t,
{
    lemma_two_surface_closest(s1, s2, o, d, t_min, t_max);
    lemma_two_surface_closest(s2, s1, o, d, t_min, t_max);
}

/// The ordered collection of surfaces a ray is tested against.  The
/// aggregate exclusively owns its members.
pub struct Hittables {
    pub items: Vec<Surface>,
}

impl Hittables {
    /// Every member accepted by the intersection arithmetic.
    pub open spec fn wf(&self) -> bool {
        scene_wf(self.items@)
    }

    /// The empty scene.
    pub fn new() -> (h: Hittables)
        ensures
            h.items@ == Seq::<Surface>::empty(),
            h.wf(),
    {
        Hittables { items: Vec::new() }
    }

    /// Take ownership of one more surface, appended after the existing
    /// members.
    pub fn add(&mut self, su: Surface)
        requires
            surface_wf(su),
        ensures
            final(self).items@ == old(self).items@.push(su),
    {
        self.items.push(su);
    }

    /// Intersect a ray with every member over `[t_min, t_max]` and report
    /// the record of the closest acceptable intersection, if any.
    pub fn hit(&self, r: &Ray, t_min: Fixed, t_max: Fixed) -> (res: Option<Hitrecord>)
        requires
            self.wf(),
            ray_wf(*r),
            0 <= t_min@,
            t_min@ <= t_max@,
            t_max@ <= T_FAR as int,
        ensures
            (res is Some) == (scene_hit(
                self.items@,
                r.origin@,
                r.direction@,
                t_min@,
                t_max@,
            ) is Some),
            res is Some ==> rec_matches(
                res->0,
                scene_hit(self.items@, r.origin@, r.direction@, t_min@, t_max@)->0,
            ),
    {
        let ghost o: V3 = r.origin@;
        let ghost d: V3 = r.direction@;
        let mut closest: Fixed = t_max;
        let mut best: Option<Hitrecord> = None;
        let mut i: usize = 0;
        let n: usize = self.items.len();
        while i < n
            invariant
                0 <= i <= n,
                n == self.items@.len(),
                self.wf(),
                ray_wf(*r),
                o == r.origin@,
                d == r.direction@,
                0 <= t_min@,
                t_min@ <= closest@,
                closest@ <= t_max@,
                t_max@ <= T_FAR as int,
                ({
                    let (cl, b) = scene_fold(self.items@, o, d, t_min@, t_max@, i as int);
                    &&& closest@ == cl
                    &&& (best is Some) == (b is Some)
                    &&& (best is Some ==> rec_matches(best->0, b->0))
                }),
            decreases n - i,
        {
            let res = self.items[i].hit(r, t_min, closest);
            proof {
                lemma_surface_hit_t_range(self.items@[i as int], o, d, t_min@, closest@);
            }
            match res {
                Some(rec) => {
                    closest = rec.t;
                    best = Some(rec);
                },
                None => {},
            }
            i = i + 1;
        }
        best
    }
}

} // verus!
