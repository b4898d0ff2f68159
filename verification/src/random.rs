//! Random sampling helpers: a deterministic linear congruential generator
//! and the rejection sampler for points inside the unit sphere.  Every
//! function states exactly which vector and which generator state come out
//! of a given starting state, so callers can reason about the samples.
//!
//! Rejection sampling classically retries without bound; here the loop
//! retries a fixed number of times and then falls back to a fixed interior
//! point, a deliberate cap so that termination can be stated.  Samples with
//! a squared length below one raw step are rejected as well, so that the
//! sample can always be normalized.

use crate::fixed::{lemma_product_bound, Fixed, SCALE};
use crate::vec3::{
    lemma_vdot_bound, unit, vbounded, vdot_num, vector, vls, vneg, vunit, Point3, Vec3, V3,
};
use vstd::arithmetic::div_mod::lemma_mod_bound;
use vstd::prelude::*;

verus! {

/// Multiplier of the linear congruential step.
pub const RNG_MUL: u64 = 6364136223846793005;

/// Increment of the linear congruential step.
pub const RNG_INC: u64 = 1442695040888963407;

/// How many rejection rounds are attempted before the fixed fallback.
pub const SAMPLE_TRIES: u64 = 64;

/// A deterministic pseudo-random generator: a linear congruential sequence
/// on 64-bit words.
pub struct Rng {
    pub state: u64,
}

/// The successor of a generator state.
pub open spec fn rng_next(s: int) -> int {
    (s * (RNG_MUL as int) + (RNG_INC as int)) % 0x1_0000_0000_0000_0000
}

/// The vector drawn from state `s` with each component in `[lo, hi]`: three
/// generator words, each reduced into the interval.
pub open spec fn rvr_vec(s: int, lo: int, hi: int) -> V3 {
    let s1 = rng_next(s);
    let s2 = rng_next(s1);
    let s3 = rng_next(s2);
    V3 {
        x: lo + s1 % (hi - lo + 1),
        y: lo + s2 % (hi - lo + 1),
        z: lo + s3 % (hi - lo + 1),
    }
}

/// The generator state after drawing one vector.
pub open spec fn rvr_state(s: int) -> int {
    rng_next(rng_next(rng_next(s)))
}

/// The hemisphere rule on a sample `v` and an axis `n`: keep `v` when its
/// exact dot product with `n` is positive, negate it otherwise.  The test is
/// on the raw product sum, so a geometrically positive alignment smaller
/// than one fixed-point unit still counts as positive.
pub open spec fn hemisphere_pick(v: V3, n: V3) -> V3 {
    if vdot_num(v, n) > 0 {
        v
    } else {
        vneg(v)
    }
}

/// Whatever the sample, the picked vector never opposes the axis.
pub proof fn lemma_hemisphere_membership(v: V3, n: V3)
    ensures
        vdot_num(hemisphere_pick(v, n), n) >= 0,
{
    if !(vdot_num(v, n) > 0) {
        assert(vdot_num(vneg(v), n) == -vdot_num(v, n)) by (nonlinear_arith);
    }
}

/// Negating the axis negates the picked vector, whenever the sample is not
/// exactly perpendicular to the axis.
pub proof fn lemma_hemisphere_axis_negation(v: V3, n: V3)
    requires
        vdot_num(v, n) != 0,
    ensures
        hemisphere_pick(v, vneg(n)) == vneg(hemisphere_pick(v, n)),
{
    assert(vdot_num(v, vneg(n)) == -vdot_num(v, n)) by (nonlinear_arith);
    assert(vneg(vneg(v)) == v);
}

/// The rejection sampler, as a function of the starting state and the tries
/// that are left: the first draw whose squared length lies in `[1, SCALE)`,
/// or the fixed fallback point when every try is rejected.
pub open spec fn rius_model(s: int, fuel: nat) -> (V3, int)
    decreases fuel,
{
    if fuel == 0 {
        (V3 { x: 32768, y: 0, z: 0 }, s)
    } else {
        let p = rvr_vec(s, -(SCALE as int), SCALE as int);
        let s3 = rvr_state(s);
        if 1 <= vls(p) < SCALE as int {
            (p, s3)
        } else {
            rius_model(s3, (fuel - 1) as nat)
        }
    }
}

/// Whatever the starting state, the sampled point lies strictly inside the
/// unit sphere, is not degenerately short, and has bounded components.
pub proof fn lemma_rius_model_bounds(s: int, fuel: nat)
    ensures
        ({
            let (v, _s) = rius_model(s, fuel);
            &&& 1 <= vls(v) < SCALE as int
            &&& vbounded(v, SCALE as int)
        }),
    decreases fuel,
{
    if fuel == 0 {
        assert(vls(V3 { x: 32768, y: 0, z: 0 }) == 16384);
    } else {
        let p = rvr_vec(s, -(SCALE as int), SCALE as int);
        let w: int = 2 * (SCALE as int) + 1;
        lemma_mod_bound(rng_next(s), w);
        lemma_mod_bound(rng_next(rng_next(s)), w);
        lemma_mod_bound(rng_next(rng_next(rng_next(s))), w);
        if !(1 <= vls(p) < SCALE as int) {
            lemma_rius_model_bounds(rvr_state(s), (fuel - 1) as nat);
        }
    }
}

impl Rng {
    /// A generator starting from the given seed.
    pub fn seeded(seed: u64) -> (g: Rng)
        ensures
            g.state == seed,
    {
        Rng { state: seed }
    }

    /// Advance the state once and hand out the new word.
    pub fn next_u64(&mut self) -> (r: u64)
        ensures
            final(self).state as int == rng_next(old(self).state as int),
            r == final(self).state,
    {
        proof {
            let s0: int = self.state as int;
            assert(s0 * (RNG_MUL as int) + (RNG_INC as int)
                < 0x8000_0000_0000_0000_0000_0000_0000_0000) by (nonlinear_arith)
                requires
                    0 <= s0 < 0x1_0000_0000_0000_0000,
            ;
        }
        let p: u128 = (self.state as u128) * (RNG_MUL as u128) + (RNG_INC as u128);
        let w: u64 = (p % 0x1_0000_0000_0000_0000u128) as u64;
        self.state = w;
        w
    }
}

/// One component drawn into `[lo, lo + w - 1]`.
fn sample_component(rng: &mut Rng, lo: i64, w: u64) -> (c: i64)
    requires
        1 <= w,
        w as int <= 0x7FFF_FFFF_FFFF_FFFF,
        lo as int + w as int - 1 <= i64::MAX,
    ensures
        c as int == lo + (rng_next(old(rng).state as int) % (w as int)),
        final(rng).state as int == rng_next(old(rng).state as int),
        lo <= c <= lo + w - 1,
{
    let r: u64 = rng.next_u64();
    let m: u64 = r % w;
    proof {
        lemma_mod_bound(r as int, w as int);
    }
    lo + (m as i64)
}

/// A vector with each component drawn from `[lo, hi]`.
pub fn random_vector_range(rng: &mut Rng, lo: Fixed, hi: Fixed) -> (v: Vec3)
    requires
        lo@ <= hi@,
        hi@ - lo@ < 0x7FFF_FFFF_FFFF_FFFF,
    ensures
        v@ == rvr_vec(old(rng).state as int, lo@, hi@),
        final(rng).state as int == rvr_state(old(rng).state as int),
        lo@ <= v@.x <= hi@,
        lo@ <= v@.y <= hi@,
        lo@ <= v@.z <= hi@,
{
    let wide: i128 = (hi.raw as i128) - (lo.raw as i128) + 1;
    let w: u64 = wide as u64;
    let x: i64 = sample_component(rng, lo.raw, w);
    let y: i64 = sample_component(rng, lo.raw, w);
    let z: i64 = sample_component(rng, lo.raw, w);
    vector(Fixed { raw: x }, Fixed { raw: y }, Fixed { raw: z })
}

/// One rejection round per unit of fuel, then the fixed fallback.
fn rius_rec(rng: &mut Rng, fuel: u64) -> (p: Vec3)
    ensures
        ({
            let (v, s) = rius_model(old(rng).state as int, fuel as nat);
            &&& p@ == v
            &&& final(rng).state as int == s
        }),
    decreases fuel,
{
    if fuel == 0 {
        vector(Fixed::new(32768), Fixed::new(0), Fixed::new(0))
    } else {
        let one = Fixed::new(SCALE);
        let neg_one = Fixed::new(-SCALE);
        let p: Vec3 = random_vector_range(rng, neg_one, one);
        proof {
            lemma_vdot_bound(p@, p@, SCALE as int, SCALE as int);
        }
        let ls: Fixed = p.length_squared();
        if 1 <= ls.raw && ls.raw < SCALE {
            p
        } else {
            rius_rec(rng, fuel - 1)
        }
    }
}

/// A point strictly inside the unit sphere, drawn by rejection sampling
/// from the cube `[-1, 1]^3`.
pub fn random_in_unit_sphere(rng: &mut Rng) -> (p: Point3)
    ensures
        ({
            let (v, s) = rius_model(old(rng).state as int, SAMPLE_TRIES as nat);
            &&& p@ == v
            &&& final(rng).state as int == s
        }),
        1 <= vls(p@) < SCALE as int,
        vbounded(p@, SCALE as int),
{
    proof {
        lemma_rius_model_bounds(old(rng).state as int, SAMPLE_TRIES as nat);
    }
    rius_rec(rng, SAMPLE_TRIES)
}

/// The unit vector of a random point inside the unit sphere.
pub fn random_unit_vector(rng: &mut Rng) -> (u: Vec3)
    ensures
        ({
            let (v, s) = rius_model(old(rng).state as int, SAMPLE_TRIES as nat);
            &&& u@ == vunit(v)
            &&& final(rng).state as int == s
        }),
{
    let p: Point3 = random_in_unit_sphere(rng);
    unit(p)
}

/// A random point inside the unit sphere, negated when its exact dot
/// product with `normal` does not point into the hemisphere of `normal`.
pub fn random_in_hemisphere(rng: &mut Rng, normal: Vec3) -> (p: Point3)
    requires
        vbounded(normal@, 0x2000_0000_0000_0000),
    ensures
        ({
            let (v, s) = rius_model(old(rng).state as int, SAMPLE_TRIES as nat);
            &&& p@ == hemisphere_pick(v, normal@)
            &&& final(rng).state as int == s
        }),
        vdot_num(p@, normal@) >= 0,
{
    let in_unit_sphere: Point3 = random_in_unit_sphere(rng);
    proof {
        let m: int = 0x2000_0000_0000_0000;
        lemma_product_bound(in_unit_sphere@.x, normal@.x, SCALE as int, m);
        lemma_product_bound(in_unit_sphere@.y, normal@.y, SCALE as int, m);
        lemma_product_bound(in_unit_sphere@.z, normal@.z, SCALE as int, m);
        lemma_hemisphere_membership(in_unit_sphere@, normal@);
    }
    let px: i128 = (in_unit_sphere.x.raw as i128) * (normal.x.raw as i128);
    let py: i128 = (in_unit_sphere.y.raw as i128) * (normal.y.raw as i128);
    let pz: i128 = (in_unit_sphere.z.raw as i128) * (normal.z.raw as i128);
    if px + py + pz > 0 {
        in_unit_sphere
    } else {
        in_unit_sphere.neg()
    }
}

} // verus!
