//! Fixed-point scalars: the number kept in a `Fixed` with raw value `r` is
//! `r / SCALE`.  Every operation states its result exactly over the raw
//! integer model, with floor rounding where a quotient is not exact.

use vstd::prelude::*;
use vstd::arithmetic::div_mod::{
    lemma_fundamental_div_mod, lemma_fundamental_div_mod_converse, lemma_mod_bound,
};

verus! {

/// Number of raw steps per unit; a raw value `r` stands for `r / SCALE`.
pub const SCALE: i64 = 65536;

/// A fixed-point scalar.  The view of a `Fixed` is its raw value as an
/// unbounded integer.
#[derive(Clone, Copy, PartialEq, Eq, Structural, Debug)]
pub struct Fixed {
    pub raw: i64,
}

impl View for Fixed {
    type V = int;

    open spec fn view(&self) -> int {
        self.raw as int
    }
}

/// True when `x` fits the raw representation.
pub open spec fn fits(x: int) -> bool {
    i64::MIN <= x <= i64::MAX
}

/// Raw value of the fixed-point product of raw values `a` and `b`
/// (floor rounding).
pub open spec fn smul(a: int, b: int) -> int {
    (a * b) / (SCALE as int)
}

/// Raw value of the fixed-point quotient of raw `a` by positive raw `b`
/// (floor rounding).
pub open spec fn sdiv(a: int, b: int) -> int
    recommends
        b > 0,
{
    (a * (SCALE as int)) / b
}

/// Floor of the square root of `n`, defined digit by digit.
pub open spec fn sqrt_floor(n: nat) -> nat
    decreases n,
{
    if n == 0 {
        0
    } else {
        let h = sqrt_floor(n / 4);
        if (2 * h + 1) * (2 * h + 1) <= n {
            2 * h + 1
        } else {
            2 * h
        }
    }
}

/// Raw value of the fixed-point square root of a non-negative raw `x`.
pub open spec fn ssqrt(x: int) -> int
    recommends
        x >= 0,
{
    sqrt_floor((x * (SCALE as int)) as nat) as int
}

/// `sqrt_floor(n)` is the floor of the square root of `n`.
pub proof fn lemma_sqrt_floor_bounds(n: nat)
    ensures
        sqrt_floor(n) * sqrt_floor(n) <= n,
        n < (sqrt_floor(n) + 1) * (sqrt_floor(n) + 1),
    decreases n,
{
    if n == 0 {
        let s = sqrt_floor(0);
        assert(s == 0);
        assert(n < (s + 1) * (s + 1)) by (nonlinear_arith)
            requires
                n == 0,
                s == 0,
        ;
    } else {
        let h = sqrt_floor(n / 4);
        lemma_sqrt_floor_bounds(n / 4);
        lemma_fundamental_div_mod(n as int, 4);
        lemma_mod_bound(n as int, 4);
        let q: int = n as int / 4;
        let r: int = n as int % 4;
        if (2 * h + 1) * (2 * h + 1) <= n {
            let s = (2 * h + 1) as nat;
            assert(sqrt_floor(n) == s);
            assert(s * s <= n) by (nonlinear_arith)
                requires
                    (2 * h + 1) * (2 * h + 1) <= n,
                    s == 2 * h + 1,
            ;
            assert(n < (s + 1) * (s + 1)) by (nonlinear_arith)
                requires
                    q < (h + 1) * (h + 1),
                    n == 4 * q + r,
                    r < 4,
                    s == 2 * h + 1,
            ;
            assert(n < (sqrt_floor(n) + 1) * (sqrt_floor(n) + 1));
        } else {
            let s = (2 * h) as nat;
            assert(sqrt_floor(n) == s);
            assert(s * s <= n) by (nonlinear_arith)
                requires
                    h * h <= q,
                    n == 4 * q + r,
                    r >= 0,
                    s == 2 * h,
            ;
            assert(n < (s + 1) * (s + 1)) by (nonlinear_arith)
                requires
                    n < (2 * h + 1) * (2 * h + 1),
                    s == 2 * h,
            ;
            assert(n < (sqrt_floor(n) + 1) * (sqrt_floor(n) + 1));
        }
    }
}

/// Floor division of `n` by a positive `d`, via unsigned machine division.
pub(crate) fn div_floor(n: i128, d: i128) -> (q: i128)
    requires
        d > 0,
        n > i128::MIN,
    ensures
        q == n as int / d as int,
{
    if n >= 0 {
        let qq: u128 = (n as u128) / (d as u128);
        proof {
            let ni: int = n as int;
            let di: int = d as int;
            let qi: int = qq as int;
            lemma_fundamental_div_mod(ni, di);
            lemma_mod_bound(ni, di);
            assert(qi <= ni) by (nonlinear_arith)
                requires
                    ni == di * qi + ni % di,
                    ni % di >= 0,
                    di >= 1,
                    qi >= 0,
            ;
        }
        qq as i128
    } else {
        let nn: u128 = (-n) as u128;
        let dd: u128 = d as u128;
        let qq: u128 = (nn + dd - 1) / dd;
        proof {
            let ni: int = n as int;
            let di: int = d as int;
            let qi: int = qq as int;
            let top: int = (-ni) + di - 1;
            lemma_fundamental_div_mod(top, di);
            lemma_mod_bound(top, di);
            assert(top == di * qi + top % di);
            assert(0 <= ni + di * qi < di);
            assert(ni == (-qi) * di + (ni + di * qi)) by (nonlinear_arith);
            lemma_fundamental_div_mod_converse(ni, di, -qi, ni + di * qi);
            assert(-qi == ni / di);
            assert(qi <= -ni) by (nonlinear_arith)
                requires
                    di * qi <= (-ni) + di - 1,
                    di >= 1,
                    (-ni) >= 1,
                    qi >= 0,
            ;
        }
        -(qq as i128)
    }
}

/// Floor square root on unsigned machine words, matching `sqrt_floor`.
fn isqrt_u(n: u128) -> (r: u128)
    ensures
        r as nat == sqrt_floor(n as nat),
    decreases n,
{
    if n == 0 {
        0
    } else {
        let h: u128 = isqrt_u(n / 4);
        proof {
            lemma_sqrt_floor_bounds((n / 4) as nat);
            assert(h < 0x8000_0000_0000_0000) by (nonlinear_arith)
                requires
                    (h as nat) * (h as nat) <= (n as nat) / 4,
                    (n as nat) / 4 < 0x4000_0000_0000_0000_0000_0000_0000_0000,
            ;
            assert((2 * h + 1) * (2 * h + 1) < 0xffff_ffff_ffff_ffff_ffff_ffff_ffff_ffff)
                by (nonlinear_arith)
                requires
                    h < 0x8000_0000_0000_0000,
            ;
        }
        let c: u128 = 2 * h + 1;
        if c * c <= n {
            c
        } else {
            2 * h
        }
    }
}

/// Squares of `i64` values fit the `i128` intermediates used below.
proof fn lemma_i64_product_fits(a: int, b: int)
    requires
        -0x8000_0000_0000_0000 <= a < 0x8000_0000_0000_0000,
        -0x8000_0000_0000_0000 <= b < 0x8000_0000_0000_0000,
    ensures
        -0x4000_0000_0000_0000_0000_0000_0000_0000 <= a * b
            <= 0x4000_0000_0000_0000_0000_0000_0000_0000,
{
    assert(-0x4000_0000_0000_0000_0000_0000_0000_0000 <= a * b
        <= 0x4000_0000_0000_0000_0000_0000_0000_0000) by (nonlinear_arith)
        requires
            -0x8000_0000_0000_0000 <= a <= 0x8000_0000_0000_0000,
            -0x8000_0000_0000_0000 <= b <= 0x8000_0000_0000_0000,
    ;
}

/// A square is never negative.
pub proof fn lemma_square_nonneg(a: int)
    ensures
        a * a >= 0,
{
    assert(a * a >= 0) by (nonlinear_arith);
}

/// A product of bounded factors is bounded.
pub proof fn lemma_product_bound(a: int, b: int, m: int, k: int)
    requires
        -m <= a <= m,
        -k <= b <= k,
        0 <= m,
        0 <= k,
    ensures
        -(m * k) <= a * b <= m * k,
{
    assert(-(m * k) <= a * b <= m * k) by (nonlinear_arith)
        requires
            -m <= a <= m,
            -k <= b <= k,
            0 <= m,
            0 <= k,
    ;
}

/// Negating the dividend moves a floor quotient down by at most one.
pub proof fn lemma_div_neg_lower(x: int, d: int)
    requires
        x >= 0,
        d > 0,
    ensures
        (-x) / d >= -(x / d) - 1,
{
    lemma_fundamental_div_mod(x, d);
    lemma_mod_bound(x, d);
    lemma_fundamental_div_mod(-x, d);
    lemma_mod_bound(-x, d);
    let q1 = x / d;
    let r1 = x % d;
    let q2 = (-x) / d;
    let r2 = (-x) % d;
    assert(q2 >= -q1 - 1) by (nonlinear_arith)
        requires
            d * q1 + r1 == -(d * q2 + r2),
            0 <= r1 < d,
            0 <= r2 < d,
            d > 0,
    ;
}

/// A fixed-point product of bounded factors is bounded.
pub proof fn lemma_smul_bound(a: int, b: int, m: int, k: int)
    requires
        -m <= a <= m,
        -k <= b <= k,
        0 <= m,
        0 <= k,
    ensures
        -((m * k) / (SCALE as int)) - 1 <= smul(a, b) <= (m * k) / (SCALE as int),
{
    lemma_product_bound(a, b, m, k);
    vstd::arithmetic::div_mod::lemma_div_is_ordered(a * b, m * k, SCALE as int);
    vstd::arithmetic::div_mod::lemma_div_is_ordered(-(m * k), a * b, SCALE as int);
    lemma_div_neg_lower(m * k, SCALE as int);
}

/// A fixed-point quotient of a bounded dividend by a divisor of at least one
/// raw step is bounded.
pub proof fn lemma_sdiv_bound(a: int, b: int, m: int)
    requires
        -m <= a <= m,
        0 <= m,
        1 <= b,
    ensures
        -(m * (SCALE as int)) - 1 <= sdiv(a, b) <= m * (SCALE as int),
{
    let s: int = SCALE as int;
    let q = (a * s) / b;
    lemma_fundamental_div_mod(a * s, b);
    lemma_mod_bound(a * s, b);
    assert(-(m * s) <= a * s <= m * s) by (nonlinear_arith)
        requires
            -m <= a <= m,
            0 <= m,
            s > 0,
    ;
    assert(-(m * s) - 1 <= q <= m * s) by (nonlinear_arith)
        requires
            a * s == b * q + (a * s) % b,
            0 <= (a * s) % b < b,
            -(m * s) <= a * s <= m * s,
            0 <= m * s,
            1 <= b,
    ;
}

/// A floor quotient by a positive divisor keeps the dividend's sign.
pub proof fn lemma_div_sign(x: int, d: int)
    requires
        d > 0,
    ensures
        x < 0 ==> x / d < 0,
        x >= 0 ==> x / d >= 0,
{
    lemma_fundamental_div_mod(x, d);
    lemma_mod_bound(x, d);
    if x < 0 {
        assert(x / d < 0) by (nonlinear_arith)
            requires
                x == d * (x / d) + x % d,
                0 <= x % d < d,
                x < 0,
                d > 0,
        ;
    } else {
        assert(x / d >= 0) by (nonlinear_arith)
            requires
                x == d * (x / d) + x % d,
                0 <= x % d < d,
                x >= 0,
                d > 0,
        ;
    }
}

/// Multiplying by one full unit and rescaling is the identity.
pub proof fn lemma_smul_unit(x: int)
    ensures
        smul(x, SCALE as int) == x,
{
    let s: int = SCALE as int;
    vstd::arithmetic::div_mod::lemma_div_multiples_vanish(x, s);
    assert(x * s == s * x) by (nonlinear_arith);
}

/// The defining bounds of the fixed-point square root.
pub proof fn lemma_ssqrt_props(x: int)
    requires
        x >= 0,
    ensures
        ssqrt(x) >= 0,
        ssqrt(x) * ssqrt(x) <= x * (SCALE as int),
        x * (SCALE as int) < (ssqrt(x) + 1) * (ssqrt(x) + 1),
{
    lemma_sqrt_floor_bounds((x * (SCALE as int)) as nat);
}

impl Fixed {
    /// The scalar with the given raw value.
    pub fn new(raw: i64) -> (r: Fixed)
        ensures
            r@ == raw,
    {
        Fixed { raw }
    }

    /// The scalar standing for the integer `n`.
    pub fn from_int(n: i64) -> (r: Fixed)
        requires
            fits(n * (SCALE as int)),
        ensures
            r@ == n * (SCALE as int),
    {
        Fixed { raw: n * SCALE }
    }

    /// Exact sum.
    pub fn add(self, o: Fixed) -> (r: Fixed)
        requires
            fits(self@ + o@),
        ensures
            r@ == self@ + o@,
    {
        Fixed { raw: self.raw + o.raw }
    }

    /// Exact difference.
    pub fn sub(self, o: Fixed) -> (r: Fixed)
        requires
            fits(self@ - o@),
        ensures
            r@ == self@ - o@,
    {
        Fixed { raw: self.raw - o.raw }
    }

    /// Exact negation.
    pub fn neg(self) -> (r: Fixed)
        requires
            fits(-self@),
        ensures
            r@ == -self@,
    {
        Fixed { raw: -self.raw }
    }

    /// Fixed-point product, rounded toward minus infinity.
    pub fn mul(self, o: Fixed) -> (r: Fixed)
        requires
            fits(smul(self@, o@)),
        ensures
            r@ == smul(self@, o@),
    {
        proof {
            lemma_i64_product_fits(self@, o@);
        }
        let p: i128 = (self.raw as i128) * (o.raw as i128);
        let q: i128 = div_floor(p, SCALE as i128);
        Fixed { raw: q as i64 }
    }

    /// Fixed-point quotient by a positive divisor, rounded toward minus
    /// infinity.
    pub fn div(self, o: Fixed) -> (r: Fixed)
        requires
            o@ > 0,
            fits(sdiv(self@, o@)),
        ensures
            r@ == sdiv(self@, o@),
    {
        let p: i128 = (self.raw as i128) * (SCALE as i128);
        let q: i128 = div_floor(p, o.raw as i128);
        Fixed { raw: q as i64 }
    }

    /// Fixed-point square root of a non-negative scalar, rounded toward zero.
    pub fn sqrt(self) -> (r: Fixed)
        requires
            self@ >= 0,
        ensures
            r@ == ssqrt(self@),
            r@ >= 0,
    {
        let n: u128 = (self.raw as u128) * (SCALE as u128);
        let s: u128 = isqrt_u(n);
        proof {
            lemma_sqrt_floor_bounds(n as nat);
            assert(s < 0x100_0000_0000) by (nonlinear_arith)
                requires
                    (s as nat) * (s as nat) <= n as nat,
                    (n as nat) < 0x1_0000_0000_0000_0000_0000,
            ;
        }
        Fixed { raw: s as i64 }
    }
}

} // verus!
