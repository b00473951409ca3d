//! Three-component fixed-point vectors: the points, directions and colours
//! of the renderer, with exact spec mirrors of every operation.

use vstd::prelude::*;

use crate::fixed::{
    abs_i, fx_div, fx_div_s, fx_mul, fx_mul_s, fx_sqrt, fx_sqrt_s, lemma_fx_div_bound,
    lemma_fx_mul_bound, lemma_mul_abs_le, lemma_square_le, lemma_tdiv_facts, lemma_tdiv_mono,
    tdiv, FX_LIM, FX_ONE,
};
use crate::rng::RandomSource;

verus! {

/// Magnitude cap accepted by the products inside `dot` and `cross` (2^44).
pub const VEC_LIM: i128 = 17592186044416;

/// Components smaller than this (1/256 in fixed units) count as near zero.
pub const NEAR_ZERO_EPS: i128 = 256;

#[derive(Clone, Copy, PartialEq, Eq, Structural, Debug)]
pub struct Vec3 {
    pub x: i128,
    pub y: i128,
    pub z: i128,
}

pub type Point3 = Vec3;

/// All three components have magnitude at most `b`.
pub open spec fn vb(v: Vec3, b: int) -> bool {
    abs_i(v.x as int) <= b && abs_i(v.y as int) <= b && abs_i(v.z as int) <= b
}

pub open spec fn v3(x: int, y: int, z: int) -> Vec3 {
    Vec3 { x: x as i128, y: y as i128, z: z as i128 }
}

pub open spec fn addv(a: Vec3, b: Vec3) -> Vec3 {
    v3(a.x + b.x, a.y + b.y, a.z + b.z)
}

pub open spec fn subv(a: Vec3, b: Vec3) -> Vec3 {
    v3(a.x - b.x, a.y - b.y, a.z - b.z)
}

pub open spec fn negv(a: Vec3) -> Vec3 {
    v3(-a.x, -a.y, -a.z)
}

/// Scaling by a fixed-point factor, truncating each component.
pub open spec fn scalev(a: Vec3, s: int) -> Vec3 {
    v3(fx_mul_s(a.x as int, s), fx_mul_s(a.y as int, s), fx_mul_s(a.z as int, s))
}

/// Component-wise product (used for colour attenuation).
pub open spec fn mulv(a: Vec3, b: Vec3) -> Vec3 {
    v3(
        fx_mul_s(a.x as int, b.x as int),
        fx_mul_s(a.y as int, b.y as int),
        fx_mul_s(a.z as int, b.z as int),
    )
}

/// Component-wise fixed-point division by a scalar.
pub open spec fn divv(a: Vec3, d: int) -> Vec3 {
    v3(
        fx_div_s(a.x as int, d),
        fx_div_s(a.y as int, d),
        fx_div_s(a.z as int, d),
    )
}

/// Component-wise truncating division by a plain count.
pub open spec fn div_countv(a: Vec3, n: int) -> Vec3 {
    v3(tdiv(a.x as int, n), tdiv(a.y as int, n), tdiv(a.z as int, n))
}

pub open spec fn dot_s(a: Vec3, b: Vec3) -> int {
    fx_mul_s(a.x as int, b.x as int) + fx_mul_s(a.y as int, b.y as int) + fx_mul_s(
        a.z as int,
        b.z as int,
    )
}

pub open spec fn cross_s(a: Vec3, b: Vec3) -> Vec3 {
    v3(
        fx_mul_s(a.y as int, b.z as int) - fx_mul_s(a.z as int, b.y as int),
        fx_mul_s(a.z as int, b.x as int) - fx_mul_s(a.x as int, b.z as int),
        fx_mul_s(a.x as int, b.y as int) - fx_mul_s(a.y as int, b.x as int),
    )
}

pub open spec fn len_sq_s(v: Vec3) -> int {
    dot_s(v, v)
}

pub open spec fn len_s(v: Vec3) -> int {
    fx_sqrt_s(len_sq_s(v))
}

/// The unit vector: each component divided by the fixed-point length.
pub open spec fn unitv(v: Vec3) -> Vec3 {
    let l = len_s(v);
    v3(
        fx_div_s(v.x as int, l),
        fx_div_s(v.y as int, l),
        fx_div_s(v.z as int, l),
    )
}

pub open spec fn near_zero_s(v: Vec3) -> bool {
    abs_i(v.x as int) < NEAR_ZERO_EPS && abs_i(v.y as int) < NEAR_ZERO_EPS && abs_i(v.z as int)
        < NEAR_ZERO_EPS
}

/// Mirror reflection of `v` about the normal `n`: `v - 2 (v . n) n`.
pub open spec fn reflect_s(v: Vec3, n: Vec3) -> Vec3 {
    subv(v, scalev(n, 2 * dot_s(v, n)))
}

/// The refracted direction of the unit vector `uv` at a surface with
/// normal `n` and relative refraction ratio `eta_rel`, decomposed into the
/// components perpendicular and parallel to the normal.
pub open spec fn refract_s(uv: Vec3, n: Vec3, eta_rel: int) -> Vec3 {
    let cos_theta_raw = dot_s(negv(uv), n);
    let cos_theta = if cos_theta_raw <= FX_ONE as int {
        cos_theta_raw
    } else {
        FX_ONE as int
    };
    let r_out_perp = scalev(addv(uv, scalev(n, cos_theta)), eta_rel);
    let r_out_paral = scalev(n, -fx_sqrt_s(abs_i(FX_ONE - len_sq_s(r_out_perp))));
    addv(r_out_perp, r_out_paral)
}

/// Every dot product of vectors bounded by `ba` and `bb` is bounded by
/// `3 ba bb` fixed units.
pub proof fn lemma_dot_bound(a: Vec3, b: Vec3, ba: int, bb: int)
    requires
        vb(a, ba),
        vb(b, bb),
        0 <= ba,
        0 <= bb,
    ensures
        abs_i(dot_s(a, b)) * (FX_ONE as int) <= 3 * ba * bb,
        abs_i(dot_s(a, b)) <= 3 * ba * bb,
{
    lemma_fx_mul_bound(a.x as int, b.x as int, ba, bb);
    lemma_fx_mul_bound(a.y as int, b.y as int, ba, bb);
    lemma_fx_mul_bound(a.z as int, b.z as int, ba, bb);
    assert(abs_i(dot_s(a, b)) * (FX_ONE as int) <= 3 * ba * bb) by (nonlinear_arith)
        requires
            abs_i(fx_mul_s(a.x as int, b.x as int)) * (FX_ONE as int) <= ba * bb,
            abs_i(fx_mul_s(a.y as int, b.y as int)) * (FX_ONE as int) <= ba * bb,
            abs_i(fx_mul_s(a.z as int, b.z as int)) * (FX_ONE as int) <= ba * bb,
            dot_s(a, b) == fx_mul_s(a.x as int, b.x as int) + fx_mul_s(a.y as int, b.y as int)
                + fx_mul_s(a.z as int, b.z as int),
            FX_ONE as int >= 1,
    ;
    assert(abs_i(dot_s(a, b)) <= abs_i(dot_s(a, b)) * (FX_ONE as int)) by (nonlinear_arith)
        requires
            abs_i(dot_s(a, b)) >= 0,
            FX_ONE as int >= 1,
    ;
}

/// Negation keeps a squared length unchanged.
pub proof fn lemma_len_sq_neg(v: Vec3)
    requires
        vb(v, FX_LIM as int),
    ensures
        len_sq_s(negv(v)) == len_sq_s(v),
{
    let w = negv(v);
    assert(w.x as int * w.x as int == v.x as int * v.x as int) by (nonlinear_arith)
        requires
            w.x as int == -(v.x as int),
    ;
    assert(w.y as int * w.y as int == v.y as int * v.y as int) by (nonlinear_arith)
        requires
            w.y as int == -(v.y as int),
    ;
    assert(w.z as int * w.z as int == v.z as int * v.z as int) by (nonlinear_arith)
        requires
            w.z as int == -(v.z as int),
    ;
}

/// A vector's dot product with itself is non-negative.
pub proof fn lemma_len_sq_nonneg(v: Vec3)
    ensures
        len_sq_s(v) >= 0,
{
    assert(v.x as int * v.x as int >= 0) by (nonlinear_arith);
    assert(v.y as int * v.y as int >= 0) by (nonlinear_arith);
    assert(v.z as int * v.z as int >= 0) by (nonlinear_arith);
    lemma_tdiv_facts(v.x as int * v.x as int, FX_ONE as int);
    lemma_tdiv_facts(v.y as int * v.y as int, FX_ONE as int);
    lemma_tdiv_facts(v.z as int * v.z as int, FX_ONE as int);
}

/// A vector with a component of magnitude at least 1/256 has a squared
/// length of at least one smallest fixed-point step.
pub proof fn lemma_len_sq_min(v: Vec3)
    requires
        !near_zero_s(v),
    ensures
        len_sq_s(v) >= 1,
{
    lemma_len_sq_nonneg(v);
    let cx = v.x as int;
    let cy = v.y as int;
    let cz = v.z as int;
    assert(cx * cx >= 0) by (nonlinear_arith);
    assert(cy * cy >= 0) by (nonlinear_arith);
    assert(cz * cz >= 0) by (nonlinear_arith);
    lemma_tdiv_facts(cx * cx, FX_ONE as int);
    lemma_tdiv_facts(cy * cy, FX_ONE as int);
    lemma_tdiv_facts(cz * cz, FX_ONE as int);
    vstd::arithmetic::div_mod::lemma_div_by_self(65536);
    assert(tdiv(65536, FX_ONE as int) == 1);
    if abs_i(cx) >= NEAR_ZERO_EPS as int {
        assert(cx * cx >= 65536) by (nonlinear_arith)
            requires
                abs_i(cx) >= 256,
        ;
        lemma_tdiv_mono(65536, cx * cx, FX_ONE as int);
    } else if abs_i(cy) >= NEAR_ZERO_EPS as int {
        assert(cy * cy >= 65536) by (nonlinear_arith)
            requires
                abs_i(cy) >= 256,
        ;
        lemma_tdiv_mono(65536, cy * cy, FX_ONE as int);
    } else {
        assert(cz * cz >= 65536) by (nonlinear_arith)
            requires
                abs_i(cz) >= 256,
        ;
        lemma_tdiv_mono(65536, cz * cz, FX_ONE as int);
    }
}

/// Bound for one component of a unit vector: dividing a component by the
/// fixed-point length cannot exceed two units.
proof fn lemma_unit_component(c: int, q: int, l: int)
    requires
        tdiv(c * c, FX_ONE as int) <= q,
        1 <= q,
        l * l <= q * (FX_ONE as int),
        q * (FX_ONE as int) < (l + 1) * (l + 1),
        l >= 0,
    ensures
        l >= 256,
        abs_i(fx_div_s(c, l)) <= 2 * (FX_ONE as int),
{
    let s = FX_ONE as int;
    assert(q * s >= 65536) by (nonlinear_arith)
        requires
            q >= 1,
            s == 65536,
    ;
    // l >= 256, else (l + 1)^2 could not exceed q * s
    if l < 256 {
        assert((l + 1) * (l + 1) <= 65536) by (nonlinear_arith)
            requires
                0 <= l < 256,
        ;
        assert(false);
    }
    // c * c < 2 q s
    assert(c * c >= 0) by (nonlinear_arith);
    vstd::arithmetic::div_mod::lemma_fundamental_div_mod(c * c, s);
    assert(c * c < (q + 1) * s) by (nonlinear_arith)
        requires
            c * c == s * ((c * c) / s) + (c * c) % s,
            0 <= (c * c) % s < s,
            (c * c) / s <= q,
            s >= 1,
    ;
    assert(c * c < 2 * (q * s)) by (nonlinear_arith)
        requires
            c * c < (q + 1) * s,
            q >= 1,
            s >= 1,
    ;
    // c * c < 4 l^2, so |c| <= 2 l
    assert(c * c < 4 * (l * l)) by (nonlinear_arith)
        requires
            c * c < 2 * (q * s),
            q * s < (l + 1) * (l + 1),
            l >= 256,
            l * l <= q * s,
    ;
    assert(abs_i(c) <= 2 * l) by (nonlinear_arith)
        requires
            c * c < 4 * (l * l),
            l >= 0,
    ;
    lemma_fx_div_bound(c, l, 2 * l);
    assert(abs_i(fx_div_s(c, l)) * l <= 2 * l * s);
    assert(abs_i(fx_div_s(c, l)) <= 2 * s) by (nonlinear_arith)
        requires
            abs_i(fx_div_s(c, l)) * l <= 2 * l * s,
            l >= 1,
            s >= 1,
    ;
}

/// Floor for the dominating component of a unit vector: a component whose
/// square carries at least a third of the squared length stays at least
/// 1/256 after normalisation.
proof fn lemma_unit_component_floor(c: int, q: int, l: int)
    requires
        1 <= q,
        3 * (c * c) >= q * 65536,
        l * l <= q * 65536,
        256 <= l,
    ensures
        abs_i(fx_div_s(c, l)) >= 256,
{
    let a = abs_i(c);
    assert(a == c || a == -c);
    assert(a * a == c * c) by (nonlinear_arith)
        requires
            a == c || a == -c,
    ;
    assert((a * 65536) * (a * 65536) >= (256 * l) * (256 * l)) by (nonlinear_arith)
        requires
            3 * (a * a) >= q * 65536,
            l * l <= q * 65536,
            a >= 0,
            l >= 1,
    ;
    assert(a * 65536 >= 0);
    lemma_square_le(256 * l, a * 65536);
    vstd::arithmetic::div_mod::lemma_div_is_ordered(256 * l, a * 65536, l);
    vstd::arithmetic::div_mod::lemma_div_by_multiple(256, l);
    assert(tdiv(a * 65536, l) >= 256);
    if c >= 0 {
        assert(fx_div_s(c, l) == tdiv(a * 65536, l));
    } else {
        assert(c * 65536 == -(a * 65536));
        crate::fixed::lemma_tdiv_neg(a * 65536, l);
    }
}

/// Negating one argument negates a dot product exactly.
pub proof fn lemma_dot_neg(a: Vec3, b: Vec3)
    requires
        vb(b, FX_LIM as int),
    ensures
        dot_s(a, negv(b)) == -dot_s(a, b),
{
    crate::fixed::lemma_tdiv_neg(a.x as int * b.x as int, FX_ONE as int);
    crate::fixed::lemma_tdiv_neg(a.y as int * b.y as int, FX_ONE as int);
    crate::fixed::lemma_tdiv_neg(a.z as int * b.z as int, FX_ONE as int);
    assert(a.x as int * (negv(b).x as int) == -(a.x as int * b.x as int)) by (nonlinear_arith)
        requires
            negv(b).x as int == -(b.x as int),
    ;
    assert(a.y as int * (negv(b).y as int) == -(a.y as int * b.y as int)) by (nonlinear_arith)
        requires
            negv(b).y as int == -(b.y as int),
    ;
    assert(a.z as int * (negv(b).z as int) == -(a.z as int * b.z as int)) by (nonlinear_arith)
        requires
            negv(b).z as int == -(b.z as int),
    ;
}

impl Vec3 {
    pub fn zero() -> (r: Vec3)
        ensures
            r == v3(0, 0, 0),
    {
        Vec3 { x: 0, y: 0, z: 0 }
    }

    pub fn new(x: i128, y: i128, z: i128) -> (r: Vec3)
        ensures
            r == (Vec3 { x, y, z }),
    {
        Vec3 { x, y, z }
    }

    pub fn add(&self, rhs: Vec3) -> (r: Vec3)
        requires
            vb(*self, FX_LIM as int / 2),
            vb(rhs, FX_LIM as int / 2),
        ensures
            r == addv(*self, rhs),
    {
        Vec3 { x: self.x + rhs.x, y: self.y + rhs.y, z: self.z + rhs.z }
    }

    pub fn sub(&self, rhs: Vec3) -> (r: Vec3)
        requires
            vb(*self, FX_LIM as int / 2),
            vb(rhs, FX_LIM as int / 2),
        ensures
            r == subv(*self, rhs),
    {
        Vec3 { x: self.x - rhs.x, y: self.y - rhs.y, z: self.z - rhs.z }
    }

    pub fn neg(&self) -> (r: Vec3)
        requires
            vb(*self, FX_LIM as int),
        ensures
            r == negv(*self),
    {
        Vec3 { x: -self.x, y: -self.y, z: -self.z }
    }

    pub fn scale(&self, s: i128) -> (r: Vec3)
        requires
            vb(*self, VEC_LIM as int),
            abs_i(s as int) <= crate::fixed::FX_INF as int,
        ensures
            r == scalev(*self, s as int),
    {
        proof {
            lemma_mul_abs_le(self.x as int, s as int, VEC_LIM as int, crate::fixed::FX_INF as int);
            lemma_mul_abs_le(self.y as int, s as int, VEC_LIM as int, crate::fixed::FX_INF as int);
            lemma_mul_abs_le(self.z as int, s as int, VEC_LIM as int, crate::fixed::FX_INF as int);
        }
        Vec3 { x: fx_mul(self.x, s), y: fx_mul(self.y, s), z: fx_mul(self.z, s) }
    }

    /// Component-wise fixed-point division by a positive scalar.
    pub fn div_fx(&self, d: i128) -> (r: Vec3)
        requires
            d > 0,
            vb(*self, FX_LIM as int / 65536),
        ensures
            r == divv(*self, d as int),
    {
        proof {
            lemma_fx_div_bound(self.x as int, d as int, FX_LIM as int / 65536);
            lemma_fx_div_bound(self.y as int, d as int, FX_LIM as int / 65536);
            lemma_fx_div_bound(self.z as int, d as int, FX_LIM as int / 65536);
        }
        Vec3 { x: fx_div(self.x, d), y: fx_div(self.y, d), z: fx_div(self.z, d) }
    }

    /// Whether every component's magnitude stays within `b`.
    pub fn bounded_by(&self, b: i128) -> (r: bool)
        requires
            b >= 0,
        ensures
            r == vb(*self, b as int),
    {
        -b <= self.x && self.x <= b && -b <= self.y && self.y <= b && -b <= self.z && self.z <= b
    }

    pub fn mul(&self, rhs: Vec3) -> (r: Vec3)
        requires
            vb(*self, VEC_LIM as int),
            vb(rhs, VEC_LIM as int),
        ensures
            r == mulv(*self, rhs),
    {
        proof {
            lemma_mul_abs_le(self.x as int, rhs.x as int, VEC_LIM as int, VEC_LIM as int);
            lemma_mul_abs_le(self.y as int, rhs.y as int, VEC_LIM as int, VEC_LIM as int);
            lemma_mul_abs_le(self.z as int, rhs.z as int, VEC_LIM as int, VEC_LIM as int);
        }
        Vec3 { x: fx_mul(self.x, rhs.x), y: fx_mul(self.y, rhs.y), z: fx_mul(self.z, rhs.z) }
    }

    pub fn div_by_count(&self, n: i128) -> (r: Vec3)
        requires
            n > 0,
            vb(*self, FX_LIM as int),
        ensures
            r == div_countv(*self, n as int),
    {
        proof {
            lemma_tdiv_facts(self.x as int, n as int);
            lemma_tdiv_facts(self.y as int, n as int);
            lemma_tdiv_facts(self.z as int, n as int);
        }
        Vec3 { x: self.x / n, y: self.y / n, z: self.z / n }
    }

    pub fn dot(&self, rhs: Vec3) -> (r: i128)
        requires
            vb(*self, VEC_LIM as int),
            vb(rhs, VEC_LIM as int),
        ensures
            r == dot_s(*self, rhs),
    {
        proof {
            lemma_mul_abs_le(self.x as int, rhs.x as int, VEC_LIM as int, VEC_LIM as int);
            lemma_mul_abs_le(self.y as int, rhs.y as int, VEC_LIM as int, VEC_LIM as int);
            lemma_mul_abs_le(self.z as int, rhs.z as int, VEC_LIM as int, VEC_LIM as int);
            lemma_fx_mul_bound(self.x as int, rhs.x as int, VEC_LIM as int, VEC_LIM as int);
            lemma_fx_mul_bound(self.y as int, rhs.y as int, VEC_LIM as int, VEC_LIM as int);
            lemma_fx_mul_bound(self.z as int, rhs.z as int, VEC_LIM as int, VEC_LIM as int);
        }
        fx_mul(self.x, rhs.x) + fx_mul(self.y, rhs.y) + fx_mul(self.z, rhs.z)
    }

    pub fn length_squared(&self) -> (r: i128)
        requires
            vb(*self, VEC_LIM as int),
        ensures
            r == len_sq_s(*self),
            r >= 0,
    {
        proof {
            lemma_len_sq_nonneg(*self);
        }
        self.dot(*self)
    }

    pub fn length(&self) -> (r: i128)
        requires
            vb(*self, VEC_LIM as int),
        ensures
            r == len_s(*self),
            r >= 0,
            r * r <= len_sq_s(*self) * (FX_ONE as int),
            len_sq_s(*self) * (FX_ONE as int) < (r + 1) * (r + 1),
    {
        let q = self.length_squared();
        proof {
            lemma_dot_bound(*self, *self, VEC_LIM as int, VEC_LIM as int);
            assert(q * (FX_ONE as int) <= FX_LIM as int) by (nonlinear_arith)
                requires
                    0 <= q,
                    q <= 3 * (VEC_LIM as int) * (VEC_LIM as int),
                    VEC_LIM == 17592186044416,
                    FX_ONE == 65536,
                    FX_LIM == 85070591730234615865843651857942052864,
            ;
        }
        fx_sqrt(q)
    }

    pub fn cross(&self, rhs: Vec3) -> (r: Vec3)
        requires
            vb(*self, VEC_LIM as int),
            vb(rhs, VEC_LIM as int),
        ensures
            r == cross_s(*self, rhs),
    {
        proof {
            lemma_mul_abs_le(self.y as int, rhs.z as int, VEC_LIM as int, VEC_LIM as int);
            lemma_mul_abs_le(self.z as int, rhs.y as int, VEC_LIM as int, VEC_LIM as int);
            lemma_mul_abs_le(self.z as int, rhs.x as int, VEC_LIM as int, VEC_LIM as int);
            lemma_mul_abs_le(self.x as int, rhs.z as int, VEC_LIM as int, VEC_LIM as int);
            lemma_mul_abs_le(self.x as int, rhs.y as int, VEC_LIM as int, VEC_LIM as int);
            lemma_mul_abs_le(self.y as int, rhs.x as int, VEC_LIM as int, VEC_LIM as int);
            lemma_fx_mul_bound(self.y as int, rhs.z as int, VEC_LIM as int, VEC_LIM as int);
            lemma_fx_mul_bound(self.z as int, rhs.y as int, VEC_LIM as int, VEC_LIM as int);
            lemma_fx_mul_bound(self.z as int, rhs.x as int, VEC_LIM as int, VEC_LIM as int);
            lemma_fx_mul_bound(self.x as int, rhs.z as int, VEC_LIM as int, VEC_LIM as int);
            lemma_fx_mul_bound(self.x as int, rhs.y as int, VEC_LIM as int, VEC_LIM as int);
            lemma_fx_mul_bound(self.y as int, rhs.x as int, VEC_LIM as int, VEC_LIM as int);
        }
        Vec3 {
            x: fx_mul(self.y, rhs.z) - fx_mul(self.z, rhs.y),
            y: fx_mul(self.z, rhs.x) - fx_mul(self.x, rhs.z),
            z: fx_mul(self.x, rhs.y) - fx_mul(self.y, rhs.x),
        }
    }

    pub fn unit(&self) -> (r: Vec3)
        requires
            vb(*self, VEC_LIM as int),
            len_sq_s(*self) >= 1,
        ensures
            r == unitv(*self),
            vb(r, 2 * (FX_ONE as int)),
            len_sq_s(r) >= 1,
    {
        let q = self.length_squared();
        let l = self.length();
        proof {
            lemma_tdiv_facts(self.x as int * self.x as int, FX_ONE as int);
            lemma_tdiv_facts(self.y as int * self.y as int, FX_ONE as int);
            lemma_tdiv_facts(self.z as int * self.z as int, FX_ONE as int);
            assert(self.x as int * self.x as int >= 0) by (nonlinear_arith);
            assert(self.y as int * self.y as int >= 0) by (nonlinear_arith);
            assert(self.z as int * self.z as int >= 0) by (nonlinear_arith);
            lemma_unit_component(self.x as int, q as int, l as int);
            lemma_unit_component(self.y as int, q as int, l as int);
            lemma_unit_component(self.z as int, q as int, l as int);
            lemma_mul_abs_le(self.x as int, FX_ONE as int, VEC_LIM as int, FX_ONE as int);
            lemma_mul_abs_le(self.y as int, FX_ONE as int, VEC_LIM as int, FX_ONE as int);
            lemma_mul_abs_le(self.z as int, FX_ONE as int, VEC_LIM as int, FX_ONE as int);
        }
        let r = Vec3 { x: fx_div(self.x, l), y: fx_div(self.y, l), z: fx_div(self.z, l) };
        proof {
            // some component dominates the squared length, so the
            // normalised vector keeps a component of at least 1/256
            let tx = tdiv(self.x as int * self.x as int, FX_ONE as int);
            let ty = tdiv(self.y as int * self.y as int, FX_ONE as int);
            let tz = tdiv(self.z as int * self.z as int, FX_ONE as int);
            assert(q as int == tx + ty + tz);
            if tx >= ty && tx >= tz {
                assert(3 * (self.x as int * self.x as int) >= q as int * 65536);
                lemma_unit_component_floor(self.x as int, q as int, l as int);
            } else if ty >= tz {
                assert(3 * (self.y as int * self.y as int) >= q as int * 65536);
                lemma_unit_component_floor(self.y as int, q as int, l as int);
            } else {
                assert(3 * (self.z as int * self.z as int) >= q as int * 65536);
                lemma_unit_component_floor(self.z as int, q as int, l as int);
            }
            assert(!near_zero_s(r));
            lemma_len_sq_min(r);
        }
        r
    }

    pub fn near_zero(&self) -> (r: bool)
        requires
            vb(*self, FX_LIM as int),
        ensures
            r == near_zero_s(*self),
    {
        let ax = if self.x >= 0 {
            self.x
        } else {
            -self.x
        };
        let ay = if self.y >= 0 {
            self.y
        } else {
            -self.y
        };
        let az = if self.z >= 0 {
            self.z
        } else {
            -self.z
        };
        ax < NEAR_ZERO_EPS && ay < NEAR_ZERO_EPS && az < NEAR_ZERO_EPS
    }

    pub fn random<R: RandomSource>(rng: &mut R) -> (r: Vec3)
        ensures
            vb(r, FX_ONE as int),
            0 <= r.x < FX_ONE,
            0 <= r.y < FX_ONE,
            0 <= r.z < FX_ONE,
    {
        let x = rng.next_unit();
        let y = rng.next_unit();
        let z = rng.next_unit();
        Vec3 { x, y, z }
    }

    pub fn random_range<R: RandomSource>(rng: &mut R, min: i128, max: i128) -> (r: Vec3)
        requires
            min <= max,
            abs_i(min as int) <= crate::fixed::FX_INF as int,
            abs_i(max as int) <= crate::fixed::FX_INF as int,
        ensures
            min <= r.x <= max,
            min <= r.y <= max,
            min <= r.z <= max,
            min < max ==> r.x < max && r.y < max && r.z < max,
            crate::uniform_in_range_s(r.x as int, min as int, max as int),
            crate::uniform_in_range_s(r.y as int, min as int, max as int),
            crate::uniform_in_range_s(r.z as int, min as int, max as int),
    {
        let x = crate::random_fx_in_range(rng, min, max);
        let y = crate::random_fx_in_range(rng, min, max);
        let z = crate::random_fx_in_range(rng, min, max);
        Vec3 { x, y, z }
    }
}

/// The envelope of a unit-sphere draw: the normalisation of an accepted
/// rejection sample, or the fixed fallback axis.
pub open spec fn unit_sphere_sample_s(r: Vec3) -> bool {
    (exists|p: Vec3|
        vb(p, FX_ONE as int) && 1 <= len_sq_s(p) <= FX_ONE as int && r == #[trigger] unitv(p)) || r
        == v3(FX_ONE as int, 0, 0)
}

/// A point on the unit sphere, drawn by rejection sampling: candidates are
/// uniform in the cube and kept when their squared length lands in (0, 1];
/// the kept candidate is normalised. After too many rejections a fixed
/// axis direction is returned so that the draw always terminates.
pub fn random_unit_vector<R: RandomSource>(rng: &mut R) -> (r: Vec3)
    ensures
        vb(r, 2 * (FX_ONE as int)),
        len_sq_s(r) >= 1,
        unit_sphere_sample_s(r),
{
    let mut tries: u32 = 0;
    while tries < 64
        invariant
            tries <= 64,
        decreases 64 - tries,
    {
        let p = Vec3::random_range(rng, -FX_ONE, FX_ONE);
        let lensq = p.length_squared();
        if 1 <= lensq && lensq <= FX_ONE {
            let normalised = p.unit();
            proof {
                assert(normalised == unitv(p));
                assert(unit_sphere_sample_s(normalised));
            }
            return normalised;
        }
        tries = tries + 1;
    }
    let fallback = Vec3 { x: FX_ONE, y: 0, z: 0 };
    proof {
        crate::fixed::lemma_tdiv_cancel(65536, 65536);
        vstd::arithmetic::div_mod::lemma_div_of0(65536);
        assert(len_sq_s(fallback) == FX_ONE);
    }
    fallback
}

/// A point in the unit disk of the x-y plane, by rejection sampling; the
/// disk's centre stands in after too many rejections.
pub fn random_in_unit_disk<R: RandomSource>(rng: &mut R) -> (r: Vec3)
    ensures
        vb(r, FX_ONE as int),
        len_sq_s(r) < FX_ONE,
        r.z == 0,
{
    let mut tries: u32 = 0;
    while tries < 64
        invariant
            tries <= 64,
        decreases 64 - tries,
    {
        let x = crate::random_fx_in_range(rng, -FX_ONE, FX_ONE);
        let y = crate::random_fx_in_range(rng, -FX_ONE, FX_ONE);
        let p = Vec3 { x, y, z: 0 };
        let lensq = p.length_squared();
        if lensq < FX_ONE {
            return p;
        }
        tries = tries + 1;
    }
    proof {
        lemma_len_sq_nonneg(Vec3 { x: 0, y: 0, z: 0 });
        lemma_tdiv_facts(0, FX_ONE as int);
    }
    Vec3 { x: 0, y: 0, z: 0 }
}

/// A unit-sphere sample turned toward the side of the given normal: the
/// result's dot product with the normal is never negative, and the result
/// is a unit-sphere draw or the reversal of one.
pub fn random_vector_on_hemisphere<R: RandomSource>(rng: &mut R, normal: Vec3) -> (r: Vec3)
    requires
        vb(normal, VEC_LIM as int),
    ensures
        vb(r, 2 * (FX_ONE as int)),
        len_sq_s(r) >= 1,
        dot_s(r, normal) >= 0,
        exists|s: Vec3| #[trigger] unit_sphere_sample_s(s) && (r == s || r == negv(s)),
{
    let on_unit_sphere = random_unit_vector(rng);
    let d = on_unit_sphere.dot(normal);
    if d > 0 {
        on_unit_sphere
    } else {
        proof {
            lemma_dot_neg(normal, on_unit_sphere);
            lemma_dot_comm(on_unit_sphere, normal);
            lemma_dot_comm(negv(on_unit_sphere), normal);
            lemma_len_sq_neg(on_unit_sphere);
        }
        on_unit_sphere.neg()
    }
}

/// A dot product does not depend on the order of its arguments.
pub proof fn lemma_dot_comm(a: Vec3, b: Vec3)
    ensures
        dot_s(a, b) == dot_s(b, a),
{
    assert(a.x as int * b.x as int == b.x as int * a.x as int) by (nonlinear_arith);
    assert(a.y as int * b.y as int == b.y as int * a.y as int) by (nonlinear_arith);
    assert(a.z as int * b.z as int == b.z as int * a.z as int) by (nonlinear_arith);
}

/// Mirror reflection about a normal.
pub fn reflect(v: Vec3, n: Vec3) -> (r: Vec3)
    requires
        vb(v, 0x1000000000 as int),
        vb(n, 2 * (FX_ONE as int)),
    ensures
        r == reflect_s(v, n),
        vb(r, 0x40000000000 as int),
{
    proof {
        lemma_dot_bound(v, n, 0x1000000000 as int, 2 * (FX_ONE as int));
        lemma_fx_mul_bound(n.x as int, 2 * dot_s(v, n), 2 * (FX_ONE as int), 0x10000000000 as int);
        lemma_fx_mul_bound(n.y as int, 2 * dot_s(v, n), 2 * (FX_ONE as int), 0x10000000000 as int);
        lemma_fx_mul_bound(n.z as int, 2 * dot_s(v, n), 2 * (FX_ONE as int), 0x10000000000 as int);
        lemma_mul_abs_le(n.x as int, 2 * dot_s(v, n), 2 * (FX_ONE as int), 0x10000000000 as int);
        lemma_mul_abs_le(n.y as int, 2 * dot_s(v, n), 2 * (FX_ONE as int), 0x10000000000 as int);
        lemma_mul_abs_le(n.z as int, 2 * dot_s(v, n), 2 * (FX_ONE as int), 0x10000000000 as int);
    }
    let d = v.dot(n);
    let twice = 2 * d;
    let r = Vec3 {
        x: v.x - fx_mul(n.x, twice),
        y: v.y - fx_mul(n.y, twice),
        z: v.z - fx_mul(n.z, twice),
    };
    proof {
        assert(r == reflect_s(v, n));
    }
    r
}

/// Refraction of the unit direction `uv` at a surface with normal `n` and
/// relative refraction ratio `eta_rel`.
pub fn refract(uv: Vec3, n: Vec3, eta_rel: i128) -> (r: Vec3)
    requires
        vb(uv, 2 * (FX_ONE as int)),
        vb(n, 2 * (FX_ONE as int)),
        0 <= eta_rel <= 8 * (FX_ONE as int),
    ensures
        r == refract_s(uv, n, eta_rel as int),
        vb(r, 0x10000000 as int),
{
    let s: i128 = FX_ONE;
    proof {
        lemma_dot_bound(negv(uv), n, 2 * (FX_ONE as int), 2 * (FX_ONE as int));
    }
    let minus_uv = uv.neg();
    let cos_raw = minus_uv.dot(n);
    let cos_theta = if cos_raw <= s {
        cos_raw
    } else {
        s
    };
    proof {
        assert(abs_i(cos_raw as int) * 65536 <= 3 * 131072 * 131072);
        assert(abs_i(cos_raw as int) <= 786432);
        assert(abs_i(cos_theta as int) <= 12 * (FX_ONE as int));
    }
    let scaled_n = n.scale(cos_theta);
    proof {
        lemma_fx_mul_bound(n.x as int, cos_theta as int, 2 * (FX_ONE as int), 12 * (FX_ONE as int));
        lemma_fx_mul_bound(n.y as int, cos_theta as int, 2 * (FX_ONE as int), 12 * (FX_ONE as int));
        lemma_fx_mul_bound(n.z as int, cos_theta as int, 2 * (FX_ONE as int), 12 * (FX_ONE as int));
        assert(vb(scaled_n, 1572864));
    }
    let summed = uv.add(scaled_n);
    let r_out_perp = summed.scale(eta_rel);
    proof {
        assert(vb(summed, 26 * (FX_ONE as int)));
        lemma_fx_mul_bound(summed.x as int, eta_rel as int, 26 * (FX_ONE as int), 8 * (FX_ONE as int));
        lemma_fx_mul_bound(summed.y as int, eta_rel as int, 26 * (FX_ONE as int), 8 * (FX_ONE as int));
        lemma_fx_mul_bound(summed.z as int, eta_rel as int, 26 * (FX_ONE as int), 8 * (FX_ONE as int));
        assert(vb(r_out_perp, 13631488));
        lemma_dot_bound(r_out_perp, r_out_perp, 13631488, 13631488);
    }
    let perp_len_sq = r_out_perp.length_squared();
    let inner = s - perp_len_sq;
    let inner_abs = if inner >= 0 {
        inner
    } else {
        -inner
    };
    proof {
        assert(inner_abs as int == abs_i(FX_ONE - len_sq_s(r_out_perp)));
        assert(inner_abs as int <= 8527216640);
        assert(inner_abs as int * (FX_ONE as int) <= FX_LIM as int) by (nonlinear_arith)
            requires
                0 <= inner_abs as int,
                inner_abs as int <= 8527216640,
                FX_ONE == 65536,
                FX_LIM == 85070591730234615865843651857942052864,
        ;
    }
    let root = fx_sqrt(inner_abs);
    proof {
        // the root of a value this small stays below 2^25 fixed units
        assert(root as int * root as int <= inner_abs as int * 65536);
        assert(root as int <= 0x2000000) by (nonlinear_arith)
            requires
                0 <= root as int,
                root as int * root as int <= inner_abs as int * 65536,
                inner_abs as int <= 8527216640,
        ;
        lemma_fx_mul_bound(n.x as int, -(root as int), 2 * (FX_ONE as int), 0x2000000 as int);
        lemma_fx_mul_bound(n.y as int, -(root as int), 2 * (FX_ONE as int), 0x2000000 as int);
        lemma_fx_mul_bound(n.z as int, -(root as int), 2 * (FX_ONE as int), 0x2000000 as int);
    }
    let r_out_paral = n.scale(-root);
    let r = r_out_perp.add(r_out_paral);
    proof {
        assert(r == refract_s(uv, n, eta_rel as int));
    }
    r
}

} // verus!
