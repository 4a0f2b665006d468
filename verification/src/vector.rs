//! 3D vector arithmetic in fixed-point: magnitude, normalization, dot
//! product, and the composed three-axis Euler rotation used by every stage
//! of the renderer.
//!
//! The spec model of an executable [`Vector3`] is a [`Vec3`] of unbounded
//! integers; every operation has an exact integer specification.

use vstd::prelude::*;
use crate::fixed::{SCALE, tdiv, sqrt_floor, isqrt, div_fixed, lemma_tdiv_bound,
    lemma_tdiv_multiple, lemma_sqrt_floor_bounds, lemma_sqrt_floor_unique};

verus! {

/// Spec-level vector over unbounded integers.
pub struct Vec3 {
    pub x: int,
    pub y: int,
    pub z: int,
}

/// Spec-level sine/cosine table for the three rotation angles.
pub struct Trig {
    pub sin_a: int,
    pub cos_a: int,
    pub sin_b: int,
    pub cos_b: int,
    pub sin_c: int,
    pub cos_c: int,
}

/// A vector in fixed-point coordinates (scale `SCALE`).
#[derive(Clone, Copy)]
pub struct Vector3 {
    pub x: i64,
    pub y: i64,
    pub z: i64,
}

impl View for Vector3 {
    type V = Vec3;

    open spec fn view(&self) -> Vec3 {
        Vec3 { x: self.x as int, y: self.y as int, z: self.z as int }
    }
}

/// Precomputed sines and cosines of the three rotation angles, in
/// fixed-point (so each value lies in `[-SCALE, SCALE]`).
#[derive(Clone, Copy)]
pub struct TrigValues {
    pub sin_a: i64,
    pub cos_a: i64,
    pub sin_b: i64,
    pub cos_b: i64,
    pub sin_c: i64,
    pub cos_c: i64,
}

impl View for TrigValues {
    type V = Trig;

    open spec fn view(&self) -> Trig {
        Trig {
            sin_a: self.sin_a as int,
            cos_a: self.cos_a as int,
            sin_b: self.sin_b as int,
            cos_b: self.cos_b as int,
            sin_c: self.sin_c as int,
            cos_c: self.cos_c as int,
        }
    }
}

/// Every component of `v` lies in `[-b, b]`.
pub open spec fn v_bounded(v: Vec3, b: int) -> bool {
    &&& -b <= v.x <= b
    &&& -b <= v.y <= b
    &&& -b <= v.z <= b
}

/// Every entry of the table lies in `[-SCALE, SCALE]`, as a fixed-point
/// sine or cosine does.
pub open spec fn trig_bounded(t: Trig) -> bool {
    &&& -SCALE <= t.sin_a <= SCALE
    &&& -SCALE <= t.cos_a <= SCALE
    &&& -SCALE <= t.sin_b <= SCALE
    &&& -SCALE <= t.cos_b <= SCALE
    &&& -SCALE <= t.sin_c <= SCALE
    &&& -SCALE <= t.cos_c <= SCALE
}

/// The table of an all-zero rotation: every sine 0, every cosine 1.
pub open spec fn trig_identity() -> Trig {
    Trig {
        sin_a: 0,
        cos_a: SCALE as int,
        sin_b: 0,
        cos_b: SCALE as int,
        sin_c: 0,
        cos_c: SCALE as int,
    }
}

/// Squared Euclidean norm.
pub open spec fn v_norm_sq(v: Vec3) -> int {
    v.x * v.x + v.y * v.y + v.z * v.z
}

/// Fixed-point magnitude: the floor of the Euclidean norm.
pub open spec fn v_mag(v: Vec3) -> int {
    sqrt_floor(v_norm_sq(v) as nat) as int
}

/// Fixed-point normalization: scale by `SCALE / magnitude` when the
/// magnitude is positive; a zero vector is left unchanged.
pub open spec fn v_norm(v: Vec3) -> Vec3 {
    let m: int = v_mag(v);
    if m > 0 {
        Vec3 { x: tdiv(v.x * SCALE, m), y: tdiv(v.y * SCALE, m), z: tdiv(v.z * SCALE, m) }
    } else {
        v
    }
}

/// Dot product (the raw sum of products; for two `SCALE`-normalized
/// vectors it carries scale `SCALE * SCALE`).
pub open spec fn v_dot(a: Vec3, b: Vec3) -> int {
    a.x * b.x + a.y * b.y + a.z * b.z
}

/// The composed yaw/pitch/roll rotation matrix applied to `v`, with each
/// intermediate product renormalized to fixed-point scale by truncated
/// division.
pub open spec fn v_rot(v: Vec3, t: Trig) -> Vec3 {
    let s: int = SCALE as int;
    let ca_sb: int = tdiv(t.cos_a * t.sin_b, s);
    let sa_sb: int = tdiv(t.sin_a * t.sin_b, s);
    let x_arg1: int = tdiv(ca_sb * t.sin_c, s) - tdiv(t.sin_a * t.cos_c, s);
    let x_arg2: int = tdiv(ca_sb * t.cos_c, s) + tdiv(t.sin_a * t.sin_c, s);
    let y_arg1: int = tdiv(sa_sb * t.sin_c, s) + tdiv(t.cos_a * t.cos_c, s);
    let y_arg2: int = tdiv(sa_sb * t.cos_c, s) - tdiv(t.cos_a * t.sin_c, s);
    let xx: int = tdiv(t.cos_a * t.cos_b, s);
    let yx: int = tdiv(t.sin_a * t.cos_b, s);
    let zy: int = tdiv(t.cos_b * t.sin_c, s);
    let zz: int = tdiv(t.cos_b * t.cos_c, s);
    Vec3 {
        x: tdiv(xx * v.x + x_arg1 * v.y + x_arg2 * v.z, s),
        y: tdiv(yx * v.x + y_arg1 * v.y + y_arg2 * v.z, s),
        z: tdiv(-t.sin_b * v.x + zy * v.y + zz * v.z, s),
    }
}

impl Vector3 {
    /// Fixed-point magnitude, `sqrt(x^2 + y^2 + z^2)` rounded down.
    pub fn mag(&self) -> (r: i64)
        requires
            v_bounded(self@, 0x4000_0000),
        ensures
            r == v_mag(self@),
            0 <= r <= 0x8000_0000,
    {
        proof {
            lemma_sq_bound(self.x as int, 0x4000_0000);
            lemma_sq_bound(self.y as int, 0x4000_0000);
            lemma_sq_bound(self.z as int, 0x4000_0000);
        }
        let q: i64 = self.x * self.x + self.y * self.y + self.z * self.z;
        let r: u64 = isqrt(q as u64);
        proof {
            lemma_sqrt_floor_bounds(q as nat);
            if r > 0x8000_0000 {
                assert((r as int) * (r as int) > 0x4000_0000_0000_0000i64) by (nonlinear_arith)
                    requires r > 0x8000_0000u64;
            }
        }
        r as i64
    }

    /// Scale to unit length (fixed-point `SCALE`); a zero-magnitude vector
    /// is left unchanged.
    pub fn norm(&mut self)
        requires
            v_bounded(old(self)@, 0x4000_0000),
        ensures
            final(self)@ == v_norm(old(self)@),
            v_bounded(final(self)@, 0x4000_0000),
            v_mag(old(self)@) > 0 ==> v_bounded(final(self)@, SCALE as int),
    {
        let m: i64 = self.mag();
        if m > 0 {
            proof {
                lemma_components_le_mag(self@);
                lemma_norm_component_bound(self.x as int, m as int);
                lemma_norm_component_bound(self.y as int, m as int);
                lemma_norm_component_bound(self.z as int, m as int);
            }
            let x: i64 = div_fixed(self.x * SCALE, m);
            let y: i64 = div_fixed(self.y * SCALE, m);
            let z: i64 = div_fixed(self.z * SCALE, m);
            self.x = x;
            self.y = y;
            self.z = z;
        }
    }

    /// Dot product with `vec`.
    pub fn dot(&self, vec: &Vector3) -> (r: i64)
        requires
            v_bounded(self@, 0x4000_0000),
            v_bounded(vec@, 0x4000_0000),
        ensures
            r == v_dot(self@, vec@),
    {
        proof {
            lemma_prod_bound(self.x as int, vec.x as int, 0x4000_0000);
            lemma_prod_bound(self.y as int, vec.y as int, 0x4000_0000);
            lemma_prod_bound(self.z as int, vec.z as int, 0x4000_0000);
        }
        self.x * vec.x + self.y * vec.y + self.z * vec.z
    }

    /// Apply the composed three-axis rotation given by `trig_values`.
    pub fn rot(&mut self, trig_values: &TrigValues)
        requires
            v_bounded(old(self)@, 0x10_0000),
            trig_bounded(trig_values@),
        ensures
            final(self)@ == v_rot(old(self)@, trig_values@),
            v_bounded(final(self)@, 5 * 0x10_0000int),
    {
        let s: i64 = SCALE;
        let t = *trig_values;
        proof {
            lemma_prod_bound(t.cos_a as int, t.sin_b as int, SCALE as int);
            lemma_prod_bound(t.sin_a as int, t.sin_b as int, SCALE as int);
            lemma_prod_bound(t.cos_a as int, t.cos_b as int, SCALE as int);
            lemma_prod_bound(t.sin_a as int, t.cos_b as int, SCALE as int);
            lemma_prod_bound(t.cos_b as int, t.sin_c as int, SCALE as int);
            lemma_prod_bound(t.cos_b as int, t.cos_c as int, SCALE as int);
            lemma_prod_bound(t.sin_a as int, t.cos_c as int, SCALE as int);
            lemma_prod_bound(t.sin_a as int, t.sin_c as int, SCALE as int);
            lemma_prod_bound(t.cos_a as int, t.cos_c as int, SCALE as int);
            lemma_prod_bound(t.cos_a as int, t.sin_c as int, SCALE as int);
        }
        let ca_sb: i64 = div_fixed(t.cos_a * t.sin_b, s);
        let sa_sb: i64 = div_fixed(t.sin_a * t.sin_b, s);
        proof {
            lemma_div_scale_bound(t.cos_a as int * t.sin_b as int);
            lemma_div_scale_bound(t.sin_a as int * t.sin_b as int);
            lemma_prod_bound(ca_sb as int, t.sin_c as int, SCALE as int);
            lemma_prod_bound(ca_sb as int, t.cos_c as int, SCALE as int);
            lemma_prod_bound(sa_sb as int, t.sin_c as int, SCALE as int);
            lemma_prod_bound(sa_sb as int, t.cos_c as int, SCALE as int);
        }
        let x_arg1: i64 = div_fixed(ca_sb * t.sin_c, s) - div_fixed(t.sin_a * t.cos_c, s);
        let x_arg2: i64 = div_fixed(ca_sb * t.cos_c, s) + div_fixed(t.sin_a * t.sin_c, s);
        let y_arg1: i64 = div_fixed(sa_sb * t.sin_c, s) + div_fixed(t.cos_a * t.cos_c, s);
        let y_arg2: i64 = div_fixed(sa_sb * t.cos_c, s) - div_fixed(t.cos_a * t.sin_c, s);
        let xx: i64 = div_fixed(t.cos_a * t.cos_b, s);
        let yx: i64 = div_fixed(t.sin_a * t.cos_b, s);
        let zy: i64 = div_fixed(t.cos_b * t.sin_c, s);
        let zz: i64 = div_fixed(t.cos_b * t.cos_c, s);
        proof {
            lemma_div_scale_bound(t.cos_a as int * t.cos_b as int);
            lemma_div_scale_bound(t.sin_a as int * t.cos_b as int);
            lemma_div_scale_bound(t.cos_b as int * t.sin_c as int);
            lemma_div_scale_bound(t.cos_b as int * t.cos_c as int);
            lemma_div_scale_bound(t.sin_a as int * t.cos_c as int);
            lemma_div_scale_bound(t.sin_a as int * t.sin_c as int);
            lemma_div_scale_bound(t.cos_a as int * t.cos_c as int);
            lemma_div_scale_bound(t.cos_a as int * t.sin_c as int);
            lemma_div_scale_bound(ca_sb as int * t.sin_c as int);
            lemma_div_scale_bound(ca_sb as int * t.cos_c as int);
            lemma_div_scale_bound(sa_sb as int * t.sin_c as int);
            lemma_div_scale_bound(sa_sb as int * t.cos_c as int);
            lemma_row_bound(xx as int, x_arg1 as int, x_arg2 as int, self@, 0x10_0000);
            lemma_row_bound(yx as int, y_arg1 as int, y_arg2 as int, self@, 0x10_0000);
            lemma_row_bound(-(t.sin_b as int), zy as int, zz as int, self@, 0x10_0000);
        }
        let prev = self.clone();
        self.x = div_fixed(xx * prev.x + x_arg1 * prev.y + x_arg2 * prev.z, s);
        self.y = div_fixed(yx * prev.x + y_arg1 * prev.y + y_arg2 * prev.z, s);
        self.z = div_fixed(-t.sin_b * prev.x + zy * prev.y + zz * prev.z, s);
        proof {
            lemma_tdiv_bound(
                xx * prev.x as int + x_arg1 * prev.y as int + x_arg2 * prev.z as int,
                SCALE as int,
                5 * 0x10_0000 * SCALE as int,
            );
            lemma_tdiv_bound(
                yx * prev.x as int + y_arg1 * prev.y as int + y_arg2 * prev.z as int,
                SCALE as int,
                5 * 0x10_0000 * SCALE as int,
            );
            lemma_tdiv_bound(
                -(t.sin_b as int) * prev.x as int + zy * prev.y as int + zz * prev.z as int,
                SCALE as int,
                5 * 0x10_0000 * SCALE as int,
            );
        }
    }
}

/// `|a| <= b` gives `a * a <= b * b`.
proof fn lemma_sq_bound(a: int, b: int)
    requires
        -b <= a <= b,
        b >= 0,
    ensures
        0 <= a * a <= b * b,
{
    assert(0 <= a * a <= b * b) by (nonlinear_arith)
        requires -b <= a <= b && b >= 0;
}

/// `|a| <= m` and `|b| <= m` give `|a * b| <= m * m`.
proof fn lemma_prod_bound(a: int, b: int, m: int)
    requires
        -m <= a <= m,
        -m <= b <= m,
        m >= 0,
    ensures
        -(m * m) <= a * b <= m * m,
{
    assert(-(m * m) <= a * b <= m * m) by (nonlinear_arith)
        requires -m <= a <= m && -m <= b <= m && m >= 0;
}

/// A product of two fixed-point values in `[-SCALE^2, SCALE^2]`, divided
/// back by `SCALE`, lies in `[-SCALE, SCALE]`.
proof fn lemma_div_scale_bound(p: int)
    requires
        -(SCALE as int * SCALE as int) <= p <= SCALE as int * SCALE as int,
    ensures
        -(SCALE as int) <= tdiv(p, SCALE as int) <= SCALE as int,
{
    lemma_tdiv_bound(p, SCALE as int, SCALE as int * SCALE as int);
    assert((SCALE as int * SCALE as int) / (SCALE as int) == SCALE as int);
}

/// `|a| <= ma` and `|b| <= mb` give `|a * b| <= ma * mb`.
pub proof fn lemma_prod_bounds(a: int, b: int, ma: int, mb: int)
    requires
        -ma <= a <= ma,
        -mb <= b <= mb,
        ma >= 0,
        mb >= 0,
    ensures
        -(ma * mb) <= a * b <= ma * mb,
{
    assert(-(ma * mb) <= a * b <= ma * mb) by (nonlinear_arith)
        requires -ma <= a <= ma && -mb <= b <= mb && ma >= 0 && mb >= 0;
}

/// Each rotation-matrix row applied to a `b`-bounded vector stays within
/// `5 * b * SCALE` before the final renormalization.
proof fn lemma_row_bound(c1: int, c2: int, c3: int, v: Vec3, b: int)
    requires
        -(SCALE as int) <= c1 <= SCALE as int,
        -2 * SCALE as int <= c2 <= 2 * SCALE as int,
        -2 * SCALE as int <= c3 <= 2 * SCALE as int,
        b >= 0,
        v_bounded(v, b),
    ensures
        -(b * SCALE as int) <= c1 * v.x <= b * SCALE as int,
        -(2 * b * SCALE as int) <= c2 * v.y <= 2 * b * SCALE as int,
        -(2 * b * SCALE as int) <= c3 * v.z <= 2 * b * SCALE as int,
        -(5 * b * SCALE as int) <= c1 * v.x + c2 * v.y + c3 * v.z <= 5 * b * SCALE as int,
{
    assert(-(b * SCALE as int) <= c1 * v.x <= b * SCALE as int) by (nonlinear_arith)
        requires -(SCALE as int) <= c1 <= SCALE as int && -b <= v.x <= b && b >= 0;
    assert(-(2 * b * SCALE as int) <= c2 * v.y <= 2 * b * SCALE as int) by (nonlinear_arith)
        requires -2 * SCALE as int <= c2 <= 2 * SCALE as int && -b <= v.y <= b && b >= 0;
    assert(-(2 * b * SCALE as int) <= c3 * v.z <= 2 * b * SCALE as int) by (nonlinear_arith)
        requires -2 * SCALE as int <= c3 <= 2 * SCALE as int && -b <= v.z <= b && b >= 0;
}

/// The fixed-point rotation keeps a `b`-bounded vector within `5 * b`.
pub proof fn lemma_rot_bounded(v: Vec3, t: Trig, b: int)
    requires
        trig_bounded(t),
        b >= 0,
        v_bounded(v, b),
    ensures
        v_bounded(v_rot(v, t), 5 * b),
{
    let s: int = SCALE as int;
    lemma_prod_bounds(t.cos_a, t.sin_b, s, s);
    lemma_prod_bounds(t.sin_a, t.sin_b, s, s);
    lemma_prod_bounds(t.cos_a, t.cos_b, s, s);
    lemma_prod_bounds(t.sin_a, t.cos_b, s, s);
    lemma_prod_bounds(t.cos_b, t.sin_c, s, s);
    lemma_prod_bounds(t.cos_b, t.cos_c, s, s);
    lemma_prod_bounds(t.sin_a, t.cos_c, s, s);
    lemma_prod_bounds(t.sin_a, t.sin_c, s, s);
    lemma_prod_bounds(t.cos_a, t.cos_c, s, s);
    lemma_prod_bounds(t.cos_a, t.sin_c, s, s);
    let ca_sb: int = tdiv(t.cos_a * t.sin_b, s);
    let sa_sb: int = tdiv(t.sin_a * t.sin_b, s);
    lemma_div_scale_bound(t.cos_a * t.sin_b);
    lemma_div_scale_bound(t.sin_a * t.sin_b);
    lemma_prod_bounds(ca_sb, t.sin_c, s, s);
    lemma_prod_bounds(ca_sb, t.cos_c, s, s);
    lemma_prod_bounds(sa_sb, t.sin_c, s, s);
    lemma_prod_bounds(sa_sb, t.cos_c, s, s);
    lemma_div_scale_bound(ca_sb * t.sin_c);
    lemma_div_scale_bound(ca_sb * t.cos_c);
    lemma_div_scale_bound(sa_sb * t.sin_c);
    lemma_div_scale_bound(sa_sb * t.cos_c);
    lemma_div_scale_bound(t.cos_a * t.cos_b);
    lemma_div_scale_bound(t.sin_a * t.cos_b);
    lemma_div_scale_bound(t.cos_b * t.sin_c);
    lemma_div_scale_bound(t.cos_b * t.cos_c);
    lemma_div_scale_bound(t.sin_a * t.cos_c);
    lemma_div_scale_bound(t.sin_a * t.sin_c);
    lemma_div_scale_bound(t.cos_a * t.cos_c);
    lemma_div_scale_bound(t.cos_a * t.sin_c);
    let x_arg1: int = tdiv(ca_sb * t.sin_c, s) - tdiv(t.sin_a * t.cos_c, s);
    let x_arg2: int = tdiv(ca_sb * t.cos_c, s) + tdiv(t.sin_a * t.sin_c, s);
    let y_arg1: int = tdiv(sa_sb * t.sin_c, s) + tdiv(t.cos_a * t.cos_c, s);
    let y_arg2: int = tdiv(sa_sb * t.cos_c, s) - tdiv(t.cos_a * t.sin_c, s);
    let xx: int = tdiv(t.cos_a * t.cos_b, s);
    let yx: int = tdiv(t.sin_a * t.cos_b, s);
    let zy: int = tdiv(t.cos_b * t.sin_c, s);
    let zz: int = tdiv(t.cos_b * t.cos_c, s);
    lemma_row_bound(xx, x_arg1, x_arg2, v, b);
    lemma_row_bound(yx, y_arg1, y_arg2, v, b);
    lemma_row_bound(-t.sin_b, zy, zz, v, b);
    lemma_tdiv_bound(xx * v.x + x_arg1 * v.y + x_arg2 * v.z, s, 5 * b * s);
    lemma_tdiv_bound(yx * v.x + y_arg1 * v.y + y_arg2 * v.z, s, 5 * b * s);
    lemma_tdiv_bound(-t.sin_b * v.x + zy * v.y + zz * v.z, s, 5 * b * s);
    assert((5 * b * s) / s == 5 * b) by {
        lemma_tdiv_multiple(5 * b, s);
        assert(5 * b * s >= 0) by (nonlinear_arith)
            requires b >= 0 && s > 0;
    }
}

/// No component of a vector exceeds its magnitude.
pub proof fn lemma_components_le_mag(v: Vec3)
    ensures
        -v_mag(v) <= v.x <= v_mag(v),
        -v_mag(v) <= v.y <= v_mag(v),
        -v_mag(v) <= v.z <= v_mag(v),
{
    assert(v_norm_sq(v) >= 0) by (nonlinear_arith);
    lemma_sqrt_floor_bounds(v_norm_sq(v) as nat);
    let m: int = v_mag(v);
    assert(v.x * v.x <= v_norm_sq(v)) by (nonlinear_arith);
    assert(v.y * v.y <= v_norm_sq(v)) by (nonlinear_arith);
    assert(v.z * v.z <= v_norm_sq(v)) by (nonlinear_arith);
    lemma_sq_le_implies_le(v.x, m, v_norm_sq(v));
    lemma_sq_le_implies_le(v.y, m, v_norm_sq(v));
    lemma_sq_le_implies_le(v.z, m, v_norm_sq(v));
}

/// A value whose square stays below `(m + 1)^2` lies in `[-m, m]`.
proof fn lemma_sq_le_implies_le(c: int, m: int, n: int)
    requires
        m >= 0,
        c * c <= n,
        n < (m + 1) * (m + 1),
    ensures
        -m <= c <= m,
{
    if c > m {
        assert((m + 1) * (m + 1) <= c * c) by (nonlinear_arith)
            requires m + 1 <= c && m >= 0;
    }
    if c < -m {
        assert((m + 1) * (m + 1) <= c * c) by (nonlinear_arith)
            requires c <= -(m + 1) && m >= 0;
    }
}

/// Law: rotating by angle zero — every sine 0, every cosine 1 — is the
/// identity transform on any vector.
pub proof fn lemma_rot_identity(v: Vec3)
    ensures
        v_rot(v, trig_identity()) == v,
{
    let s: int = SCALE as int;
    vstd::arithmetic::div_mod::lemma_div_basics(s);
    lemma_tdiv_multiple(s, s);
    assert(tdiv(0, s) == 0);
    assert(tdiv(s * s, s) == s);
    lemma_tdiv_multiple(v.x, s);
    lemma_tdiv_multiple(v.y, s);
    lemma_tdiv_multiple(v.z, s);
    let r: Vec3 = v_rot(v, trig_identity());
    assert(r.x == tdiv(s * v.x + 0 * v.y + 0 * v.z, s));
    assert(s * v.x == v.x * s) by (nonlinear_arith);
    assert(s * v.y == v.y * s) by (nonlinear_arith);
    assert(s * v.z == v.z * s) by (nonlinear_arith);
    assert(r.x == v.x);
    assert(r.y == tdiv(0 * v.x + s * v.y + 0 * v.z, s));
    assert(r.y == v.y);
    assert(r.z == tdiv(-0 * v.x + 0 * v.y + s * v.z, s));
    assert(r.z == v.z);
}

/// A vector whose fixed-point magnitude is exactly `SCALE` — exactly unit
/// length — is left unchanged by normalization.
pub proof fn lemma_norm_unit(v: Vec3)
    requires
        v_mag(v) == SCALE as int,
    ensures
        v_norm(v) == v,
{
    let s: int = SCALE as int;
    lemma_tdiv_multiple(v.x, s);
    lemma_tdiv_multiple(v.y, s);
    lemma_tdiv_multiple(v.z, s);
    assert(v_norm(v) == Vec3 { x: tdiv(v.x * s, s), y: tdiv(v.y * s, s), z: tdiv(v.z * s, s) });
}

/// Law: normalization is idempotent. Fixed-point rounding can leave the
/// magnitude of a normalized vector a few units below `SCALE`; such inputs
/// are excluded, so the law is stated for vectors whose normalization comes
/// out exactly unit length.
pub proof fn lemma_norm_idempotent(v: Vec3)
    requires
        v_mag(v_norm(v)) == SCALE as int,
    ensures
        v_norm(v_norm(v)) == v_norm(v),
{
    lemma_norm_unit(v_norm(v));
}

/// A vector of magnitude zero is the zero vector.
pub proof fn lemma_mag_zero(v: Vec3)
    requires
        v_mag(v) == 0,
    ensures
        v.x == 0 && v.y == 0 && v.z == 0,
{
    let q: int = v_norm_sq(v);
    assert(q >= 0) by (nonlinear_arith)
        requires q == v.x * v.x + v.y * v.y + v.z * v.z;
    lemma_sqrt_floor_bounds(q as nat);
    assert((sqrt_floor(q as nat) + 1) * (sqrt_floor(q as nat) + 1) == 1) by (nonlinear_arith)
        requires sqrt_floor(q as nat) == 0;
    assert(q == 0);
    assert(v.x == 0 && v.y == 0 && v.z == 0) by (nonlinear_arith)
        requires v.x * v.x + v.y * v.y + v.z * v.z == 0;
}

/// Cauchy-Schwarz: the square of a dot product never exceeds the product
/// of the squared norms (by the Lagrange identity, whose remainder is the
/// squared norm of the cross product).
pub proof fn lemma_cauchy_schwarz(a: Vec3, b: Vec3)
    ensures
        v_dot(a, b) * v_dot(a, b) <= v_norm_sq(a) * v_norm_sq(b),
{
    let qa: int = v_norm_sq(a);
    let qb: int = v_norm_sq(b);
    let d: int = v_dot(a, b);
    let p1: int = a.x * b.x;
    let p2: int = a.y * b.y;
    let p3: int = a.z * b.z;
    let m1: int = a.y * b.z;
    let m2: int = a.z * b.y;
    let m3: int = a.z * b.x;
    let m4: int = a.x * b.z;
    let m5: int = a.x * b.y;
    let m6: int = a.y * b.x;
    assert(d * d == p1 * p1 + p2 * p2 + p3 * p3 + 2 * (p1 * p2) + 2 * (p1 * p3) + 2 * (p2 * p3))
        by (nonlinear_arith)
        requires d == p1 + p2 + p3;
    assert(qa * qb == (a.x * a.x) * qb + (a.y * a.y) * qb + (a.z * a.z) * qb) by (nonlinear_arith)
        requires qa == a.x * a.x + a.y * a.y + a.z * a.z;
    assert((a.x * a.x) * qb == (a.x * a.x) * (b.x * b.x) + (a.x * a.x) * (b.y * b.y) + (a.x * a.x) * (b.z
        * b.z)) by (nonlinear_arith)
        requires qb == b.x * b.x + b.y * b.y + b.z * b.z;
    assert(p1 * p1 == (a.x * a.x) * (b.x * b.x)) by (nonlinear_arith)
        requires p1 == a.x * b.x;
    assert(m5 * m5 == (a.x * a.x) * (b.y * b.y)) by (nonlinear_arith)
        requires m5 == a.x * b.y;
    assert(m4 * m4 == (a.x * a.x) * (b.z * b.z)) by (nonlinear_arith)
        requires m4 == a.x * b.z;
    assert((a.x * a.x) * qb == p1 * p1 + m5 * m5 + m4
        * m4);
    assert((a.y * a.y) * qb == (a.y * a.y) * (b.x * b.x) + (a.y * a.y) * (b.y * b.y) + (a.y * a.y) * (b.z
        * b.z)) by (nonlinear_arith)
        requires qb == b.x * b.x + b.y * b.y + b.z * b.z;
    assert(m6 * m6 == (a.y * a.y) * (b.x * b.x)) by (nonlinear_arith)
        requires m6 == a.y * b.x;
    assert(p2 * p2 == (a.y * a.y) * (b.y * b.y)) by (nonlinear_arith)
        requires p2 == a.y * b.y;
    assert(m1 * m1 == (a.y * a.y) * (b.z * b.z)) by (nonlinear_arith)
        requires m1 == a.y * b.z;
    assert((a.y * a.y) * qb == m6 * m6 + p2 * p2 + m1
        * m1);
    assert((a.z * a.z) * qb == (a.z * a.z) * (b.x * b.x) + (a.z * a.z) * (b.y * b.y) + (a.z * a.z) * (b.z
        * b.z)) by (nonlinear_arith)
        requires qb == b.x * b.x + b.y * b.y + b.z * b.z;
    assert(m3 * m3 == (a.z * a.z) * (b.x * b.x)) by (nonlinear_arith)
        requires m3 == a.z * b.x;
    assert(m2 * m2 == (a.z * a.z) * (b.y * b.y)) by (nonlinear_arith)
        requires m2 == a.z * b.y;
    assert(p3 * p3 == (a.z * a.z) * (b.z * b.z)) by (nonlinear_arith)
        requires p3 == a.z * b.z;
    assert((a.z * a.z) * qb == m3 * m3 + m2 * m2 + p3
        * p3);
    assert(p1 * p2 == m5 * m6) by (nonlinear_arith)
        requires p1 == a.x * b.x && p2 == a.y * b.y && m5 == a.x * b.y && m6 == a.y * b.x;
    assert(p1 * p3 == m3 * m4) by (nonlinear_arith)
        requires p1 == a.x * b.x && p3 == a.z * b.z && m3 == a.z * b.x && m4 == a.x * b.z;
    assert(p2 * p3 == m1 * m2) by (nonlinear_arith)
        requires p2 == a.y * b.y && p3 == a.z * b.z && m1 == a.y * b.z && m2 == a.z * b.y;
    let cx: int = m1 - m2;
    let cy: int = m3 - m4;
    let cz: int = m5 - m6;
    assert(cx * cx == m1 * m1 + m2 * m2 - 2 * (m1 * m2)) by (nonlinear_arith)
        requires cx == m1 - m2;
    assert(cy * cy == m3 * m3 + m4 * m4 - 2 * (m3 * m4)) by (nonlinear_arith)
        requires cy == m3 - m4;
    assert(cz * cz == m5 * m5 + m6 * m6 - 2 * (m5 * m6)) by (nonlinear_arith)
        requires cz == m5 - m6;
    assert(cx * cx >= 0 && cy * cy >= 0 && cz * cz >= 0) by (nonlinear_arith);
    assert(qa * qb - d * d == cx * cx + cy * cy + cz * cz);
}

/// A dot product is bounded strictly by the product of the magnitudes,
/// each rounded up.
pub proof fn lemma_dot_bound_by_mags(a: Vec3, b: Vec3)
    ensures
        -((v_mag(a) + 1) * (v_mag(b) + 1)) < v_dot(a, b) < (v_mag(a) + 1) * (v_mag(b) + 1),
{
    lemma_cauchy_schwarz(a, b);
    let qa: int = v_norm_sq(a);
    let qb: int = v_norm_sq(b);
    assert(qa >= 0) by (nonlinear_arith)
        requires qa == a.x * a.x + a.y * a.y + a.z * a.z;
    assert(qb >= 0) by (nonlinear_arith)
        requires qb == b.x * b.x + b.y * b.y + b.z * b.z;
    lemma_sqrt_floor_bounds(qa as nat);
    lemma_sqrt_floor_bounds(qb as nat);
    let ma: int = v_mag(a);
    let mb: int = v_mag(b);
    let d: int = v_dot(a, b);
    assert(qa < (ma + 1) * (ma + 1));
    assert(qb < (mb + 1) * (mb + 1));
    assert(qa * qb < ((ma + 1) * (mb + 1)) * ((ma + 1) * (mb + 1))) by (nonlinear_arith)
        requires
            0 <= qa < (ma + 1) * (ma + 1),
            0 <= qb < (mb + 1) * (mb + 1),
            ma >= 0 && mb >= 0;
    assert(-((ma + 1) * (mb + 1)) < d < (ma + 1) * (mb + 1)) by (nonlinear_arith)
        requires
            d * d < ((ma + 1) * (mb + 1)) * ((ma + 1) * (mb + 1)),
            ma >= 0 && mb >= 0;
}

/// One normalized component, squared and scaled by `m^2`, sits within
/// `2 * m^2 * SCALE` below `(x * SCALE)^2`.
proof fn lemma_norm_comp_sq(x: int, m: int)
    requires
        m >= 1,
        -m <= x <= m,
    ensures
        m * m * (tdiv(x * SCALE, m) * tdiv(x * SCALE, m)) <= (x * SCALE) * (x * SCALE),
        m * m * (tdiv(x * SCALE, m) * tdiv(x * SCALE, m)) >= (x * SCALE) * (x * SCALE) - 2 * ((m
            * m) * SCALE),
{
    let s: int = SCALE as int;
    let u: int = tdiv(x * s, m);
    let a: int = if x >= 0 { x * s } else { -(x * s) };
    if x >= 0 {
        assert(a >= 0) by (nonlinear_arith)
            requires a == x * s && x >= 0 && s >= 1;
    } else {
        assert(a >= 0) by (nonlinear_arith)
            requires a == -(x * s) && x < 0 && s >= 1;
    }
    assert(a * a == (x * s) * (x * s)) by (nonlinear_arith)
        requires a == x * s || a == -(x * s);
    assert(a <= m * s) by (nonlinear_arith)
        requires (a == x * s || a == -(x * s)) && -m <= x <= m && s >= 1;
    let u0: int = a / m;
    assert(u0 == u || u0 == -u) by {
        if x >= 0 {
            assert(x * s >= 0) by (nonlinear_arith)
                requires x >= 0 && s > 0;
        } else {
            assert(x * s < 0 || x * s == 0) by (nonlinear_arith)
                requires x < 0 && s > 0;
            if x * s == 0 {
                assert(a == 0);
                vstd::arithmetic::div_mod::lemma_div_basics(m);
            }
        }
    }
    assert(u0 * u0 == u * u) by (nonlinear_arith)
        requires u0 == u || u0 == -u;
    vstd::arithmetic::div_mod::lemma_fundamental_div_mod(a, m);
    vstd::arithmetic::div_mod::lemma_mod_bound(a, m);
    vstd::arithmetic::div_mod::lemma_div_pos_is_pos(a, m);
    assert(u0 * m == a - a % m) by (nonlinear_arith)
        requires a == m * u0 + a % m;
    assert(0 <= u0 * m <= a);
    assert(m * m * (u0 * u0) <= a * a) by (nonlinear_arith)
        requires 0 <= u0 * m <= a;
    if a >= m {
        assert(u0 * m >= a - m >= 0);
        assert(m * m * (u0 * u0) >= (a - m) * (a - m)) by (nonlinear_arith)
            requires u0 * m >= a - m >= 0;
        assert((a - m) * (a - m) >= a * a - 2 * ((m * m) * s)) by (nonlinear_arith)
            requires a <= m * s && m >= 1 && s >= 1 && a >= 0;
    } else {
        assert(a * a - 2 * ((m * m) * s) < 0) by (nonlinear_arith)
            requires 0 <= a < m && m >= 1 && s >= 2;
        assert(m * m * (u0 * u0) >= 0) by (nonlinear_arith);
    }
}

/// Law: a vector of positive magnitude normalizes to unit length within
/// fixed-point tolerance. The result's magnitude is at least `SCALE - 4`,
/// and, scaled by the input magnitude `m`, stays below `SCALE * (m + 1)` —
/// so the relative error vanishes as the input grows.
pub proof fn lemma_norm_mag_close(v: Vec3)
    requires
        v_mag(v) >= 1,
    ensures
        SCALE as int - 4 <= v_mag(v_norm(v)),
        v_mag(v) * v_mag(v_norm(v)) < SCALE as int * (v_mag(v) + 1),
{
    let s: int = SCALE as int;
    let m: int = v_mag(v);
    let q: int = v_norm_sq(v);
    assert(q >= 0) by (nonlinear_arith)
        requires q == v.x * v.x + v.y * v.y + v.z * v.z;
    lemma_sqrt_floor_bounds(q as nat);
    assert(m * m <= q < (m + 1) * (m + 1));
    lemma_components_le_mag(v);
    let u: Vec3 = v_norm(v);
    assert(u.x == tdiv(v.x * s, m) && u.y == tdiv(v.y * s, m) && u.z == tdiv(v.z * s, m));
    lemma_norm_comp_sq(v.x, m);
    lemma_norm_comp_sq(v.y, m);
    lemma_norm_comp_sq(v.z, m);
    let p: int = v_norm_sq(u);
    assert(p == u.x * u.x + u.y * u.y + u.z * u.z);
    assert(m * m * p == m * m * (u.x * u.x) + m * m * (u.y * u.y) + m * m * (u.z * u.z))
        by (nonlinear_arith)
        requires p == u.x * u.x + u.y * u.y + u.z * u.z;
    assert((v.x * s) * (v.x * s) == s * s * (v.x * v.x)) by (nonlinear_arith);
    assert((v.y * s) * (v.y * s) == s * s * (v.y * v.y)) by (nonlinear_arith);
    assert((v.z * s) * (v.z * s) == s * s * (v.z * v.z)) by (nonlinear_arith);
    assert(s * s * q == s * s * (v.x * v.x) + s * s * (v.y * v.y) + s * s * (v.z * v.z))
        by (nonlinear_arith)
        requires q == v.x * v.x + v.y * v.y + v.z * v.z;
    assert(m * m * p <= s * s * q);
    assert(m * m * p >= s * s * q - 6 * ((m * m) * s));
    assert(p >= 0) by (nonlinear_arith)
        requires p == u.x * u.x + u.y * u.y + u.z * u.z;
    lemma_sqrt_floor_bounds(p as nat);
    let bigm: int = v_mag(u);
    assert(bigm * bigm <= p < (bigm + 1) * (bigm + 1));
    assert(m * m * (bigm * bigm) <= m * m * p) by (nonlinear_arith)
        requires bigm * bigm <= p && m >= 1;
    assert(s * s * q < (s * (m + 1)) * (s * (m + 1))) by (nonlinear_arith)
        requires q < (m + 1) * (m + 1) && s >= 1 && m >= 1;
    assert(m * m * (bigm * bigm) < (s * (m + 1)) * (s * (m + 1)));
    assert(m * m * (bigm * bigm) == (m * bigm) * (m * bigm)) by (nonlinear_arith);
    assert(m * bigm < s * (m + 1)) by (nonlinear_arith)
        requires
            (m * bigm) * (m * bigm) < (s * (m + 1)) * (s * (m + 1)),
            m >= 1 && bigm >= 0 && s >= 1;
    assert(s * s * q >= s * s * (m * m)) by (nonlinear_arith)
        requires q >= m * m && s >= 1;
    assert(s * s * (m * m) - 6 * ((m * m) * s) == (m * m) * (s * s - 6 * s)) by (nonlinear_arith);
    assert(p >= s * s - 6 * s) by (nonlinear_arith)
        requires m * m * p >= (m * m) * (s * s - 6 * s) && m >= 1;
    if bigm < s - 4 {
        assert((bigm + 1) * (bigm + 1) <= (s - 4) * (s - 4)) by (nonlinear_arith)
            requires 0 <= bigm + 1 <= s - 4;
        assert((s - 4) * (s - 4) < s * s - 6 * s) by (nonlinear_arith)
            requires s >= 16;
        assert(false);
    }
}

/// The floor square root of a perfect square is exact.
proof fn lemma_sqrt_sq(c: int)
    requires
        c >= 0,
    ensures
        sqrt_floor((c * c) as nat) == c,
{
    assert(c * c >= 0) by (nonlinear_arith);
    assert(c * c < (c + 1) * (c + 1)) by (nonlinear_arith)
        requires c >= 0;
    lemma_sqrt_floor_unique((c * c) as nat, c as nat);
}

/// Law: a nonzero vector lying along a coordinate axis normalizes to
/// magnitude exactly `SCALE` (the general vector is off by at most a few
/// fixed-point units, from the floor square root and truncated division).
pub proof fn lemma_norm_mag_axis(v: Vec3)
    requires
        v_norm_sq(v) == v.x * v.x && v.x != 0
            || v_norm_sq(v) == v.y * v.y && v.y != 0
            || v_norm_sq(v) == v.z * v.z && v.z != 0,
    ensures
        v_mag(v_norm(v)) == SCALE as int,
{
    let s: int = SCALE as int;
    let c: int = if v_norm_sq(v) == v.x * v.x && v.x != 0 {
        v.x
    } else if v_norm_sq(v) == v.y * v.y && v.y != 0 {
        v.y
    } else {
        v.z
    };
    let a: int = if c >= 0 { c } else { -c };
    assert(a * a == c * c) by (nonlinear_arith)
        requires a == c || a == -c;
    lemma_sqrt_sq(a);
    assert(v_mag(v) == a);
    lemma_norm_sq_zero_component(v, c, a);
    if c >= 0 {
        lemma_tdiv_multiple(s, a);
        assert(c * s == s * a) by (nonlinear_arith)
            requires a == c;
        assert(tdiv(c * s, a) == s);
    } else {
        lemma_tdiv_multiple(-s, a);
        assert(c * s == (-s) * a) by (nonlinear_arith)
            requires a == -c;
        assert(tdiv(c * s, a) == -s);
    }
    let u: Vec3 = v_norm(v);
    assert(u.x * u.x + u.y * u.y + u.z * u.z == s * s) by (nonlinear_arith)
        requires (u.x == s || u.x == -s) && u.y == 0 && u.z == 0
            || (u.y == s || u.y == -s) && u.x == 0 && u.z == 0
            || (u.z == s || u.z == -s) && u.x == 0 && u.y == 0;
    lemma_sqrt_sq(s);
}

/// In a vector whose squared norm equals one component's square, the other
/// two components are zero, and normalization sends the nonzero component
/// to `SCALE` or `-SCALE` and keeps the zeros.
proof fn lemma_norm_sq_zero_component(v: Vec3, c: int, a: int)
    requires
        a > 0,
        (c == v.x || c == v.y || c == v.z),
        c == a || c == -a,
        v_norm_sq(v) == c * c,
        v_mag(v) == a,
    ensures
        v_norm(v) == (if c == v.x {
            Vec3 { x: tdiv(c * SCALE, a), y: 0, z: 0 }
        } else if c == v.y {
            Vec3 { x: 0, y: tdiv(c * SCALE, a), z: 0 }
        } else {
            Vec3 { x: 0, y: 0, z: tdiv(c * SCALE, a) }
        }),
{
    let s: int = SCALE as int;
    assert(v.x * v.x >= 0 && v.y * v.y >= 0 && v.z * v.z >= 0) by (nonlinear_arith);
    assert(c * c == v.x * v.x || c * c == v.y * v.y || c * c == v.z * v.z) by (nonlinear_arith)
        requires c == v.x || c == v.y || c == v.z;
    vstd::arithmetic::div_mod::lemma_div_basics(a);
    assert(tdiv(0, a) == 0);
    if c == v.x && v.x * v.x == c * c {
        assert(v.y * v.y == 0 && v.z * v.z == 0);
        assert(v.y == 0 && v.z == 0) by (nonlinear_arith)
            requires v.y * v.y == 0 && v.z * v.z == 0;
        assert(tdiv(v.y * s, a) == 0 && tdiv(v.z * s, a) == 0);
    } else if c == v.y && v.y * v.y == c * c {
        assert(v.x == 0 && v.z == 0) by (nonlinear_arith)
            requires v.x * v.x == 0 && v.z * v.z == 0;
    } else {
        assert(v.x == 0 && v.y == 0) by (nonlinear_arith)
            requires v.x * v.x == 0 && v.y * v.y == 0;
    }
}

/// A component no larger than the magnitude normalizes to at most `SCALE`.
proof fn lemma_norm_component_bound(c: int, m: int)
    requires
        m > 0,
        -m <= c <= m,
    ensures
        -(SCALE as int) <= tdiv(c * SCALE, m) <= SCALE as int,
{
    assert(-(m * SCALE as int) <= c * SCALE <= m * SCALE as int) by (nonlinear_arith)
        requires -m <= c <= m && m > 0 && SCALE as int > 0;
    lemma_tdiv_bound(c * SCALE, m, m * SCALE as int);
    lemma_tdiv_multiple(SCALE as int, m);
    assert(tdiv(SCALE as int * m, m) == SCALE as int);
    assert((m * SCALE as int) == SCALE as int * m) by (nonlinear_arith);
    assert(SCALE as int * m >= 0) by (nonlinear_arith)
        requires m > 0 && SCALE as int > 0;
    assert((m * SCALE as int) / m == SCALE as int);
}

} // verus!
