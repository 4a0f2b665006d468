//! Per-frame luminance of the six cube faces.
//!
//! Each frame, the six canonical face normals are rotated with the current
//! trig values, renormalized, and dotted with the already-rotated,
//! already-normalized light direction; the result is brought back to
//! fixed-point scale `SCALE`.

use vstd::prelude::*;
use crate::fixed::{SCALE, tdiv, div_fixed, lemma_tdiv_bound};
use crate::geometry::CubeAxis;
use crate::vector::{Vec3, Trig, Vector3, TrigValues, v_bounded, trig_bounded, trig_identity,
    v_rot, v_norm, v_dot, v_mag, lemma_prod_bounds, lemma_mag_zero, lemma_norm_mag_close,
    lemma_dot_bound_by_mags, lemma_rot_identity};
use vstd::arithmetic::div_mod::lemma_div_basics;

verus! {

/// One (front, back) luminance pair per axis, in fixed-point.
pub struct AxesLuminance {
    pub a: (i64, i64),
    pub b: (i64, i64),
    pub c: (i64, i64),
}

/// Every luminance value of the table lies in `[-b, b]`.
pub open spec fn lum_within(al: AxesLuminance, b: int) -> bool {
    &&& -b <= al.a.0 <= b
    &&& -b <= al.a.1 <= b
    &&& -b <= al.b.0 <= b
    &&& -b <= al.b.1 <= b
    &&& -b <= al.c.0 <= b
    &&& -b <= al.c.1 <= b
}

/// The object-space normal of a cube face, length `SCALE` (the unit cube's
/// faces are normal to the three principal axes).
pub open spec fn axis_normal(axis: CubeAxis, front: bool) -> Vec3 {
    let s: int = if front {
        SCALE as int
    } else {
        -(SCALE as int)
    };
    match axis {
        CubeAxis::A => Vec3 { x: 0, y: 0, z: s },
        CubeAxis::B => Vec3 { x: 0, y: s, z: 0 },
        CubeAxis::C => Vec3 { x: s, y: 0, z: 0 },
    }
}

/// The luminance of one face under the rotation `t`: rotate the face
/// normal, renormalize it, dot it with the light direction, and bring the
/// product back to scale `SCALE`.
pub open spec fn face_luminance(axis: CubeAxis, front: bool, light: Vec3, t: Trig) -> int {
    tdiv(v_dot(v_norm(v_rot(axis_normal(axis, front), t)), light), SCALE as int)
}

/// The table `t` rotates every face normal to at least half its length.
/// Any table of real sines and cosines satisfies this: a real rotation is
/// rigid, and fixed-point rounding loses only a few units per component.
pub open spec fn rotation_keeps_normals(t: Trig) -> bool {
    &&& v_mag(v_rot(axis_normal(CubeAxis::A, true), t)) >= SCALE as int / 2
    &&& v_mag(v_rot(axis_normal(CubeAxis::A, false), t)) >= SCALE as int / 2
    &&& v_mag(v_rot(axis_normal(CubeAxis::B, true), t)) >= SCALE as int / 2
    &&& v_mag(v_rot(axis_normal(CubeAxis::B, false), t)) >= SCALE as int / 2
    &&& v_mag(v_rot(axis_normal(CubeAxis::C, true), t)) >= SCALE as int / 2
    &&& v_mag(v_rot(axis_normal(CubeAxis::C, false), t)) >= SCALE as int / 2
}

/// The premise `rotation_keeps_normals` is satisfiable: the all-zero
/// rotation maps each face normal to itself, whose magnitude is exactly
/// `SCALE`.
pub proof fn lemma_identity_keeps_normals()
    ensures
        rotation_keeps_normals(trig_identity()),
{
    lemma_rot_identity(axis_normal(CubeAxis::A, true));
    lemma_rot_identity(axis_normal(CubeAxis::A, false));
    lemma_rot_identity(axis_normal(CubeAxis::B, true));
    lemma_rot_identity(axis_normal(CubeAxis::B, false));
    lemma_rot_identity(axis_normal(CubeAxis::C, true));
    lemma_rot_identity(axis_normal(CubeAxis::C, false));
    let sq: int = (SCALE as int) * (SCALE as int);
    assert(65536 * 65536 <= sq < 65537 * 65537);
    crate::fixed::lemma_sqrt_floor_unique(sq as nat, 65536nat);
}

/// The whole luminance table of one frame, each value narrowed to the
/// machine integer it is stored in (every value fits: see `lum_within`).
pub open spec fn spec_axes_luminance(light: Vec3, t: Trig) -> AxesLuminance {
    AxesLuminance {
        a: (
            face_luminance(CubeAxis::A, true, light, t) as i64,
            face_luminance(CubeAxis::A, false, light, t) as i64,
        ),
        b: (
            face_luminance(CubeAxis::B, true, light, t) as i64,
            face_luminance(CubeAxis::B, false, light, t) as i64,
        ),
        c: (
            face_luminance(CubeAxis::C, true, light, t) as i64,
            face_luminance(CubeAxis::C, false, light, t) as i64,
        ),
    }
}

/// Rotate one face normal, renormalize, and take the dot product with the
/// rotated light source.
fn face_lum(normal: Vector3, rotated_light_source: &Vector3, trig_values: &TrigValues) -> (r: i64)
    requires
        v_bounded(normal@, SCALE as int),
        v_bounded(rotated_light_source@, 0x4000_0000),
        trig_bounded(trig_values@),
    ensures
        r == tdiv(v_dot(v_norm(v_rot(normal@, trig_values@)), rotated_light_source@), SCALE as int),
        -0x4_0000_0000_0000 <= r <= 0x4_0000_0000_0000,
        v_mag(rotated_light_source@) <= SCALE as int ==> -(2 * SCALE as int + 3) <= r <= 2 * SCALE
            as int + 3,
        v_mag(rotated_light_source@) <= SCALE as int && v_mag(v_rot(normal@, trig_values@))
            >= SCALE as int / 2 ==> -(SCALE as int + 4) <= r <= SCALE as int + 4,
{
    let mut n: Vector3 = normal;
    n.rot(trig_values);
    let ghost w: Vec3 = n@;
    n.norm();
    let d: i64 = n.dot(rotated_light_source);
    proof {
        lemma_prod_bounds(n.x as int, rotated_light_source.x as int, 0x4000_0000, 0x4000_0000);
        lemma_prod_bounds(n.y as int, rotated_light_source.y as int, 0x4000_0000, 0x4000_0000);
        lemma_prod_bounds(n.z as int, rotated_light_source.z as int, 0x4000_0000, 0x4000_0000);
        lemma_tdiv_bound(d as int, SCALE as int, 0x3000_0000_0000_0000int);
        let s: int = SCALE as int;
        let l: Vec3 = rotated_light_source@;
        if v_mag(l) <= s {
            let m: int = v_mag(w);
            if m == 0 {
                lemma_mag_zero(w);
                assert(v_dot(n@, l) == 0) by (nonlinear_arith)
                    requires n@.x == 0 && n@.y == 0 && n@.z == 0;
                lemma_div_basics(s);
                assert(tdiv(d as int, s) == 0);
            } else {
                lemma_norm_mag_close(w);
                let bigm: int = v_mag(n@);
                assert(m * bigm < s * (m + 1));
                assert(bigm <= 2 * s) by (nonlinear_arith)
                    requires m * bigm < s * (m + 1) && m >= 1 && s >= 1 && bigm >= 0;
                lemma_dot_bound_by_mags(n@, l);
                // |d| < (bigm + 1) * (mag(l) + 1) <= (2s + 1) * (s + 1)
                assert((bigm + 1) * (v_mag(l) + 1) <= (2 * s + 1) * (s + 1)) by (nonlinear_arith)
                    requires bigm <= 2 * s && 0 <= v_mag(l) <= s && s >= 1 && bigm >= 0;
                // (2s + 1) * (s + 1) - 1 == 8590131200 for s == 65536
                assert((2 * s + 1) * (s + 1) == 8590131201);
                lemma_tdiv_bound(d as int, s, 8590131200int);
                if m >= s / 2 {
                    assert(bigm <= s + 2) by (nonlinear_arith)
                        requires m * bigm < s * (m + 1) && 2 * m >= s && s >= 4 && m >= 1 && bigm
                            >= 0;
                    assert((bigm + 1) * (v_mag(l) + 1) <= (s + 3) * (s + 1)) by (nonlinear_arith)
                        requires bigm <= s + 2 && 0 <= v_mag(l) <= s && s >= 1 && bigm >= 0;
                    // (s + 3) * (s + 1) - 1 == 4295229442 for s == 65536
                    assert((s + 3) * (s + 1) == 4295229443);
                    lemma_tdiv_bound(d as int, s, 4295229442int);
                }
            }
        }
    }
    div_fixed(d, SCALE)
}

/// Compute the (front, back) luminance pair of each axis for the current
/// rotation.
pub fn get_axes_luminance(rotated_light_source: &Vector3, trig_values: &TrigValues) -> (r:
    AxesLuminance)
    requires
        v_bounded(rotated_light_source@, 0x4000_0000),
        trig_bounded(trig_values@),
    ensures
        r.a.0 == face_luminance(CubeAxis::A, true, rotated_light_source@, trig_values@),
        r.a.1 == face_luminance(CubeAxis::A, false, rotated_light_source@, trig_values@),
        r.b.0 == face_luminance(CubeAxis::B, true, rotated_light_source@, trig_values@),
        r.b.1 == face_luminance(CubeAxis::B, false, rotated_light_source@, trig_values@),
        r.c.0 == face_luminance(CubeAxis::C, true, rotated_light_source@, trig_values@),
        r.c.1 == face_luminance(CubeAxis::C, false, rotated_light_source@, trig_values@),
        lum_within(r, 0x4_0000_0000_0000),
        v_mag(rotated_light_source@) <= SCALE as int ==> lum_within(r, 2 * SCALE as int + 3),
        v_mag(rotated_light_source@) <= SCALE as int && rotation_keeps_normals(trig_values@)
            ==> lum_within(r, SCALE as int + 4),
        r == spec_axes_luminance(rotated_light_source@, trig_values@),
{
    let a_surface_normal_front = Vector3 { x: 0, y: 0, z: SCALE };
    let a_surface_normal_back = Vector3 { x: 0, y: 0, z: -SCALE };
    let b_surface_normal_front = Vector3 { x: 0, y: SCALE, z: 0 };
    let b_surface_normal_back = Vector3 { x: 0, y: -SCALE, z: 0 };
    let c_surface_normal_front = Vector3 { x: SCALE, y: 0, z: 0 };
    let c_surface_normal_back = Vector3 { x: -SCALE, y: 0, z: 0 };
    proof {
        assert(a_surface_normal_front@ == axis_normal(CubeAxis::A, true));
        assert(a_surface_normal_back@ == axis_normal(CubeAxis::A, false));
        assert(b_surface_normal_front@ == axis_normal(CubeAxis::B, true));
        assert(b_surface_normal_back@ == axis_normal(CubeAxis::B, false));
        assert(c_surface_normal_front@ == axis_normal(CubeAxis::C, true));
        assert(c_surface_normal_back@ == axis_normal(CubeAxis::C, false));
    }
    AxesLuminance {
        a: (
            face_lum(a_surface_normal_front, rotated_light_source, trig_values),
            face_lum(a_surface_normal_back, rotated_light_source, trig_values),
        ),
        b: (
            face_lum(b_surface_normal_front, rotated_light_source, trig_values),
            face_lum(b_surface_normal_back, rotated_light_source, trig_values),
        ),
        c: (
            face_lum(c_surface_normal_front, rotated_light_source, trig_values),
            face_lum(c_surface_normal_back, rotated_light_source, trig_values),
        ),
    }
}

} // verus!
