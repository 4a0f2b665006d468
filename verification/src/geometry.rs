//! Static point-cloud generation: the three pairs of opposing cube faces,
//! each subdivided into a grid of points, with a parallel flag sequence
//! marking grid-line points.
//!
//! Coordinates are fixed-point (scale `SCALE`); the cube is the unit cube,
//! so every coordinate lies in `[-FRAC_CUBE_SIZE_2, FRAC_CUBE_SIZE_2]`.
//! Each face pass walks its two free coordinates from `-FRAC_CUBE_SIZE_2`
//! up in steps of `spacing`, inclusively (`<=`), and emits the front-face
//! point before the matching back-face point.

use vstd::prelude::*;
use crate::fixed::{SCALE, tdiv, div_fixed, lemma_tdiv_bound};
use crate::vector::{Vec3, v_bounded};
use vstd::arithmetic::div_mod::{lemma_fundamental_div_mod, lemma_fundamental_div_mod_converse,
    lemma_div_is_ordered_by_denominator, lemma_div_pos_is_pos};
use vstd::arithmetic::mul::lemma_mul_inequality;

verus! {

/// Half the cube's edge length: the faces sit at `+-FRAC_CUBE_SIZE_2`.
pub const FRAC_CUBE_SIZE_2: i64 = 32768;

/// A third of the cube's edge length: the grid lines sit a third in from
/// each face edge.
pub const FRAC_CUBE_SIZE_3: i64 = 21845;

/// Half-width of a grid line band (0.04 in fixed-point).
pub const GRID_SPACING: i64 = 2621;

/// The lower grid-line position on an in-plane axis.
pub const GRID_POS_LOW: i64 = -10923;

/// The upper grid-line position on an in-plane axis.
pub const GRID_POS_HIGH: i64 = 10923;

/// Cumulative point counts: where axis A's, B's and C's points end.
/// `c` always equals the total point count.
pub struct PointsAxisRange {
    pub a: usize,
    pub b: usize,
    pub c: usize,
}

/// A generation-time point on one of the three cube faces, in fixed-point
/// coordinates.
#[derive(Clone, Copy)]
pub struct Point3D {
    pub x: i64,
    pub y: i64,
    pub z: i64,
}

impl View for Point3D {
    type V = Vec3;

    open spec fn view(&self) -> Vec3 {
        Vec3 { x: self.x as int, y: self.y as int, z: self.z as int }
    }
}

/// One of the three pairs of opposing cube faces.
#[derive(Clone, Copy, PartialEq, Eq, Structural)]
pub enum CubeAxis {
    A,
    B,
    C,
}

/// How many coordinate values one face pass visits: starting at
/// `-FRAC_CUBE_SIZE_2` and stepping by `spacing` while the value stays
/// `<= FRAC_CUBE_SIZE_2`.
pub open spec fn grid_steps(spacing: int) -> int
    recommends
        spacing >= 1,
{
    SCALE as int / spacing + 1
}

/// The `t`-th coordinate value a face pass visits.
pub open spec fn grid_coord(t: int, spacing: int) -> int {
    -FRAC_CUBE_SIZE_2 + t * spacing
}

/// Whether coordinate `c` falls strictly inside one of the two grid-line
/// bands.
pub open spec fn in_grid_band(c: int) -> bool {
    GRID_POS_LOW - GRID_SPACING < c < GRID_POS_LOW + GRID_SPACING
        || GRID_POS_HIGH - GRID_SPACING < c < GRID_POS_HIGH + GRID_SPACING
}

/// A point is a regular surface point (`true`) unless either of its
/// in-plane coordinates lies in a grid-line band (`false`).
pub open spec fn surface_flag(c1: int, c2: int) -> bool {
    !in_grid_band(c1) && !in_grid_band(c2)
}

/// The point a face pass emits for (outer step, inner step, front/back).
/// The fixed coordinate is the face position: axis A's faces are normal
/// to Z, axis B's to Y, and axis C's to X.
pub open spec fn place_point(axis: CubeAxis, outer: int, inner: int, front: bool, spacing: int)
    -> Vec3 {
    let h: int = if front { FRAC_CUBE_SIZE_2 as int } else { -FRAC_CUBE_SIZE_2 as int };
    let u: int = grid_coord(outer, spacing);
    let w: int = grid_coord(inner, spacing);
    match axis {
        CubeAxis::A => Vec3 { x: w, y: u, z: h },
        CubeAxis::B => Vec3 { x: u, y: h, z: w },
        CubeAxis::C => Vec3 { x: h, y: w, z: u },
    }
}

/// The `j`-th point of one face pass: pairs are emitted front then back,
/// the inner coordinate varies fastest.
pub open spec fn axis_pair_point(axis: CubeAxis, j: int, spacing: int) -> Vec3 {
    let n: int = grid_steps(spacing);
    let t: int = j / 2;
    place_point(axis, t / n, t % n, j % 2 == 0, spacing)
}

/// The `j`-th flag of one face pass (both points of a pair carry the same
/// flag).
pub open spec fn axis_pair_flag(j: int, spacing: int) -> bool {
    let n: int = grid_steps(spacing);
    let t: int = j / 2;
    surface_flag(grid_coord(t / n, spacing), grid_coord(t % n, spacing))
}

/// The `i`-th generated point over the whole cube: axis A's points first,
/// then B's, then C's.
pub open spec fn cube_point(i: int, spacing: int) -> Vec3 {
    let n: int = grid_steps(spacing);
    if i < 2 * n * n {
        axis_pair_point(CubeAxis::A, i, spacing)
    } else if i < 4 * n * n {
        axis_pair_point(CubeAxis::B, i - 2 * n * n, spacing)
    } else {
        axis_pair_point(CubeAxis::C, i - 4 * n * n, spacing)
    }
}

/// The `i`-th generated flag.
pub open spec fn cube_flag(i: int, spacing: int) -> bool {
    let n: int = grid_steps(spacing);
    if i < 2 * n * n {
        axis_pair_flag(i, spacing)
    } else if i < 4 * n * n {
        axis_pair_flag(i - 2 * n * n, spacing)
    } else {
        axis_pair_flag(i - 4 * n * n, spacing)
    }
}

/// Whether `c1` and `c2` keep a point off the grid-line bands.
fn is_surface(c1: i64, c2: i64) -> (r: bool)
    ensures
        r == surface_flag(c1 as int, c2 as int),
{
    let mut flag: bool = true;
    if c1 > GRID_POS_LOW - GRID_SPACING && c1 < GRID_POS_LOW + GRID_SPACING {
        flag = false;
    } else if c1 > GRID_POS_HIGH - GRID_SPACING && c1 < GRID_POS_HIGH + GRID_SPACING {
        flag = false;
    } else if c2 > GRID_POS_LOW - GRID_SPACING && c2 < GRID_POS_LOW + GRID_SPACING {
        flag = false;
    } else if c2 > GRID_POS_HIGH - GRID_SPACING && c2 < GRID_POS_HIGH + GRID_SPACING {
        flag = false;
    }
    flag
}

/// A coordinate value stays on the face (`<= FRAC_CUBE_SIZE_2`) exactly
/// for the first `grid_steps(spacing)` steps.
proof fn lemma_coord_le(spacing: int, t: int)
    requires
        spacing >= 1,
        t >= 0,
    ensures
        grid_coord(t, spacing) <= FRAC_CUBE_SIZE_2 as int <==> t < grid_steps(spacing),
        grid_coord(t, spacing) >= -FRAC_CUBE_SIZE_2 as int,
{
    let s: int = SCALE as int;
    let n1: int = s / spacing;
    lemma_fundamental_div_mod(s, spacing);
    assert(t * spacing >= 0) by (nonlinear_arith)
        requires t >= 0 && spacing >= 1;
    if t <= n1 {
        lemma_mul_inequality(t, n1, spacing);
        assert(n1 * spacing == spacing * n1) by (nonlinear_arith);
        assert(n1 * spacing <= s);
    } else {
        lemma_mul_inequality(n1 + 1, t, spacing);
        assert((n1 + 1) * spacing == spacing * n1 + spacing) by (nonlinear_arith);
        assert(t * spacing > s);
    }
}

/// Unique decomposition of a pair index: `j = 2 * (outer * n + inner)` or
/// that plus one, recovering outer, inner, and front/back by division.
proof fn lemma_pair_decomp(o: int, q: int, n: int)
    requires
        0 <= o < n,
        0 <= q < n,
    ensures
        0 <= o * n + q < n * n,
        (o * n + q) / n == o,
        (o * n + q) % n == q,
        (2 * (o * n + q)) / 2 == o * n + q,
        (2 * (o * n + q)) % 2 == 0,
        (2 * (o * n + q) + 1) / 2 == o * n + q,
        (2 * (o * n + q) + 1) % 2 == 1,
{
    let t: int = o * n + q;
    assert(0 <= o * n + q < n * n) by (nonlinear_arith)
        requires 0 <= o < n && 0 <= q < n;
    lemma_fundamental_div_mod_converse(t, n, o, q);
    lemma_fundamental_div_mod_converse(2 * t, 2, t, 0);
    lemma_fundamental_div_mod_converse(2 * t + 1, 2, t, 1);
}

/// Emit one face pass: for every (outer, inner) grid position, the front
/// point then the back point, with the shared flag for both.
fn fill_axis(
    axis: CubeAxis,
    points: &mut Vec<Point3D>,
    points_color: &mut Vec<bool>,
    spacing: i64,
)
    requires
        1 <= spacing <= 3 * SCALE,
        old(points)@.len() == old(points_color)@.len(),
    ensures
        final(points)@.len() == old(points)@.len() + 2 * grid_steps(spacing as int) * grid_steps(
            spacing as int,
        ),
        final(points_color)@.len() == final(points)@.len(),
        forall|k: int|
            0 <= k < old(points)@.len() ==> final(points)@[k] == old(points)@[k]
                && final(points_color)@[k] == old(points_color)@[k],
        forall|k: int|
            old(points)@.len() <= k < final(points)@.len() ==> #[trigger] final(points)@[k]@
                == axis_pair_point(axis, k - old(points)@.len(), spacing as int),
        forall|k: int|
            old(points)@.len() <= k < final(points)@.len() ==> #[trigger] final(points_color)@[k]
                == axis_pair_flag(k - old(points)@.len(), spacing as int),
        forall|k: int|
            old(points)@.len() <= k < final(points)@.len() ==> v_bounded(
                #[trigger] final(points)@[k]@,
                FRAC_CUBE_SIZE_2 as int,
            ),
{
    let ghost base: int = points@.len() as int;
    let ghost n: int = grid_steps(spacing as int);
    proof {
        lemma_coord_le(spacing as int, 0);
        assert(0 * spacing as int == 0) by (nonlinear_arith);
        assert(2 * 0 * n == 0) by (nonlinear_arith);
    }
    let h: i64 = FRAC_CUBE_SIZE_2;
    let mut u: i64 = -FRAC_CUBE_SIZE_2;
    let ghost mut o: int = 0;
    while u <= FRAC_CUBE_SIZE_2
        invariant
            1 <= spacing <= 3 * SCALE,
            n == grid_steps(spacing as int),
            h == FRAC_CUBE_SIZE_2,
            0 <= o <= n,
            u as int == grid_coord(o, spacing as int),
            u as int >= -FRAC_CUBE_SIZE_2 as int,
            u as int <= FRAC_CUBE_SIZE_2 as int <==> o < n,
            base == old(points)@.len(),
            points@.len() == base + 2 * o * n,
            points_color@.len() == points@.len(),
            forall|k: int|
                0 <= k < base ==> points@[k] == old(points)@[k] && points_color@[k] == old(
                    points_color,
                )@[k],
            forall|k: int|
                base <= k < points@.len() ==> #[trigger] points@[k]@ == axis_pair_point(
                    axis,
                    k - base,
                    spacing as int,
                ),
            forall|k: int|
                base <= k < points@.len() ==> #[trigger] points_color@[k] == axis_pair_flag(
                    k - base,
                    spacing as int,
                ),
            forall|k: int|
                base <= k < points@.len() ==> v_bounded(
                    #[trigger] points@[k]@,
                    FRAC_CUBE_SIZE_2 as int,
                ),
        decreases n - o,
    {
        proof {
            assert(0 <= 2 * o * n <= 2 * n * n) by (nonlinear_arith)
                requires 0 <= o <= n;
            assert(n <= SCALE as int + 1);
        }
        let mut w: i64 = -FRAC_CUBE_SIZE_2;
        let ghost mut q: int = 0;
        proof {
            lemma_coord_le(spacing as int, 0);
            assert(0 * spacing as int == 0) by (nonlinear_arith);
        }
        while w <= FRAC_CUBE_SIZE_2
            invariant
                1 <= spacing <= 3 * SCALE,
                n == grid_steps(spacing as int),
                h == FRAC_CUBE_SIZE_2,
                0 <= o < n,
                0 <= q <= n,
                u as int == grid_coord(o, spacing as int),
                -FRAC_CUBE_SIZE_2 as int <= u as int <= FRAC_CUBE_SIZE_2 as int,
                w as int == grid_coord(q, spacing as int),
                w as int >= -FRAC_CUBE_SIZE_2 as int,
                w as int <= FRAC_CUBE_SIZE_2 as int <==> q < n,
                base == old(points)@.len(),
                points@.len() == base + 2 * o * n + 2 * q,
                points_color@.len() == points@.len(),
                forall|k: int|
                    0 <= k < base ==> points@[k] == old(points)@[k] && points_color@[k] == old(
                        points_color,
                    )@[k],
                forall|k: int|
                    base <= k < points@.len() ==> #[trigger] points@[k]@ == axis_pair_point(
                        axis,
                        k - base,
                        spacing as int,
                    ),
                forall|k: int|
                    base <= k < points@.len() ==> #[trigger] points_color@[k] == axis_pair_flag(
                        k - base,
                        spacing as int,
                    ),
                forall|k: int|
                    base <= k < points@.len() ==> v_bounded(
                        #[trigger] points@[k]@,
                        FRAC_CUBE_SIZE_2 as int,
                    ),
            decreases n - q,
        {
            let front: Point3D = match axis {
                CubeAxis::A => Point3D { x: w, y: u, z: h },
                CubeAxis::B => Point3D { x: u, y: h, z: w },
                CubeAxis::C => Point3D { x: h, y: w, z: u },
            };
            let back: Point3D = match axis {
                CubeAxis::A => Point3D { x: w, y: u, z: -h },
                CubeAxis::B => Point3D { x: u, y: -h, z: w },
                CubeAxis::C => Point3D { x: -h, y: w, z: u },
            };
            let flag: bool = is_surface(u, w);
            let ghost pre_points: Seq<Point3D> = points@;
            let ghost pre_colors: Seq<bool> = points_color@;
            points.push(front);
            points.push(back);
            points_color.push(flag);
            points_color.push(flag);
            proof {
                lemma_pair_decomp(o, q, n);
                let t: int = o * n + q;
                assert(2 * o * n + 2 * q == 2 * t) by (nonlinear_arith)
                    requires t == o * n + q;
                assert(points@.len() == base + 2 * t + 2);
                assert(axis_pair_point(axis, 2 * t, spacing as int) == place_point(
                    axis,
                    o,
                    q,
                    true,
                    spacing as int,
                ));
                assert(axis_pair_point(axis, 2 * t + 1, spacing as int) == place_point(
                    axis,
                    o,
                    q,
                    false,
                    spacing as int,
                ));
                assert(front@ == place_point(axis, o, q, true, spacing as int));
                assert(back@ == place_point(axis, o, q, false, spacing as int));
                assert(points@[base + 2 * t]@ == axis_pair_point(axis, 2 * t, spacing as int));
                assert(points@[base + 2 * t + 1]@ == axis_pair_point(
                    axis,
                    2 * t + 1,
                    spacing as int,
                ));
                assert(points_color@[base + 2 * t] == axis_pair_flag(2 * t, spacing as int));
                assert(points_color@[base + 2 * t + 1] == axis_pair_flag(
                    2 * t + 1,
                    spacing as int,
                ));
                assert forall|k: int| base <= k < points@.len() implies #[trigger] points@[k]@
                    == axis_pair_point(axis, k - base, spacing as int) && #[trigger] points_color@[k]
                    == axis_pair_flag(k - base, spacing as int) && v_bounded(
                    points@[k]@,
                    FRAC_CUBE_SIZE_2 as int,
                ) by {
                    if k < base + 2 * t {
                        assert(points@[k] == pre_points[k]);
                        assert(points_color@[k] == pre_colors[k]);
                    }
                }
            }
            w = w + spacing;
            proof {
                q = q + 1;
                assert(q * spacing as int == (q - 1) * spacing as int + spacing as int)
                    by (nonlinear_arith);
                lemma_coord_le(spacing as int, q);
                assert(points@.len() == base + 2 * o * n + 2 * q) by (nonlinear_arith)
                    requires points@.len() == base + 2 * (o * n + q - 1) + 2;
            }
        }
        proof {
            assert(q == n);
        }
        u = u + spacing;
        proof {
            o = o + 1;
            assert(o * spacing as int == (o - 1) * spacing as int + spacing as int)
                by (nonlinear_arith);
            lemma_coord_le(spacing as int, o);
            assert(2 * o * n == 2 * (o - 1) * n + 2 * n) by (nonlinear_arith);
            assert(points@.len() == base + 2 * o * n);
        }
    }
    proof {
        assert(o == n);
    }
}

/// The grid step for a terminal `width` columns wide: `3.0 / width` in
/// fixed-point.
pub fn compute_spacing(width: u16) -> (r: i64)
    requires
        1 <= width,
    ensures
        r == tdiv(3 * SCALE, width as int),
        1 <= r <= 3 * SCALE,
{
    proof {
        lemma_div_pos_is_pos(3 * SCALE as int, width as int);
        lemma_div_is_ordered_by_denominator(3 * SCALE as int, width as int, 65535);
        lemma_div_is_ordered_by_denominator(3 * SCALE as int, 1, width as int);
        lemma_tdiv_bound(3 * SCALE as int, width as int, 3 * SCALE as int);
    }
    div_fixed(3 * SCALE, width as i64)
}

/// Build the cube's point cloud, flags, and cumulative axis ranges from
/// the grid step `spacing`.
///
/// The three face passes contribute exactly equal counts
/// (`2 * grid_steps(spacing)^2` points each), points and flags stay in
/// lockstep, and `0 <= a <= b <= c == |points|`.
pub fn rubix(
    points: &mut Vec<Point3D>,
    points_color: &mut Vec<bool>,
    points_axis_range: &mut PointsAxisRange,
    spacing: i64,
)
    requires
        1 <= spacing <= 3 * SCALE,
        old(points)@.len() == 0,
        old(points_color)@.len() == 0,
    ensures
        final(points)@.len() == 6 * grid_steps(spacing as int) * grid_steps(spacing as int),
        final(points_color)@.len() == final(points)@.len(),
        final(points_axis_range).a == 2 * grid_steps(spacing as int) * grid_steps(spacing as int),
        final(points_axis_range).b == 4 * grid_steps(spacing as int) * grid_steps(spacing as int),
        final(points_axis_range).c == final(points)@.len(),
        0 <= final(points_axis_range).a,
        final(points_axis_range).a <= final(points_axis_range).b,
        final(points_axis_range).b <= final(points_axis_range).c,
        forall|k: int|
            0 <= k < final(points)@.len() ==> #[trigger] final(points)@[k]@ == cube_point(
                k,
                spacing as int,
            ),
        forall|k: int|
            0 <= k < final(points)@.len() ==> #[trigger] final(points_color)@[k] == cube_flag(
                k,
                spacing as int,
            ),
        forall|k: int|
            0 <= k < final(points)@.len() ==> v_bounded(
                #[trigger] final(points)@[k]@,
                FRAC_CUBE_SIZE_2 as int,
            ),
{
    let ghost n: int = grid_steps(spacing as int);
    proof {
        assert(n >= 1);
        assert(n * n >= 1 && n * n <= (SCALE as int + 1) * (SCALE as int + 1))
            by (nonlinear_arith)
            requires 1 <= n <= SCALE as int + 1;
    }
    fill_axis(CubeAxis::A, points, points_color, spacing);
    points_axis_range.a = points.len();
    fill_axis(CubeAxis::B, points, points_color, spacing);
    points_axis_range.b = points.len();
    fill_axis(CubeAxis::C, points, points_color, spacing);
    points_axis_range.c = points.len();
    proof {
        assert((2 * n) * n <= (4 * n) * n <= (6 * n) * n) by (nonlinear_arith)
            requires n >= 1;
        assert(2 * n * n + 2 * n * n == 4 * n * n) by (nonlinear_arith);
        assert(4 * n * n + 2 * n * n == 6 * n * n) by (nonlinear_arith);
        assert forall|k: int| 0 <= k < points@.len() implies #[trigger] points@[k]@
            == cube_point(k, spacing as int) && #[trigger] points_color@[k] == cube_flag(
            k,
            spacing as int,
        ) && v_bounded(points@[k]@, FRAC_CUBE_SIZE_2 as int) by {
            if k < 2 * n * n {
                assert(points@[k]@ == axis_pair_point(CubeAxis::A, k, spacing as int));
                assert(points_color@[k] == axis_pair_flag(k, spacing as int));
            } else if k < 4 * n * n {
                assert(points@[k]@ == axis_pair_point(
                    CubeAxis::B,
                    k - 2 * n * n,
                    spacing as int,
                ));
                assert(points_color@[k] == axis_pair_flag(k - 2 * n * n, spacing as int));
            } else {
                assert(points@[k]@ == axis_pair_point(
                    CubeAxis::C,
                    k - 4 * n * n,
                    spacing as int,
                ));
                assert(points_color@[k] == axis_pair_flag(k - 4 * n * n, spacing as int));
            }
        }
    }
}

} // verus!
