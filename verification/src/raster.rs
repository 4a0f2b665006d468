//! Point rasterization: rotate a point, project it to a screen cell, and
//! write glyph, color and depth through a depth test.
//!
//! The depth metric is `ooz` ("one over z", fixed-point): larger means
//! closer. A projected point wins its cell only if its `ooz` strictly
//! exceeds the value stored there, so ties keep the earlier point, and a
//! cleared cell (depth 0) is won by any visible point.

use vstd::prelude::*;
use crate::color::Color;
use crate::fixed::{SCALE, tdiv, div_fixed, lemma_tdiv_bound};
use crate::geometry::{FRAC_CUBE_SIZE_2, Point3D, PointsAxisRange};
use crate::lighting::{AxesLuminance, lum_within};
use crate::vector::{Vec3, Trig, Vector3, TrigValues, v_bounded, trig_bounded, v_rot,
    lemma_rot_bounded, lemma_prod_bounds};
use vstd::arithmetic::div_mod::{lemma_div_pos_is_pos, lemma_div_is_ordered_by_denominator};

verus! {

/// Camera distance: the projection plane sits `K2` cube edge lengths away.
pub const K2: i64 = 10;

/// `floor(sqrt(3) * SCALE)`: the diagonal of the unit cube in fixed-point,
/// used by the projection scale factor.
pub const SQRT3: i64 = 113511;

/// `SQRT3` is exactly the floor of `sqrt(3)` in fixed-point.
pub proof fn lemma_sqrt3_exact()
    ensures
        SQRT3 as int == crate::fixed::sqrt_floor((3 * SCALE * SCALE) as nat) as int,
{
    assert(113511 * 113511 <= 3 * SCALE * SCALE < 113512 * 113512);
    crate::fixed::lemma_sqrt_floor_unique((3 * SCALE * SCALE) as nat, 113511nat);
}

/// Which face pair and side a point belongs to, selecting its color and
/// luminance.
#[derive(Clone, Copy, PartialEq, Eq, Structural)]
pub enum Axes {
    AFront,
    ABack,
    BFront,
    BBack,
    CFront,
    CBack,
}

/// A projected point: the flat screen index it lands on and its depth
/// metric.
pub struct Projection {
    pub index: int,
    pub ooz: int,
}

/// The projection scale factor `width * K2 * 3 / (8 * sqrt(3))` in
/// fixed-point.
pub open spec fn spec_k1(width: int) -> int {
    tdiv(30 * width * SCALE * SCALE, 8 * SQRT3)
}

/// Perspective-project an already-rotated point. Screen coordinates are
/// clamped below at zero — a point past the left or top edge lands in
/// column or row zero; the flat index is `xp + yp * width`.
pub open spec fn spec_project(rot: Vec3, width: int, height: int) -> Projection {
    let s: int = SCALE as int;
    let ooz: int = tdiv(s * s, rot.z + K2 * s);
    let acc: int = tdiv(spec_k1(width) * ooz, s);
    let sx: int = width / 2 + tdiv(tdiv(acc * rot.x, s), s);
    let sy: int = height / 2 - tdiv(tdiv(acc * rot.y, s), s);
    let xp: int = if sx < 0 {
        0
    } else {
        sx
    };
    let yp: int = if sy < 0 {
        0
    } else {
        sy
    };
    Projection { index: xp + yp * width, ooz: ooz }
}

/// The cell a point of the cloud reaches: rotate, then project.
pub open spec fn raster_candidate(p: Vec3, t: Trig, width: int, height: int) -> Projection {
    spec_project(v_rot(p, t), width, height)
}

/// The 12-glyph luminance ramp `.,-~:;=!*#$@`, darkest first.
pub open spec fn ramp_glyph(idx: int) -> u8 {
    if idx <= 0 {
        46
    } else if idx == 1 {
        44
    } else if idx == 2 {
        45
    } else if idx == 3 {
        126
    } else if idx == 4 {
        58
    } else if idx == 5 {
        59
    } else if idx == 6 {
        61
    } else if idx == 7 {
        33
    } else if idx == 8 {
        42
    } else if idx == 9 {
        35
    } else if idx == 10 {
        36
    } else {
        64
    }
}

/// Quantize a positive luminance to a ramp position, clamped to the ramp;
/// non-positive luminance selects the darkest glyph.
pub open spec fn luminance_index(lum: int) -> int {
    if lum > 0 {
        let i: int = tdiv(lum * 11, SCALE as int);
        if i > 11 {
            11
        } else {
            i
        }
    } else {
        0
    }
}

/// The glyph drawn for a luminance value.
pub open spec fn spec_glyph(lum: int) -> u8 {
    ramp_glyph(luminance_index(lum))
}

/// Within the admitted luminance range the quantized position is already
/// on the ramp: the clamp in `luminance_index` never engages.
pub proof fn lemma_luminance_index_in_ramp(lum: int)
    requires
        -(SCALE as int + 4) <= lum <= SCALE as int + 4,
    ensures
        0 <= luminance_index(lum) <= 11,
        lum > 0 ==> luminance_index(lum) == tdiv(lum * 11, SCALE as int),
{
    if lum > 0 {
        lemma_div_pos_is_pos(lum * 11, SCALE as int);
        // (SCALE + 4) * 11 == 721004, and 721004 / SCALE == 11
        lemma_tdiv_bound(lum * 11, SCALE as int, 721004int);
    }
}

/// The color tag a point is drawn in: the grid-line color for grid-line
/// points, else the fixed color of its face.
pub open spec fn face_color(char_color: bool, axes: Axes) -> Color {
    if char_color {
        match axes {
            Axes::AFront => Color::Yellow,
            Axes::ABack => Color::White,
            Axes::BFront => Color::Green,
            Axes::BBack => Color::Blue,
            Axes::CFront => Color::BoldRed,
            Axes::CBack => Color::Red,
        }
    } else {
        Color::Black
    }
}

/// The glyph for a luminance value.
fn glyph_for(luminance: i64) -> (r: u8)
    requires
        -(SCALE as int + 4) <= luminance <= SCALE as int + 4,
    ensures
        r == spec_glyph(luminance as int),
{
    if luminance > 0 {
        let raw: i64 = div_fixed(luminance * 11, SCALE);
        proof {
            lemma_div_pos_is_pos(luminance as int * 11, SCALE as int);
        }
        let idx: i64 = if raw > 11 {
            11
        } else {
            raw
        };
        if idx <= 0 {
            46
        } else if idx == 1 {
            44
        } else if idx == 2 {
            45
        } else if idx == 3 {
            126
        } else if idx == 4 {
            58
        } else if idx == 5 {
            59
        } else if idx == 6 {
            61
        } else if idx == 7 {
            33
        } else if idx == 8 {
            42
        } else if idx == 9 {
            35
        } else if idx == 10 {
            36
        } else {
            64
        }
    } else {
        46
    }
}

/// Rotate and project one point, and if its cell lies on screen and it is
/// closer than what that cell holds, write its depth, color and glyph.
pub fn update_buffers(
    i: i64,
    j: i64,
    k: i64,
    width: u16,
    height: u16,
    buffer: &mut Vec<u8>,
    zbuffer: &mut Vec<i64>,
    cbuffer: &mut Vec<Color>,
    trig_values: &TrigValues,
    char_color: bool,
    axes: Axes,
    luminance: i64,
)
    requires
        1 <= width <= 4096,
        1 <= height <= 4096,
        old(buffer)@.len() == width as int * height as int,
        old(zbuffer)@.len() == old(buffer)@.len(),
        old(cbuffer)@.len() == old(buffer)@.len(),
        -FRAC_CUBE_SIZE_2 <= i <= FRAC_CUBE_SIZE_2,
        -FRAC_CUBE_SIZE_2 <= j <= FRAC_CUBE_SIZE_2,
        -FRAC_CUBE_SIZE_2 <= k <= FRAC_CUBE_SIZE_2,
        trig_bounded(trig_values@),
        -(SCALE as int + 4) <= luminance <= SCALE as int + 4,
    ensures
        final(buffer)@.len() == old(buffer)@.len(),
        final(zbuffer)@.len() == old(zbuffer)@.len(),
        final(cbuffer)@.len() == old(cbuffer)@.len(),
        ({
            let pr = raster_candidate(
                Vec3 { x: i as int, y: j as int, z: k as int },
                trig_values@,
                width as int,
                height as int,
            );
            if 0 <= pr.index < old(buffer)@.len() && pr.ooz > old(zbuffer)@[pr.index] {
                &&& final(zbuffer)@[pr.index] == pr.ooz
                &&& final(cbuffer)@[pr.index] == face_color(char_color, axes)
                &&& final(buffer)@[pr.index] == spec_glyph(luminance as int)
                &&& forall|m: int|
                    0 <= m < old(buffer)@.len() && m != pr.index ==> final(buffer)@[m] == old(buffer)@[m] && final(zbuffer)@[m] == old(zbuffer)@[m] && final(cbuffer)@[m] == old(cbuffer)@[m]
            } else {
                &&& final(buffer)@ == old(buffer)@
                &&& final(zbuffer)@ == old(zbuffer)@
                &&& final(cbuffer)@ == old(cbuffer)@
            }
        }),
{
    let ghost p: Vec3 = Vec3 { x: i as int, y: j as int, z: k as int };
    let mut v = Vector3 { x: i, y: j, z: k };
    let ghost v0: Vec3 = v@;
    v.rot(trig_values);
    proof {
        lemma_rot_bounded(v0, trig_values@, FRAC_CUBE_SIZE_2 as int);
        assert(v_bounded(v@, 163840));
    }
    let zcam: i64 = v.z + K2 * SCALE;
    let ooz: i64 = div_fixed(SCALE * SCALE, zcam);
    proof {
        lemma_div_pos_is_pos(SCALE as int * SCALE as int, zcam as int);
        lemma_div_is_ordered_by_denominator(SCALE as int * SCALE as int, 491520, zcam as int);
        assert(0 <= ooz <= 8738);
    }
    let k1: i64 = div_fixed(30 * (width as i64) * SCALE * SCALE, 8 * SQRT3);
    proof {
        lemma_div_pos_is_pos(30 * (width as int) * SCALE as int * SCALE as int, 8 * SQRT3 as int);
        lemma_tdiv_bound(
            30 * (width as int) * SCALE as int * SCALE as int,
            8 * SQRT3 as int,
            0x1_E000_0000_0000int,
        );
        assert(0 <= k1 <= 0x2300_0000);
    }
    proof {
        lemma_prod_bounds(k1 as int, ooz as int, 0x2300_0000, 8738);
        lemma_tdiv_bound(k1 as int * ooz as int, SCALE as int, 0x2300_0000int * 8738);
    }
    let acc: i64 = div_fixed(k1 * ooz, SCALE);
    proof {
        assert(-0x1_2000_0000 <= acc <= 0x1_2000_0000);
        lemma_prod_bounds(acc as int, v.x as int, 0x1_2000_0000, 163840);
        lemma_prod_bounds(acc as int, v.y as int, 0x1_2000_0000, 163840);
        lemma_tdiv_bound(acc as int * v.x as int, SCALE as int, 0x1_2000_0000int * 163840);
        lemma_tdiv_bound(acc as int * v.y as int, SCALE as int, 0x1_2000_0000int * 163840);
    }
    let sxo: i64 = div_fixed(acc * v.x, SCALE);
    let syo: i64 = div_fixed(acc * v.y, SCALE);
    proof {
        lemma_tdiv_bound(sxo as int, SCALE as int, 0x7_0000_0000_0000int);
        lemma_tdiv_bound(syo as int, SCALE as int, 0x7_0000_0000_0000int);
    }
    let sxc: i64 = div_fixed(sxo, SCALE);
    let syc: i64 = div_fixed(syo, SCALE);
    let sx: i64 = (width / 2) as i64 + sxc;
    let sy: i64 = (height / 2) as i64 - syc;
    let xp: i64 = if sx < 0 {
        0
    } else {
        sx
    };
    let yp: i64 = if sy < 0 {
        0
    } else {
        sy
    };
    proof {
        lemma_prod_bounds(yp as int, width as int, 0x2000_0000_0000, 4096);
        assert(yp as int * width as int >= 0) by (nonlinear_arith)
            requires yp >= 0 && width >= 0;
        lemma_prod_bounds(width as int, height as int, 4096, 4096);
    }
    let index_i: i64 = xp + yp * (width as i64);
    let ghost pr: Projection = raster_candidate(p, trig_values@, width as int, height as int);
    proof {
        assert(v0 == p);
        assert(pr.ooz == ooz as int);
        assert(pr.index == index_i as int);
    }
    if index_i < buffer.len() as i64 {
        let index: usize = index_i as usize;
        if ooz > zbuffer[index] {
            zbuffer[index] = ooz;
            cbuffer[index] = if char_color {
                match axes {
                    Axes::AFront => Color::Yellow,
                    Axes::ABack => Color::White,
                    Axes::BFront => Color::Green,
                    Axes::BBack => Color::Blue,
                    Axes::CFront => Color::BoldRed,
                    Axes::CBack => Color::Red,
                }
            } else {
                Color::Black
            };
            buffer[index] = glyph_for(luminance);
        }
    }
}

/// A fully resolved draw command: the cell a point projects to, its depth
/// metric, and the color and glyph it would draw.
pub struct Cmd {
    pub cell: int,
    pub ooz: int,
    pub color: Color,
    pub glyph: u8,
}

/// Which `Axes` tag point `i` carries, given the cumulative axis ranges
/// `a` and `b`: points are interleaved front/back pairs, so even index
/// means front face.
pub open spec fn point_axes(i: int, a: int, b: int) -> Axes {
    if i < a {
        if i % 2 == 0 {
            Axes::AFront
        } else {
            Axes::ABack
        }
    } else if i < b {
        if i % 2 == 0 {
            Axes::BFront
        } else {
            Axes::BBack
        }
    } else {
        if i % 2 == 0 {
            Axes::CFront
        } else {
            Axes::CBack
        }
    }
}

/// The luminance value the tag selects from the per-axis table.
pub open spec fn select_luminance(axes: Axes, al: AxesLuminance) -> int {
    match axes {
        Axes::AFront => al.a.0 as int,
        Axes::ABack => al.a.1 as int,
        Axes::BFront => al.b.0 as int,
        Axes::BBack => al.b.1 as int,
        Axes::CFront => al.c.0 as int,
        Axes::CBack => al.c.1 as int,
    }
}

/// The draw commands of one frame: point `i`'s projected cell and depth,
/// with the color and glyph chosen from its flag, axis and luminance.
pub open spec fn frame_cmds(
    points: Seq<Point3D>,
    flags: Seq<bool>,
    a: int,
    b: int,
    al: AxesLuminance,
    t: Trig,
    width: int,
    height: int,
) -> Seq<Cmd> {
    Seq::new(
        points.len(),
        |i: int|
            {
                let pr = raster_candidate(points[i]@, t, width, height);
                let ax = point_axes(i, a, b);
                Cmd {
                    cell: pr.index,
                    ooz: pr.ooz,
                    color: face_color(flags[i], ax),
                    glyph: spec_glyph(select_luminance(ax, al)),
                }
            },
    )
}

/// Command `i` wins cell `m` among the first `n` commands: it hits the
/// cell with positive depth, every earlier hit on the cell is strictly
/// farther, and no later hit is closer (ties keep the earlier command).
pub open spec fn cmd_wins(s: Seq<Cmd>, n: int, i: int, m: int) -> bool {
    &&& 0 <= i < n <= s.len()
    &&& s[i].cell == m
    &&& s[i].ooz > 0
    &&& forall|j: int| 0 <= j < i && (#[trigger] s[j]).cell == m ==> s[j].ooz < s[i].ooz
    &&& forall|j: int| i < j < n && (#[trigger] s[j]).cell == m ==> s[j].ooz <= s[i].ooz
}

/// What a cell holds after the first `n` commands ran: either the winning
/// command's depth, glyph and color, or — when no command hit it — the
/// cleared state (space, depth zero, reset color).
pub open spec fn cell_state(s: Seq<Cmd>, n: int, m: int, chv: u8, zbv: i64, cbv: Color) -> bool {
    ||| (exists|i: int|
        #[trigger] cmd_wins(s, n, i, m) && zbv == s[i].ooz && chv == s[i].glyph && cbv
            == s[i].color)
    ||| ((forall|i: int| 0 <= i < n ==> (#[trigger] s[i]).cell != m) && chv == 32 && zbv == 0
        && cbv == Color::Reset)
}

/// At most one command wins a cell.
pub proof fn lemma_cmd_wins_unique(s: Seq<Cmd>, n: int, i: int, j: int, m: int)
    requires
        cmd_wins(s, n, i, m),
        cmd_wins(s, n, j, m),
    ensures
        i == j,
{
    if i < j {
        assert(s[i].ooz < s[j].ooz);
        assert(s[j].ooz <= s[i].ooz);
    } else if j < i {
        assert(s[j].ooz < s[i].ooz);
        assert(s[i].ooz <= s[j].ooz);
    }
}

/// A command that beats the current depth of its cell becomes that cell's
/// winner for the extended prefix.
proof fn lemma_step_new_winner(s: Seq<Cmd>, n: int, m: int, chv: u8, zbv: i64, cbv: Color)
    requires
        0 <= n < s.len(),
        cell_state(s, n, m, chv, zbv, cbv),
        s[n].cell == m,
        s[n].ooz > zbv,
        s[n].ooz > 0,
    ensures
        cmd_wins(s, n + 1, n, m),
{
    if exists|i: int|
        #[trigger] cmd_wins(s, n, i, m) && zbv == s[i].ooz && chv == s[i].glyph && cbv
            == s[i].color {
        let w = choose|i: int|
            #[trigger] cmd_wins(s, n, i, m) && zbv == s[i].ooz && chv == s[i].glyph && cbv
                == s[i].color;
        assert forall|j: int| 0 <= j < n && (#[trigger] s[j]).cell == m implies s[j].ooz
            < s[n].ooz by {
            if j < w {
                assert(s[j].ooz < s[w].ooz);
            } else if j > w {
                assert(s[j].ooz <= s[w].ooz);
            }
        }
    } else {
        assert(forall|i: int| 0 <= i < n ==> (#[trigger] s[i]).cell != m);
    }
}

/// A command that misses a cell, or hits it no closer than its current
/// depth, leaves the cell's characterization intact.
proof fn lemma_step_keep(s: Seq<Cmd>, n: int, m: int, chv: u8, zbv: i64, cbv: Color)
    requires
        0 <= n < s.len(),
        cell_state(s, n, m, chv, zbv, cbv),
        s[n].cell != m || s[n].ooz <= zbv,
        s[n].ooz > 0,
    ensures
        cell_state(s, n + 1, m, chv, zbv, cbv),
{
    if exists|i: int|
        #[trigger] cmd_wins(s, n, i, m) && zbv == s[i].ooz && chv == s[i].glyph && cbv
            == s[i].color {
        let w = choose|i: int|
            #[trigger] cmd_wins(s, n, i, m) && zbv == s[i].ooz && chv == s[i].glyph && cbv
                == s[i].color;
        assert(cmd_wins(s, n + 1, w, m));
    } else {
        assert(forall|i: int| 0 <= i < n ==> (#[trigger] s[i]).cell != m);
        if s[n].cell == m {
            assert(s[n].ooz <= 0);
        }
        assert(forall|i: int| 0 <= i < n + 1 ==> (#[trigger] s[i]).cell != m);
    }
}

/// No two distinct commands aimed at the same cell carry the same depth.
pub open spec fn distinct_cell_depths(s: Seq<Cmd>) -> bool {
    forall|i: int, j: int|
        0 <= i < s.len() && 0 <= j < s.len() && i != j && (#[trigger] s[i]).cell == (
        #[trigger] s[j]).cell ==> s[i].ooz != s[j].ooz
}

/// Law: the depth test is order-independent. If two command sequences
/// hold the same commands (as a multiset) and no cell sees two hits of
/// equal depth, then the winners of any cell are the same command.
pub proof fn lemma_winner_order_independent(s1: Seq<Cmd>, s2: Seq<Cmd>, m: int, i1: int, i2: int)
    requires
        s1.to_multiset() == s2.to_multiset(),
        distinct_cell_depths(s1),
        distinct_cell_depths(s2),
        cmd_wins(s1, s1.len() as int, i1, m),
        cmd_wins(s2, s2.len() as int, i2, m),
    ensures
        s1[i1] == s2[i2],
{
    broadcast use vstd::seq_lib::group_to_multiset_ensures;

    let c1 = s1[i1];
    let c2 = s2[i2];
    assert(s1.contains(c1));
    assert(s1.to_multiset().count(c1) > 0);
    assert(s2.to_multiset().count(c1) > 0);
    assert(s2.contains(c1));
    let j1 = choose|j: int| 0 <= j < s2.len() && s2[j] == c1;
    assert(c1.ooz <= c2.ooz) by {
        if j1 < i2 {
            assert(s2[j1].ooz < s2[i2].ooz);
        } else if j1 > i2 {
            assert(s2[j1].ooz <= s2[i2].ooz);
        }
    }
    assert(s2.contains(c2));
    assert(s2.to_multiset().count(c2) > 0);
    assert(s1.to_multiset().count(c2) > 0);
    assert(s1.contains(c2));
    let j2 = choose|j: int| 0 <= j < s1.len() && s1[j] == c2;
    assert(c2.ooz <= c1.ooz) by {
        if j2 < i1 {
            assert(s1[j2].ooz < s1[i1].ooz);
        } else if j2 > i1 {
            assert(s1[j2].ooz <= s1[i1].ooz);
        }
    }
    assert(c1.ooz == c2.ooz);
    if j1 != i2 {
        assert(s2[j1].cell == s2[i2].cell);
        assert(s2[j1].ooz != s2[i2].ooz);
    }
    assert(s2[i2] == c1);
}

/// Law: whether any command hits a cell at all does not depend on order.
pub proof fn lemma_hit_order_independent(s1: Seq<Cmd>, s2: Seq<Cmd>, m: int)
    requires
        s1.to_multiset() == s2.to_multiset(),
    ensures
        (forall|i: int| 0 <= i < s1.len() ==> (#[trigger] s1[i]).cell != m) <==> (forall|i: int|
            0 <= i < s2.len() ==> (#[trigger] s2[i]).cell != m),
{
    broadcast use vstd::seq_lib::group_to_multiset_ensures;

    if exists|i: int| 0 <= i < s1.len() && (#[trigger] s1[i]).cell == m {
        let i = choose|i: int| 0 <= i < s1.len() && (#[trigger] s1[i]).cell == m;
        assert(s1.contains(s1[i]));
        assert(s1.to_multiset().count(s1[i]) > 0);
        assert(s2.to_multiset().count(s1[i]) > 0);
        assert(s2.contains(s1[i]));
        let j = choose|j: int| 0 <= j < s2.len() && s2[j] == s1[i];
        assert(s2[j].cell == m);
    }
    if exists|i: int| 0 <= i < s2.len() && (#[trigger] s2[i]).cell == m {
        let i = choose|i: int| 0 <= i < s2.len() && (#[trigger] s2[i]).cell == m;
        assert(s2.contains(s2[i]));
        assert(s2.to_multiset().count(s2[i]) > 0);
        assert(s1.to_multiset().count(s2[i]) > 0);
        assert(s1.contains(s2[i]));
        let j = choose|j: int| 0 <= j < s1.len() && s1[j] == s2[i];
        assert(s1[j].cell == m);
    }
}

/// Law: rasterizing the same commands in any permutation leaves every
/// cell with the same glyph, color and depth, provided no cell sees two
/// hits of equal depth.
pub proof fn lemma_raster_order_independent(
    s1: Seq<Cmd>,
    s2: Seq<Cmd>,
    m: int,
    chv1: u8,
    zbv1: i64,
    cbv1: Color,
    chv2: u8,
    zbv2: i64,
    cbv2: Color,
)
    requires
        s1.to_multiset() == s2.to_multiset(),
        distinct_cell_depths(s1),
        distinct_cell_depths(s2),
        cell_state(s1, s1.len() as int, m, chv1, zbv1, cbv1),
        cell_state(s2, s2.len() as int, m, chv2, zbv2, cbv2),
    ensures
        chv1 == chv2,
        zbv1 == zbv2,
        cbv1 == cbv2,
{
    lemma_hit_order_independent(s1, s2, m);
    if exists|i: int|
        #[trigger] cmd_wins(s1, s1.len() as int, i, m) && zbv1 == s1[i].ooz && chv1 == s1[i].glyph
            && cbv1 == s1[i].color {
        let w1 = choose|i: int|
            #[trigger] cmd_wins(s1, s1.len() as int, i, m) && zbv1 == s1[i].ooz && chv1
                == s1[i].glyph && cbv1 == s1[i].color;
        assert(s1[w1].cell == m);
        if exists|i: int|
            #[trigger] cmd_wins(s2, s2.len() as int, i, m) && zbv2 == s2[i].ooz && chv2
                == s2[i].glyph && cbv2 == s2[i].color {
            let w2 = choose|i: int|
                #[trigger] cmd_wins(s2, s2.len() as int, i, m) && zbv2 == s2[i].ooz && chv2
                    == s2[i].glyph && cbv2 == s2[i].color;
            lemma_winner_order_independent(s1, s2, m, w1, w2);
        } else {
            assert(forall|i: int| 0 <= i < s2.len() ==> (#[trigger] s2[i]).cell != m);
            assert(forall|i: int| 0 <= i < s1.len() ==> (#[trigger] s1[i]).cell != m);
            assert(false);
        }
    } else {
        assert(forall|i: int| 0 <= i < s1.len() ==> (#[trigger] s1[i]).cell != m);
        assert(forall|i: int| 0 <= i < s2.len() ==> (#[trigger] s2[i]).cell != m);
        if exists|i: int|
            #[trigger] cmd_wins(s2, s2.len() as int, i, m) && zbv2 == s2[i].ooz && chv2
                == s2[i].glyph && cbv2 == s2[i].color {
            let w2 = choose|i: int|
                #[trigger] cmd_wins(s2, s2.len() as int, i, m) && zbv2 == s2[i].ooz && chv2
                    == s2[i].glyph && cbv2 == s2[i].color;
            assert(s2[w2].cell == m);
            assert(false);
        }
    }
}

/// Every candidate of an in-cube point carries a strictly positive depth
/// metric: the camera sits well outside the rotated cube.
pub proof fn lemma_candidate_ooz_pos(p: Vec3, t: Trig, width: int, height: int)
    requires
        v_bounded(p, FRAC_CUBE_SIZE_2 as int),
        trig_bounded(t),
    ensures
        raster_candidate(p, t, width, height).ooz >= 1,
{
    let s: int = SCALE as int;
    lemma_rot_bounded(p, t, FRAC_CUBE_SIZE_2 as int);
    let r = v_rot(p, t);
    let zcam: int = r.z + K2 * s;
    assert(491520 <= zcam <= 819200);
    lemma_div_pos_is_pos(s * s, zcam);
    lemma_div_is_ordered_by_denominator(s * s, zcam, 819200);
    assert((s * s) / 819200 >= 1);
}

/// Rasterize the whole point cloud into cleared buffers: every point is
/// rotated, projected and depth-tested, so each cell ends up holding the
/// closest point that hit it (earliest wins ties), or stays cleared.
pub fn rasterize(
    width: u16,
    height: u16,
    points: &Vec<Point3D>,
    points_color: &Vec<bool>,
    points_axis_range: &PointsAxisRange,
    buffer: &mut Vec<u8>,
    zbuffer: &mut Vec<i64>,
    cbuffer: &mut Vec<Color>,
    trig_values: &TrigValues,
    axes_luminance: &AxesLuminance,
)
    requires
        1 <= width <= 4096,
        1 <= height <= 4096,
        old(buffer)@.len() == width as int * height as int,
        old(zbuffer)@.len() == old(buffer)@.len(),
        old(cbuffer)@.len() == old(buffer)@.len(),
        forall|m: int|
            0 <= m < old(buffer)@.len() ==> (#[trigger] old(buffer)@[m]) == 32 && old(zbuffer)@[m] == 0 && old(cbuffer)@[m] == Color::Reset,
        points_color@.len() == points@.len(),
        forall|i: int|
            0 <= i < points@.len() ==> v_bounded((#[trigger] points@[i])@, FRAC_CUBE_SIZE_2 as int),
        trig_bounded(trig_values@),
        lum_within(*axes_luminance, SCALE as int + 4),
    ensures
        final(buffer)@.len() == old(buffer)@.len(),
        final(zbuffer)@.len() == old(zbuffer)@.len(),
        final(cbuffer)@.len() == old(cbuffer)@.len(),
        ({
            let cmds = frame_cmds(
                points@,
                points_color@,
                points_axis_range.a as int,
                points_axis_range.b as int,
                *axes_luminance,
                trig_values@,
                width as int,
                height as int,
            );
            &&& forall|m: int, i: int|
                0 <= m < old(buffer)@.len() && cmd_wins(cmds, cmds.len() as int, i, m)
                    ==> final(zbuffer)@[m] == cmds[i].ooz && final(buffer)@[m] == cmds[i].glyph
                    && final(cbuffer)@[m] == cmds[i].color
            &&& forall|m: int|
                0 <= m < old(buffer)@.len() && (forall|i: int|
                    0 <= i < cmds.len() ==> (#[trigger] cmds[i]).cell != m) ==> final(buffer)@[m] == 32 && final(zbuffer)@[m] == 0 && final(cbuffer)@[m] == Color::Reset
        }),
{
    let ghost cmds: Seq<Cmd> = frame_cmds(
        points@,
        points_color@,
        points_axis_range.a as int,
        points_axis_range.b as int,
        *axes_luminance,
        trig_values@,
        width as int,
        height as int,
    );
    let ghost len: int = width as int * height as int;
    let mut n: usize = 0;
    while n < points.len()
        invariant
            1 <= width <= 4096,
            1 <= height <= 4096,
            len == width as int * height as int,
            buffer@.len() == len,
            zbuffer@.len() == len,
            cbuffer@.len() == len,
            points_color@.len() == points@.len(),
            forall|i: int|
                0 <= i < points@.len() ==> v_bounded(
                    (#[trigger] points@[i])@,
                    FRAC_CUBE_SIZE_2 as int,
                ),
            trig_bounded(trig_values@),
            lum_within(*axes_luminance, SCALE as int + 4),
            cmds == frame_cmds(
                points@,
                points_color@,
                points_axis_range.a as int,
                points_axis_range.b as int,
                *axes_luminance,
                trig_values@,
                width as int,
                height as int,
            ),
            cmds.len() == points@.len(),
            0 <= n <= points@.len(),
            forall|m: int|
                0 <= m < len ==> cell_state(
                    cmds,
                    n as int,
                    m,
                    #[trigger] buffer@[m],
                    zbuffer@[m],
                    cbuffer@[m],
                ),
        decreases points@.len() - n,
    {
        let p: Point3D = points[n];
        let color_flag: bool = points_color[n];
        let axes: Axes = if n < points_axis_range.a {
            if n % 2 == 0 {
                Axes::AFront
            } else {
                Axes::ABack
            }
        } else if n < points_axis_range.b {
            if n % 2 == 0 {
                Axes::BFront
            } else {
                Axes::BBack
            }
        } else {
            if n % 2 == 0 {
                Axes::CFront
            } else {
                Axes::CBack
            }
        };
        let luminance: i64 = match axes {
            Axes::AFront => axes_luminance.a.0,
            Axes::ABack => axes_luminance.a.1,
            Axes::BFront => axes_luminance.b.0,
            Axes::BBack => axes_luminance.b.1,
            Axes::CFront => axes_luminance.c.0,
            Axes::CBack => axes_luminance.c.1,
        };
        proof {
            assert(axes == point_axes(
                n as int,
                points_axis_range.a as int,
                points_axis_range.b as int,
            ));
            assert(luminance as int == select_luminance(axes, *axes_luminance));
            lemma_candidate_ooz_pos(points@[n as int]@, trig_values@, width as int, height as int);
        }
        let ghost pre_ch: Seq<u8> = buffer@;
        let ghost pre_zb: Seq<i64> = zbuffer@;
        let ghost pre_cb: Seq<Color> = cbuffer@;
        update_buffers(
            p.x,
            p.y,
            p.z,
            width,
            height,
            buffer,
            zbuffer,
            cbuffer,
            trig_values,
            color_flag,
            axes,
            luminance,
        );
        proof {
            let pr = raster_candidate(points@[n as int]@, trig_values@, width as int, height as int);
            let c = cmds[n as int];
            assert(c.cell == pr.index && c.ooz == pr.ooz);
            assert(c.color == face_color(color_flag, axes));
            assert(c.glyph == spec_glyph(luminance as int));
            assert forall|m: int| 0 <= m < len implies cell_state(
                cmds,
                n as int + 1,
                m,
                #[trigger] buffer@[m],
                zbuffer@[m],
                cbuffer@[m],
            ) by {
                if 0 <= pr.index < len && pr.ooz > pre_zb[pr.index] {
                    if m == pr.index {
                        lemma_step_new_winner(cmds, n as int, m, pre_ch[m], pre_zb[m], pre_cb[m]);
                        assert(cmd_wins(cmds, n as int + 1, n as int, m));
                        assert(zbuffer@[m] == c.ooz && buffer@[m] == c.glyph && cbuffer@[m]
                            == c.color);
                    } else {
                        assert(buffer@[m] == pre_ch[m] && zbuffer@[m] == pre_zb[m] && cbuffer@[m]
                            == pre_cb[m]);
                        lemma_step_keep(cmds, n as int, m, pre_ch[m], pre_zb[m], pre_cb[m]);
                    }
                } else {
                    assert(buffer@[m] == pre_ch[m] && zbuffer@[m] == pre_zb[m] && cbuffer@[m]
                        == pre_cb[m]);
                    if c.cell == m {
                        assert(pr.ooz <= pre_zb[m]);
                    }
                    lemma_step_keep(cmds, n as int, m, pre_ch[m], pre_zb[m], pre_cb[m]);
                }
            }
        }
        n = n + 1;
    }
    proof {
        assert forall|m: int, i: int|
            0 <= m < len && cmd_wins(cmds, cmds.len() as int, i, m) implies zbuffer@[m]
            == cmds[i].ooz && buffer@[m] == cmds[i].glyph && cbuffer@[m] == cmds[i].color by {
            assert(cell_state(cmds, n as int, m, buffer@[m], zbuffer@[m], cbuffer@[m]));
            if exists|w: int|
                #[trigger] cmd_wins(cmds, n as int, w, m) && zbuffer@[m] == cmds[w].ooz
                    && buffer@[m] == cmds[w].glyph && cbuffer@[m] == cmds[w].color {
                let w = choose|w: int|
                    #[trigger] cmd_wins(cmds, n as int, w, m) && zbuffer@[m] == cmds[w].ooz
                        && buffer@[m] == cmds[w].glyph && cbuffer@[m] == cmds[w].color;
                lemma_cmd_wins_unique(cmds, cmds.len() as int, i, w, m);
            } else {
                assert(forall|w: int| 0 <= w < n as int ==> (#[trigger] cmds[w]).cell != m);
                assert(cmds[i].cell == m);
                assert(false);
            }
        }
        assert forall|m: int|
            0 <= m < len && (forall|i: int|
                0 <= i < cmds.len() ==> (#[trigger] cmds[i]).cell != m) implies buffer@[m] == 32
            && zbuffer@[m] == 0 && cbuffer@[m] == Color::Reset by {
            assert(cell_state(cmds, n as int, m, buffer@[m], zbuffer@[m], cbuffer@[m]));
            if exists|w: int|
                #[trigger] cmd_wins(cmds, n as int, w, m) && zbuffer@[m] == cmds[w].ooz
                    && buffer@[m] == cmds[w].glyph && cbuffer@[m] == cmds[w].color {
                let w = choose|w: int|
                    #[trigger] cmd_wins(cmds, n as int, w, m) && zbuffer@[m] == cmds[w].ooz
                        && buffer@[m] == cmds[w].glyph && cbuffer@[m] == cmds[w].color;
                assert(cmds[w].cell == m);
                assert(false);
            }
        }
    }
}

} // verus!
