//! The frame driver: per frame, snapshot the screen buffers, clear them,
//! recompute the face luminances, rasterize every point through the depth
//! test, and emit the minimal redraw bytes against the snapshot.
//!
//! The driver also owns the run configuration and the cooperative
//! cancellation token that an interrupt handler sets; the loop polls the
//! token once per iteration, so the frame in flight always completes.

use vstd::prelude::*;
use crate::color::Color;
use crate::fixed::SCALE;
use crate::diff::{diff_output, render_diff};
use crate::geometry::{FRAC_CUBE_SIZE_2, Point3D, PointsAxisRange};
use crate::lighting::{get_axes_luminance, rotation_keeps_normals, spec_axes_luminance,
    AxesLuminance};
use crate::raster::{cmd_wins, frame_cmds, rasterize, Cmd};
use crate::vector::{v_bounded, v_mag, trig_bounded, lemma_components_le_mag, TrigValues,
    Vector3};

verus! {

/// Run configuration: the debug-overlay toggle and the frame-rate cap
/// (0 = uncapped).
pub struct Args {
    pub debug: bool,
    pub fps_limit: u32,
}

/// A cooperative cancellation token. An interrupt handler requests a
/// stop; the frame loop polls the token at the top of each iteration, so
/// the frame in flight always completes and flushes first.
pub struct CancelToken {
    pub requested: bool,
}

impl CancelToken {
    /// A fresh token with no stop requested.
    pub fn new() -> (r: CancelToken)
        ensures
            !r.requested,
    {
        CancelToken { requested: false }
    }
}

/// Record an interrupt request on the token.
pub fn handle_sigint(token: &mut CancelToken)
    ensures
        final(token).requested,
{
    token.requested = true;
}

/// Whether the frame loop should run another iteration.
pub fn should_continue(token: &CancelToken) -> (r: bool)
    ensures
        r == !token.requested,
{
    !token.requested
}

/// Overwrite `dst` with a copy of `src`.
fn snapshot<T: Copy>(dst: &mut Vec<T>, src: &Vec<T>)
    ensures
        final(dst)@ == src@,
{
    dst.clear();
    let mut i: usize = 0;
    while i < src.len()
        invariant
            0 <= i <= src@.len(),
            dst@ =~= src@.take(i as int),
        decreases src@.len() - i,
    {
        dst.push(src[i]);
        i = i + 1;
    }
    proof {
        assert(dst@ =~= src@);
    }
}

/// Set every element of `v` to `val`, keeping its length.
fn fill<T: Copy>(v: &mut Vec<T>, val: T)
    ensures
        final(v)@.len() == old(v)@.len(),
        forall|m: int| 0 <= m < final(v)@.len() ==> final(v)@[m] == val,
{
    let mut i: usize = 0;
    while i < v.len()
        invariant
            0 <= i <= v@.len(),
            v@.len() == old(v)@.len(),
            forall|m: int| 0 <= m < i ==> v@[m] == val,
        decreases v@.len() - i,
    {
        v[i] = val;
        i = i + 1;
    }
}

/// Render one frame: snapshot the glyph and color buffers, clear all
/// three buffers, recompute the face luminances, rasterize every point
/// through the depth test, and return the minimal byte sequence that
/// redraws the changed cells against the snapshot.
pub fn render_frame(
    width: u16,
    height: u16,
    points: &Vec<Point3D>,
    points_color: &Vec<bool>,
    points_axis_range: &PointsAxisRange,
    buffer: &mut Vec<u8>,
    buffer_prev: &mut Vec<u8>,
    cbuffer: &mut Vec<Color>,
    cbuffer_prev: &mut Vec<Color>,
    zbuffer: &mut Vec<i64>,
    trig_values: &TrigValues,
    rotated_light_source: &Vector3,
) -> (out: Vec<u8>)
    requires
        1 <= width <= 4096,
        1 <= height <= 4096,
        old(buffer)@.len() == width as int * height as int,
        old(zbuffer)@.len() == old(buffer)@.len(),
        old(cbuffer)@.len() == old(buffer)@.len(),
        points_color@.len() == points@.len(),
        forall|i: int|
            0 <= i < points@.len() ==> v_bounded((#[trigger] points@[i])@, FRAC_CUBE_SIZE_2 as int),
        trig_bounded(trig_values@),
        v_mag(rotated_light_source@) <= SCALE as int,
        rotation_keeps_normals(trig_values@),
    ensures
        final(buffer_prev)@ == old(buffer)@,
        final(cbuffer_prev)@ == old(cbuffer)@,
        final(buffer)@.len() == old(buffer)@.len(),
        final(cbuffer)@.len() == old(cbuffer)@.len(),
        final(zbuffer)@.len() == old(zbuffer)@.len(),
        ({
            let cmds = frame_cmds(
                points@,
                points_color@,
                points_axis_range.a as int,
                points_axis_range.b as int,
                spec_axes_luminance(rotated_light_source@, trig_values@),
                trig_values@,
                width as int,
                height as int,
            );
            &&& forall|m: int, i: int|
                0 <= m < old(buffer)@.len() && cmd_wins(cmds, cmds.len() as int, i, m)
                    ==> final(zbuffer)@[m] == cmds[i].ooz && final(buffer)@[m] == cmds[i].glyph
                    && final(cbuffer)@[m] == cmds[i].color
            &&& forall|m: int|
                0 <= m < old(buffer)@.len() && (forall|i: int|
                    0 <= i < cmds.len() ==> (#[trigger] cmds[i]).cell != m) ==> final(buffer)@[m]
                    == 32 && final(zbuffer)@[m] == 0 && final(cbuffer)@[m] == Color::Reset
        }),
        out@ == diff_output(
            final(buffer)@,
            final(cbuffer)@,
            old(buffer)@,
            old(cbuffer)@,
            width as int,
            0,
            Color::Reset,
        ),
{
    proof {
        lemma_components_le_mag(rotated_light_source@);
    }
    snapshot(buffer_prev, buffer);
    snapshot(cbuffer_prev, cbuffer);
    fill(buffer, 32u8);
    fill(cbuffer, Color::Reset);
    fill(zbuffer, 0i64);
    let axes_luminance: AxesLuminance = get_axes_luminance(rotated_light_source, trig_values);
    rasterize(
        width,
        height,
        points,
        points_color,
        points_axis_range,
        buffer,
        zbuffer,
        cbuffer,
        trig_values,
        &axes_luminance,
    );
    let mut out: Vec<u8> = Vec::new();
    render_diff(buffer, cbuffer, buffer_prev, cbuffer_prev, width, height, &mut out);
    out
}

} // verus!
