use rubix_render::color::Color;
use rubix_render::diff::render_diff;
use rubix_render::fixed::SCALE;
use rubix_render::frame::{handle_sigint, render_frame, should_continue, Args, CancelToken};
use rubix_render::geometry::{rubix, Point3D, PointsAxisRange};
use rubix_render::lighting::get_axes_luminance;
use rubix_render::raster::{update_buffers, Axes};
use rubix_render::vector::{TrigValues, Vector3};

fn identity_trig() -> TrigValues {
    TrigValues { sin_a: 0, cos_a: SCALE, sin_b: 0, cos_b: SCALE, sin_c: 0, cos_c: SCALE }
}

fn cleared(width: u16, height: u16) -> (Vec<u8>, Vec<i64>, Vec<Color>) {
    let len = (width as usize) * (height as usize);
    (vec![32u8; len], vec![0i64; len], vec![Color::Reset; len])
}

#[test]
fn lighting_scenario_identity_rotation() {
    // light direction (0, 1, -1) normalized, cube at identity rotation
    let mut light = Vector3 { x: 0, y: SCALE, z: -SCALE };
    light.norm();
    assert_eq!((light.x, light.y, light.z), (0, 46341, -46341));
    let lum = get_axes_luminance(&light, &identity_trig());
    // axis-A front normal (0, 0, 1) dotted with the light: -0.7071 scaled
    assert_eq!(lum.a.0, -46341);
    assert_eq!(lum.a.1, 46341);
    assert_eq!(lum.b.0, 46341);
    assert_eq!(lum.b.1, -46341);
    assert_eq!(lum.c.0, 0);
    assert_eq!(lum.c.1, 0);
}

#[test]
fn depth_test_keeps_closer_point() {
    // two points project to the same cell; the first is closer (larger
    // ooz), so the second must be dropped
    let (mut ch, mut zb, mut cb) = cleared(10, 5);
    let t = identity_trig();
    update_buffers(0, 0, -32768, 10, 5, &mut ch, &mut zb, &mut cb, &t, true, Axes::AFront, 46341);
    assert_eq!(zb[25], 6898);
    assert_eq!(ch[25], b'!');
    assert_eq!(cb[25], Color::Yellow);
    update_buffers(0, 0, 32768, 10, 5, &mut ch, &mut zb, &mut cb, &t, true, Axes::ABack, 46341);
    // the farther point (ooz 6241) lost the depth test
    assert_eq!(zb[25], 6898);
    assert_eq!(ch[25], b'!');
    assert_eq!(cb[25], Color::Yellow);
}

#[test]
fn depth_test_order_reversed_gives_same_cell() {
    // the same two points in the opposite order leave the same contents
    let (mut ch, mut zb, mut cb) = cleared(10, 5);
    let t = identity_trig();
    update_buffers(0, 0, 32768, 10, 5, &mut ch, &mut zb, &mut cb, &t, true, Axes::ABack, 46341);
    assert_eq!(zb[25], 6241);
    update_buffers(0, 0, -32768, 10, 5, &mut ch, &mut zb, &mut cb, &t, true, Axes::AFront, 46341);
    assert_eq!(zb[25], 6898);
    assert_eq!(ch[25], b'!');
    assert_eq!(cb[25], Color::Yellow);
}

#[test]
fn depth_tie_keeps_earlier_point() {
    // the same point drawn twice: the second draw has equal ooz, and the
    // test is strict (`>`), so the first write survives
    let (mut ch, mut zb, mut cb) = cleared(10, 5);
    let t = identity_trig();
    update_buffers(0, 0, -32768, 10, 5, &mut ch, &mut zb, &mut cb, &t, true, Axes::AFront, 46341);
    update_buffers(0, 0, -32768, 10, 5, &mut ch, &mut zb, &mut cb, &t, true, Axes::BBack, -1);
    assert_eq!(zb[25], 6898);
    assert_eq!(ch[25], b'!');
    assert_eq!(cb[25], Color::Yellow);
}

#[test]
fn negative_luminance_draws_darkest_glyph() {
    let (mut ch, mut zb, mut cb) = cleared(10, 5);
    let t = identity_trig();
    update_buffers(0, 0, -32768, 10, 5, &mut ch, &mut zb, &mut cb, &t, true, Axes::AFront, -46341);
    assert_eq!(ch[25], b'.');
}

#[test]
fn grid_line_points_use_grid_color() {
    let (mut ch, mut zb, mut cb) = cleared(10, 5);
    let t = identity_trig();
    update_buffers(0, 0, -32768, 10, 5, &mut ch, &mut zb, &mut cb, &t, false, Axes::AFront, 46341);
    assert_eq!(cb[25], Color::Black);
}

#[test]
fn out_of_screen_points_are_dropped() {
    let (mut ch, mut zb, mut cb) = cleared(100, 2);
    let before_z = zb.clone();
    let t = identity_trig();
    // on a wide two-row screen this corner point projects past the last
    // row, so its flat index falls outside the buffer and nothing changes
    update_buffers(-32768, -32768, -32768, 100, 2, &mut ch, &mut zb, &mut cb, &t, true,
        Axes::AFront, 46341);
    assert_eq!(zb, before_z);
}

#[test]
fn diff_emits_nothing_for_identical_buffers() {
    let (ch, _, cb) = cleared(10, 5);
    let mut out: Vec<u8> = Vec::new();
    render_diff(&ch, &cb, &ch.clone(), &cb.clone(), 10, 5, &mut out);
    assert!(out.is_empty());
}

#[test]
fn diff_emits_color_once_for_a_run() {
    // two adjacent cells change to the same color: the color escape is
    // emitted only before the first glyph
    let width: u16 = 2;
    let height: u16 = 1;
    let prev_ch = vec![32u8, 32u8];
    let prev_cb = vec![Color::Reset, Color::Reset];
    let cur_ch = vec![b'A', b'B'];
    let cur_cb = vec![Color::Red, Color::Red];
    let mut out: Vec<u8> = Vec::new();
    render_diff(&cur_ch, &cur_cb, &prev_ch, &prev_cb, width, height, &mut out);
    let expected: Vec<u8> = vec![
        27, 91, 49, 59, 49, 72, // move to (1, 1)
        27, 91, 51, 49, 109, // red
        b'A', 27, 91, 49, 59, 50, 72, // move to (1, 2)
        b'B',
    ];
    assert_eq!(out, expected);
}

#[test]
fn diff_skips_unchanged_cells() {
    let width: u16 = 3;
    let height: u16 = 1;
    let prev_ch = vec![b'x', b'y', b'z'];
    let prev_cb = vec![Color::Reset, Color::Reset, Color::Reset];
    let cur_ch = vec![b'x', b'q', b'z'];
    let cur_cb = vec![Color::Reset, Color::Reset, Color::Reset];
    let mut out: Vec<u8> = Vec::new();
    render_diff(&cur_ch, &cur_cb, &prev_ch, &prev_cb, width, height, &mut out);
    // only the middle cell is redrawn, and its color tag matches the
    // running color, so only a cursor move and the glyph are written
    let expected: Vec<u8> = vec![27, 91, 49, 59, 50, 72, b'q'];
    assert_eq!(out, expected);
}

#[test]
fn second_identical_frame_emits_nothing() {
    let width: u16 = 10;
    let height: u16 = 5;
    let mut points: Vec<Point3D> = Vec::new();
    let mut points_color: Vec<bool> = Vec::new();
    let mut range = PointsAxisRange { a: 0, b: 0, c: 0 };
    rubix(&mut points, &mut points_color, &mut range, 19660);
    let (mut ch, mut zb, mut cb) = cleared(width, height);
    let mut ch_prev = ch.clone();
    let mut cb_prev = cb.clone();
    let mut light = Vector3 { x: 0, y: SCALE, z: -SCALE };
    light.norm();
    let t = identity_trig();
    let out1 = render_frame(width, height, &points, &points_color, &range, &mut ch,
        &mut ch_prev, &mut cb, &mut cb_prev, &mut zb, &t, &light);
    assert!(!out1.is_empty());
    let out2 = render_frame(width, height, &points, &points_color, &range, &mut ch,
        &mut ch_prev, &mut cb, &mut cb_prev, &mut zb, &t, &light);
    assert!(out2.is_empty());
}

#[test]
fn cancel_token_polls_and_sets() {
    let mut token = CancelToken::new();
    assert!(should_continue(&token));
    handle_sigint(&mut token);
    assert!(!should_continue(&token));
    assert!(token.requested);
}

#[test]
fn args_hold_configuration() {
    let args = Args { debug: true, fps_limit: 60 };
    assert!(args.debug);
    assert_eq!(args.fps_limit, 60);
}
