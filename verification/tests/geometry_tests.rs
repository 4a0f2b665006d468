use rubix_render::geometry::{compute_spacing, rubix, Point3D, PointsAxisRange};

const HALF: i64 = 32768;

fn generate(spacing: i64) -> (Vec<Point3D>, Vec<bool>, PointsAxisRange) {
    let mut points: Vec<Point3D> = Vec::new();
    let mut points_color: Vec<bool> = Vec::new();
    let mut range = PointsAxisRange { a: 0, b: 0, c: 0 };
    rubix(&mut points, &mut points_color, &mut range, spacing);
    (points, points_color, range)
}

#[test]
fn generator_scenario_width_ten() {
    // width 10 gives spacing 3.0 / 10 = 0.3, in fixed-point 19660
    let (points, flags, range) = generate(19660);
    assert!(!points.is_empty());
    assert_eq!(points.len(), flags.len());
    assert_eq!(range.c, points.len());
    assert!(range.a <= range.b && range.b <= range.c);
    // the three axis groups are exactly equal in size here
    assert_eq!(range.a, 32);
    assert_eq!(range.b - range.a, 32);
    assert_eq!(range.c - range.b, 32);
}

#[test]
fn generator_emits_front_then_back() {
    let (points, _, range) = generate(19660);
    // axis A's faces are normal to Z: front face first, back face second
    assert_eq!(points[0].z, HALF);
    assert_eq!(points[1].z, -HALF);
    assert_eq!((points[0].x, points[0].y), (points[1].x, points[1].y));
    // axis B's faces are normal to Y
    assert_eq!(points[range.a].y, HALF);
    assert_eq!(points[range.a + 1].y, -HALF);
    // axis C's faces are normal to X
    assert_eq!(points[range.b].x, HALF);
    assert_eq!(points[range.b + 1].x, -HALF);
}

#[test]
fn generator_flags_grid_lines() {
    // spacing 19660 visits coordinates -32768, -13108, 6552, 26212;
    // -13108 falls inside the grid band around -10923 (half-width 2621)
    let (points, flags, _) = generate(19660);
    for idx in 0..points.len() {
        let p = &points[idx];
        let on_band = |c: i64| {
            (c > -10923 - 2621 && c < -10923 + 2621) || (c > 10923 - 2621 && c < 10923 + 2621)
        };
        // a point is a grid-line point exactly when one of its two
        // in-plane coordinates falls in a band
        let free: Vec<i64> = [p.x, p.y, p.z]
            .iter()
            .copied()
            .filter(|c| c.abs() != HALF)
            .collect();
        if free.len() == 2 {
            let expect = !on_band(free[0]) && !on_band(free[1]);
            assert_eq!(flags[idx], expect, "point {}", idx);
        }
    }
    // and at least one of each kind exists
    assert!(flags.iter().any(|f| *f));
    assert!(flags.iter().any(|f| !*f));
}

#[test]
fn generator_pairs_share_flags() {
    let (points, flags, _) = generate(19660);
    let mut idx = 0;
    while idx + 1 < points.len() {
        assert_eq!(flags[idx], flags[idx + 1]);
        idx += 2;
    }
}

#[test]
fn generator_is_deterministic() {
    let (p1, f1, r1) = generate(9830);
    let (p2, f2, r2) = generate(9830);
    assert_eq!(p1.len(), p2.len());
    assert_eq!(f1, f2);
    assert_eq!((r1.a, r1.b, r1.c), (r2.a, r2.b, r2.c));
    for i in 0..p1.len() {
        assert_eq!((p1[i].x, p1[i].y, p1[i].z), (p2[i].x, p2[i].y, p2[i].z));
    }
}

#[test]
fn generator_coordinates_stay_on_cube() {
    let (points, _, _) = generate(13107);
    for p in &points {
        assert!(p.x.abs() <= HALF && p.y.abs() <= HALF && p.z.abs() <= HALF);
        // every point lies on a face: one coordinate is exactly +-HALF
        assert!(p.x.abs() == HALF || p.y.abs() == HALF || p.z.abs() == HALF);
    }
}

#[test]
fn spacing_follows_terminal_width() {
    // spacing = 3.0 / width in fixed-point
    assert_eq!(compute_spacing(10), 19660);
    assert_eq!(compute_spacing(100), 1966);
    assert_eq!(compute_spacing(1), 196608);
    assert_eq!(compute_spacing(65535), 3);
}
