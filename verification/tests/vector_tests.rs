use rubix_render::fixed::{div_fixed, isqrt, SCALE};
use rubix_render::vector::{TrigValues, Vector3};

fn identity_trig() -> TrigValues {
    TrigValues { sin_a: 0, cos_a: SCALE, sin_b: 0, cos_b: SCALE, sin_c: 0, cos_c: SCALE }
}

#[test]
fn isqrt_exact_squares() {
    assert_eq!(isqrt(0), 0);
    assert_eq!(isqrt(1), 1);
    assert_eq!(isqrt(2), 1);
    assert_eq!(isqrt(3), 1);
    assert_eq!(isqrt(4), 2);
    assert_eq!(isqrt(65536 * 65536), 65536);
    assert_eq!(isqrt(65536 * 65536 - 1), 65535);
    assert_eq!(isqrt(u64::MAX), 4294967295);
}

#[test]
fn div_fixed_truncates_toward_zero() {
    assert_eq!(div_fixed(7, 2), 3);
    assert_eq!(div_fixed(-7, 2), -3);
    assert_eq!(div_fixed(6, 3), 2);
    assert_eq!(div_fixed(-6, 3), -2);
    assert_eq!(div_fixed(0, 5), 0);
}

#[test]
fn magnitude_of_scaled_three_four_five() {
    let v = Vector3 { x: 3 * SCALE, y: 4 * SCALE, z: 0 };
    assert_eq!(v.mag(), 5 * SCALE);
    let small = Vector3 { x: 3, y: 4, z: 0 };
    assert_eq!(small.mag(), 5);
}

#[test]
fn normalize_scales_to_unit_length() {
    let mut v = Vector3 { x: 3 * SCALE, y: 4 * SCALE, z: 0 };
    v.norm();
    assert_eq!(v.x, 39321);
    assert_eq!(v.y, 52428);
    assert_eq!(v.z, 0);
    let m = v.mag();
    // magnitude 1.0 within a few fixed-point units (P3's tolerance)
    assert!((m - SCALE).abs() <= 2, "mag {}", m);
}

#[test]
fn normalize_axis_aligned_is_exactly_unit() {
    let mut v = Vector3 { x: 0, y: 0, z: -12345 };
    v.norm();
    assert_eq!(v.z, -SCALE);
    assert_eq!((v.x, v.y), (0, 0));
    assert_eq!(v.mag(), SCALE);
}

#[test]
fn normalize_zero_vector_is_noop() {
    let mut v = Vector3 { x: 0, y: 0, z: 0 };
    v.norm();
    assert_eq!((v.x, v.y, v.z), (0, 0, 0));
}

#[test]
fn normalize_twice_equals_normalize_once() {
    let mut once = Vector3 { x: 3 * SCALE, y: 4 * SCALE, z: 0 };
    once.norm();
    let mut twice = once;
    twice.norm();
    assert_eq!((twice.x, twice.y, twice.z), (once.x, once.y, once.z));
    let mut a = Vector3 { x: 12345, y: 23456, z: -7890 };
    a.norm();
    let mut b = a;
    b.norm();
    assert_eq!((b.x, b.y, b.z), (a.x, a.y, a.z));
}

#[test]
fn dot_product_matches_sum_of_products() {
    let a = Vector3 { x: 2, y: -3, z: 5 };
    let b = Vector3 { x: 7, y: 11, z: -13 };
    assert_eq!(a.dot(&b), 2 * 7 - 3 * 11 - 5 * 13);
}

#[test]
fn rotate_by_zero_angles_is_identity() {
    let t = identity_trig();
    let mut v = Vector3 { x: 12345, y: -20000, z: 7 };
    v.rot(&t);
    assert_eq!((v.x, v.y, v.z), (12345, -20000, 7));
    let mut w = Vector3 { x: -32768, y: 32768, z: 65536 };
    w.rot(&t);
    assert_eq!((w.x, w.y, w.z), (-32768, 32768, 65536));
}

#[test]
fn rotate_thirty_degrees_about_first_axis() {
    // sin 30 deg = 0.5, cos 30 deg ~ 0.866: only the yaw angle set
    let t = TrigValues {
        sin_a: 32768,
        cos_a: 56756,
        sin_b: 0,
        cos_b: SCALE,
        sin_c: 0,
        cos_c: SCALE,
    };
    let mut v = Vector3 { x: SCALE, y: 0, z: 0 };
    v.rot(&t);
    assert_eq!((v.x, v.y, v.z), (56756, 32768, 0));
}
