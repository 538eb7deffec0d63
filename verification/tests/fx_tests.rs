use raycast::fx::{div_pos, fx_mul, fx_sqrt, half_i64, SCALE};
use raycast::vec3::Vec3;

#[test]
fn test_fx_mul_exact_values() {
    // 1.5 * 2.0 = 3.0
    assert_eq!(fx_mul(1_500_000_000, 2 * SCALE), 3 * SCALE);
    // (-0.5) * 0.5 = -0.25, truncated toward zero
    assert_eq!(fx_mul(-500_000_000, 500_000_000), -250_000_000);
    // 1e-9 * 1e-9 truncates to zero
    assert_eq!(fx_mul(1, 1), 0);
}

#[test]
fn test_fx_sqrt_exact_values() {
    assert_eq!(fx_sqrt(4 * SCALE), 2 * SCALE);
    assert_eq!(fx_sqrt(100 * SCALE), 10 * SCALE);
    assert_eq!(fx_sqrt(0), 0);
    // sqrt(2) = 1.414213562...
    assert_eq!(fx_sqrt(2 * SCALE), 1_414_213_562);
}

#[test]
fn test_division_truncates_toward_zero() {
    assert_eq!(half_i64(-3), -1);
    assert_eq!(half_i64(3), 1);
    assert_eq!(div_pos(-7, 2), -3);
    assert_eq!(div_pos(7, 2), 3);
}

#[test]
fn test_vector_ops() {
    let a = Vec3::new(SCALE, 2 * SCALE, -2 * SCALE);
    let b = Vec3::new(SCALE, SCALE, SCALE);
    assert_eq!(a.sub(b), Vec3::new(0, SCALE, -3 * SCALE));
    assert_eq!(a.add(b), Vec3::new(2 * SCALE, 3 * SCALE, -SCALE));
    // (1, 2, -2) . (1, 1, 1) = 1
    assert_eq!(a.dot(b), SCALE);
    // |(1, 2, -2)|^2 = 9
    assert_eq!(a.magnitude2(), 9 * SCALE);
    assert_eq!(a.scale(2 * SCALE), Vec3::new(2 * SCALE, 4 * SCALE, -4 * SCALE));
}

#[test]
fn test_normalize_exact_on_axis() {
    assert_eq!(Vec3::new(0, 0, 7 * SCALE).normalize(), Vec3::new(0, 0, SCALE));
    assert_eq!(Vec3::new(0, -3 * SCALE, 0).normalize(), Vec3::new(0, -SCALE, 0));
}

#[test]
fn test_normalize_unit_length() {
    let v = Vec3::new(3 * SCALE, -4 * SCALE, 12 * SCALE);
    let n = v.normalize();
    // |(3, -4, 12)| = 13, so the components are (3, -4, 12) / 13.
    assert_eq!(n, Vec3::new(230_769_230, -307_692_307, 923_076_923));
    let m2 = n.magnitude2();
    assert!((m2 - SCALE).abs() <= 1_000);
}
