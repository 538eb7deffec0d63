use raycast::camera::{Camera, CameraScreen};
use raycast::fx::SCALE;
use raycast::vec3::Vec3;

/// Squared magnitude in ticks, mirroring the library's fixed-point dot.
fn mag2(v: Vec3) -> i64 {
    let s = (v.x as i128) * (v.x as i128) + (v.y as i128) * (v.y as i128)
        + (v.z as i128) * (v.z as i128);
    (s / (SCALE as i128)) as i64
}

fn close(a: i64, b: i64) -> bool {
    (a - b).abs() <= 1_000
}

#[test]
fn test_ray_from_px() {
    let screen = CameraScreen::new(10, 10);
    let camera = Camera::new(screen, (SCALE, SCALE), SCALE);

    let center_ray = camera.ray_from_px(5, 5);
    assert_eq!(center_ray.direction(), Vec3::new(0, 0, SCALE));
    assert_eq!(center_ray.origin(), Vec3::new(0, 0, 0));

    let top_left_ray = camera.ray_from_px(0, 0);
    assert_eq!(top_left_ray.origin(), Vec3::new(-SCALE / 2, -SCALE / 2, 0));
    assert_eq!(
        top_left_ray.direction(),
        Vec3::new(-SCALE / 2, -SCALE / 2, SCALE).normalize()
    );

    let ray1 = camera.ray_from_px(8, 3);
    assert_eq!(ray1.origin(), Vec3::new(3 * SCALE / 10, -SCALE / 5, 0));
    assert_eq!(
        ray1.direction(),
        Vec3::new(3 * SCALE / 10, -SCALE / 5, SCALE).normalize()
    );
}

#[test]
fn test_top_left_direction_components() {
    // normalize(-0.5, -0.5, 1) = (-0.40824829.., -0.40824829.., 0.81649658..).
    let camera = Camera::new(CameraScreen::new(10, 10), (SCALE, SCALE), SCALE);
    let ray = camera.ray_from_px(0, 0);
    let d = ray.direction();
    assert!(close(d.x, -408_248_290));
    assert!(close(d.y, -408_248_290));
    assert!(close(d.z, 816_496_581));
}

#[test]
fn test_directions_are_unit_length() {
    let camera = Camera::new(
        CameraScreen::new(17, 9),
        (3 * SCALE, 2 * SCALE),
        7 * SCALE / 10,
    );
    for y in 0..9 {
        for x in 0..17 {
            let d = camera.ray_from_px(x, y).direction();
            assert!(close(mag2(d), SCALE));
        }
    }
}

#[test]
fn test_ray_approx_eq() {
    let camera = Camera::new(CameraScreen::new(10, 10), (SCALE, SCALE), SCALE);
    let a = camera.ray_from_px(0, 0);
    let b = camera.ray_from_px(0, 0);
    let c = camera.ray_from_px(1, 0);
    assert!(a.approx_eq(&b, 1_000));
    assert!(!a.approx_eq(&c, 1_000));
    assert!(a
        .direction()
        .approx_eq(Vec3::new(-408_248_290, -408_248_290, 816_496_581), 1_000));
}

#[test]
fn test_accessors() {
    let camera = Camera::new(CameraScreen::new(12, 34), (2 * SCALE, 3 * SCALE), SCALE);
    assert_eq!(camera.screen().px_wide, 12);
    assert_eq!(camera.screen().px_high, 34);
    assert_eq!(camera.physical_dimensions(), (2 * SCALE, 3 * SCALE));
}
