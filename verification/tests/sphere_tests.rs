use raycast::camera::{Camera, CameraScreen};
use raycast::fx::SCALE;
use raycast::geom::{Geometry, RayIntersection};
use raycast::ray::Ray;
use raycast::sphere::Sphere;
use raycast::vec3::Vec3;

fn close(a: i64, b: i64) -> bool {
    (a - b).abs() <= 1_000
}

fn close_vec(a: Vec3, b: Vec3) -> bool {
    close(a.x, b.x) && close(a.y, b.y) && close(a.z, b.z)
}

#[test]
fn test_ray_intersect() {
    let sphere = Sphere::new(Vec3::new(0, 0, 20 * SCALE), 5 * SCALE);
    let camera = Camera::new(CameraScreen::new(10, 10), (SCALE, SCALE), SCALE);

    let test_ray = camera.ray_from_px(5, 5);
    assert!(close_vec(
        Vec3::new(0, 0, 15 * SCALE),
        sphere.ray_intersection(&test_ray).unwrap().intersection
    ));

    let ray2 = camera.ray_from_px(4, 5);
    assert!(close_vec(
        Vec3::new(-1_627_219_318, 0, 15_272_193_184),
        sphere.ray_intersection(&ray2).unwrap().intersection
    ));

    let ray3 = camera.ray_from_px(0, 9);
    assert!(sphere.ray_intersection(&ray3).is_none());
}

#[test]
fn test_axial_hit_is_exact() {
    // Along the optical axis every quantity divides evenly, so the hit is
    // exact: the sphere at z = 20 with radius 5 is entered at z = 15 at
    // time 15.
    let sphere = Sphere::new(Vec3::new(0, 0, 20 * SCALE), 5 * SCALE);
    let ray = Ray::new(Vec3::new(0, 0, 0), Vec3::new(0, 0, SCALE));
    let hit = sphere.ray_intersection(&ray).unwrap();
    assert_eq!(hit.time, 15 * SCALE);
    assert_eq!(hit.intersection, Vec3::new(0, 0, 15 * SCALE));
}

#[test]
fn test_hit_point_lies_on_ray() {
    // point == origin + time * direction, component-wise in ticks.
    let sphere = Sphere::new(Vec3::new(0, 0, 20 * SCALE), 5 * SCALE);
    let camera = Camera::new(CameraScreen::new(10, 10), (SCALE, SCALE), SCALE);
    let ray = camera.ray_from_px(4, 5);
    let hit = sphere.ray_intersection(&ray).unwrap();
    let d = ray.direction();
    let o = ray.origin();
    let t = hit.time as i128;
    let px = o.x as i128 + (t * d.x as i128) / SCALE as i128;
    let py = o.y as i128 + (t * d.y as i128) / SCALE as i128;
    let pz = o.z as i128 + (t * d.z as i128) / SCALE as i128;
    assert_eq!(hit.intersection.x as i128, px);
    assert_eq!(hit.intersection.y as i128, py);
    assert_eq!(hit.intersection.z as i128, pz);
}

#[test]
fn test_miss_with_negative_discriminant() {
    // A ray along the axis far from the sphere: discriminant is negative.
    let sphere = Sphere::new(Vec3::new(30 * SCALE, 0, 20 * SCALE), 5 * SCALE);
    let ray = Ray::new(Vec3::new(0, 0, 0), Vec3::new(0, 0, SCALE));
    assert!(sphere.ray_intersection(&ray).is_none());
}

#[test]
fn test_sphere_behind_ray_reports_no_hit() {
    // Both roots negative: the sphere sits entirely behind the ray's start.
    let sphere = Sphere::new(Vec3::new(0, 0, -20 * SCALE), 5 * SCALE);
    let ray = Ray::new(Vec3::new(0, 0, 0), Vec3::new(0, 0, SCALE));
    assert!(sphere.ray_intersection(&ray).is_none());
}

#[test]
fn test_ray_start_inside_sphere() {
    // The smaller root is negative, the larger positive: the hit is where
    // the ray leaves the sphere.
    let sphere = Sphere::new(Vec3::new(0, 0, 0), 5 * SCALE);
    let ray = Ray::new(Vec3::new(0, 0, 0), Vec3::new(0, 0, SCALE));
    let hit = sphere.ray_intersection(&ray).unwrap();
    assert_eq!(hit.time, 5 * SCALE);
    assert_eq!(hit.intersection, Vec3::new(0, 0, 5 * SCALE));
}

#[test]
fn test_tangent_ray() {
    // The ray grazes the sphere: the two roots collapse to one point.
    let sphere = Sphere::new(Vec3::new(5 * SCALE, 0, 20 * SCALE), 5 * SCALE);
    let ray = Ray::new(Vec3::new(0, 0, 0), Vec3::new(0, 0, SCALE));
    let hit = sphere.ray_intersection(&ray).unwrap();
    assert!(close(hit.time, 20 * SCALE));
    assert!(close_vec(hit.intersection, Vec3::new(0, 0, 20 * SCALE)));
}

#[test]
fn test_sphere_accessors() {
    let sphere = Sphere::new(Vec3::new(SCALE, 2 * SCALE, 3 * SCALE), 4 * SCALE);
    assert_eq!(sphere.radius(), 4 * SCALE);
    assert_eq!(sphere.origin(), Vec3::new(SCALE, 2 * SCALE, 3 * SCALE));
}
