use raycast::camera::{Camera, CameraScreen};
use raycast::fx::SCALE;
use raycast::ray::Ray;
use raycast::render::Renderer;
use raycast::scene::Scene;
use raycast::sphere::Sphere;
use raycast::vec3::Vec3;

#[test]
fn test_render() {
    let camera = Camera::new(CameraScreen::new(5, 5), (SCALE, SCALE), SCALE);
    let mut scene = Scene::new();
    scene.add_sphere(Sphere::new(Vec3::new(0, 0, 10 * SCALE), 3 * SCALE));
    let renderer = Renderer::new(camera);
    let pixels = renderer.render_scene(&scene);

    assert_eq!(pixels.len(), 25);
    // The center pixel sees the sphere; the far corners do not.
    assert_eq!(pixels[12], 255);
    assert_eq!(pixels[0], 0);
    assert_eq!(pixels[4], 0);
    assert_eq!(pixels[20], 0);
    assert_eq!(pixels[24], 0);
    for p in pixels {
        assert!(p == 0 || p == 255);
    }
}

#[test]
fn test_render_buffer_shape() {
    let camera = Camera::new(CameraScreen::new(7, 3), (SCALE, SCALE), SCALE);
    let scene = Scene::new();
    let renderer = Renderer::new(camera);
    let pixels = renderer.render_scene(&scene);
    assert_eq!(pixels.len(), 21);
    for p in pixels {
        assert_eq!(p, 0);
    }
}

#[test]
fn test_render_all_foreground() {
    // A sphere enclosing the whole camera: every ray starts inside it and
    // hits it on the way out.
    let camera = Camera::new(CameraScreen::new(4, 4), (SCALE, SCALE), SCALE);
    let mut scene = Scene::new();
    scene.add_sphere(Sphere::new(Vec3::new(0, 0, 0), 50 * SCALE));
    let renderer = Renderer::new(camera);
    let pixels = renderer.render_scene(&scene);
    assert_eq!(pixels.len(), 16);
    for p in pixels {
        assert_eq!(p, 255);
    }
}

#[test]
fn test_intersections_keep_insertion_order() {
    // Two overlapping spheres on the axis: both report a hit, in insertion
    // order, not depth order -- the farther sphere was added first.
    let far = Sphere::new(Vec3::new(0, 0, 30 * SCALE), 5 * SCALE);
    let near = Sphere::new(Vec3::new(0, 0, 10 * SCALE), 5 * SCALE);
    let mut scene = Scene::new();
    scene.add_sphere(far);
    scene.add_sphere(near);
    let ray = Ray::new(Vec3::new(0, 0, 0), Vec3::new(0, 0, SCALE));
    let hits = scene.intersections(&ray);
    assert_eq!(hits.len(), 2);
    assert_eq!(hits[0].1, far);
    assert_eq!(hits[0].0, Vec3::new(0, 0, 25 * SCALE));
    assert_eq!(hits[1].1, near);
    assert_eq!(hits[1].0, Vec3::new(0, 0, 5 * SCALE));
}

#[test]
fn test_intersections_empty_scene() {
    let scene = Scene::new();
    let ray = Ray::new(Vec3::new(0, 0, 0), Vec3::new(0, 0, SCALE));
    assert_eq!(scene.intersections(&ray).len(), 0);
}

#[test]
fn test_intersections_skip_missed_spheres() {
    // Only the sphere on the axis reports a hit; the off-axis one is
    // skipped without a record.
    let off_axis = Sphere::new(Vec3::new(40 * SCALE, 0, 10 * SCALE), SCALE);
    let on_axis = Sphere::new(Vec3::new(0, 0, 10 * SCALE), SCALE);
    let mut scene = Scene::new();
    scene.add_sphere(off_axis);
    scene.add_sphere(on_axis);
    let ray = Ray::new(Vec3::new(0, 0, 0), Vec3::new(0, 0, SCALE));
    let hits = scene.intersections(&ray);
    assert_eq!(hits.len(), 1);
    assert_eq!(hits[0].1, on_axis);
}
