//! End-to-end behaviour of the integrator: ray resolution, the sky
//! gradient, tone mapping and tile rendering.

use ray_tracing::camera::Camera;
use ray_tracing::fixed::SCALE;
use ray_tracing::geometry::Geometry;
use ray_tracing::image::{channel_to_byte, color_to_rgb8};
use ray_tracing::material::Material;
use ray_tracing::ray::Ray;
use ray_tracing::scene::Scene;
use ray_tracing::vec_three::Vec3;
use ray_tracing::{ray_color, render_tile, sky_color};

#[test]
fn zero_depth_is_black() {
    let mut world = Scene::new();
    let sphere = Geometry::Sphere {
        center: Vec3::new(0, 0, -SCALE),
        radius: 32768,
        material: Material::Lambert { color: Vec3::identity() },
    };
    world.add_object(sphere).unwrap();
    let ray = Ray::from(&Vec3::zero(), &Vec3::new(0, 0, -SCALE));
    assert_eq!(ray_color(&ray, &world, 0), Vec3::zero());
    let empty = Scene::new();
    assert_eq!(ray_color(&ray, &empty, 0), Vec3::zero());
}

#[test]
fn empty_scene_resolves_to_the_sky_and_never_black() {
    let empty = Scene::new();
    let directions = [
        Vec3::new(0, 0, -SCALE),
        Vec3::new(0, SCALE, 0),
        Vec3::new(0, -SCALE, 0),
        Vec3::new(12345, -54321, 99999),
        Vec3::new(-3 * SCALE, 2 * SCALE, SCALE),
    ];
    for direction in directions {
        let ray = Ray::from(&Vec3::new(7 * SCALE, -2 * SCALE, 0), &direction);
        let resolved = ray_color(&ray, &empty, 5);
        let sky = sky_color(&ray);
        assert_eq!(resolved, sky);
        assert!(resolved.x > 0 && resolved.y > 0 && resolved.z > 0);
    }
}

#[test]
fn sky_gradient_interpolates_with_height() {
    // straight up: the zenith color (0.5, 0.7, 1.0)
    let up = Ray::from(&Vec3::zero(), &Vec3::new(0, SCALE, 0));
    assert_eq!(sky_color(&up), Vec3::new(32768, 45875, SCALE));
    // straight down: the horizon color, white
    let down = Ray::from(&Vec3::zero(), &Vec3::new(0, -SCALE, 0));
    assert_eq!(sky_color(&down), Vec3::identity());
    // level: halfway between the two
    let level = Ray::from(&Vec3::zero(), &Vec3::new(SCALE, 0, 0));
    assert_eq!(sky_color(&level), Vec3::new(SCALE - 16384, SCALE - 9830, SCALE));
}

#[test]
fn full_white_round_trips_to_255() {
    // a color of (1, 1, 1) accumulated over one sample maps to channel 255,
    // not 256: the clamp at 0.999 and the 255.99 floor meet exactly there
    let rgb = color_to_rgb8(&Vec3::identity(), 1);
    assert_eq!(rgb, (255, 255, 255));
}

#[test]
fn tone_mapping_known_values() {
    assert_eq!(channel_to_byte(0, 1), 0);
    // 1.0 averaged over 4 samples: sqrt(0.25) = 0.5 -> floor(255.99 * 0.5)
    assert_eq!(channel_to_byte(SCALE, 4), 127);
    // anything at or above the clamp still lands on 255
    assert_eq!(channel_to_byte(100 * SCALE, 1), 255);
}

#[test]
fn single_sphere_scene_renders_a_dark_disk_on_sky() {
    let mut world = Scene::new();
    let sphere = Geometry::Sphere {
        center: Vec3::new(0, 0, -SCALE),
        radius: 32768,
        material: Material::Lambert { color: Vec3::zero() },
    };
    world.add_object(sphere).unwrap();
    let camera = Camera::try_new(
        98304,
        SCALE,
        &Vec3::zero(),
        &Vec3::new(0, 0, -SCALE),
        &Vec3::new(0, SCALE, 0),
        0,
        SCALE,
    )
    .expect("the configuration is admissible");
    // the center pixel looks straight at a black sphere; with a black
    // albedo every bounce is absorbed into black
    let pixels = render_tile(&camera, &world, 10, 11, 10, 11, 21, 21, 4, 8);
    assert_eq!(pixels.len(), 1);
    let p = &pixels[0];
    assert_eq!((p.x, p.y), (10, 10));
    assert_eq!((p.red, p.green, p.blue), (0, 0, 0));
}

#[test]
fn render_tile_covers_the_tile_exactly_once() {
    let empty = Scene::new();
    let camera = Camera::try_new(
        98304,
        SCALE,
        &Vec3::zero(),
        &Vec3::new(0, 0, -SCALE),
        &Vec3::new(0, SCALE, 0),
        0,
        SCALE,
    )
    .expect("the configuration is admissible");
    let pixels = render_tile(&camera, &empty, 2, 5, 1, 4, 8, 6, 1, 3);
    assert_eq!(pixels.len(), 9);
    let mut seen = std::collections::HashSet::new();
    for p in &pixels {
        assert!(2 <= p.x && p.x < 5);
        // rows 1..4 of the sample grid map to flipped scanlines 2..5
        assert!(2 <= p.y && p.y < 5);
        assert!(seen.insert((p.x, p.y)), "pixel written twice");
        // every escaped ray carries the sky, far from black
        assert!(p.red > 100 && p.green > 100 && p.blue > 100);
    }
}

#[test]
fn camera_rejects_degenerate_configurations() {
    let eye = Vec3::new(13 * SCALE, 2 * SCALE, 4 * SCALE);
    // looking at itself
    assert!(Camera::try_new(
        98304,
        SCALE,
        &eye,
        &eye,
        &Vec3::new(0, SCALE, 0),
        0,
        10 * SCALE
    )
    .is_none());
    // an up vector parallel to the view direction
    assert!(Camera::try_new(
        98304,
        SCALE,
        &Vec3::zero(),
        &Vec3::new(0, SCALE, 0),
        &Vec3::new(0, SCALE, 0),
        0,
        10 * SCALE
    )
    .is_none());
    // a zero focus distance
    assert!(Camera::try_new(
        98304,
        SCALE,
        &Vec3::zero(),
        &Vec3::new(0, 0, -SCALE),
        &Vec3::new(0, SCALE, 0),
        0,
        0
    )
    .is_none());
    assert!(Camera::try_new(
        98304,
        SCALE,
        &Vec3::zero(),
        &Vec3::new(0, 0, -SCALE),
        &Vec3::new(0, SCALE, 0),
        0,
        10 * SCALE
    )
    .is_some());
}

#[test]
fn pinhole_camera_shoots_through_the_viewport() {
    let camera = Camera::try_new(
        SCALE,
        SCALE,
        &Vec3::zero(),
        &Vec3::new(0, 0, -SCALE),
        &Vec3::new(0, SCALE, 0),
        0,
        SCALE,
    )
    .expect("the configuration is admissible");
    // zero aperture: the lens sample is scaled away and the origin is exact
    let ray = camera.get_origin_ray(32768, 32768);
    assert_eq!(ray.origin, Vec3::zero());
    // the center of the viewport lies straight ahead
    assert!(ray.direction.z < 0);
    assert!(ray.direction.x.abs() <= 2);
    assert!(ray.direction.y.abs() <= 2);
}
