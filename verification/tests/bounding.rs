//! The axis-aligned box primitive: the slab test and box unions.

use ray_tracing::aabb::AABB;
use ray_tracing::fixed::SCALE;
use ray_tracing::geometry::Geometry;
use ray_tracing::material::Material;
use ray_tracing::ray::{Ray, MAX_T};
use ray_tracing::scene::Scene;
use ray_tracing::vec_three::Vec3;

fn unit_box() -> AABB {
    AABB { minimum: Vec3::new(-SCALE, -SCALE, -SCALE), maximum: Vec3::new(SCALE, SCALE, SCALE) }
}

#[test]
fn slab_test_accepts_a_ray_into_the_box() {
    let ray = Ray::from(&Vec3::new(-4 * SCALE, -4 * SCALE, -4 * SCALE), &Vec3::new(SCALE, SCALE, SCALE));
    assert!(unit_box().hit(&ray, 0, MAX_T));
}

#[test]
fn slab_test_rejects_a_ray_leaving_the_box_behind() {
    let ray = Ray::from(&Vec3::new(4 * SCALE, 4 * SCALE, 4 * SCALE), &Vec3::new(SCALE, SCALE, SCALE));
    assert!(!unit_box().hit(&ray, 0, MAX_T));
}

#[test]
fn slab_test_rejects_a_ray_passing_beside_the_box() {
    let ray = Ray::from(&Vec3::new(-4 * SCALE, 8 * SCALE, 0), &Vec3::new(SCALE, 1, 1));
    assert!(!unit_box().hit(&ray, 0, MAX_T));
}

#[test]
fn surrounding_box_takes_componentwise_extremes() {
    let a = AABB { minimum: Vec3::new(-SCALE, 0, 5), maximum: Vec3::new(SCALE, 2 * SCALE, 7) };
    let b = AABB { minimum: Vec3::new(0, -SCALE, 3), maximum: Vec3::new(3 * SCALE, SCALE, 9) };
    let u = AABB::surrounding_box(&a, &b);
    assert_eq!(u.minimum, Vec3::new(-SCALE, -SCALE, 3));
    assert_eq!(u.maximum, Vec3::new(3 * SCALE, 2 * SCALE, 9));
}

#[test]
fn sphere_bounding_box_is_the_enclosing_cube() {
    let sphere = Geometry::Sphere {
        center: Vec3::new(SCALE, 2 * SCALE, -SCALE),
        radius: 32768,
        material: Material::Lambert { color: Vec3::identity() },
    };
    let bb = sphere.bounding_box().expect("a sphere always has a box");
    assert_eq!(bb.minimum, Vec3::new(SCALE - 32768, 2 * SCALE - 32768, -SCALE - 32768));
    assert_eq!(bb.maximum, Vec3::new(SCALE + 32768, 2 * SCALE + 32768, -SCALE + 32768));
}

#[test]
fn scene_bounding_box_exists_exactly_when_nonempty() {
    let mut world = Scene::new();
    assert!(world.bounding_box().is_none());
    let sphere = Geometry::Sphere {
        center: Vec3::zero(),
        radius: SCALE,
        material: Material::Lambert { color: Vec3::identity() },
    };
    world.add_object(sphere).unwrap();
    let bb = world.bounding_box().expect("one object gives a box");
    assert_eq!(bb.minimum, Vec3::new(-SCALE, -SCALE, -SCALE));
    assert_eq!(bb.maximum, Vec3::new(SCALE, SCALE, SCALE));
}
