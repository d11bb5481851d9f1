//! Ray-sphere and ray-scene intersection scenarios, with exact expected
//! fixed-point values.

use ray_tracing::fixed::SCALE;
use ray_tracing::geometry::Geometry;
use ray_tracing::hit_record::HitRecord;
use ray_tracing::material::Material;
use ray_tracing::ray::{Ray, MAX_T};
use ray_tracing::scene::{Scene, SceneError};
use ray_tracing::vec_three::Vec3;
use ray_tracing::T_MIN;

fn gray_lambert() -> Material {
    Material::Lambert { color: Vec3::new(32768, 32768, 32768) }
}

fn unit_sphere_scene() -> Scene {
    // a sphere of radius 0.5 centered at (0, 0, -1)
    let mut world = Scene::new();
    let sphere = Geometry::Sphere {
        center: Vec3::new(0, 0, -SCALE),
        radius: 32768,
        material: gray_lambert(),
    };
    world.add_object(sphere).unwrap();
    world
}

#[test]
fn head_on_hit_reports_exact_parameter_and_normal() {
    // a ray from the origin straight at the sphere center must hit the
    // front of the sphere at t = 0.5 with normal (0, 0, 1)
    let world = unit_sphere_scene();
    let ray = Ray::from(&Vec3::zero(), &Vec3::new(0, 0, -SCALE));
    let (record, material) = world.hit(&ray, T_MIN, MAX_T).expect("the ray aims at the center");
    assert_eq!(record.t, 32768);
    assert_eq!(record.normal, Vec3::new(0, 0, SCALE));
    assert_eq!(record.point, Vec3::new(0, 0, -32768));
    assert!(record.is_front_face());
    match material {
        Material::Lambert { color } => assert_eq!(color, Vec3::new(32768, 32768, 32768)),
        _ => panic!("wrong material returned"),
    }
}

#[test]
fn ray_from_surface_pointing_outward_misses() {
    // self-intersection avoidance: starting exactly on the surface and
    // leaving the sphere reports no hit
    let sphere = Geometry::Sphere {
        center: Vec3::zero(),
        radius: SCALE,
        material: gray_lambert(),
    };
    let origin = Vec3::new(SCALE, 0, 0);
    let outward = Ray::from(&origin, &Vec3::new(SCALE, 0, 0));
    assert!(sphere.hit(&outward, T_MIN, MAX_T).is_none());
    let sideways = Ray::from(&origin, &Vec3::new(SCALE, SCALE, 0));
    assert!(sphere.hit(&sideways, T_MIN, MAX_T).is_none());
}

#[test]
fn intersection_is_translation_invariant() {
    let material = gray_lambert();
    let shift = Vec3::new(7 * SCALE, -3 * SCALE, 11 * SCALE);
    let center = Vec3::new(0, 0, -2 * SCALE);
    let origin = Vec3::new(12345, -6789, 0);
    let direction = Vec3::new(3000, -2000, -70000);

    let sphere = Geometry::Sphere { center, radius: SCALE, material };
    let moved = Geometry::Sphere { center: center.add(shift), radius: SCALE, material };
    let ray = Ray::from(&origin, &direction);
    let moved_ray = Ray::from(&origin.add(shift), &direction);

    let base = sphere.hit(&ray, T_MIN, MAX_T).expect("the ray points into the sphere");
    let translated = moved.hit(&moved_ray, T_MIN, MAX_T).expect("translation keeps the hit");
    assert_eq!(base.0.t, translated.0.t);
    assert_eq!(base.0.normal, translated.0.normal);
    assert_eq!(base.0.front_face, translated.0.front_face);
    assert_eq!(translated.0.point, base.0.point.add(shift));
}

#[test]
fn hit_normal_opposes_ray_and_is_near_unit() {
    let world = unit_sphere_scene();
    let directions = [
        Vec3::new(0, 0, -SCALE),
        Vec3::new(5000, 3000, -SCALE),
        Vec3::new(-9000, -2500, -70000),
        Vec3::new(15000, -1000, -80000),
    ];
    for direction in directions {
        let ray = Ray::from(&Vec3::zero(), &direction);
        if let Some((record, _)) = world.hit(&ray, T_MIN, MAX_T) {
            let d = Vec3::dot(&ray.direction, &record.normal);
            assert!(d <= 0, "normal must oppose the ray, dot = {d}");
            let lsq = record.normal.length_squared();
            // |normal| = 1 within a small rounding tolerance
            assert!((lsq - SCALE).abs() < 64, "lsq = {lsq}");
        } else {
            panic!("every test ray aims at the sphere");
        }
    }
}

#[test]
fn inside_hit_flips_the_normal() {
    // from the center of a glass ball, every direction hits the back face
    let sphere = Geometry::Sphere {
        center: Vec3::zero(),
        radius: SCALE,
        material: gray_lambert(),
    };
    let ray = Ray::from(&Vec3::zero(), &Vec3::new(0, 0, SCALE));
    let (record, _) = sphere.hit(&ray, T_MIN, MAX_T).expect("the ray is inside");
    assert!(!record.is_front_face());
    assert_eq!(record.normal, Vec3::new(0, 0, -SCALE));
    assert_eq!(record.t, SCALE);
}

#[test]
fn nearest_object_wins() {
    let mut world = Scene::new();
    let near = Geometry::Sphere {
        center: Vec3::new(0, 0, -2 * SCALE),
        radius: 32768,
        material: Material::Lambert { color: Vec3::new(SCALE, 0, 0) },
    };
    let far = Geometry::Sphere {
        center: Vec3::new(0, 0, -4 * SCALE),
        radius: 32768,
        material: Material::Lambert { color: Vec3::new(0, SCALE, 0) },
    };
    // insert the far one first: the scan must still pick the near one
    world.add_object(far).unwrap();
    world.add_object(near).unwrap();
    let ray = Ray::from(&Vec3::zero(), &Vec3::new(0, 0, -SCALE));
    let (record, material) = world.hit(&ray, T_MIN, MAX_T).expect("both spheres are in line");
    assert_eq!(record.t, 3 * 32768);
    match material {
        Material::Lambert { color } => assert_eq!(color, Vec3::new(SCALE, 0, 0)),
        _ => panic!("wrong material returned"),
    }
}

#[test]
fn equal_distance_keeps_the_first_object() {
    let mut world = Scene::new();
    let first = Geometry::Sphere {
        center: Vec3::new(0, 0, -2 * SCALE),
        radius: 32768,
        material: Material::Lambert { color: Vec3::new(SCALE, 0, 0) },
    };
    let second = Geometry::Sphere {
        center: Vec3::new(0, 0, -2 * SCALE),
        radius: 32768,
        material: Material::Lambert { color: Vec3::new(0, SCALE, 0) },
    };
    world.add_object(first).unwrap();
    world.add_object(second).unwrap();
    let ray = Ray::from(&Vec3::zero(), &Vec3::new(0, 0, -SCALE));
    let (_, material) = world.hit(&ray, T_MIN, MAX_T).expect("the spheres are in line");
    match material {
        Material::Lambert { color } => assert_eq!(color, Vec3::new(SCALE, 0, 0)),
        _ => panic!("wrong material returned"),
    }
}

#[test]
fn degenerate_geometry_is_rejected() {
    let mut world = Scene::new();
    let flat = Geometry::Sphere { center: Vec3::zero(), radius: 0, material: gray_lambert() };
    assert_eq!(world.add_object(flat), Err(SceneError::InvalidGeometry));
    let inverted = Geometry::Sphere {
        center: Vec3::zero(),
        radius: -SCALE,
        material: gray_lambert(),
    };
    assert_eq!(world.add_object(inverted), Err(SceneError::InvalidGeometry));
    let bad_fuzz = Geometry::Sphere {
        center: Vec3::zero(),
        radius: SCALE,
        material: Material::Metal { color: Vec3::zero(), fuzz: -1 },
    };
    assert_eq!(world.add_object(bad_fuzz), Err(SceneError::InvalidGeometry));
    let weak_glass = Geometry::Sphere {
        center: Vec3::zero(),
        radius: SCALE,
        material: Material::Dielectric { color: Vec3::identity(), refraction_index: SCALE },
    };
    assert_eq!(world.add_object(weak_glass), Err(SceneError::InvalidGeometry));
    let fine = Geometry::Sphere { center: Vec3::zero(), radius: SCALE, material: gray_lambert() };
    assert_eq!(world.add_object(fine), Ok(()));
}

#[test]
fn clear_empties_the_scene() {
    let mut world = unit_sphere_scene();
    world.clear();
    let ray = Ray::from(&Vec3::zero(), &Vec3::new(0, 0, -SCALE));
    assert!(world.hit(&ray, T_MIN, MAX_T).is_none());
    assert!(world.bounding_box().is_none());
}

#[test]
fn hit_record_orients_against_the_ray() {
    let toward = Ray::from(&Vec3::zero(), &Vec3::new(0, 0, -SCALE));
    let outward = Vec3::new(0, 0, SCALE);
    let record = HitRecord::new(SCALE, &Vec3::new(0, 0, -SCALE), &outward, &toward);
    assert!(record.is_front_face());
    assert_eq!(record.normal, outward);

    let away = Ray::from(&Vec3::zero(), &Vec3::new(0, 0, SCALE));
    let record = HitRecord::new(SCALE, &Vec3::new(0, 0, SCALE), &outward, &away);
    assert!(!record.is_front_face());
    assert_eq!(record.normal, Vec3::new(0, 0, -SCALE));
}
