//! Scattering behaviour of the three material policies and the Schlick
//! reflectance.

use ray_tracing::fixed::{fix_div, fix_mul, SCALE};
use ray_tracing::geometry::Geometry;
use ray_tracing::material::Material;
use ray_tracing::ray::{Ray, MAX_T};
use ray_tracing::scene::Scene;
use ray_tracing::vec_three::Vec3;
use ray_tracing::T_MIN;

fn head_on_hit(material: Material) -> (Ray, ray_tracing::hit_record::HitRecord, Material) {
    let mut world = Scene::new();
    let sphere = Geometry::Sphere { center: Vec3::new(0, 0, -SCALE), radius: 32768, material };
    world.add_object(sphere).unwrap();
    let ray = Ray::from(&Vec3::zero(), &Vec3::new(0, 0, -SCALE));
    let (record, mat) = world.hit(&ray, T_MIN, MAX_T).expect("the ray aims at the sphere");
    (ray, record, mat)
}

#[test]
fn lambert_always_scatters() {
    let color = Vec3::new(45875, 13107, 6553);
    let (ray, record, material) = head_on_hit(Material::Lambert { color });
    for _ in 0..20 {
        let (attenuation, scattered) = material
            .scatter(&ray, &record)
            .expect("a diffuse surface never absorbs");
        assert_eq!(attenuation, color);
        assert_eq!(scattered.origin, record.point);
    }
}

#[test]
fn dielectric_always_scatters() {
    let material = Material::Dielectric { color: Vec3::identity(), refraction_index: 85196 };
    let (ray, record, mat) = head_on_hit(material);
    for _ in 0..20 {
        let (attenuation, scattered) = mat
            .scatter(&ray, &record)
            .expect("a dielectric never absorbs");
        assert_eq!(attenuation, Vec3::identity());
        assert_eq!(scattered.origin, record.point);
    }
}

#[test]
fn metal_reflects_head_on() {
    let color = Vec3::new(45875, 39321, 32768);
    let (ray, record, _) = head_on_hit(Material::Metal { color, fuzz: 0 });
    // with zero fuzz the perturbation is irrelevant: deterministic mirror
    let scattered = Material::scatter_metal(&ray, &record, 0, &Vec3::zero())
        .expect("a head-on reflection leaves the surface");
    assert_eq!(scattered.origin, record.point);
    // the reflection of -z about +z is +z
    assert_eq!(scattered.direction, Vec3::new(0, 0, SCALE));
}

#[test]
fn metal_absorbs_exactly_when_reflection_stays_behind() {
    // a grazing ray whose reflection lies in the surface plane: the dot
    // product with the normal is zero, which counts as absorbed
    let outward = Vec3::new(0, 0, SCALE);
    let grazing = Ray::from(&Vec3::zero(), &Vec3::new(SCALE, 0, 0));
    let record = ray_tracing::hit_record::HitRecord::new(
        SCALE,
        &Vec3::new(SCALE, 0, 0),
        &outward,
        &grazing,
    );
    assert!(Material::scatter_metal(&grazing, &record, 0, &Vec3::zero()).is_none());
    // a perturbation toward the surface keeps it absorbed
    assert!(
        Material::scatter_metal(&grazing, &record, SCALE, &Vec3::new(0, 0, -32768)).is_none()
    );
    // a perturbation away from the surface rescues it
    let rescued = Material::scatter_metal(&grazing, &record, SCALE, &Vec3::new(0, 0, 32768))
        .expect("the perturbed reflection leaves the surface");
    assert!(Vec3::dot(&rescued.direction, &record.normal) > 0);
}

#[test]
fn schlick_normal_incidence_equals_r0() {
    // ratio = 1 / 1.5 for a ray entering glass
    let ratio = fix_div(SCALE, 98304);
    let r0a = fix_div(SCALE - ratio, SCALE + ratio);
    let r0 = fix_mul(r0a, r0a);
    assert_eq!(Material::schlick_reflectance(SCALE, ratio), r0);
}

#[test]
fn schlick_grows_toward_grazing() {
    let ratio = fix_div(SCALE, 98304);
    let mut last = Material::schlick_reflectance(SCALE, ratio);
    let mut cosine = SCALE - 4096;
    while cosine >= 0 {
        let here = Material::schlick_reflectance(cosine, ratio);
        assert!(here >= last, "reflectance fell from {last} to {here} at cos = {cosine}");
        last = here;
        cosine -= 4096;
    }
    // at grazing incidence the reflectance approaches one
    assert!(Material::schlick_reflectance(0, ratio) > SCALE / 2);
}

#[test]
fn dielectric_core_refracts_straight_through() {
    let glass = 98304;
    let (ray, record, _) = head_on_hit(Material::Dielectric {
        color: Vec3::identity(),
        refraction_index: glass,
    });
    // a head-on ray is never reflected by the Schlick test once the draw is
    // above the normal-incidence reflectance
    let scattered = Material::scatter_dielectric(&ray, &record, glass, SCALE - 1);
    assert_eq!(scattered.origin, record.point);
    // straight-in stays straight: the refracted direction keeps pointing -z
    assert!(scattered.direction.z < 0);
    assert_eq!(scattered.direction.x, 0);
    assert_eq!(scattered.direction.y, 0);
}

#[test]
fn dielectric_core_reflects_when_the_draw_is_low() {
    let glass = 98304;
    let (ray, record, _) = head_on_hit(Material::Dielectric {
        color: Vec3::identity(),
        refraction_index: glass,
    });
    // a draw of zero is below any positive reflectance: mirror reflection
    let scattered = Material::scatter_dielectric(&ray, &record, glass, 0);
    assert_eq!(scattered.origin, record.point);
    assert!(scattered.direction.z > 0);
}
