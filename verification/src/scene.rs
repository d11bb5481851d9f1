//! The scene: an unordered collection of geometry, answering nearest-hit
//! queries by a linear scan that narrows the search window as closer hits are
//! found.  An earlier object keeps a tie: a later one must be strictly
//! closer to win.
//!
//! Degenerate geometry (a non-positive radius, coordinates or material
//! parameters outside the representable ranges) is rejected when an object
//! is added, so every stored object satisfies `Geometry::wf`.

use crate::geometry::sphere_hit;
use crate::geometry::Geometry;
use crate::hit_record::HitRecord;
use crate::hit_record::HitV;
use crate::material::Material;
use crate::ray::Ray;
use crate::ray::MAX_T;
use crate::vec_three::dot3;
use crate::vec_three::Vec3;
use crate::vec_three::MAX_COORD;
use crate::vec_three::WORLD_BOUND;
use crate::vec_three::V3;
use crate::fixed::SCALE;
use vstd::prelude::*;

verus! {

/// The one way scene construction can fail: an object whose geometry or
/// material parameters are out of range.
#[derive(Clone, Copy, Debug, PartialEq, Eq, Structural)]
pub enum SceneError {
    InvalidGeometry,
}

pub struct Scene {
    objects: Vec<Geometry>,
}

impl View for Scene {
    type V = Seq<Geometry>;

    closed spec fn view(&self) -> Seq<Geometry> {
        self.objects@
    }
}

/// The model of an intersection query's result.
pub open spec fn hit_opt_view(o: Option<(HitRecord, Material)>) -> Option<(HitV, Material)> {
    match o {
        None => None,
        Some((rec, m)) => Some((rec@, m)),
    }
}

/// The linear scan from index `i` on: `closest` is the current search
/// ceiling, `best` the nearest hit so far (with `best.t == closest` whenever
/// `best` is set, and `closest == t_max` otherwise).
pub open spec fn scene_hit_from(
    objs: Seq<Geometry>,
    i: int,
    orig: V3,
    dir: V3,
    t_min: int,
    closest: int,
    best: Option<(HitV, Material)>,
) -> Option<(HitV, Material)>
    decreases objs.len() - i,
{
    if i < 0 || i >= objs.len() {
        best
    } else {
        match objs[i] {
            Geometry::Sphere { center, radius, material } => {
                match sphere_hit(orig, dir, center@, radius as int, t_min, closest) {
                    Some(hv) => {
                        if best is None || hv.t < closest {
                            scene_hit_from(objs, i + 1, orig, dir, t_min, hv.t, Some((hv, material)))
                        } else {
                            scene_hit_from(objs, i + 1, orig, dir, t_min, closest, best)
                        }
                    },
                    None => scene_hit_from(objs, i + 1, orig, dir, t_min, closest, best),
                }
            },
        }
    }
}

/// The nearest hit of a ray in the scene, if any.
pub open spec fn scene_hit(
    objs: Seq<Geometry>,
    orig: V3,
    dir: V3,
    t_min: int,
    t_max: int,
) -> Option<(HitV, Material)> {
    scene_hit_from(objs, 0, orig, dir, t_min, t_max, None)
}

impl Scene {
    /// All stored objects are valid.
    pub open spec fn wf(self) -> bool {
        forall|i: int| 0 <= i < self@.len() ==> (#[trigger] self@[i]).wf()
    }

    pub fn new() -> (r: Scene)
        ensures
            r@ == Seq::<Geometry>::empty(),
            r.wf(),
    {
        Scene { objects: Vec::new() }
    }

    /// Appends an object, rejecting out-of-range geometry or material
    /// parameters so that the scene invariant is kept.
    pub fn add_object(&mut self, object: Geometry) -> (r: Result<(), SceneError>)
        requires
            old(self).wf(),
        ensures
            final(self).wf(),
            match r {
                Ok(()) => object.wf() && final(self)@ == old(self)@.push(object),
                Err(e) => !object.wf() && final(self)@ == old(self)@ && e
                    == SceneError::InvalidGeometry,
            },
    {
        if Scene::check_object(&object) {
            self.objects.push(object);
            proof {
                assert forall|i: int| 0 <= i < self@.len() implies (#[trigger] self@[i]).wf() by {
                    if i < self@.len() - 1 {
                        assert(self@[i] == old(self)@[i]);
                    } else {
                        assert(self@[i] == object);
                    }
                }
            }
            Ok(())
        } else {
            Err(SceneError::InvalidGeometry)
        }
    }

    /// Runtime validation mirroring `Geometry::wf`.
    fn check_object(object: &Geometry) -> (r: bool)
        ensures
            r == object.wf(),
    {
        match object {
            Geometry::Sphere { center, radius, material } => {
                center.in_bounds(WORLD_BOUND) && 0 < *radius && *radius <= WORLD_BOUND
                    && Scene::check_material(material)
            },
        }
    }

    /// Runtime validation mirroring `Material::wf`.
    fn check_material(material: &Material) -> (r: bool)
        ensures
            r == material.wf(),
    {
        match material {
            Material::Lambert { color } => Scene::check_color(color),
            Material::Metal { color, fuzz } => Scene::check_color(color) && 0 <= *fuzz && *fuzz
                <= SCALE,
            Material::Dielectric { color, refraction_index } => Scene::check_color(color) && SCALE
                < *refraction_index && *refraction_index <= 8 * SCALE,
        }
    }

    /// Runtime validation mirroring `color_wf`.
    fn check_color(color: &Vec3) -> (r: bool)
        ensures
            r == crate::material::color_wf(color@),
    {
        0 <= color.x && color.x <= SCALE && 0 <= color.y && color.y <= SCALE && 0 <= color.z
            && color.z <= SCALE
    }

    pub fn clear(&mut self)
        ensures
            final(self)@ == Seq::<Geometry>::empty(),
            final(self).wf(),
    {
        self.objects.clear();
    }

    /// The box enclosing the whole scene, or `None` when it is empty.
    pub fn bounding_box(&self) -> (r: Option<crate::aabb::AABB>)
        requires
            self.wf(),
        ensures
            r is Some <==> self@.len() > 0,
    {
        let mut temp_box: Option<crate::aabb::AABB> = None;
        let n = self.objects.len();
        let mut idx: usize = 0;
        while idx < n
            invariant
                self.wf(),
                n == self@.len(),
                0 <= idx <= n,
                temp_box is Some <==> idx > 0,
            decreases n - idx,
        {
            let object = &self.objects[idx];
            let object_box = object.bounding_box();
            temp_box = match (object_box, &temp_box) {
                (Some(bounding_box), Some(temp_box_value)) => Some(
                    crate::aabb::AABB::surrounding_box(&bounding_box, temp_box_value),
                ),
                (Some(bounding_box), None) => Some(bounding_box),
                (None, _) => temp_box,
            };
            idx = idx + 1;
        }
        temp_box
    }

    /// The nearest intersection of `ray` within `[t_min, t_max]`, found by a
    /// linear scan that narrows the window to the best parameter so far.
    pub fn hit(&self, ray: &Ray, t_min: i64, t_max: i64) -> (r: Option<(HitRecord, Material)>)
        requires
            self.wf(),
            ray.origin@.bounded(WORLD_BOUND as int),
            ray.direction@.bounded(MAX_COORD as int),
            dot3(ray.direction@, ray.direction@) >= 1,
            0 <= t_min <= t_max <= MAX_T,
        ensures
            hit_opt_view(r) == scene_hit(self@, ray.origin@, ray.direction@, t_min as int, t_max as int),
            match r {
                Some((rec, mat)) => {
                    &&& rec.point@.bounded(WORLD_BOUND as int)
                    &&& rec.normal@.bounded(8 * (SCALE as int))
                    &&& t_min <= rec.t <= t_max
                    &&& dot3(ray.direction@, rec.normal@) <= 0
                    &&& mat.wf()
                },
                None => true,
            },
    {
        let mut result: Option<(HitRecord, Material)> = None;
        let mut closest_so_far = t_max;
        let n = self.objects.len();
        let mut idx: usize = 0;
        while idx < n
            invariant
                self.wf(),
                n == self@.len(),
                0 <= idx <= n,
                ray.origin@.bounded(WORLD_BOUND as int),
                ray.direction@.bounded(MAX_COORD as int),
                dot3(ray.direction@, ray.direction@) >= 1,
                0 <= t_min <= closest_so_far <= t_max <= MAX_T,
                match result {
                    None => closest_so_far == t_max,
                    Some((rec, mat)) => {
                        &&& rec.t == closest_so_far
                        &&& rec.point@.bounded(WORLD_BOUND as int)
                        &&& rec.normal@.bounded(8 * (SCALE as int))
                        &&& t_min <= rec.t <= t_max
                        &&& dot3(ray.direction@, rec.normal@) <= 0
                        &&& mat.wf()
                    },
                },
                scene_hit_from(
                    self@,
                    idx as int,
                    ray.origin@,
                    ray.direction@,
                    t_min as int,
                    closest_so_far as int,
                    hit_opt_view(result),
                ) == scene_hit(self@, ray.origin@, ray.direction@, t_min as int, t_max as int),
            decreases n - idx,
        {
            let object = &self.objects[idx];
            match object.hit(ray, t_min, closest_so_far) {
                Some((rec, mat)) => {
                    let replace = match &result {
                        None => true,
                        Some(_) => rec.t < closest_so_far,
                    };
                    if replace {
                        closest_so_far = rec.t;
                        result = Some((rec, mat));
                    }
                },
                None => {},
            }
            idx = idx + 1;
        }
        result
    }
}

} // verus!
