//! The hit record and the scene list of intersectable primitives.

use vstd::prelude::*;

use crate::fixed::FP_ONE;
use crate::material::{mat_wf, Material};
use crate::ray::Ray;
use crate::sphere::{spec_sphere_hit, sphere_wf, Sphere};
use crate::vec3::{spec_dot, within, Vec3, COORD_MAX};

verus! {

/// Produced when a ray strikes scene geometry: the hit point, the
/// surface normal oriented against the incoming ray, the ray parameter
/// of the hit, whether the outward normal faced the ray, and the
/// material governing scattering there.
#[derive(Copy, Clone, Debug)]
pub struct HitRecord {
    pub p: Vec3,
    pub normal: Vec3,
    pub t: i64,
    pub front_face: bool,
    pub mat: Material,
}

impl HitRecord {
    /// Orient the stored normal against the incoming ray: the face is
    /// a front face when the outward normal opposes the ray direction,
    /// and the normal flips when it does not.
    pub fn set_face_normal(&mut self, ray: &Ray, outward_normal: &Vec3)
        requires
            within(old(self).normal, 0x4000_0000_0000),
            within(ray.dir, COORD_MAX as int),
            within(*outward_normal, COORD_MAX as int),
        ensures
            final(self).front_face == (spec_dot(ray.dir, *outward_normal) < 0),
            final(self).normal == if spec_dot(ray.dir, *outward_normal) < 0 {
                *outward_normal
            } else {
                Vec3 { x: (-outward_normal.x) as i64, y: (-outward_normal.y) as i64, z: (-outward_normal.z) as i64 }
            },
            final(self).p == old(self).p && final(self).t == old(self).t && final(self).mat
                == old(self).mat,
    {
        let d: i64 = ray.dir.dot(*outward_normal);
        self.front_face = d < 0;
        self.normal = if self.front_face {
            *outward_normal
        } else {
            outward_normal.neg()
        };
    }
}

/// The scene: an unordered list of spheres, consulted in order for
/// the closest hit.
pub struct HittableList {
    pub objects: Vec<crate::sphere::Sphere>,
}

/// Every primitive of the scene is well formed.
pub open spec fn list_wf(objs: Seq<Sphere>) -> bool {
    forall|i: int| 0 <= i < objs.len() ==> sphere_wf(#[trigger] objs[i])
}

/// The closest hit over a prefix of the scene, folded in order: each
/// primitive is consulted with the search bound shrunk to the best
/// parameter seen so far, so the record kept is the nearest hit.
pub open spec fn spec_list_hit(objs: Seq<Sphere>, ray: Ray, t_min: int, t_max: int) -> Option<
    HitRecord,
>
    decreases objs.len(),
{
    if objs.len() == 0 {
        None
    } else {
        let prev = spec_list_hit(objs.drop_last(), ray, t_min, t_max);
        let closest = match prev {
            Some(h) => h.t as int,
            None => t_max,
        };
        match spec_sphere_hit(objs.last(), ray, t_min, closest) {
            Some(h) => Some(h),
            None => prev,
        }
    }
}

impl HittableList {
    /// An empty scene.
    pub fn new() -> (r: HittableList)
        ensures
            r.objects@.len() == 0,
    {
        HittableList { objects: Vec::new() }
    }

    /// The nearest intersection of the ray with any primitive within
    /// `[t_min, t_max]`: every primitive is consulted and the search
    /// bound shrinks to each accepted hit's parameter.
    pub fn hit(&self, ray: &Ray, t_min: i64, t_max: i64) -> (r: Option<HitRecord>)
        requires
            list_wf(self.objects@),
            within(ray.origin, 0x1000_0000),
            within(ray.dir, COORD_MAX as int),
            0 <= t_min <= t_max <= COORD_MAX,
        ensures
            r == spec_list_hit(self.objects@, *ray, t_min as int, t_max as int),
            r matches Some(rec) ==> t_min <= rec.t <= t_max && mat_wf(rec.mat),
            r is None ==> forall|k: int|
                0 <= k < self.objects@.len() ==> (#[trigger] spec_sphere_hit(
                    self.objects@[k],
                    *ray,
                    t_min as int,
                    t_max as int,
                )) is None,
            r matches Some(rec) ==> forall|k: int|
                0 <= k < self.objects@.len() ==> match #[trigger] spec_sphere_hit(
                    self.objects@[k],
                    *ray,
                    t_min as int,
                    t_max as int,
                ) {
                    Some(h) => h.t >= rec.t,
                    None => true,
                },
    {
        let mut hr: Option<HitRecord> = None;
        let mut closest_so_far: i64 = t_max;
        let mut i: usize = 0;
        while i < self.objects.len()
            invariant
                i <= self.objects@.len(),
                list_wf(self.objects@),
                within(ray.origin, 0x1000_0000),
                within(ray.dir, COORD_MAX as int),
                0 <= t_min <= t_max <= COORD_MAX,
                hr == spec_list_hit(
                    self.objects@.subrange(0, i as int),
                    *ray,
                    t_min as int,
                    t_max as int,
                ),
                match hr {
                    Some(rec) => closest_so_far == rec.t && t_min <= rec.t <= t_max && mat_wf(
                        rec.mat,
                    ),
                    None => closest_so_far == t_max,
                },
            decreases self.objects@.len() - i,
        {
            let obj: Sphere = self.objects[i];
            proof {
                assert(sphere_wf(self.objects@[i as int]));
            }
            match obj.hit(ray, t_min, closest_so_far) {
                Some(record) => {
                    closest_so_far = record.t;
                    hr = Some(record);
                },
                None => {},
            }
            proof {
                assert(self.objects@.subrange(0, (i + 1) as int).drop_last() =~= self.objects@
                    .subrange(0, i as int));
                assert(self.objects@.subrange(0, (i + 1) as int).last() == self.objects@[
                    i as int]);
            }
            i = i + 1;
        }
        proof {
            assert(self.objects@.subrange(0, self.objects@.len() as int) =~= self.objects@);
            match hr {
                None => {
                    assert forall|k: int|
                        0 <= k < self.objects@.len() implies (#[trigger] spec_sphere_hit(
                        self.objects@[k],
                        *ray,
                        t_min as int,
                        t_max as int,
                    )) is None by {
                        crate::laws::lemma_list_miss(
                            self.objects@,
                            *ray,
                            t_min as int,
                            t_max as int,
                            k,
                        );
                    }
                },
                Some(rec) => {
                    assert forall|k: int|
                        0 <= k < self.objects@.len() implies match #[trigger] spec_sphere_hit(
                        self.objects@[k],
                        *ray,
                        t_min as int,
                        t_max as int,
                    ) {
                        Some(h) => h.t >= rec.t,
                        None => true,
                    } by {
                        crate::laws::lemma_list_hit_is_nearest(
                            self.objects@,
                            *ray,
                            t_min as int,
                            t_max as int,
                            k,
                        );
                    }
                },
            }
        }
        hr
    }
}

} // verus!
