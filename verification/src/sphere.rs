//! Ray-sphere intersection: the quadratic solved over wide integers,
//! with the near root preferred and the normal oriented against the
//! incoming ray.

use vstd::prelude::*;

use crate::fixed::{
    div_trunc, div_trunc_wide, fdiv, isqrt_u128, lemma_mul_bound, lemma_tdiv_bound, sqrt_floor,
    tdiv, FP_ONE,
};
use crate::hittable::HitRecord;
use crate::material::{mat_wf, Material};
use crate::ray::Ray;
use crate::vec3::{spec_dot, spec_dot_raw, spec_near_zero, within, Vec3, COORD_MAX};

verus! {

/// A primitive: center, positive radius, and its material.
#[derive(Copy, Clone)]
pub struct Sphere {
    pub center: Vec3,
    pub radius: i64,
    pub mat: Material,
}

/// Geometry small enough for the intersection arithmetic: center
/// within 1024 units, radius positive and at most 1024 units.
pub open spec fn sphere_wf(s: Sphere) -> bool {
    within(s.center, 0x400_0000) && 0 < s.radius <= 0x400_0000 && mat_wf(s.mat)
}

/// The ray origin relative to the sphere center.
pub open spec fn spec_oc(s: Sphere, r: Ray) -> (int, int, int) {
    (r.origin.x - s.center.x, r.origin.y - s.center.y, r.origin.z - s.center.z)
}

/// The raw squared length of the ray direction.
pub open spec fn spec_a_term(r: Ray) -> int {
    spec_dot_raw(r.dir, r.dir)
}

/// Half the linear coefficient of the intersection quadratic.
pub open spec fn spec_half_b(s: Sphere, r: Ray) -> int {
    let oc = spec_oc(s, r);
    oc.0 * r.dir.x + oc.1 * r.dir.y + oc.2 * r.dir.z
}

/// The constant coefficient: squared center distance less squared radius.
pub open spec fn spec_c_term(s: Sphere, r: Ray) -> int {
    let oc = spec_oc(s, r);
    oc.0 * oc.0 + oc.1 * oc.1 + oc.2 * oc.2 - s.radius * s.radius
}

/// The discriminant of the intersection quadratic.
pub open spec fn spec_disc(s: Sphere, r: Ray) -> int {
    spec_half_b(s, r) * spec_half_b(s, r) - spec_a_term(r) * spec_c_term(s, r)
}

/// The accepted ray parameter: the near root when it lies within
/// `[t_min, t_max]`, else the far root when it does, else none; a
/// degenerate (zero) direction or a negative discriminant yields none.
pub open spec fn spec_hit_t(s: Sphere, r: Ray, t_min: int, t_max: int) -> Option<int> {
    let a = spec_a_term(r);
    if a == 0 {
        None
    } else {
        let disc = spec_disc(s, r);
        if disc < 0 {
            None
        } else {
            let sd = sqrt_floor(disc);
            let hb = spec_half_b(s, r);
            let root1 = tdiv((-hb - sd) * FP_ONE, a);
            if t_min <= root1 <= t_max {
                Some(root1)
            } else {
                let root2 = tdiv((-hb + sd) * FP_ONE, a);
                if t_min <= root2 <= t_max {
                    Some(root2)
                } else {
                    None
                }
            }
        }
    }
}

/// The world point at parameter `t` along the ray.
pub open spec fn spec_hit_point(r: Ray, t: int) -> Vec3 {
    Vec3 {
        x: (r.origin.x + fdiv(t * r.dir.x)) as i64,
        y: (r.origin.y + fdiv(t * r.dir.y)) as i64,
        z: (r.origin.z + fdiv(t * r.dir.z)) as i64,
    }
}

/// The outward normal at `p`: the offset from the center, rescaled by
/// the radius.
pub open spec fn spec_outward_normal(s: Sphere, p: Vec3) -> Vec3 {
    Vec3 {
        x: tdiv((p.x - s.center.x) * FP_ONE, s.radius as int) as i64,
        y: tdiv((p.y - s.center.y) * FP_ONE, s.radius as int) as i64,
        z: tdiv((p.z - s.center.z) * FP_ONE, s.radius as int) as i64,
    }
}

/// The full intersection result: the accepted parameter, the hit
/// point, and the normal oriented against the ray. A hit is reported
/// exactly when a root of the quadratic lies in `[t_min, t_max]`.
pub open spec fn spec_sphere_hit(s: Sphere, r: Ray, t_min: int, t_max: int) -> Option<HitRecord> {
    match spec_hit_t(s, r, t_min, t_max) {
        None => None,
        Some(t) => {
            let p = spec_hit_point(r, t);
            let outward = spec_outward_normal(s, p);
            let front = spec_dot(r.dir, outward) < 0;
            let n = if front {
                outward
            } else {
                Vec3 { x: (-outward.x) as i64, y: (-outward.y) as i64, z: (-outward.z) as i64 }
            };
            Some(HitRecord { p, normal: n, t: t as i64, front_face: front, mat: s.mat })
        },
    }
}

impl Sphere {
    /// Intersect the ray with this sphere over `[t_min, t_max]`.
    pub fn hit(&self, ray: &Ray, t_min: i64, t_max: i64) -> (r: Option<HitRecord>)
        requires
            sphere_wf(*self),
            within(ray.origin, 0x1000_0000),
            within(ray.dir, COORD_MAX as int),
            0 <= t_min <= t_max <= COORD_MAX,
        ensures
            r == spec_sphere_hit(*self, *ray, t_min as int, t_max as int),
            r matches Some(rec) ==> t_min <= rec.t <= t_max && rec.mat == self.mat,
    {
        let dx: i128 = ray.dir.x as i128;
        let dy: i128 = ray.dir.y as i128;
        let dz: i128 = ray.dir.z as i128;
        let ocx: i128 = (ray.origin.x - self.center.x) as i128;
        let ocy: i128 = (ray.origin.y - self.center.y) as i128;
        let ocz: i128 = (ray.origin.z - self.center.z) as i128;
        let rad: i128 = self.radius as i128;
        proof {
            lemma_mul_bound(dx as int, dx as int, COORD_MAX as int, COORD_MAX as int);
            lemma_mul_bound(dy as int, dy as int, COORD_MAX as int, COORD_MAX as int);
            lemma_mul_bound(dz as int, dz as int, COORD_MAX as int, COORD_MAX as int);
            lemma_mul_bound(ocx as int, dx as int, 0x1400_0000, COORD_MAX as int);
            lemma_mul_bound(ocy as int, dy as int, 0x1400_0000, COORD_MAX as int);
            lemma_mul_bound(ocz as int, dz as int, 0x1400_0000, COORD_MAX as int);
            lemma_mul_bound(ocx as int, ocx as int, 0x1400_0000, 0x1400_0000);
            lemma_mul_bound(ocy as int, ocy as int, 0x1400_0000, 0x1400_0000);
            lemma_mul_bound(ocz as int, ocz as int, 0x1400_0000, 0x1400_0000);
            lemma_mul_bound(rad as int, rad as int, 0x400_0000, 0x400_0000);
        }
        let a: i128 = dx * dx + dy * dy + dz * dz;
        let half_b: i128 = ocx * dx + ocy * dy + ocz * dz;
        let c: i128 = ocx * ocx + ocy * ocy + ocz * ocz - rad * rad;
        if a == 0 {
            return None;
        }
        proof {
            assert(dx * dx >= 0 && dy * dy >= 0 && dz * dz >= 0) by (nonlinear_arith);
            assert(a > 0);
            lemma_mul_bound(half_b as int, half_b as int, 0x1000_0000_0000_0000, 0x1000_0000_0000_0000);
            lemma_mul_bound(a as int, c as int, 0x4000_0000_0000_0000, 0x1000_0000_0000_0000);
        }
        let disc: i128 = half_b * half_b - a * c;
        if disc < 0 {
            return None;
        }
        let sdw: u128 = isqrt_u128(disc as u128);
        proof {
            assert((sdw as int) * (sdw as int) <= disc as int);
            assert(sdw <= 0x8000_0000_0000_0000) by (nonlinear_arith)
                requires
                    (sdw as int) * (sdw as int) <= 0x4000_0000_0000_0000_0000_0000_0000_0000,
            ;
        }
        let sd: i128 = sdw as i128;
        let fp_wide: i128 = FP_ONE as i128;
        proof {
            lemma_mul_bound(
                -(half_b as int) - sd as int,
                fp_wide as int,
                0x9000_0000_0000_0000,
                0x1_0000,
            );
            lemma_mul_bound(
                -(half_b as int) + sd as int,
                fp_wide as int,
                0x9000_0000_0000_0000,
                0x1_0000,
            );
        }
        let root1: i128 = div_trunc_wide((-half_b - sd) * fp_wide, a);
        let root: i128 = if root1 < t_min as i128 || (t_max as i128) < root1 {
            let root2: i128 = div_trunc_wide((-half_b + sd) * fp_wide, a);
            if root2 < t_min as i128 || (t_max as i128) < root2 {
                return None;
            }
            root2
        } else {
            root1
        };
        let t: i64 = root as i64;
        let p: Vec3 = ray.point_at_parameter(t);
        proof {
            lemma_mul_bound(t as int, ray.dir.x as int, COORD_MAX as int, COORD_MAX as int);
            lemma_mul_bound(t as int, ray.dir.y as int, COORD_MAX as int, COORD_MAX as int);
            lemma_mul_bound(t as int, ray.dir.z as int, COORD_MAX as int, COORD_MAX as int);
            lemma_tdiv_bound(t * ray.dir.x, FP_ONE as int, 0x1000_0000_0000);
            lemma_tdiv_bound(t * ray.dir.y, FP_ONE as int, 0x1000_0000_0000);
            lemma_tdiv_bound(t * ray.dir.z, FP_ONE as int, 0x1000_0000_0000);
        }
        let ox: i64 = div_trunc((p.x - self.center.x) * FP_ONE, self.radius);
        let oy: i64 = div_trunc((p.y - self.center.y) * FP_ONE, self.radius);
        let oz: i64 = div_trunc((p.z - self.center.z) * FP_ONE, self.radius);
        let outward: Vec3 = Vec3 { x: ox, y: oy, z: oz };
        // orient the normal against the ray; the dot product is taken
        // over wide integers, as the unguarded normal can be large
        proof {
            crate::fixed::lemma_tdiv_abs_le((p.x - self.center.x) * FP_ONE, self.radius as int);
            crate::fixed::lemma_tdiv_abs_le((p.y - self.center.y) * FP_ONE, self.radius as int);
            crate::fixed::lemma_tdiv_abs_le((p.z - self.center.z) * FP_ONE, self.radius as int);
            lemma_mul_bound(ray.dir.x as int, ox as int, COORD_MAX as int, 0x2000_0000_0000_0000);
            lemma_mul_bound(ray.dir.y as int, oy as int, COORD_MAX as int, 0x2000_0000_0000_0000);
            lemma_mul_bound(ray.dir.z as int, oz as int, COORD_MAX as int, 0x2000_0000_0000_0000);
        }
        let dr: i128 = (ray.dir.x as i128) * (ox as i128) + (ray.dir.y as i128) * (oy as i128) + (
        ray.dir.z as i128) * (oz as i128);
        let front: bool = crate::fixed::div_trunc_wide(dr, FP_ONE as i128) < 0;
        proof {
            assert(dr == spec_dot_raw(ray.dir, outward));
        }
        let normal: Vec3 = if front {
            outward
        } else {
            Vec3 { x: -ox, y: -oy, z: -oz }
        };
        proof {
            assert(spec_hit_t(*self, *ray, t_min as int, t_max as int) == Some(t as int));
        }
        Some(HitRecord { t, p, normal, front_face: front, mat: self.mat })
    }
}

} // verus!
