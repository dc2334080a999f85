//! A ray: an origin point and a direction vector.

use vstd::prelude::*;

use crate::fixed::{fdiv, lemma_mul_bound, FP_ONE};
use crate::vec3::{within, Vec3, COORD_MAX};

verus! {

#[derive(Copy, Clone, Debug)]
pub struct Ray {
    pub origin: Vec3,
    pub dir: Vec3,
}

impl Ray {
    /// The world point at parameter `t` along the ray:
    /// `origin + t * dir`, with one rescaling per component.
    pub fn point_at_parameter(self, t: i64) -> (r: Vec3)
        requires
            within(self.origin, 0x1000_0000_0000),
            within(self.dir, COORD_MAX as int),
            -COORD_MAX <= t <= COORD_MAX,
        ensures
            r.x == self.origin.x + fdiv(t * self.dir.x),
            r.y == self.origin.y + fdiv(t * self.dir.y),
            r.z == self.origin.z + fdiv(t * self.dir.z),
    {
        let step: Vec3 = self.dir.scale(t);
        proof {
            lemma_mul_bound(self.dir.x as int, t as int, COORD_MAX as int, COORD_MAX as int);
            lemma_mul_bound(self.dir.y as int, t as int, COORD_MAX as int, COORD_MAX as int);
            lemma_mul_bound(self.dir.z as int, t as int, COORD_MAX as int, COORD_MAX as int);
            assert(self.dir.x * t == t * self.dir.x) by (nonlinear_arith);
            assert(self.dir.y * t == t * self.dir.y) by (nonlinear_arith);
            assert(self.dir.z * t == t * self.dir.z) by (nonlinear_arith);
        }
        self.origin.add(step)
    }
}

} // verus!
