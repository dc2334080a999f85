//! The vector / color primitive: an ordered triple of fixed-point
//! components, used as a point, a direction, and an RGB color alike.

use vstd::prelude::*;

use crate::fixed::{
    fdiv, fmul, is_sqrt, isqrt_u64, lemma_mul_bound, lemma_tdiv_bound, rand_in, sqrt_floor, tdiv,
    FP_ONE,
};

verus! {

/// Components below this raw threshold count as zero: the threshold of
/// the degenerate-direction guard, one least significant fixed-point bit.
pub const NEAR_ZERO_EPS: i64 = 1;

/// Bound on the raw components of scene points, directions and extents
/// for which all vector arithmetic here is free of overflow.
pub const COORD_MAX: i64 = 0x4000_0000;

#[derive(Copy, Clone, Debug, PartialEq, Eq, Structural)]
pub struct Vec3 {
    pub x: i64,
    pub y: i64,
    pub z: i64,
}

/// All components within `b` in magnitude.
pub open spec fn within(v: Vec3, b: int) -> bool {
    -b <= v.x <= b && -b <= v.y <= b && -b <= v.z <= b
}

/// The unscaled inner product of the raw component triples.
pub open spec fn spec_dot_raw(a: Vec3, b: Vec3) -> int {
    a.x * b.x + a.y * b.y + a.z * b.z
}

/// The fixed-point dot product: the raw inner product rescaled once.
pub open spec fn spec_dot(a: Vec3, b: Vec3) -> int {
    fdiv(spec_dot_raw(a, b))
}

/// The fixed-point length: the square root of the raw self inner
/// product, which carries the scale of the components.
pub open spec fn spec_length(v: Vec3) -> int {
    sqrt_floor(spec_dot_raw(v, v))
}

/// Strictly inside the unit ball and not zero: the support of the
/// ball sampler.
pub open spec fn in_unit_ball(v: Vec3) -> bool {
    0 < spec_dot_raw(v, v) < (FP_ONE as int) * (FP_ONE as int)
}

/// Every component strictly below the degeneracy threshold.
pub open spec fn spec_near_zero(v: Vec3) -> bool {
    -NEAR_ZERO_EPS < v.x < NEAR_ZERO_EPS
        && -NEAR_ZERO_EPS < v.y < NEAR_ZERO_EPS
        && -NEAR_ZERO_EPS < v.z < NEAR_ZERO_EPS
}

impl Vec3 {
    pub fn new(x: i64, y: i64, z: i64) -> (r: Vec3)
        ensures
            r.x == x && r.y == y && r.z == z,
    {
        Vec3 { x, y, z }
    }

    /// Componentwise sum.
    pub fn add(self, other: Vec3) -> (r: Vec3)
        requires
            within(self, 0x3fff_ffff_ffff_ffff),
            within(other, 0x3fff_ffff_ffff_ffff),
        ensures
            r.x == self.x + other.x && r.y == self.y + other.y && r.z == self.z + other.z,
    {
        Vec3 { x: self.x + other.x, y: self.y + other.y, z: self.z + other.z }
    }

    /// Componentwise difference.
    pub fn sub(self, other: Vec3) -> (r: Vec3)
        requires
            within(self, 0x3fff_ffff_ffff_ffff),
            within(other, 0x3fff_ffff_ffff_ffff),
        ensures
            r.x == self.x - other.x && r.y == self.y - other.y && r.z == self.z - other.z,
            r == spec_sub(self, other),
    {
        Vec3 { x: self.x - other.x, y: self.y - other.y, z: self.z - other.z }
    }

    /// Componentwise negation.
    pub fn neg(self) -> (r: Vec3)
        requires
            within(self, 0x3fff_ffff_ffff_ffff),
        ensures
            r.x == -self.x && r.y == -self.y && r.z == -self.z,
    {
        Vec3 { x: -self.x, y: -self.y, z: -self.z }
    }

    /// Scale by a fixed-point factor `k`, componentwise.
    pub fn scale(self, k: i64) -> (r: Vec3)
        requires
            within(self, COORD_MAX as int),
            -COORD_MAX <= k <= COORD_MAX,
        ensures
            r.x == fdiv(self.x * k) && r.y == fdiv(self.y * k) && r.z == fdiv(self.z * k),
            r == spec_scale(self, k as int),
            within(r, 0x1000_0000_0000_0000),
    {
        proof {
            lemma_mul_bound(self.x as int, k as int, COORD_MAX as int, COORD_MAX as int);
            lemma_mul_bound(self.y as int, k as int, COORD_MAX as int, COORD_MAX as int);
            lemma_mul_bound(self.z as int, k as int, COORD_MAX as int, COORD_MAX as int);
            lemma_tdiv_bound(self.x * k, FP_ONE as int, 0x1000_0000_0000_0000);
            lemma_tdiv_bound(self.y * k, FP_ONE as int, 0x1000_0000_0000_0000);
            lemma_tdiv_bound(self.z * k, FP_ONE as int, 0x1000_0000_0000_0000);
        }
        Vec3 { x: fmul(self.x, k), y: fmul(self.y, k), z: fmul(self.z, k) }
    }

    /// Componentwise (Hadamard) product of two colors.
    pub fn mul(self, other: Vec3) -> (r: Vec3)
        requires
            within(self, COORD_MAX as int),
            within(other, COORD_MAX as int),
        ensures
            r.x == fdiv(self.x * other.x) && r.y == fdiv(self.y * other.y) && r.z == fdiv(
                self.z * other.z,
            ),
    {
        proof {
            lemma_mul_bound(self.x as int, other.x as int, COORD_MAX as int, COORD_MAX as int);
            lemma_mul_bound(self.y as int, other.y as int, COORD_MAX as int, COORD_MAX as int);
            lemma_mul_bound(self.z as int, other.z as int, COORD_MAX as int, COORD_MAX as int);
        }
        Vec3 { x: fmul(self.x, other.x), y: fmul(self.y, other.y), z: fmul(self.z, other.z) }
    }

    /// The fixed-point dot product.
    pub fn dot(self, other: Vec3) -> (r: i64)
        requires
            within(self, COORD_MAX as int),
            within(other, COORD_MAX as int),
        ensures
            r == spec_dot(self, other),
            -0x3000_0000_0000_0000 <= spec_dot_raw(self, other) <= 0x3000_0000_0000_0000,
    {
        proof {
            lemma_mul_bound(self.x as int, other.x as int, COORD_MAX as int, COORD_MAX as int);
            lemma_mul_bound(self.y as int, other.y as int, COORD_MAX as int, COORD_MAX as int);
            lemma_mul_bound(self.z as int, other.z as int, COORD_MAX as int, COORD_MAX as int);
        }
        crate::fixed::div_trunc(self.x * other.x + self.y * other.y + self.z * other.z, FP_ONE)
    }

    /// The squared length as a fixed-point value.
    pub fn length_squared(self) -> (r: i64)
        requires
            within(self, COORD_MAX as int),
        ensures
            r == spec_dot(self, self),
    {
        self.dot(self)
    }

    /// The length: the square root of the raw self inner product.
    pub fn length(self) -> (r: i64)
        requires
            within(self, COORD_MAX as int),
        ensures
            r == spec_length(self),
            0 <= r <= 0x1_0000_0000,
            is_sqrt(spec_dot_raw(self, self), r as int),
    {
        proof {
            lemma_mul_bound(self.x as int, self.x as int, COORD_MAX as int, COORD_MAX as int);
            lemma_mul_bound(self.y as int, self.y as int, COORD_MAX as int, COORD_MAX as int);
            lemma_mul_bound(self.z as int, self.z as int, COORD_MAX as int, COORD_MAX as int);
            assert(self.x * self.x >= 0) by (nonlinear_arith);
            assert(self.y * self.y >= 0) by (nonlinear_arith);
            assert(self.z * self.z >= 0) by (nonlinear_arith);
        }
        let raw: i64 = self.x * self.x + self.y * self.y + self.z * self.z;
        let r: u64 = isqrt_u64(raw as u64);
        assert((r as int) * (r as int) <= 0x3000_0000_0000_0000);
        assert(r <= 0x1_0000_0000) by (nonlinear_arith)
            requires
                (r as int) * (r as int) <= 0x3000_0000_0000_0000,
        ;
        r as i64
    }

    /// The unit vector in the direction of `self`: each component is
    /// rescaled by the length; components stay within one unit.
    pub fn unit_vec(self) -> (r: Vec3)
        requires
            within(self, COORD_MAX as int),
            spec_dot_raw(self, self) > 0,
        ensures
            r.x == tdiv(self.x * FP_ONE, spec_length(self)),
            r.y == tdiv(self.y * FP_ONE, spec_length(self)),
            r.z == tdiv(self.z * FP_ONE, spec_length(self)),
            r == spec_unit(self),
            within(r, FP_ONE as int),
    {
        let len: i64 = self.length();
        proof {
            let d = spec_dot_raw(self, self);
            assert(len >= 1) by (nonlinear_arith)
                requires
                    is_sqrt(d, len as int),
                    d > 0,
            ;
            // each |component| is at most the length
            assert(self.x * self.x <= d && self.y * self.y <= d && self.z * self.z <= d)
                by (nonlinear_arith)
                requires
                    d == self.x * self.x + self.y * self.y + self.z * self.z,
            ;
            assert(len * len <= d < (len + 1) * (len + 1));
            assert(-(len as int) <= self.x <= len as int) by (nonlinear_arith)
                requires
                    self.x * self.x <= d,
                    is_sqrt(d, len as int),
            ;
            assert(-(len as int) <= self.y <= len as int) by (nonlinear_arith)
                requires
                    self.y * self.y <= d,
                    is_sqrt(d, len as int),
            ;
            assert(-(len as int) <= self.z <= len as int) by (nonlinear_arith)
                requires
                    self.z * self.z <= d,
                    is_sqrt(d, len as int),
            ;
            lemma_mul_bound(self.x as int, FP_ONE as int, len as int, FP_ONE as int);
            lemma_mul_bound(self.y as int, FP_ONE as int, len as int, FP_ONE as int);
            lemma_mul_bound(self.z as int, FP_ONE as int, len as int, FP_ONE as int);
            lemma_tdiv_bound(self.x * FP_ONE, len as int, FP_ONE as int);
            lemma_tdiv_bound(self.y * FP_ONE, len as int, FP_ONE as int);
            lemma_tdiv_bound(self.z * FP_ONE, len as int, FP_ONE as int);
        }
        Vec3 {
            x: crate::fixed::div_trunc(self.x * FP_ONE, len),
            y: crate::fixed::div_trunc(self.y * FP_ONE, len),
            z: crate::fixed::div_trunc(self.z * FP_ONE, len),
        }
    }

    /// The cross product, rescaled once per component.
    pub fn cross(self, other: Vec3) -> (r: Vec3)
        requires
            within(self, COORD_MAX as int),
            within(other, COORD_MAX as int),
        ensures
            r.x == fdiv(self.y * other.z - self.z * other.y),
            r.y == fdiv(self.z * other.x - self.x * other.z),
            r.z == fdiv(self.x * other.y - self.y * other.x),
            r == spec_cross(self, other),
    {
        proof {
            lemma_mul_bound(self.y as int, other.z as int, COORD_MAX as int, COORD_MAX as int);
            lemma_mul_bound(self.z as int, other.y as int, COORD_MAX as int, COORD_MAX as int);
            lemma_mul_bound(self.z as int, other.x as int, COORD_MAX as int, COORD_MAX as int);
            lemma_mul_bound(self.x as int, other.z as int, COORD_MAX as int, COORD_MAX as int);
            lemma_mul_bound(self.x as int, other.y as int, COORD_MAX as int, COORD_MAX as int);
            lemma_mul_bound(self.y as int, other.x as int, COORD_MAX as int, COORD_MAX as int);
        }
        Vec3 {
            x: crate::fixed::div_trunc(self.y * other.z - self.z * other.y, FP_ONE),
            y: crate::fixed::div_trunc(self.z * other.x - self.x * other.z, FP_ONE),
            z: crate::fixed::div_trunc(self.x * other.y - self.y * other.x, FP_ONE),
        }
    }

    /// True when every component lies below the degeneracy threshold.
    pub fn near_zero(&self) -> (r: bool)
        ensures
            r == spec_near_zero(*self),
    {
        self.x > -NEAR_ZERO_EPS && self.x < NEAR_ZERO_EPS && self.y > -NEAR_ZERO_EPS && self.y
            < NEAR_ZERO_EPS && self.z > -NEAR_ZERO_EPS && self.z < NEAR_ZERO_EPS
    }

    /// Mirror reflection about the normal `n`: `v - 2 (v . n) n`.
    /// Meant for directions and normals of roughly unit length.
    pub fn reflect(self, n: Vec3) -> (r: Vec3)
        requires
            within(self, 0x2_0000),
            within(n, 0x2_0000),
        ensures
            r == spec_reflect(self, n),
            within(r, 0x100_0000),
    {
        let d: i64 = self.dot(n);
        proof {
            lemma_mul_bound(self.x as int, n.x as int, 0x2_0000, 0x2_0000);
            lemma_mul_bound(self.y as int, n.y as int, 0x2_0000, 0x2_0000);
            lemma_mul_bound(self.z as int, n.z as int, 0x2_0000, 0x2_0000);
            lemma_tdiv_bound(spec_dot_raw(self, n), FP_ONE as int, 0xC_0000);
        }
        let s: Vec3 = n.scale(2 * d);
        proof {
            lemma_mul_bound(n.x as int, 2 * d, 0x2_0000, 0x18_0000);
            lemma_mul_bound(n.y as int, 2 * d, 0x2_0000, 0x18_0000);
            lemma_mul_bound(n.z as int, 2 * d, 0x2_0000, 0x18_0000);
            lemma_tdiv_bound(n.x * (2 * d), FP_ONE as int, 0x3000_0000);
            lemma_tdiv_bound(n.y * (2 * d), FP_ONE as int, 0x3000_0000);
            lemma_tdiv_bound(n.z * (2 * d), FP_ONE as int, 0x3000_0000);
        }
        Vec3 { x: self.x - s.x, y: self.y - s.y, z: self.z - s.z }
    }

    /// Three independent uniform components in `[r_min, r_max)`.
    pub fn random(r_min: i64, r_max: i64) -> (r: Vec3)
        requires
            r_min < r_max,
            r_max - r_min <= i64::MAX,
        ensures
            r_min <= r.x < r_max && r_min <= r.y < r_max && r_min <= r.z < r_max,
    {
        Vec3 { x: rand_in(r_min, r_max), y: rand_in(r_min, r_max), z: rand_in(r_min, r_max) }
    }

    /// Rejection-sample a nonzero point strictly inside the unit ball.
    /// A draw is kept when its squared length is positive and below one;
    /// after a capped number of draws a fixed interior point stands in,
    /// so the sampler always terminates.
    pub fn random_in_unit_sphere() -> (r: Vec3)
        ensures
            0 < spec_dot_raw(r, r) < (FP_ONE as int) * (FP_ONE as int),
            within(r, FP_ONE as int),
    {
        let mut i: u64 = 0;
        while i < 64
            invariant
                i <= 64,
            decreases 64 - i,
        {
            let p: Vec3 = Vec3::random(-FP_ONE + 1, FP_ONE);
            proof {
                lemma_mul_bound(p.x as int, p.x as int, FP_ONE as int, FP_ONE as int);
                lemma_mul_bound(p.y as int, p.y as int, FP_ONE as int, FP_ONE as int);
                lemma_mul_bound(p.z as int, p.z as int, FP_ONE as int, FP_ONE as int);
            }
            let raw: i64 = p.x * p.x + p.y * p.y + p.z * p.z;
            if 0 < raw && raw < FP_ONE * FP_ONE {
                return p;
            }
            i = i + 1;
        }
        let fallback: Vec3 = Vec3 { x: FP_ONE / 2, y: 0, z: 0 };
        proof {
            assert(spec_dot_raw(fallback, fallback) == 32768 * 32768 + 0 * 0 + 0 * 0);
            assert(32768 * 32768 == 0x4000_0000) by (nonlinear_arith);
        }
        fallback
    }

    /// A random direction of roughly unit length: a ball sample, normalized.
    pub fn random_unit_vec() -> (r: Vec3)
        ensures
            within(r, FP_ONE as int),
            exists|v: Vec3|
                0 < spec_dot_raw(v, v) < (FP_ONE as int) * (FP_ONE as int) && r == spec_unit(v),
    {
        let p: Vec3 = Vec3::random_in_unit_sphere();
        let u: Vec3 = p.unit_vec();
        proof {
            assert(0 < spec_dot_raw(p, p) < (FP_ONE as int) * (FP_ONE as int) && u == spec_unit(
                p,
            ));
        }
        u
    }

    /// A ball sample on the same side of the surface as `normal`.
    pub fn random_in_hemisphere(normal: Vec3) -> (r: Vec3)
        requires
            within(normal, COORD_MAX as int),
        ensures
            within(r, FP_ONE as int),
            in_unit_ball(r),
            spec_dot(r, normal) >= 0,
    {
        let in_unit_sphere: Vec3 = Vec3::random_in_unit_sphere();
        let d: i64 = in_unit_sphere.dot(normal);
        if d > 0 {
            in_unit_sphere
        } else {
            let m: Vec3 = in_unit_sphere.neg();
            proof {
                assert(spec_dot_raw(m, m) == spec_dot_raw(in_unit_sphere, in_unit_sphere))
                    by (nonlinear_arith)
                    requires
                        m.x == -in_unit_sphere.x,
                        m.y == -in_unit_sphere.y,
                        m.z == -in_unit_sphere.z,
                ;
                assert(spec_dot_raw(m, normal) == -spec_dot_raw(in_unit_sphere, normal))
                    by (nonlinear_arith)
                    requires
                        m.x == -in_unit_sphere.x,
                        m.y == -in_unit_sphere.y,
                        m.z == -in_unit_sphere.z,
                ;
            }
            m
        }
    }

    /// Rejection-sample a point inside the unit disk in the lens plane
    /// (`z = 0`), for depth-of-field lens offsets; capped like the ball
    /// sampler, with the disk center standing in after the cap.
    pub fn random_in_untit_disk() -> (r: Vec3)
        ensures
            r.z == 0,
            0 <= spec_dot_raw(r, r) < (FP_ONE as int) * (FP_ONE as int),
            within(r, FP_ONE as int),
    {
        let mut i: u64 = 0;
        while i < 64
            invariant
                i <= 64,
            decreases 64 - i,
        {
            let x: i64 = rand_in(-FP_ONE + 1, FP_ONE);
            let y: i64 = rand_in(-FP_ONE + 1, FP_ONE);
            proof {
                lemma_mul_bound(x as int, x as int, FP_ONE as int, FP_ONE as int);
                lemma_mul_bound(y as int, y as int, FP_ONE as int, FP_ONE as int);
                assert(x * x >= 0 && y * y >= 0) by (nonlinear_arith);
            }
            let raw: i64 = x * x + y * y;
            if raw < FP_ONE * FP_ONE {
                return Vec3 { x, y, z: 0 };
            }
            i = i + 1;
        }
        Vec3 { x: 0, y: 0, z: 0 }
    }

    /// Snell refraction of the unit direction `uv` at a surface with
    /// normal `n` and refraction ratio `eta` (fixed point, at most 4.0).
    pub fn refract(uv: Vec3, n: Vec3, eta: i64) -> (r: Vec3)
        requires
            within(uv, 0x2_0000),
            within(n, 0x2_0000),
            0 <= eta <= 4 * FP_ONE,
        ensures
            ({
                let t = spec_refract(uv, n, eta as int);
                r.x == t.0 && r.y == t.1 && r.z == t.2
            }),
            within(r, 0x2100_0000),
    {
        let m: Vec3 = uv.neg();
        let mut cos_theta: i64 = m.dot(n);
        proof {
            lemma_mul_bound(m.x as int, n.x as int, 0x2_0000, 0x2_0000);
            lemma_mul_bound(m.y as int, n.y as int, 0x2_0000, 0x2_0000);
            lemma_mul_bound(m.z as int, n.z as int, 0x2_0000, 0x2_0000);
            lemma_tdiv_bound(spec_dot_raw(m, n), FP_ONE as int, 0xC_0000);
            assert(spec_dot_raw(m, n) == -spec_dot_raw(uv, n)) by (nonlinear_arith)
                requires
                    m.x == -uv.x && m.y == -uv.y && m.z == -uv.z,
            ;
        }
        if cos_theta > FP_ONE {
            cos_theta = FP_ONE;
        }
        let scaled_n: Vec3 = n.scale(cos_theta);
        proof {
            lemma_mul_bound(n.x as int, cos_theta as int, 0x2_0000, 0xC_0000);
            lemma_mul_bound(n.y as int, cos_theta as int, 0x2_0000, 0xC_0000);
            lemma_mul_bound(n.z as int, cos_theta as int, 0x2_0000, 0xC_0000);
            lemma_tdiv_bound(n.x * cos_theta, FP_ONE as int, 0x18_0000);
            lemma_tdiv_bound(n.y * cos_theta, FP_ONE as int, 0x18_0000);
            lemma_tdiv_bound(n.z * cos_theta, FP_ONE as int, 0x18_0000);
        }
        let term: Vec3 = uv.add(scaled_n);
        let r_out_perp: Vec3 = term.scale(eta);
        proof {
            lemma_mul_bound(term.x as int, eta as int, 0x1A_0000, 0x4_0000);
            lemma_mul_bound(term.y as int, eta as int, 0x1A_0000, 0x4_0000);
            lemma_mul_bound(term.z as int, eta as int, 0x1A_0000, 0x4_0000);
            lemma_tdiv_bound(term.x * eta, FP_ONE as int, 0x68_0000);
            lemma_tdiv_bound(term.y * eta, FP_ONE as int, 0x68_0000);
            lemma_tdiv_bound(term.z * eta, FP_ONE as int, 0x68_0000);
        }
        let ls: i64 = r_out_perp.length_squared();
        proof {
            lemma_mul_bound(r_out_perp.x as int, r_out_perp.x as int, 0x68_0000, 0x68_0000);
            lemma_mul_bound(r_out_perp.y as int, r_out_perp.y as int, 0x68_0000, 0x68_0000);
            lemma_mul_bound(r_out_perp.z as int, r_out_perp.z as int, 0x68_0000, 0x68_0000);
            lemma_tdiv_bound(spec_dot_raw(r_out_perp, r_out_perp), FP_ONE as int, 0x7EC0_0000);
        }
        let diff: i64 = FP_ONE - ls;
        let adiff: i64 = if diff >= 0 {
            diff
        } else {
            -diff
        };
        let sq: u64 = isqrt_u64((adiff * FP_ONE) as u64);
        proof {
            assert((sq as int) * (sq as int) <= (adiff as int) * (FP_ONE as int));
            assert((adiff as int) * (FP_ONE as int) <= 0x8000_0000 * (FP_ONE as int))
                by (nonlinear_arith)
                requires
                    0 <= adiff <= 0x8000_0000,
            ;
            assert(sq <= 0x100_0000) by (nonlinear_arith)
                requires
                    (sq as int) * (sq as int) <= 0x8000_0000 * (FP_ONE as int),
            ;
        }
        let sqv: i64 = sq as i64;
        let r_out_parallel: Vec3 = n.scale(-sqv);
        proof {
            lemma_mul_bound(n.x as int, -sqv as int, 0x2_0000, 0x100_0000);
            lemma_mul_bound(n.y as int, -sqv as int, 0x2_0000, 0x100_0000);
            lemma_mul_bound(n.z as int, -sqv as int, 0x2_0000, 0x100_0000);
            lemma_tdiv_bound(n.x * (-sqv), FP_ONE as int, 0x2000_0000);
            lemma_tdiv_bound(n.y * (-sqv), FP_ONE as int, 0x2000_0000);
            lemma_tdiv_bound(n.z * (-sqv), FP_ONE as int, 0x2000_0000);
        }
        r_out_perp.add(r_out_parallel)
    }
}

/// The componentwise difference as a value.
pub open spec fn spec_sub(a: Vec3, b: Vec3) -> Vec3 {
    Vec3 { x: (a.x - b.x) as i64, y: (a.y - b.y) as i64, z: (a.z - b.z) as i64 }
}

/// The scalar multiple as computed, rounding included.
pub open spec fn spec_scale(v: Vec3, k: int) -> Vec3 {
    Vec3 { x: fdiv(v.x * k) as i64, y: fdiv(v.y * k) as i64, z: fdiv(v.z * k) as i64 }
}

/// The cross product as computed, rounding included.
pub open spec fn spec_cross(a: Vec3, b: Vec3) -> Vec3 {
    Vec3 {
        x: fdiv(a.y * b.z - a.z * b.y) as i64,
        y: fdiv(a.z * b.x - a.x * b.z) as i64,
        z: fdiv(a.x * b.y - a.y * b.x) as i64,
    }
}

/// The unit vector formula as computed, rounding included.
pub open spec fn spec_unit(v: Vec3) -> Vec3 {
    let l = spec_length(v);
    Vec3 {
        x: tdiv(v.x * FP_ONE, l) as i64,
        y: tdiv(v.y * FP_ONE, l) as i64,
        z: tdiv(v.z * FP_ONE, l) as i64,
    }
}

/// The refraction formula as computed, rounding included: the
/// perpendicular part `eta (uv + cos n)` plus the parallel part
/// `-sqrt(|1 - |perp|^2|) n`, as an integer component triple.
pub open spec fn spec_refract(uv: Vec3, n: Vec3, eta: int) -> (int, int, int) {
    let cos0 = fdiv(-spec_dot_raw(uv, n));
    let cos = if cos0 > FP_ONE as int {
        FP_ONE as int
    } else {
        cos0
    };
    let px = fdiv((uv.x + fdiv(n.x * cos)) * eta);
    let py = fdiv((uv.y + fdiv(n.y * cos)) * eta);
    let pz = fdiv((uv.z + fdiv(n.z * cos)) * eta);
    let ls = fdiv(px * px + py * py + pz * pz);
    let diff = FP_ONE - ls;
    let adiff = if diff >= 0 {
        diff
    } else {
        -diff
    };
    let sq = sqrt_floor(adiff * FP_ONE);
    (px + fdiv(n.x * -sq), py + fdiv(n.y * -sq), pz + fdiv(n.z * -sq))
}

/// The reflection formula as computed, rounding included.
pub open spec fn spec_reflect(v: Vec3, n: Vec3) -> Vec3 {
    let d = spec_dot(v, n);
    Vec3 {
        x: (v.x - fdiv(n.x * (2 * d))) as i64,
        y: (v.y - fdiv(n.y * (2 * d))) as i64,
        z: (v.z - fdiv(n.z * (2 * d))) as i64,
    }
}

} // verus!
