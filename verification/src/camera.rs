//! The camera: precomputed viewport basis vectors and a lens radius,
//! turning normalized screen coordinates into world-space rays with
//! depth-of-field jitter.

use vstd::prelude::*;

use crate::fixed::{div_trunc, fdiv, lemma_mul_bound, lemma_tdiv_bound, tdiv, FP_ONE};
use crate::ray::Ray;
use crate::vec3::{
    spec_cross, spec_dot_raw, spec_scale, spec_sub, spec_unit, within, Vec3, COORD_MAX,
};

verus! {

/// Derived, immutable viewing geometry: the ray origin, the lower-left
/// viewport corner, the viewport extents, the orthonormal-ish basis
/// `u, v, w`, and the lens radius.
pub struct Camera {
    pub origin: Vec3,
    pub lower_left_corner: Vec3,
    pub horizontal: Vec3,
    pub vertical: Vec3,
    pub u: Vec3,
    pub v: Vec3,
    pub w: Vec3,
    pub lens_radius: i64,
}

/// Field bounds under which ray generation is free of overflow;
/// established by construction.
pub open spec fn camera_wf(c: Camera) -> bool {
    within(c.origin, 0x100_0000) && within(c.lower_left_corner, 0x800_0000) && within(
        c.horizontal,
        0x800_0000,
    ) && within(c.vertical, 0x800_0000) && within(c.u, 0x2_0000) && within(c.v, 0x4_0000) && within(
        c.w,
        0x2_0000,
    ) && 0 <= c.lens_radius <= 0x8_0000
}

/// The ray `r` is the camera ray that the viewing geometry determines
/// from screen coordinate `(s, t)` and lens sample `rd`: the origin
/// shifted by the lens offset in the `u, v` plane, aimed at the
/// viewport point `lower_left + s * horizontal + t * vertical`.
pub open spec fn camera_ray_matches(c: Camera, s: int, t: int, rd: Vec3, r: Ray) -> bool {
    r.origin.x == c.origin.x + fdiv(c.u.x * fdiv(rd.x * c.lens_radius)) + fdiv(
        c.v.x * fdiv(rd.y * c.lens_radius),
    ) && r.origin.y == c.origin.y + fdiv(c.u.y * fdiv(rd.x * c.lens_radius)) + fdiv(
        c.v.y * fdiv(rd.y * c.lens_radius),
    ) && r.origin.z == c.origin.z + fdiv(c.u.z * fdiv(rd.x * c.lens_radius)) + fdiv(
        c.v.z * fdiv(rd.y * c.lens_radius),
    ) && r.dir.x == c.lower_left_corner.x + fdiv(c.horizontal.x * s) + fdiv(c.vertical.x * t)
        - r.origin.x && r.dir.y == c.lower_left_corner.y + fdiv(c.horizontal.y * s) + fdiv(
        c.vertical.y * t,
    ) - r.origin.y && r.dir.z == c.lower_left_corner.z + fdiv(c.horizontal.z * s) + fdiv(
        c.vertical.z * t,
    ) - r.origin.z
}

impl Camera {
    /// Build the viewing geometry from the look-from and look-at
    /// points, the up vector, the tangent of half the vertical field
    /// of view, the aspect ratio, the aperture, and the focus
    /// distance. The two points must differ and the up vector must not
    /// be parallel to the viewing direction.
    pub fn new(
        lookfrom: Vec3,
        lookat: Vec3,
        vup: Vec3,
        tan_half_vfov: i64,
        aspect_ratio: i64,
        aperture: i64,
        focus_dist: i64,
    ) -> (r: Camera)
        requires
            within(lookfrom, 0x100_0000),
            within(lookat, 0x100_0000),
            within(vup, 0x10_0000),
            0 < tan_half_vfov <= 0x2_0000,
            0 < aspect_ratio <= 0x4_0000,
            0 <= aperture <= 0x10_0000,
            0 < focus_dist <= 0x40_0000,
            spec_dot_raw(spec_sub(lookfrom, lookat), spec_sub(lookfrom, lookat)) > 0,
            spec_dot_raw(
                spec_cross(vup, spec_unit(spec_sub(lookfrom, lookat))),
                spec_cross(vup, spec_unit(spec_sub(lookfrom, lookat))),
            ) > 0,
        ensures
            camera_wf(r),
            r.origin == lookfrom,
            r.lens_radius == tdiv(aperture as int, 2),
            ({
                let w = spec_unit(spec_sub(lookfrom, lookat));
                let u = spec_unit(spec_cross(vup, w));
                let v = spec_cross(w, u);
                let vh = 2 * tan_half_vfov;
                let vw = fdiv(aspect_ratio * vh);
                r.w == w && r.u == u && r.v == v && r.horizontal == spec_scale(
                    u,
                    fdiv(focus_dist * vw),
                ) && r.vertical == spec_scale(v, fdiv(focus_dist * vh)) && r.lower_left_corner
                    == spec_sub(
                    spec_sub(
                        spec_sub(lookfrom, spec_scale(r.horizontal, FP_ONE / 2)),
                        spec_scale(r.vertical, FP_ONE / 2),
                    ),
                    spec_scale(w, focus_dist as int),
                )
            }),
    {
        let viewport_height: i64 = 2 * tan_half_vfov;
        proof {
            lemma_mul_bound(aspect_ratio as int, viewport_height as int, 0x4_0000, 0x4_0000);
            lemma_tdiv_bound(aspect_ratio * viewport_height, FP_ONE as int, 0x10_0000);
        }
        let viewport_width: i64 = crate::fixed::fmul(aspect_ratio, viewport_height);
        let w: Vec3 = lookfrom.sub(lookat).unit_vec();
        let cu: Vec3 = vup.cross(w);
        proof {
            lemma_mul_bound(vup.y as int, w.z as int, 0x10_0000, 0x1_0000);
            lemma_mul_bound(vup.z as int, w.y as int, 0x10_0000, 0x1_0000);
            lemma_mul_bound(vup.z as int, w.x as int, 0x10_0000, 0x1_0000);
            lemma_mul_bound(vup.x as int, w.z as int, 0x10_0000, 0x1_0000);
            lemma_mul_bound(vup.x as int, w.y as int, 0x10_0000, 0x1_0000);
            lemma_mul_bound(vup.y as int, w.x as int, 0x10_0000, 0x1_0000);
            lemma_tdiv_bound(vup.y * w.z - vup.z * w.y, FP_ONE as int, 0x20_0000);
            lemma_tdiv_bound(vup.z * w.x - vup.x * w.z, FP_ONE as int, 0x20_0000);
            lemma_tdiv_bound(vup.x * w.y - vup.y * w.x, FP_ONE as int, 0x20_0000);
        }
        let u: Vec3 = cu.unit_vec();
        let v: Vec3 = w.cross(u);
        proof {
            lemma_mul_bound(w.y as int, u.z as int, 0x1_0000, 0x1_0000);
            lemma_mul_bound(w.z as int, u.y as int, 0x1_0000, 0x1_0000);
            lemma_mul_bound(w.z as int, u.x as int, 0x1_0000, 0x1_0000);
            lemma_mul_bound(w.x as int, u.z as int, 0x1_0000, 0x1_0000);
            lemma_mul_bound(w.x as int, u.y as int, 0x1_0000, 0x1_0000);
            lemma_mul_bound(w.y as int, u.x as int, 0x1_0000, 0x1_0000);
            lemma_tdiv_bound(w.y * u.z - w.z * u.y, FP_ONE as int, 0x2_0000);
            lemma_tdiv_bound(w.z * u.x - w.x * u.z, FP_ONE as int, 0x2_0000);
            lemma_tdiv_bound(w.x * u.y - w.y * u.x, FP_ONE as int, 0x2_0000);
        }
        proof {
            lemma_mul_bound(focus_dist as int, viewport_width as int, 0x40_0000, 0x10_0000);
            lemma_tdiv_bound(focus_dist * viewport_width, FP_ONE as int, 0x400_0000);
            lemma_mul_bound(focus_dist as int, viewport_height as int, 0x40_0000, 0x4_0000);
            lemma_tdiv_bound(focus_dist * viewport_height, FP_ONE as int, 0x100_0000);
        }
        let kh: i64 = crate::fixed::fmul(focus_dist, viewport_width);
        let kv: i64 = crate::fixed::fmul(focus_dist, viewport_height);
        let horizontal: Vec3 = u.scale(kh);
        proof {
            lemma_mul_bound(u.x as int, kh as int, 0x1_0000, 0x400_0000);
            lemma_mul_bound(u.y as int, kh as int, 0x1_0000, 0x400_0000);
            lemma_mul_bound(u.z as int, kh as int, 0x1_0000, 0x400_0000);
            lemma_tdiv_bound(u.x * kh, FP_ONE as int, 0x400_0000);
            lemma_tdiv_bound(u.y * kh, FP_ONE as int, 0x400_0000);
            lemma_tdiv_bound(u.z * kh, FP_ONE as int, 0x400_0000);
        }
        let vertical: Vec3 = v.scale(kv);
        proof {
            lemma_mul_bound(v.x as int, kv as int, 0x2_0000, 0x100_0000);
            lemma_mul_bound(v.y as int, kv as int, 0x2_0000, 0x100_0000);
            lemma_mul_bound(v.z as int, kv as int, 0x2_0000, 0x100_0000);
            lemma_tdiv_bound(v.x * kv, FP_ONE as int, 0x200_0000);
            lemma_tdiv_bound(v.y * kv, FP_ONE as int, 0x200_0000);
            lemma_tdiv_bound(v.z * kv, FP_ONE as int, 0x200_0000);
        }
        let half_h: Vec3 = horizontal.scale(FP_ONE / 2);
        let half_v: Vec3 = vertical.scale(FP_ONE / 2);
        let wf: Vec3 = w.scale(focus_dist);
        proof {
            lemma_mul_bound(horizontal.x as int, 32768, 0x400_0000, 32768);
            lemma_mul_bound(horizontal.y as int, 32768, 0x400_0000, 32768);
            lemma_mul_bound(horizontal.z as int, 32768, 0x400_0000, 32768);
            lemma_tdiv_bound(horizontal.x * 32768, FP_ONE as int, 0x200_0000);
            lemma_tdiv_bound(horizontal.y * 32768, FP_ONE as int, 0x200_0000);
            lemma_tdiv_bound(horizontal.z * 32768, FP_ONE as int, 0x200_0000);
            lemma_mul_bound(vertical.x as int, 32768, 0x200_0000, 32768);
            lemma_mul_bound(vertical.y as int, 32768, 0x200_0000, 32768);
            lemma_mul_bound(vertical.z as int, 32768, 0x200_0000, 32768);
            lemma_tdiv_bound(vertical.x * 32768, FP_ONE as int, 0x100_0000);
            lemma_tdiv_bound(vertical.y * 32768, FP_ONE as int, 0x100_0000);
            lemma_tdiv_bound(vertical.z * 32768, FP_ONE as int, 0x100_0000);
            lemma_mul_bound(w.x as int, focus_dist as int, 0x1_0000, 0x40_0000);
            lemma_mul_bound(w.y as int, focus_dist as int, 0x1_0000, 0x40_0000);
            lemma_mul_bound(w.z as int, focus_dist as int, 0x1_0000, 0x40_0000);
            lemma_tdiv_bound(w.x * focus_dist, FP_ONE as int, 0x40_0000);
            lemma_tdiv_bound(w.y * focus_dist, FP_ONE as int, 0x40_0000);
            lemma_tdiv_bound(w.z * focus_dist, FP_ONE as int, 0x40_0000);
        }
        let lower_left_corner: Vec3 = lookfrom.sub(half_h).sub(half_v).sub(wf);
        let lens_radius: i64 = div_trunc(aperture, 2);
        proof {
            lemma_tdiv_bound(aperture as int, 2, 0x8_0000);
        }
        Camera { origin: lookfrom, lower_left_corner, horizontal, vertical, u, v, w, lens_radius }
    }

    /// The camera ray for a given screen coordinate and lens offset:
    /// the origin shifted by the offset in the `u, v` plane, aimed at
    /// the viewport point `lower_left + s * horizontal + t * vertical`.
    pub fn ray_with_offset(&self, s: i64, t: i64, rd: Vec3) -> (r: Ray)
        requires
            camera_wf(*self),
            0 <= s <= 2 * FP_ONE,
            0 <= t <= 2 * FP_ONE,
            within(rd, FP_ONE as int),
            rd.z == 0,
        ensures
            camera_ray_matches(*self, s as int, t as int, rd, r),
            r.origin.x + r.dir.x == self.lower_left_corner.x + fdiv(self.horizontal.x * s) + fdiv(
                self.vertical.x * t,
            ),
            r.origin.y + r.dir.y == self.lower_left_corner.y + fdiv(self.horizontal.y * s) + fdiv(
                self.vertical.y * t,
            ),
            r.origin.z + r.dir.z == self.lower_left_corner.z + fdiv(self.horizontal.z * s) + fdiv(
                self.vertical.z * t,
            ),
            self.lens_radius == 0 ==> r.origin == self.origin,
            within(r.origin, 0x1000_0000),
            within(r.dir, 0x3000_0000),
    {
        proof {
            lemma_mul_bound(rd.x as int, self.lens_radius as int, 0x1_0000, 0x8_0000);
            lemma_mul_bound(rd.y as int, self.lens_radius as int, 0x1_0000, 0x8_0000);
            lemma_tdiv_bound(rd.x * self.lens_radius, FP_ONE as int, 0x8_0000);
            lemma_tdiv_bound(rd.y * self.lens_radius, FP_ONE as int, 0x8_0000);
        }
        let rdx: i64 = crate::fixed::fmul(rd.x, self.lens_radius);
        let rdy: i64 = crate::fixed::fmul(rd.y, self.lens_radius);
        let ou: Vec3 = self.u.scale(rdx);
        let ov: Vec3 = self.v.scale(rdy);
        proof {
            lemma_mul_bound(self.u.x as int, rdx as int, 0x2_0000, 0x8_0000);
            lemma_mul_bound(self.u.y as int, rdx as int, 0x2_0000, 0x8_0000);
            lemma_mul_bound(self.u.z as int, rdx as int, 0x2_0000, 0x8_0000);
            lemma_tdiv_bound(self.u.x * rdx, FP_ONE as int, 0x10_0000);
            lemma_tdiv_bound(self.u.y * rdx, FP_ONE as int, 0x10_0000);
            lemma_tdiv_bound(self.u.z * rdx, FP_ONE as int, 0x10_0000);
            lemma_mul_bound(self.v.x as int, rdy as int, 0x4_0000, 0x8_0000);
            lemma_mul_bound(self.v.y as int, rdy as int, 0x4_0000, 0x8_0000);
            lemma_mul_bound(self.v.z as int, rdy as int, 0x4_0000, 0x8_0000);
            lemma_tdiv_bound(self.v.x * rdy, FP_ONE as int, 0x20_0000);
            lemma_tdiv_bound(self.v.y * rdy, FP_ONE as int, 0x20_0000);
            lemma_tdiv_bound(self.v.z * rdy, FP_ONE as int, 0x20_0000);
        }
        let offset: Vec3 = ou.add(ov);
        proof {
            if self.lens_radius == 0 {
                assert(rd.x * 0 == 0 && rd.y * 0 == 0) by (nonlinear_arith);
                assert(fdiv(0) == 0);
                assert(self.u.x * 0 == 0 && self.u.y * 0 == 0 && self.u.z * 0 == 0 && self.v.x * 0
                    == 0 && self.v.y * 0 == 0 && self.v.z * 0 == 0) by (nonlinear_arith);
                assert(offset == (Vec3 { x: 0, y: 0, z: 0 }));
            }
        }
        let origin: Vec3 = self.origin.add(offset);
        let sh: Vec3 = self.horizontal.scale(s);
        let tv: Vec3 = self.vertical.scale(t);
        proof {
            lemma_mul_bound(self.horizontal.x as int, s as int, 0x800_0000, 0x2_0000);
            lemma_mul_bound(self.horizontal.y as int, s as int, 0x800_0000, 0x2_0000);
            lemma_mul_bound(self.horizontal.z as int, s as int, 0x800_0000, 0x2_0000);
            lemma_tdiv_bound(self.horizontal.x * s, FP_ONE as int, 0x1000_0000);
            lemma_tdiv_bound(self.horizontal.y * s, FP_ONE as int, 0x1000_0000);
            lemma_tdiv_bound(self.horizontal.z * s, FP_ONE as int, 0x1000_0000);
            lemma_mul_bound(self.vertical.x as int, t as int, 0x800_0000, 0x2_0000);
            lemma_mul_bound(self.vertical.y as int, t as int, 0x800_0000, 0x2_0000);
            lemma_mul_bound(self.vertical.z as int, t as int, 0x800_0000, 0x2_0000);
            lemma_tdiv_bound(self.vertical.x * t, FP_ONE as int, 0x1000_0000);
            lemma_tdiv_bound(self.vertical.y * t, FP_ONE as int, 0x1000_0000);
            lemma_tdiv_bound(self.vertical.z * t, FP_ONE as int, 0x1000_0000);
        }
        let dir: Vec3 = self.lower_left_corner.add(sh).add(tv).sub(origin);
        Ray { origin, dir }
    }

    /// The camera ray for screen coordinate `(s, t)`: the lens offset
    /// is drawn uniformly from the unit disk, which produces the
    /// depth-of-field blur. The focal-plane target `lower_left + s *
    /// horizontal + t * vertical` is reached at unit parameter
    /// whatever the lens draw, and with a zero lens radius the ray is
    /// fully deterministic.
    pub fn get_ray(&self, s: i64, t: i64) -> (r: Ray)
        requires
            camera_wf(*self),
            0 <= s <= 2 * FP_ONE,
            0 <= t <= 2 * FP_ONE,
        ensures
            exists|rd: Vec3|
                rd.z == 0 && 0 <= spec_dot_raw(rd, rd) < (FP_ONE as int) * (FP_ONE as int)
                    && #[trigger] camera_ray_matches(*self, s as int, t as int, rd, r),
            r.origin.x + r.dir.x == self.lower_left_corner.x + fdiv(self.horizontal.x * s) + fdiv(
                self.vertical.x * t,
            ),
            r.origin.y + r.dir.y == self.lower_left_corner.y + fdiv(self.horizontal.y * s) + fdiv(
                self.vertical.y * t,
            ),
            r.origin.z + r.dir.z == self.lower_left_corner.z + fdiv(self.horizontal.z * s) + fdiv(
                self.vertical.z * t,
            ),
            self.lens_radius == 0 ==> r.origin == self.origin,
            within(r.origin, 0x1000_0000),
            within(r.dir, 0x3000_0000),
    {
        let rd: Vec3 = Vec3::random_in_untit_disk();
        let r = self.ray_with_offset(s, t, rd);
        proof {
            assert(camera_ray_matches(*self, s as int, t as int, rd, r));
        }
        r
    }
}

} // verus!
