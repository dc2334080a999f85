//! Material scattering models: diffuse, fuzzy specular, and refractive.
//!
//! The scattering policies form a closed set, so they are dispatched
//! over a tagged variant rather than trait objects.

use vstd::prelude::*;

use crate::fixed::{div_trunc, fdiv, fmul, isqrt_u64, lemma_mul_bound, lemma_tdiv_bound, rand_in, sqrt_floor, tdiv, FP_ONE};
use crate::hittable::HitRecord;
use crate::ray::Ray;
use crate::vec3::{in_unit_ball, spec_dot, spec_dot_raw, spec_near_zero, spec_reflect, spec_refract, spec_unit, within, Vec3, COORD_MAX};

verus! {

/// Diffuse: scatters about the normal, attenuated by its albedo.
#[derive(Copy, Clone, Debug)]
pub struct Lambertian {
    pub albedo: Vec3,
}

/// Fuzzy mirror: reflects, perturbed by `fuzz` times a ball sample.
#[derive(Copy, Clone, Debug)]
pub struct Metal {
    pub albedo: Vec3,
    pub fuzz: i64,
}

/// Refractive glass with index of refraction `ir`.
#[derive(Copy, Clone, Debug)]
pub struct Dielectric {
    pub ir: i64,
}

/// The closed set of scattering policies.
#[derive(Copy, Clone, Debug)]
pub enum Material {
    Lambertian(Lambertian),
    Metal(Metal),
    Dielectric(Dielectric),
}

/// Well-formed material parameters: albedo channels within one unit,
/// a nonnegative fuzz, and a refraction index between 0.25 and 4.
pub open spec fn mat_wf(m: Material) -> bool {
    match m {
        Material::Lambertian(l) => 0 <= l.albedo.x <= FP_ONE && 0 <= l.albedo.y <= FP_ONE && 0
            <= l.albedo.z <= FP_ONE,
        Material::Metal(mt) => 0 <= mt.albedo.x <= FP_ONE && 0 <= mt.albedo.y <= FP_ONE && 0
            <= mt.albedo.z <= FP_ONE && 0 <= mt.fuzz,
        Material::Dielectric(d) => FP_ONE / 4 <= d.ir <= 4 * FP_ONE,
    }
}

/// The diffuse scatter direction: the normal plus a unit sample, with
/// the normal itself standing in when the sum degenerates to zero.
pub open spec fn spec_lambertian_dir(normal: Vec3, u: Vec3) -> Vec3 {
    let s = Vec3 {
        x: (normal.x + u.x) as i64,
        y: (normal.y + u.y) as i64,
        z: (normal.z + u.z) as i64,
    };
    if spec_near_zero(s) {
        normal
    } else {
        s
    }
}

impl Lambertian {
    /// Diffuse scattering: always scatters, from the hit point, in the
    /// direction of the normal plus the normalized image of a random
    /// ball sample, and never with a degenerate (near-zero) direction;
    /// the attenuation is the albedo.
    pub fn scatter(&self, _r_in: &Ray, hit_rec: &HitRecord) -> (r: Option<(Ray, Vec3)>)
        requires
            within(hit_rec.normal, 2 * FP_ONE),
            !spec_near_zero(hit_rec.normal),
            within(hit_rec.p, 0x1000_0000),
        ensures
            r is Some,
            r matches Some((sc, att)) ==> att == self.albedo && sc.origin == hit_rec.p
                && !spec_near_zero(sc.dir) && within(sc.dir, 4 * FP_ONE),
            scatter_admissible(Material::Lambertian(*self), r, *_r_in, *hit_rec),
    {
        let u: Vec3 = Vec3::random_unit_vec();
        let mut scatter_direction: Vec3 = hit_rec.normal.add(u);
        if scatter_direction.near_zero() {
            scatter_direction = hit_rec.normal;
        }
        let scattered: Ray = Ray { origin: hit_rec.p, dir: scatter_direction };
        proof {
            let v = choose|v: Vec3|
                0 < spec_dot_raw(v, v) < (FP_ONE as int) * (FP_ONE as int) && u == spec_unit(v);
            assert(in_unit_ball(v));
            assert(scatter_direction == spec_lambertian_dir(hit_rec.normal, spec_unit(v)));
            assert(scatter_matches(
                Material::Lambertian(*self),
                Some((scattered, self.albedo)),
                *_r_in,
                *hit_rec,
                v,
                0,
            ));
        }
        Some((scattered, self.albedo))
    }
}

/// The metal scatter direction: the mirrored unit direction plus the
/// clamped fuzz times a ball sample.
pub open spec fn spec_metal_dir(dir_in: Vec3, normal: Vec3, fuzz: int, s: Vec3) -> Vec3 {
    let refl = spec_reflect(spec_unit(dir_in), normal);
    let f = if fuzz < FP_ONE as int {
        fuzz
    } else {
        FP_ONE as int
    };
    Vec3 {
        x: (refl.x + fdiv(s.x * f)) as i64,
        y: (refl.y + fdiv(s.y * f)) as i64,
        z: (refl.z + fdiv(s.z * f)) as i64,
    }
}

impl Metal {
    /// Specular scattering for a given ball sample `s`, fully
    /// deterministic: reflects the unit incoming direction about the
    /// normal and perturbs it by the fuzz factor (clamped to one)
    /// times `s`; the scatter is kept exactly when the result points
    /// out of the surface.
    pub fn scatter_with_sample(&self, r_in: &Ray, hit_rec: &HitRecord, s: Vec3) -> (r: Option<
        (Ray, Vec3),
    >)
        requires
            0 <= self.fuzz,
            within(hit_rec.normal, 2 * FP_ONE),
            within(hit_rec.p, 0x1000_0000),
            within(r_in.dir, COORD_MAX as int),
            spec_dot_raw(r_in.dir, r_in.dir) > 0,
            within(s, FP_ONE as int),
        ensures
            ({
                let d = spec_metal_dir(r_in.dir, hit_rec.normal, self.fuzz as int, s);
                ((r is Some) <==> spec_dot(d, hit_rec.normal) > 0) && (r matches Some((sc, att))
                    ==> att == self.albedo && sc.origin == hit_rec.p && sc.dir == d && within(
                    sc.dir,
                    0x200_0000,
                ))
            }),
            self.fuzz == 0 ==> (r matches Some((sc, att)) ==> sc.dir == spec_reflect(
                spec_unit(r_in.dir),
                hit_rec.normal,
            )),
            self.fuzz == 0 ==> ((r is Some) <==> spec_dot(
                spec_reflect(spec_unit(r_in.dir), hit_rec.normal),
                hit_rec.normal,
            ) > 0),
    {
        let unit_in: Vec3 = r_in.dir.unit_vec();
        let reflected: Vec3 = unit_in.reflect(hit_rec.normal);
        let f: i64 = if self.fuzz < FP_ONE {
            self.fuzz
        } else {
            FP_ONE
        };
        let fuzzed: Vec3 = s.scale(f);
        proof {
            lemma_mul_bound(s.x as int, f as int, FP_ONE as int, FP_ONE as int);
            lemma_mul_bound(s.y as int, f as int, FP_ONE as int, FP_ONE as int);
            lemma_mul_bound(s.z as int, f as int, FP_ONE as int, FP_ONE as int);
            lemma_tdiv_bound(s.x * f, FP_ONE as int, FP_ONE as int);
            lemma_tdiv_bound(s.y * f, FP_ONE as int, FP_ONE as int);
            lemma_tdiv_bound(s.z * f, FP_ONE as int, FP_ONE as int);
        }
        let dir: Vec3 = reflected.add(fuzzed);
        proof {
            assert(dir == spec_metal_dir(r_in.dir, hit_rec.normal, self.fuzz as int, s));
            if self.fuzz == 0 {
                assert(s.x * 0 == 0 && s.y * 0 == 0 && s.z * 0 == 0) by (nonlinear_arith);
                assert(fdiv(0) == 0);
                assert(dir == reflected);
            }
        }
        let d: i64 = dir.dot(hit_rec.normal);
        if d > 0 {
            Some((Ray { origin: hit_rec.p, dir }, self.albedo))
        } else {
            None
        }
    }

    /// Specular scattering: draws the perturbation uniformly from the
    /// unit ball and scatters deterministically from it; absorbed
    /// exactly when the perturbed mirror direction points into the
    /// surface.
    pub fn scatter(&self, r_in: &Ray, hit_rec: &HitRecord) -> (r: Option<(Ray, Vec3)>)
        requires
            0 <= self.fuzz,
            within(hit_rec.normal, 2 * FP_ONE),
            within(hit_rec.p, 0x1000_0000),
            within(r_in.dir, COORD_MAX as int),
            spec_dot_raw(r_in.dir, r_in.dir) > 0,
        ensures
            r matches Some((sc, att)) ==> att == self.albedo && sc.origin == hit_rec.p
                && spec_dot(sc.dir, hit_rec.normal) > 0 && within(sc.dir, 0x200_0000),
            scatter_admissible(Material::Metal(*self), r, *r_in, *hit_rec),
            self.fuzz == 0 ==> (r matches Some((sc, att)) ==> sc.dir == spec_reflect(
                spec_unit(r_in.dir),
                hit_rec.normal,
            )),
            self.fuzz == 0 ==> ((r is Some) <==> spec_dot(
                spec_reflect(spec_unit(r_in.dir), hit_rec.normal),
                hit_rec.normal,
            ) > 0),
    {
        let s: Vec3 = Vec3::random_in_unit_sphere();
        let r = self.scatter_with_sample(r_in, hit_rec, s);
        proof {
            assert(in_unit_ball(s));
            assert(scatter_matches(Material::Metal(*self), r, *r_in, *hit_rec, s, 0));
        }
        r
    }
}

/// The Schlick reflectance approximation as computed:
/// `r0 + (1 - r0) (1 - cos)^5` with `r0 = ((1 - ridx) / (1 + ridx))^2`.
pub open spec fn spec_reflectance(cos: int, ridx: int) -> int {
    let q = tdiv((FP_ONE - ridx) * FP_ONE, FP_ONE + ridx);
    let r0 = fdiv(q * q);
    let b = FP_ONE - cos;
    let b2 = fdiv(b * b);
    let b4 = fdiv(b2 * b2);
    let b5 = fdiv(b4 * b);
    r0 + fdiv((FP_ONE - r0) * b5)
}

/// The dielectric scatter direction for a given uniform draw `q`:
/// reflect on total internal reflection or when the Schlick
/// reflectance exceeds the draw, else refract.
pub open spec fn spec_dielectric_dir(ir: int, front_face: bool, u: Vec3, n: Vec3, q: int) -> (
    int,
    int,
    int,
) {
    let ratio = if front_face {
        tdiv((FP_ONE as int) * (FP_ONE as int), ir)
    } else {
        ir
    };
    let cos0 = fdiv(-spec_dot_raw(u, n));
    let cos1 = if cos0 > FP_ONE as int {
        FP_ONE as int
    } else {
        cos0
    };
    let cos = if cos1 < -FP_ONE as int {
        -FP_ONE as int
    } else {
        cos1
    };
    let sin = sqrt_floor((FP_ONE as int) * (FP_ONE as int) - cos * cos);
    if ratio * sin > (FP_ONE as int) * (FP_ONE as int) || spec_reflectance(cos, ratio) > q {
        let rf = spec_reflect(u, n);
        (rf.x as int, rf.y as int, rf.z as int)
    } else {
        spec_refract(u, n, ratio)
    }
}

/// The direction `d` is the dielectric scatter direction for draw `q`.
pub open spec fn dielectric_dir_matches(
    d: Vec3,
    ir: int,
    front_face: bool,
    u: Vec3,
    n: Vec3,
    q: int,
) -> bool {
    let t = spec_dielectric_dir(ir, front_face, u, n, q);
    d.x == t.0 && d.y == t.1 && d.z == t.2
}

/// The scatter result `r` is the outcome the material's policy
/// determines from the incoming ray, the hit, the ball sample `s` and
/// the uniform draw `q`: each variant's direction formula, origin at
/// the hit point, and the variant's attenuation. Lambertian and
/// dielectric materials always scatter; a metal scatters exactly when
/// the perturbed mirror direction points out of the surface.
pub open spec fn scatter_matches(
    m: Material,
    r: Option<(Ray, Vec3)>,
    r_in: Ray,
    rec: HitRecord,
    s: Vec3,
    q: int,
) -> bool {
    match m {
        Material::Lambertian(l) => if r is Some {
            let (sc, att) = r.unwrap();
            att == l.albedo && sc.origin == rec.p && sc.dir == spec_lambertian_dir(
                rec.normal,
                spec_unit(s),
            )
        } else {
            false
        },
        Material::Metal(mt) => {
            let d = spec_metal_dir(r_in.dir, rec.normal, mt.fuzz as int, s);
            if r is Some {
                let (sc, att) = r.unwrap();
                spec_dot(d, rec.normal) > 0 && att == mt.albedo && sc.origin == rec.p && sc.dir
                    == d
            } else {
                spec_dot(d, rec.normal) <= 0
            }
        },
        Material::Dielectric(dl) => if r is Some {
            let (sc, att) = r.unwrap();
            let t = spec_dielectric_dir(
                dl.ir as int,
                rec.front_face,
                spec_unit(r_in.dir),
                rec.normal,
                q,
            );
            att == (Vec3 { x: FP_ONE, y: FP_ONE, z: FP_ONE }) && sc.origin == rec.p && sc.dir.x
                == t.0 && sc.dir.y == t.1 && sc.dir.z == t.2
        } else {
            false
        },
    }
}

/// The scatter result `r` is an admissible outcome of the material's
/// policy: some ball sample and uniform draw determine exactly `r`.
pub open spec fn scatter_admissible(
    m: Material,
    r: Option<(Ray, Vec3)>,
    r_in: Ray,
    rec: HitRecord,
) -> bool {
    exists|s: Vec3, q: int|
        in_unit_ball(s) && 0 <= q < FP_ONE && #[trigger] scatter_matches(m, r, r_in, rec, s, q)
}

impl Dielectric {
    /// The Schlick polynomial approximation of the Fresnel reflectance.
    fn reflectance(cosine: i64, ref_idx: i64) -> (r: i64)
        requires
            0 <= ref_idx <= 4 * FP_ONE,
            -FP_ONE <= cosine <= FP_ONE,
        ensures
            r == spec_reflectance(cosine as int, ref_idx as int),
            -0x7fff_ffff <= r <= 0x7fff_ffff,
    {
        proof {
            lemma_mul_bound(FP_ONE - ref_idx as int, FP_ONE as int, 196608, 65536);
            assert(-((FP_ONE + ref_idx as int) * 196608) <= (FP_ONE - ref_idx) * FP_ONE <= (FP_ONE
                + ref_idx as int) * 196608) by (nonlinear_arith)
                requires
                    0 <= ref_idx <= 4 * FP_ONE,
                    -(196608 * 65536) <= (FP_ONE - ref_idx) * FP_ONE <= 196608 * 65536,
            ;
            lemma_tdiv_bound((FP_ONE - ref_idx) * FP_ONE, FP_ONE + ref_idx as int, 196608);
        }
        let q: i64 = div_trunc((FP_ONE - ref_idx) * FP_ONE, FP_ONE + ref_idx);
        proof {
            lemma_mul_bound(q as int, q as int, 196608, 196608);
            lemma_tdiv_bound(q * q, FP_ONE as int, 589824);
        }
        let r0: i64 = fmul(q, q);
        let b: i64 = FP_ONE - cosine;
        proof {
            lemma_mul_bound(b as int, b as int, 131072, 131072);
            lemma_tdiv_bound(b * b, FP_ONE as int, 262144);
        }
        let b2: i64 = fmul(b, b);
        proof {
            lemma_mul_bound(b2 as int, b2 as int, 262144, 262144);
            lemma_tdiv_bound(b2 * b2, FP_ONE as int, 1048576);
        }
        let b4: i64 = fmul(b2, b2);
        proof {
            lemma_mul_bound(b4 as int, b as int, 1048576, 131072);
            lemma_tdiv_bound(b4 * b, FP_ONE as int, 2097152);
        }
        let b5: i64 = fmul(b4, b);
        proof {
            lemma_mul_bound(FP_ONE - r0 as int, b5 as int, 655360, 2097152);
            lemma_tdiv_bound((FP_ONE - r0) * b5, FP_ONE as int, 20971520);
        }
        r0 + fmul(FP_ONE - r0, b5)
    }
}

impl Dielectric {
    /// Refractive scattering for a given uniform draw `q`, fully
    /// deterministic: the unit incoming direction reflects on total
    /// internal reflection or when the Schlick reflectance exceeds
    /// `q`, and refracts otherwise, with the ratio `1 / ir` outside
    /// the surface and `ir` inside; the attenuation is opaque white.
    #[verifier::rlimit(60)]
    pub fn scatter_with_draw(&self, r_in: &Ray, hit_rec: &HitRecord, q: i64) -> (r: Option<
        (Ray, Vec3),
    >)
        requires
            FP_ONE / 4 <= self.ir <= 4 * FP_ONE,
            within(hit_rec.normal, 2 * FP_ONE),
            within(hit_rec.p, 0x1000_0000),
            within(r_in.dir, COORD_MAX as int),
            spec_dot_raw(r_in.dir, r_in.dir) > 0,
            0 <= q < FP_ONE,
        ensures
            r is Some,
            r matches Some((sc, att)) ==> att == (Vec3 { x: FP_ONE, y: FP_ONE, z: FP_ONE })
                && sc.origin == hit_rec.p && within(sc.dir, 0x2100_0000)
                && dielectric_dir_matches(
                sc.dir,
                self.ir as int,
                hit_rec.front_face,
                spec_unit(r_in.dir),
                hit_rec.normal,
                q as int,
            ),
    {
        let attenuation: Vec3 = Vec3 { x: FP_ONE, y: FP_ONE, z: FP_ONE };
        let refraction_ratio: i64 = if hit_rec.front_face {
            proof {
                assert((FP_ONE as int) * (FP_ONE as int) <= (self.ir as int) * (4 * FP_ONE))
                    by (nonlinear_arith)
                    requires
                        FP_ONE / 4 <= self.ir,
                ;
                lemma_tdiv_bound(
                    (FP_ONE as int) * (FP_ONE as int),
                    self.ir as int,
                    4 * FP_ONE,
                );
                assert(tdiv((FP_ONE as int) * (FP_ONE as int), self.ir as int) >= 0)
                    by (nonlinear_arith)
                    requires
                        self.ir >= 1,
                ;
            }
            div_trunc(FP_ONE * FP_ONE, self.ir)
        } else {
            self.ir
        };
        let unit_direction: Vec3 = r_in.dir.unit_vec();
        let m: Vec3 = unit_direction.neg();
        let mut cos_theta: i64 = m.dot(hit_rec.normal);
        proof {
            lemma_mul_bound(m.x as int, hit_rec.normal.x as int, FP_ONE as int, 2 * FP_ONE);
            lemma_mul_bound(m.y as int, hit_rec.normal.y as int, FP_ONE as int, 2 * FP_ONE);
            lemma_mul_bound(m.z as int, hit_rec.normal.z as int, FP_ONE as int, 2 * FP_ONE);
            lemma_tdiv_bound(spec_dot_raw(m, hit_rec.normal), FP_ONE as int, 6 * FP_ONE);
            assert(spec_dot_raw(m, hit_rec.normal) == -spec_dot_raw(unit_direction, hit_rec.normal))
                by (nonlinear_arith)
                requires
                    m.x == -unit_direction.x && m.y == -unit_direction.y && m.z
                        == -unit_direction.z,
            ;
        }
        if cos_theta > FP_ONE {
            cos_theta = FP_ONE;
        }
        // keep the square-root argument nonnegative under rounding
        if cos_theta < -FP_ONE {
            cos_theta = -FP_ONE;
        }
        proof {
            lemma_mul_bound(cos_theta as int, cos_theta as int, FP_ONE as int, FP_ONE as int);
            assert(cos_theta * cos_theta >= 0) by (nonlinear_arith);
        }
        let sin_sq: i64 = FP_ONE * FP_ONE - cos_theta * cos_theta;
        let sinw: u64 = isqrt_u64(sin_sq as u64);
        proof {
            assert((sinw as int) * (sinw as int) <= sin_sq as int);
            assert(sinw <= FP_ONE) by (nonlinear_arith)
                requires
                    (sinw as int) * (sinw as int) <= (FP_ONE as int) * (FP_ONE as int),
            ;
        }
        let sin_theta: i64 = sinw as i64;
        proof {
            lemma_mul_bound(refraction_ratio as int, sin_theta as int, 4 * FP_ONE, FP_ONE as int);
        }
        let cannot_refract: bool = refraction_ratio * sin_theta > FP_ONE * FP_ONE;
        let refl: i64 = Dielectric::reflectance(cos_theta, refraction_ratio);
        let direction: Vec3 = if cannot_refract || refl > q {
            unit_direction.reflect(hit_rec.normal)
        } else {
            Vec3::refract(unit_direction, hit_rec.normal, refraction_ratio)
        };
        let scattered: Ray = Ray { origin: hit_rec.p, dir: direction };
        proof {
            assert(dielectric_dir_matches(
                scattered.dir,
                self.ir as int,
                hit_rec.front_face,
                spec_unit(r_in.dir),
                hit_rec.normal,
                q as int,
            ));
        }
        Some((scattered, attenuation))
    }

    /// Refractive scattering: draws the reflect-or-refract decision
    /// uniformly and scatters deterministically from it.
    pub fn scatter(&self, r_in: &Ray, hit_rec: &HitRecord) -> (r: Option<(Ray, Vec3)>)
        requires
            FP_ONE / 4 <= self.ir <= 4 * FP_ONE,
            within(hit_rec.normal, 2 * FP_ONE),
            within(hit_rec.p, 0x1000_0000),
            within(r_in.dir, COORD_MAX as int),
            spec_dot_raw(r_in.dir, r_in.dir) > 0,
        ensures
            r is Some,
            r matches Some((sc, att)) ==> att == (Vec3 { x: FP_ONE, y: FP_ONE, z: FP_ONE })
                && sc.origin == hit_rec.p && within(sc.dir, 0x2100_0000),
            scatter_admissible(Material::Dielectric(*self), r, *r_in, *hit_rec),
    {
        let q: i64 = rand_in(0, FP_ONE);
        let r = self.scatter_with_draw(r_in, hit_rec, q);
        proof {
            let ball: Vec3 = Vec3 { x: 32768, y: 0, z: 0 };
            assert(spec_dot_raw(ball, ball) == 32768 * 32768 + 0 * 0 + 0 * 0);
            assert(32768 * 32768 == 0x4000_0000) by (nonlinear_arith);
            assert(in_unit_ball(ball));
            assert(scatter_matches(
                Material::Dielectric(*self),
                r,
                *r_in,
                *hit_rec,
                ball,
                q as int,
            ));
        }
        r
    }
}

impl Material {
    /// Dispatch to the variant's scattering policy: an admissible
    /// scattered ray from the hit point with a bounded attenuation
    /// color, or (for a metal only) absorption.
    pub fn scatter(&self, r_in: &Ray, hit_rec: &HitRecord) -> (r: Option<(Ray, Vec3)>)
        requires
            mat_wf(*self),
            within(hit_rec.normal, 2 * FP_ONE),
            !spec_near_zero(hit_rec.normal),
            within(hit_rec.p, 0x1000_0000),
            within(r_in.dir, COORD_MAX as int),
            spec_dot_raw(r_in.dir, r_in.dir) > 0,
        ensures
            r matches Some((sc, att)) ==> sc.origin == hit_rec.p && within(sc.dir, 0x2100_0000)
                && 0 <= att.x <= FP_ONE && 0 <= att.y <= FP_ONE && 0 <= att.z <= FP_ONE,
            scatter_admissible(*self, r, *r_in, *hit_rec),
            !(self is Metal) ==> r is Some,
    {
        match self {
            Material::Lambertian(l) => l.scatter(r_in, hit_rec),
            Material::Metal(mt) => mt.scatter(r_in, hit_rec),
            Material::Dielectric(d) => d.scatter(r_in, hit_rec),
        }
    }
}

} // verus!
