//! The recursive radiance estimator, per-pixel Monte Carlo sampling,
//! and the gamma-corrected mapping into 8-bit channels.

use vstd::prelude::*;

use crate::camera::{camera_ray_matches, camera_wf, Camera};
use crate::fixed::{
    div_trunc, fdiv, fmul, isqrt_u64, lemma_mul_bound, lemma_sqrt_floor, lemma_sqrt_square,
    lemma_tdiv_bound, rand_in, sqrt_floor, tdiv, FP_ONE,
};
use crate::hittable::{list_wf, spec_list_hit, HitRecord, HittableList};
use crate::laws::lemma_tdiv_exact;
use crate::material::scatter_matches;
use crate::ray::Ray;
use crate::sphere::Sphere;
use crate::vec3::{in_unit_ball, spec_dot_raw, spec_near_zero, spec_unit, within, Vec3};

verus! {

/// The lower intersection bound: just above zero, so a scattered ray
/// does not immediately re-hit its own surface (shadow acne).
pub const T_MIN_EPSILON: i64 = 66;

/// The upper intersection bound standing in for an unbounded search:
/// farther than any representable scene point.
pub const T_MAX_FAR: i64 = 0x4000_0000;

/// The sky color at `y` fraction `t`: white blended toward sky blue.
pub open spec fn spec_sky(t: int) -> Vec3 {
    Vec3 {
        x: (fdiv(FP_ONE * (FP_ONE - t)) + fdiv(32768 * t)) as i64,
        y: (fdiv(FP_ONE * (FP_ONE - t)) + fdiv(45875 * t)) as i64,
        z: (fdiv(FP_ONE * (FP_ONE - t)) + fdiv(FP_ONE * t)) as i64,
    }
}

/// The hit record lies within the scattering margins: the degeneracy
/// guard of the estimator. Rounding keeps real hits far inside these
/// margins; a record outside them is treated as absorbed.
pub open spec fn rec_ok(rec: HitRecord) -> bool {
    within(rec.p, 0x1000_0000) && within(rec.normal, 2 * FP_ONE) && !spec_near_zero(rec.normal)
}

/// The componentwise attenuation product as computed.
pub open spec fn spec_attenuate(a: Vec3, c: Vec3) -> Vec3 {
    Vec3 { x: fdiv(a.x * c.x) as i64, y: fdiv(a.y * c.y) as i64, z: fdiv(a.z * c.z) as i64 }
}

/// `c` is an admissible radiance estimate for `ray` at the given
/// depth: black at the depth cutoff or for a degenerate direction;
/// the sky gradient on a miss; and on a hit, black when the record
/// falls to the degeneracy guard, else the attenuation of an
/// admissible scatter outcome applied to an admissible radiance of
/// the scattered ray, or black on absorption.
pub open spec fn spec_radiance(objs: Seq<Sphere>, ray: Ray, depth: int, c: Vec3) -> bool
    decreases depth,
{
    if depth <= 0 {
        c == (Vec3 { x: 0, y: 0, z: 0 })
    } else if spec_near_zero(ray.dir) {
        c == (Vec3 { x: 0, y: 0, z: 0 })
    } else {
        match spec_list_hit(objs, ray, T_MIN_EPSILON as int, T_MAX_FAR as int) {
            None => c == spec_sky(tdiv(spec_unit(ray.dir).y + FP_ONE, 2)),
            Some(rec) => if !rec_ok(rec) {
                c == (Vec3 { x: 0, y: 0, z: 0 })
            } else {
                exists|s: Vec3, q: int, res: Option<(Ray, Vec3)>|
                    in_unit_ball(s) && 0 <= q < FP_ONE && #[trigger] scatter_matches(
                        rec.mat,
                        res,
                        ray,
                        rec,
                        s,
                        q,
                    ) && (if res is Some {
                        let (sc, att) = res.unwrap();
                        exists|c2: Vec3|
                            spec_radiance(objs, sc, depth - 1, c2) && c == #[trigger] spec_attenuate(
                                att,
                                c2,
                            )
                    } else {
                        c == (Vec3 { x: 0, y: 0, z: 0 })
                    })
            },
        }
    }
}

/// The estimated radiance carried to the camera along `ray`: an
/// admissible radiance estimate for the scene at the given depth, so
/// black at the depth cutoff, the attenuated radiance of an
/// admissible scattered ray on a hit, black on absorption, and the
/// sky gradient on a miss. Every channel of the result lies within
/// one unit.
pub fn ray_color(ray: &Ray, world: &HittableList, depth: u32) -> (c: Vec3)
    requires
        list_wf(world.objects@),
        within(ray.origin, 0x1000_0000),
        within(ray.dir, 0x3000_0000),
    ensures
        depth == 0 ==> c == (Vec3 { x: 0, y: 0, z: 0 }),
        0 <= c.x <= FP_ONE && 0 <= c.y <= FP_ONE && 0 <= c.z <= FP_ONE,
        depth > 0 && !spec_near_zero(ray.dir) && spec_list_hit(
            world.objects@,
            *ray,
            T_MIN_EPSILON as int,
            T_MAX_FAR as int,
        ) is None ==> c == spec_sky(tdiv(spec_unit(ray.dir).y + FP_ONE, 2)),
        spec_radiance(world.objects@, *ray, depth as int, c),
    decreases depth,
{
    if depth == 0 {
        return Vec3 { x: 0, y: 0, z: 0 };
    }
    // a degenerate direction carries no radiance
    if ray.dir.near_zero() {
        return Vec3 { x: 0, y: 0, z: 0 };
    }
    proof {
        assert(spec_dot_raw(ray.dir, ray.dir) > 0) by (nonlinear_arith)
            requires
                ray.dir.x != 0 || ray.dir.y != 0 || ray.dir.z != 0,
        ;
    }
    match world.hit(ray, T_MIN_EPSILON, T_MAX_FAR) {
        Some(rec) => {
            // degeneracy guard: a record whose rounded point or normal
            // falls outside the scattering margins is treated as
            // absorbed rather than propagated
            if !(rec.p.x >= -0x1000_0000 && rec.p.x <= 0x1000_0000 && rec.p.y >= -0x1000_0000
                && rec.p.y <= 0x1000_0000 && rec.p.z >= -0x1000_0000 && rec.p.z <= 0x1000_0000
                && rec.normal.x >= -2 * FP_ONE && rec.normal.x <= 2 * FP_ONE && rec.normal.y >= -2
                * FP_ONE && rec.normal.y <= 2 * FP_ONE && rec.normal.z >= -2 * FP_ONE
                && rec.normal.z <= 2 * FP_ONE) || rec.normal.near_zero() {
                proof {
                    assert(!rec_ok(rec));
                }
                return Vec3 { x: 0, y: 0, z: 0 };
            }
            let res: Option<(Ray, Vec3)> = rec.mat.scatter(ray, &rec);
            match res {
                Some((scattered, attenuation)) => {
                    let rest: Vec3 = ray_color(&scattered, world, depth - 1);
                    proof {
                        lemma_fmul_unit(attenuation.x as int, rest.x as int);
                        lemma_fmul_unit(attenuation.y as int, rest.y as int);
                        lemma_fmul_unit(attenuation.z as int, rest.z as int);
                    }
                    let out: Vec3 = attenuation.mul(rest);
                    proof {
                        let (s, q) = choose|s: Vec3, q: int|
                            in_unit_ball(s) && 0 <= q < FP_ONE && scatter_matches(
                                rec.mat,
                                res,
                                *ray,
                                rec,
                                s,
                                q,
                            );
                        assert(out == spec_attenuate(attenuation, rest));
                        assert(spec_radiance(world.objects@, scattered, depth as int - 1, rest));
                        assert(spec_radiance(world.objects@, *ray, depth as int, out));
                    }
                    out
                },
                None => {
                    proof {
                        let (s, q) = choose|s: Vec3, q: int|
                            in_unit_ball(s) && 0 <= q < FP_ONE && scatter_matches(
                                rec.mat,
                                res,
                                *ray,
                                rec,
                                s,
                                q,
                            );
                        assert(spec_radiance(
                            world.objects@,
                            *ray,
                            depth as int,
                            Vec3 { x: 0, y: 0, z: 0 },
                        ));
                    }
                    Vec3 { x: 0, y: 0, z: 0 }
                },
            }
        },
        None => {
            let unit_direction: Vec3 = ray.dir.unit_vec();
            let t: i64 = div_trunc(unit_direction.y + FP_ONE, 2);
            let white: Vec3 = Vec3 { x: FP_ONE, y: FP_ONE, z: FP_ONE };
            let blue: Vec3 = Vec3 { x: 32768, y: 45875, z: FP_ONE };
            let wpart: Vec3 = white.scale(FP_ONE - t);
            let bpart: Vec3 = blue.scale(t);
            proof {
                lemma_sky_channel(FP_ONE as int, t as int);
                lemma_sky_channel(32768, t as int);
                lemma_sky_channel(45875, t as int);
            }
            let c: Vec3 = wpart.add(bpart);
            proof {
                assert(c == spec_sky(t as int));
            }
            c
        },
    }
}

/// The product of two channels within one unit stays within one unit.
pub proof fn lemma_fmul_unit(a: int, b: int)
    requires
        0 <= a <= FP_ONE,
        0 <= b <= FP_ONE,
    ensures
        0 <= fdiv(a * b) <= FP_ONE,
{
    lemma_mul_bound(a, b, FP_ONE as int, FP_ONE as int);
    assert(a * b >= 0) by (nonlinear_arith)
        requires
            a >= 0 && b >= 0,
    ;
    lemma_tdiv_bound(a * b, FP_ONE as int, FP_ONE as int);
    assert(fdiv(a * b) >= 0) by (nonlinear_arith)
        requires
            a * b >= 0,
    ;
}

/// One sky channel with base color `k` at blend `t` lies within one
/// unit: `(1 - t) + t k / 1` is between zero and one.
pub proof fn lemma_sky_channel(k: int, t: int)
    requires
        0 <= k <= FP_ONE,
        0 <= t <= FP_ONE,
    ensures
        0 <= fdiv(FP_ONE * (FP_ONE - t)) + fdiv(k * t) <= FP_ONE,
        fdiv(FP_ONE * (FP_ONE - t)) == FP_ONE - t,
{
    lemma_tdiv_exact(FP_ONE - t, FP_ONE as int);
    assert(FP_ONE * (FP_ONE - t) == (FP_ONE - t) * FP_ONE) by (nonlinear_arith);
    assert(k * t >= 0) by (nonlinear_arith)
        requires
            k >= 0 && t >= 0,
    ;
    assert(k * t <= FP_ONE * t) by (nonlinear_arith)
        requires
            0 <= k <= FP_ONE && 0 <= t,
    ;
    lemma_tdiv_exact(t, FP_ONE as int);
    assert(FP_ONE * t == t * FP_ONE) by (nonlinear_arith);
    crate::fixed::lemma_tdiv_monotone(k * t, FP_ONE * t, FP_ONE as int);
    assert(fdiv(k * t) >= 0) by (nonlinear_arith)
        requires
            k * t >= 0,
    ;
}

/// One tone-mapped channel: the accumulated radiance averaged over the
/// samples, square-rooted (a gamma-two approximation), scaled to the
/// 8-bit range, and clamped at 255.
pub open spec fn spec_tone_channel(c: int, samples: int) -> int {
    let avg = tdiv(c, samples);
    let root = sqrt_floor(avg * FP_ONE);
    let byte = tdiv(root, 256);
    if byte > 255 {
        255
    } else {
        byte
    }
}

/// Tone-map one accumulated channel. A full-brightness accumulation
/// (one unit per sample) maps to 255; zero maps to 0.
pub fn tone_channel(c: i64, samples: i64) -> (r: u8)
    requires
        1 <= samples <= 0x10_0000,
        0 <= c <= samples * FP_ONE,
    ensures
        r == spec_tone_channel(c as int, samples as int),
        c == samples * FP_ONE ==> r == 255,
        c == 0 ==> r == 0,
{
    proof {
        assert(samples * FP_ONE <= samples * FP_ONE);
        lemma_tdiv_bound(c as int, samples as int, FP_ONE as int);
        assert(tdiv(c as int, samples as int) >= 0) by (nonlinear_arith)
            requires
                c >= 0,
                samples >= 1,
        ;
        if c == samples * FP_ONE {
            lemma_tdiv_exact(FP_ONE as int, samples as int);
            assert(samples * FP_ONE == FP_ONE * samples) by (nonlinear_arith);
        }
        if c == 0 {
            lemma_tdiv_exact(0, samples as int);
            assert(0 * samples == 0) by (nonlinear_arith);
        }
    }
    let avg: i64 = div_trunc(c, samples);
    let rootw: u64 = isqrt_u64((avg * FP_ONE) as u64);
    proof {
        assert((rootw as int) * (rootw as int) <= (avg as int) * (FP_ONE as int));
        assert((avg as int) * (FP_ONE as int) <= (FP_ONE as int) * (FP_ONE as int))
            by (nonlinear_arith)
            requires
                0 <= avg <= FP_ONE,
        ;
        assert(rootw <= FP_ONE) by (nonlinear_arith)
            requires
                (rootw as int) * (rootw as int) <= (FP_ONE as int) * (FP_ONE as int),
        ;
        if avg == FP_ONE {
            lemma_sqrt_square(FP_ONE as int);
        }
        if avg == 0 {
            assert(0 * (FP_ONE as int) == 0) by (nonlinear_arith);
            lemma_sqrt_floor(0, 0);
        }
    }
    let root: i64 = rootw as i64;
    let byte: i64 = div_trunc(root, 256);
    proof {
        lemma_tdiv_bound(root as int, 256, FP_ONE as int);
        assert(tdiv(root as int, 256) >= 0) by (nonlinear_arith)
            requires
                root >= 0,
        ;
    }
    if byte > 255 {
        255u8
    } else {
        byte as u8
    }
}

/// Map an accumulated pixel color to its RGB byte triple, one channel
/// at a time: average, gamma-correct and clamp.
pub fn from_vec3_rgb(color: Vec3, samples_per_pixel: usize) -> (r: [u8; 3])
    requires
        1 <= samples_per_pixel <= 0x10_0000,
        0 <= color.x <= samples_per_pixel * FP_ONE,
        0 <= color.y <= samples_per_pixel * FP_ONE,
        0 <= color.z <= samples_per_pixel * FP_ONE,
    ensures
        r[0] == spec_tone_channel(color.x as int, samples_per_pixel as int),
        r[1] == spec_tone_channel(color.y as int, samples_per_pixel as int),
        r[2] == spec_tone_channel(color.z as int, samples_per_pixel as int),
        color.x == samples_per_pixel * FP_ONE ==> r[0] == 255,
        color.x == 0 ==> r[0] == 0,
        color.y == samples_per_pixel * FP_ONE ==> r[1] == 255,
        color.y == 0 ==> r[1] == 0,
        color.z == samples_per_pixel * FP_ONE ==> r[2] == 255,
        color.z == 0 ==> r[2] == 0,
{
    let s: i64 = samples_per_pixel as i64;
    [tone_channel(color.x, s), tone_channel(color.y, s), tone_channel(color.z, s)]
}

/// The jittered normalized screen coordinate of pixel index `i` out
/// of `w`: the index plus a subpixel offset, rescaled by `w - 1`.
pub open spec fn spec_jitter(i: int, jx: int, w: int) -> int {
    tdiv(i * FP_ONE + jx, w - 1)
}

/// `c` is an admissible single-sample radiance estimate for the pixel
/// at column `i`, viewport row `j`: some subpixel jitter and lens
/// sample determine a camera ray whose admissible radiance at the
/// given depth is `c`.
pub open spec fn sample_ok(
    objs: Seq<Sphere>,
    cam: Camera,
    i: int,
    j: int,
    w: int,
    h: int,
    depth: int,
    c: Vec3,
) -> bool {
    exists|jx: int, jy: int, rd: Vec3, ray: Ray|
        0 <= jx < FP_ONE && 0 <= jy < FP_ONE && rd.z == 0 && 0 <= spec_dot_raw(rd, rd) < (
        FP_ONE as int) * (FP_ONE as int) && #[trigger] camera_ray_matches(
            cam,
            spec_jitter(i, jx, w),
            spec_jitter(j, jy, h),
            rd,
            ray,
        ) && spec_radiance(objs, ray, depth, c)
}

/// The componentwise sum of a sequence of sample estimates.
pub open spec fn spec_sum3(cs: Seq<Vec3>) -> Vec3
    decreases cs.len(),
{
    if cs.len() == 0 {
        Vec3 { x: 0, y: 0, z: 0 }
    } else {
        let p = spec_sum3(cs.drop_last());
        let c = cs.last();
        Vec3 { x: (p.x + c.x) as i64, y: (p.y + c.y) as i64, z: (p.z + c.z) as i64 }
    }
}

/// Every entry of `cs` is an admissible single-sample radiance
/// estimate for the pixel at column `i`, viewport row `j`, with each
/// channel within one unit.
pub open spec fn samples_ok(
    objs: Seq<Sphere>,
    cam: Camera,
    i: int,
    j: int,
    w: int,
    h: int,
    depth: int,
    cs: Seq<Vec3>,
) -> bool {
    forall|k: int|
        0 <= k < cs.len() ==> sample_ok(objs, cam, i, j, w, h, depth, #[trigger] cs[k]) && 0 <= cs[
            k].x <= FP_ONE && 0 <= cs[k].y <= FP_ONE && 0 <= cs[k].z <= FP_ONE
}

/// The byte triple of pixel `pidx` in `bytes` is the tone-mapped image
/// of the sum of `samples` admissible radiance estimates for that
/// pixel: column `pidx % w`, viewport row `h - 1 - pidx / w`.
pub open spec fn pixel_ok(
    bytes: Seq<u8>,
    pidx: int,
    w: int,
    h: int,
    samples: int,
    objs: Seq<Sphere>,
    cam: Camera,
    depth: int,
) -> bool {
    exists|cs: Seq<Vec3>|
        cs.len() == samples && #[trigger] samples_ok(
            objs,
            cam,
            pidx % w,
            h - 1 - pidx / w,
            w,
            h,
            depth,
            cs,
        ) && bytes[3 * pidx] == spec_tone_channel(spec_sum3(cs).x as int, samples) && bytes[3 * pidx
            + 1] == spec_tone_channel(spec_sum3(cs).y as int, samples) && bytes[3 * pidx + 2]
            == spec_tone_channel(spec_sum3(cs).z as int, samples)
}

/// Render the scene: for every pixel, top row first, accumulate
/// `samples_per_pixel` jittered radiance estimates and tone-map them
/// into an RGB byte triple. The result is the row-major pixel grid:
/// three bytes per pixel, each triple the tone-mapped image of a
/// bounded per-pixel accumulation.
#[verifier::loop_isolation(false)]
pub fn render(
    world: &HittableList,
    cam: &Camera,
    image_width: usize,
    image_height: usize,
    samples_per_pixel: usize,
    max_depth: u32,
) -> (r: Vec<u8>)
    requires
        list_wf(world.objects@),
        camera_wf(*cam),
        2 <= image_width <= 4096,
        2 <= image_height <= 4096,
        1 <= samples_per_pixel <= 4096,
    ensures
        r.len() == 3 * image_width * image_height,
        forall|pidx: int|
            0 <= pidx < image_width * image_height ==> #[trigger] pixel_ok(
                r@,
                pidx,
                image_width as int,
                image_height as int,
                samples_per_pixel as int,
                world.objects@,
                *cam,
                max_depth as int,
            ),
{
    let mut buf: Vec<u8> = Vec::new();
    let mut jj: usize = 0;
    while jj < image_height
        invariant
            jj <= image_height,
            buf.len() == 3 * image_width * jj,
            forall|pidx: int|
                0 <= pidx < image_width * jj ==> #[trigger] pixel_ok(
                    buf@,
                    pidx,
                    image_width as int,
                    image_height as int,
                    samples_per_pixel as int,
                    world.objects@,
                    *cam,
                    max_depth as int,
                ),
        decreases image_height - jj,
    {
        let j: usize = image_height - 1 - jj;
        let mut i: usize = 0;
        while i < image_width
            invariant
                i <= image_width,
                buf.len() == 3 * image_width * jj + 3 * i,
                forall|pidx: int|
                    0 <= pidx < image_width * jj + i ==> #[trigger] pixel_ok(
                        buf@,
                        pidx,
                        image_width as int,
                        image_height as int,
                        samples_per_pixel as int,
                        world.objects@,
                        *cam,
                        max_depth as int,
                    ),
        decreases image_width - i,
        {
            let mut sum: Vec3 = Vec3 { x: 0, y: 0, z: 0 };
            let ghost mut taken: Seq<Vec3> = Seq::empty();
            let mut s: usize = 0;
            while s < samples_per_pixel
                invariant
                    s <= samples_per_pixel,
                    0 <= sum.x <= s * FP_ONE,
                    0 <= sum.y <= s * FP_ONE,
                    0 <= sum.z <= s * FP_ONE,
                    taken.len() == s as int,
                    sum == spec_sum3(taken),
                    samples_ok(
                        world.objects@,
                        *cam,
                        i as int,
                        j as int,
                        image_width as int,
                        image_height as int,
                        max_depth as int,
                        taken,
                    ),
                decreases samples_per_pixel - s,
            {
                let jx: i64 = rand_in(0, FP_ONE);
                let jy: i64 = rand_in(0, FP_ONE);
                proof {
                    lemma_screen_coord(i as int, jx as int, image_width as int);
                    lemma_screen_coord(j as int, jy as int, image_height as int);
                }
                let su: i64 = div_trunc((i as i64) * FP_ONE + jx, (image_width - 1) as i64);
                let sv: i64 = div_trunc((j as i64) * FP_ONE + jy, (image_height - 1) as i64);
                let ray: Ray = cam.get_ray(su, sv);
                let c: Vec3 = ray_color(&ray, world, max_depth);
                sum = sum.add(c);
                proof {
                    let rd = choose|rd: Vec3|
                        rd.z == 0 && 0 <= spec_dot_raw(rd, rd) < (FP_ONE as int) * (FP_ONE as int)
                            && camera_ray_matches(*cam, su as int, sv as int, rd, ray);
                    assert(su == spec_jitter(i as int, jx as int, image_width as int));
                    assert(sv == spec_jitter(j as int, jy as int, image_height as int));
                    assert(camera_ray_matches(
                        *cam,
                        spec_jitter(i as int, jx as int, image_width as int),
                        spec_jitter(j as int, jy as int, image_height as int),
                        rd,
                        ray,
                    ));
                    assert(sample_ok(
                        world.objects@,
                        *cam,
                        i as int,
                        j as int,
                        image_width as int,
                        image_height as int,
                        max_depth as int,
                        c,
                    ));
                    let old_taken = taken;
                    taken = taken.push(c);
                    assert(taken.drop_last() =~= old_taken);
                    assert(taken.last() == c);
                    assert(sum == spec_sum3(taken));
                    assert forall|k: int| 0 <= k < taken.len() implies sample_ok(
                        world.objects@,
                        *cam,
                        i as int,
                        j as int,
                        image_width as int,
                        image_height as int,
                        max_depth as int,
                        #[trigger] taken[k],
                    ) && 0 <= taken[k].x <= FP_ONE && 0 <= taken[k].y <= FP_ONE && 0 <= taken[k].z
                        <= FP_ONE by {
                        if k < old_taken.len() {
                            assert(taken[k] == old_taken[k]);
                        } else {
                            assert(taken[k] == c);
                        }
                    }
                }
                s = s + 1;
            }
            let px: [u8; 3] = from_vec3_rgb(sum, samples_per_pixel);
            let ghost old_buf = buf@;
            buf.push(px[0]);
            buf.push(px[1]);
            buf.push(px[2]);
            proof {
                let samples = samples_per_pixel as int;
                let w = image_width as int;
                let h = image_height as int;
                let objs = world.objects@;
                let depth = max_depth as int;
                let new_pidx = w * jj + i;
                assert(3 * new_pidx == 3 * w * jj + 3 * i) by (nonlinear_arith)
                    requires
                        new_pidx == w * jj + i,
                ;
                assert(new_pidx % w == i as int && new_pidx / w == jj as int) by (nonlinear_arith)
                    requires
                        new_pidx == w * jj + i,
                        0 <= i < w,
                        0 <= jj,
                ;
                assert(buf@[3 * new_pidx] == spec_tone_channel(sum.x as int, samples));
                assert(buf@[3 * new_pidx + 1] == spec_tone_channel(sum.y as int, samples));
                assert(buf@[3 * new_pidx + 2] == spec_tone_channel(sum.z as int, samples));
                assert(samples_ok(objs, *cam, new_pidx % w, h - 1 - new_pidx / w, w, h, depth, taken));
                assert(pixel_ok(buf@, new_pidx, w, h, samples, objs, *cam, depth));
                assert forall|pidx: int|
                    0 <= pidx < w * jj + i + 1 implies #[trigger] pixel_ok(
                    buf@,
                    pidx,
                    w,
                    h,
                    samples,
                    objs,
                    *cam,
                    depth,
                ) by {
                    if pidx < w * jj + i {
                        assert(pixel_ok(old_buf, pidx, w, h, samples, objs, *cam, depth));
                        let cs = choose|cs: Seq<Vec3>|
                            cs.len() == samples && #[trigger] samples_ok(
                                objs,
                                *cam,
                                pidx % w,
                                h - 1 - pidx / w,
                                w,
                                h,
                                depth,
                                cs,
                            ) && old_buf[3 * pidx] == spec_tone_channel(
                                spec_sum3(cs).x as int,
                                samples,
                            ) && old_buf[3 * pidx + 1] == spec_tone_channel(
                                spec_sum3(cs).y as int,
                                samples,
                            ) && old_buf[3 * pidx + 2] == spec_tone_channel(
                                spec_sum3(cs).z as int,
                                samples,
                            );
                        assert(0 <= 3 * pidx && 3 * pidx + 2 < old_buf.len()) by (nonlinear_arith)
                            requires
                                0 <= pidx,
                                pidx + 1 <= w * jj + i,
                                old_buf.len() == 3 * w * jj + 3 * i,
                        ;
                        assert(buf@[3 * pidx] == old_buf[3 * pidx]);
                        assert(buf@[3 * pidx + 1] == old_buf[3 * pidx + 1]);
                        assert(buf@[3 * pidx + 2] == old_buf[3 * pidx + 2]);
                        assert(pixel_ok(buf@, pidx, w, h, samples, objs, *cam, depth));
                    }
                }
            }
            i = i + 1;
        }
        proof {
            assert(3 * image_width * jj + 3 * image_width == 3 * image_width * (jj + 1))
                by (nonlinear_arith);
            assert(image_width * jj + image_width == image_width * (jj + 1)) by (nonlinear_arith);
        }
        jj = jj + 1;
    }
    buf
}

/// A jittered screen coordinate stays within twice the unit: with a
/// pixel index below the width, the jittered numerator is at most
/// twice `width - 1` units.
pub proof fn lemma_screen_coord(i: int, jit: int, width: int)
    requires
        2 <= width <= 4096,
        0 <= i < width,
        0 <= jit < FP_ONE,
    ensures
        0 <= tdiv(i * FP_ONE + jit, width - 1) <= 2 * FP_ONE,
{
    assert(i * FP_ONE <= (width - 1) * FP_ONE) by (nonlinear_arith)
        requires
            i <= width - 1,
    ;
    assert((width - 1) * FP_ONE + FP_ONE <= (width - 1) * (2 * FP_ONE)) by (nonlinear_arith)
        requires
            width >= 2,
    ;
    lemma_tdiv_bound(i * FP_ONE + jit, width - 1, 2 * FP_ONE);
    assert(tdiv(i * FP_ONE + jit, width - 1) >= 0) by (nonlinear_arith)
        requires
            i * FP_ONE + jit >= 0,
            width - 1 >= 1,
    ;
}

} // verus!

