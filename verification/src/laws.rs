//! Laws of the exact (unrounded) vector algebra that the fixed-point
//! operations approximate, together with exactness results for the
//! fixed-point operations on axis-aligned unit vectors, where no
//! rounding occurs.

use vstd::prelude::*;

use crate::fixed::{fdiv, lemma_sqrt_exists, lemma_sqrt_square, sqrt_floor, tdiv, FP_ONE};
use crate::hittable::{spec_list_hit, HitRecord};
use crate::ray::Ray;
use crate::sphere::{
    spec_a_term, spec_c_term, spec_disc, spec_half_b, spec_hit_t, spec_sphere_hit, sphere_wf,
    Sphere,
};
use crate::vec3::{spec_dot, spec_dot_raw, spec_reflect, within, Vec3, COORD_MAX};

verus! {

/// Componentwise sum over the exact algebra.
pub open spec fn t_add(a: (int, int, int), b: (int, int, int)) -> (int, int, int) {
    (a.0 + b.0, a.1 + b.1, a.2 + b.2)
}

/// Componentwise difference over the exact algebra.
pub open spec fn t_sub(a: (int, int, int), b: (int, int, int)) -> (int, int, int) {
    (a.0 - b.0, a.1 - b.1, a.2 - b.2)
}

/// Scalar multiple over the exact algebra.
pub open spec fn t_scale(a: (int, int, int), k: int) -> (int, int, int) {
    (a.0 * k, a.1 * k, a.2 * k)
}

/// Inner product over the exact algebra.
pub open spec fn t_dot(a: (int, int, int), b: (int, int, int)) -> int {
    a.0 * b.0 + a.1 * b.1 + a.2 * b.2
}

/// Mirror reflection over the exact algebra: `v - 2 (v . n) n`.
pub open spec fn t_reflect(v: (int, int, int), n: (int, int, int)) -> (int, int, int) {
    t_sub(v, t_scale(n, 2 * t_dot(v, n)))
}

/// Snell refraction over the exact algebra, with the cosine of the
/// incidence angle given: the perpendicular part `eta (uv + cos n)`
/// plus the parallel part `-sqrt(|1 - |perp|^2|) n`.
pub open spec fn t_refract(uv: (int, int, int), n: (int, int, int), eta: int, cos: int) -> (
    int,
    int,
    int,
) {
    let p = t_scale(t_add(uv, t_scale(n, cos)), eta);
    let d = 1 - t_dot(p, p);
    let a = if d >= 0 {
        d
    } else {
        -d
    };
    t_add(p, t_scale(n, -sqrt_floor(a)))
}

/// Reflecting twice about one unit normal is the identity: the mirror
/// map is an involution of the exact vector algebra.
pub proof fn lemma_reflect_involution(v: (int, int, int), n: (int, int, int))
    requires
        t_dot(n, n) == 1,
    ensures
        t_reflect(t_reflect(v, n), n) == v,
{
    let d = t_dot(v, n);
    let r1 = t_reflect(v, n);
    assert(r1.0 == v.0 - n.0 * (2 * d) && r1.1 == v.1 - n.1 * (2 * d) && r1.2 == v.2 - n.2 * (2
        * d));
    let d1 = t_dot(r1, n);
    assert(d1 == -d) by (nonlinear_arith)
        requires
            d1 == (v.0 - n.0 * (2 * d)) * n.0 + (v.1 - n.1 * (2 * d)) * n.1 + (v.2 - n.2 * (2 * d))
                * n.2,
            d == v.0 * n.0 + v.1 * n.1 + v.2 * n.2,
            n.0 * n.0 + n.1 * n.1 + n.2 * n.2 == 1,
    ;
    let r2 = t_reflect(r1, n);
    assert(r2.0 == v.0 && r2.1 == v.1 && r2.2 == v.2) by (nonlinear_arith)
        requires
            r2.0 == r1.0 - n.0 * (2 * d1),
            r2.1 == r1.1 - n.1 * (2 * d1),
            r2.2 == r1.2 - n.2 * (2 * d1),
            r1.0 == v.0 - n.0 * (2 * d),
            r1.1 == v.1 - n.1 * (2 * d),
            r1.2 == v.2 - n.2 * (2 * d),
            d1 == -d,
    ;
}

/// With a refraction ratio of one and a cosine taken against a unit
/// normal, refraction is the identity: the refracted direction equals
/// the incoming unit direction, with no bending.
pub proof fn lemma_refract_identity(uv: (int, int, int), n: (int, int, int), cos: int)
    requires
        t_dot(n, n) == 1,
        t_dot(uv, uv) == 1,
        cos == -t_dot(uv, n),
        0 <= cos,
    ensures
        t_refract(uv, n, 1, cos) == uv,
{
    let p = t_scale(t_add(uv, t_scale(n, cos)), 1);
    assert(p.0 == uv.0 + n.0 * cos && p.1 == uv.1 + n.1 * cos && p.2 == uv.2 + n.2 * cos);
    assert(t_dot(p, p) == 1 - cos * cos) by (nonlinear_arith)
        requires
            p.0 == uv.0 + n.0 * cos,
            p.1 == uv.1 + n.1 * cos,
            p.2 == uv.2 + n.2 * cos,
            n.0 * n.0 + n.1 * n.1 + n.2 * n.2 == 1,
            uv.0 * uv.0 + uv.1 * uv.1 + uv.2 * uv.2 == 1,
            cos == -(uv.0 * n.0 + uv.1 * n.1 + uv.2 * n.2),
    ;
    let d = 1 - t_dot(p, p);
    assert(d == cos * cos);
    assert(d >= 0) by (nonlinear_arith)
        requires
            d == cos * cos,
    ;
    lemma_sqrt_square(cos);
    assert(sqrt_floor(d) == cos);
    let r = t_refract(uv, n, 1, cos);
    assert(r.0 == p.0 + n.0 * -cos && r.1 == p.1 + n.1 * -cos && r.2 == p.2 + n.2 * -cos);
    assert(r.0 == uv.0 && r.1 == uv.1 && r.2 == uv.2) by (nonlinear_arith)
        requires
            r.0 == (uv.0 + n.0 * cos) + n.0 * -cos,
            r.1 == (uv.1 + n.1 * cos) + n.1 * -cos,
            r.2 == (uv.2 + n.2 * cos) + n.2 * -cos,
    ;
}

/// Division of an exact multiple is exact.
pub proof fn lemma_tdiv_exact(a: int, d: int)
    requires
        0 < d,
    ensures
        tdiv(a * d, d) == a,
{
    assert(tdiv(a * d, d) == a) by (nonlinear_arith)
        requires
            0 < d,
    ;
}

/// On an axis-aligned unit normal the fixed-point reflection is free
/// of rounding: it flips the aligned component and keeps the others.
pub proof fn lemma_reflect_axis_exact(v: Vec3, n: Vec3)
    requires
        within(v, 0x2_0000),
        n.x == 0,
        n.z == 0,
        n.y == FP_ONE || n.y == -FP_ONE,
    ensures
        spec_reflect(v, n).x == v.x,
        spec_reflect(v, n).y == -v.y,
        spec_reflect(v, n).z == v.z,
{
    let d = spec_dot(v, n);
    if n.y == FP_ONE {
        assert(spec_dot_raw(v, n) == v.y * FP_ONE) by (nonlinear_arith)
            requires
                n.x == 0 && n.z == 0 && n.y == FP_ONE,
        ;
        lemma_tdiv_exact(v.y as int, FP_ONE as int);
        assert(d == v.y);
        lemma_tdiv_exact(2 * d, FP_ONE as int);
        assert(n.y * (2 * d) == (2 * d) * FP_ONE) by (nonlinear_arith)
            requires
                n.y == FP_ONE,
        ;
        assert(fdiv(n.y * (2 * d)) == 2 * d);
        assert(fdiv(n.x * (2 * d)) == 0 && fdiv(n.z * (2 * d)) == 0) by (nonlinear_arith)
            requires
                n.x == 0 && n.z == 0,
        ;
    } else {
        assert(spec_dot_raw(v, n) == -v.y * FP_ONE) by (nonlinear_arith)
            requires
                n.x == 0 && n.z == 0 && n.y == -FP_ONE,
        ;
        lemma_tdiv_exact(-v.y as int, FP_ONE as int);
        assert(d == -v.y);
        lemma_tdiv_exact(-(2 * d), FP_ONE as int);
        assert(n.y * (2 * d) == -(2 * d) * FP_ONE) by (nonlinear_arith)
            requires
                n.y == -FP_ONE,
        ;
        assert(fdiv(n.y * (2 * d)) == -(2 * d));
        assert(fdiv(n.x * (2 * d)) == 0 && fdiv(n.z * (2 * d)) == 0) by (nonlinear_arith)
            requires
                n.x == 0 && n.z == 0,
        ;
    }
}

/// A ray whose origin lies strictly outside a sphere and which points
/// away from it along every axis never hits it: the intersection of
/// the sphere with any forward parameter interval is empty.
pub proof fn lemma_miss_when_pointing_away(s: Sphere, r: Ray, t_min: int, t_max: int)
    requires
        sphere_wf(s),
        within(r.origin, 0x1000_0000),
        within(r.dir, COORD_MAX as int),
        1 <= t_min <= t_max,
        spec_c_term(s, r) > 0,
        (r.origin.x - s.center.x) * r.dir.x >= 0,
        (r.origin.y - s.center.y) * r.dir.y >= 0,
        (r.origin.z - s.center.z) * r.dir.z >= 0,
    ensures
        spec_sphere_hit(s, r, t_min, t_max) is None,
{
    let a = spec_a_term(r);
    let hb = spec_half_b(s, r);
    let c = spec_c_term(s, r);
    let disc = spec_disc(s, r);
    if a != 0 && disc >= 0 {
        assert(r.dir.x * r.dir.x >= 0 && r.dir.y * r.dir.y >= 0 && r.dir.z * r.dir.z >= 0)
            by (nonlinear_arith);
        assert(a >= 1);
        assert(hb >= 0);
        assert(a * c >= 1) by (nonlinear_arith)
            requires
                a >= 1,
                c >= 1,
        ;
        assert(disc < hb * hb);
        lemma_sqrt_exists(disc);
        let sd = sqrt_floor(disc);
        assert(sd < hb) by (nonlinear_arith)
            requires
                0 <= sd,
                0 <= hb,
                sd * sd <= disc,
                disc < hb * hb,
        ;
        let num1 = (-hb - sd) * FP_ONE;
        let num2 = (-hb + sd) * FP_ONE;
        assert(num1 < 0 && num2 < 0) by (nonlinear_arith)
            requires
                num1 == (-hb - sd) * FP_ONE,
                num2 == (-hb + sd) * FP_ONE,
                -hb - sd <= -1,
                -hb + sd <= -1,
                FP_ONE == 65536,
        ;
        assert(tdiv(num1, a) <= 0) by (nonlinear_arith)
            requires
                num1 < 0,
                a >= 1,
        ;
        assert(tdiv(num2, a) <= 0) by (nonlinear_arith)
            requires
                num2 < 0,
                a >= 1,
        ;
        assert(spec_hit_t(s, r, t_min, t_max) is None);
    }
}

/// A ray fired from outside straight at a sphere's center along an
/// exactly representable unit direction hits at the near root: the
/// distance to the center less the radius, with the returned normal
/// the unit vector from the center toward the ray, front facing.
pub proof fn lemma_direct_hit_center(s: Sphere, r: Ray, k: i64, t_min: int, t_max: int)
    requires
        sphere_wf(s),
        within(r.origin, 0x1000_0000),
        r.dir == (Vec3 { x: 0, y: 0, z: FP_ONE }),
        r.origin.x == s.center.x,
        r.origin.y == s.center.y,
        r.origin.z == s.center.z - k,
        s.radius < k <= 0x400_0000,
        1 <= t_min <= k - s.radius <= t_max <= COORD_MAX,
    ensures
        spec_sphere_hit(s, r, t_min, t_max) == Some(
            HitRecord {
                p: Vec3 { x: s.center.x, y: s.center.y, z: (s.center.z - s.radius) as i64 },
                normal: Vec3 { x: 0, y: 0, z: (-FP_ONE) as i64 },
                t: (k - s.radius) as i64,
                front_face: true,
                mat: s.mat,
            },
        ),
{
    let a = spec_a_term(r);
    let hb = spec_half_b(s, r);
    let c = spec_c_term(s, r);
    let disc = spec_disc(s, r);
    let rad = s.radius as int;
    let kk = k as int;
    let fp = FP_ONE as int;
    assert(a == fp * fp) by (nonlinear_arith)
        requires
            r.dir.x == 0 && r.dir.y == 0 && r.dir.z == fp,
            a == r.dir.x * r.dir.x + r.dir.y * r.dir.y + r.dir.z * r.dir.z,
    ;
    assert(hb == -kk * fp) by (nonlinear_arith)
        requires
            hb == 0 * r.dir.x + 0 * r.dir.y + (-kk) * fp,
    ;
    assert(c == kk * kk - rad * rad) by (nonlinear_arith)
        requires
            c == 0 * 0 + 0 * 0 + (-kk) * (-kk) - rad * rad,
    ;
    assert(disc == (fp * rad) * (fp * rad)) by (nonlinear_arith)
        requires
            disc == (-kk * fp) * (-kk * fp) - (fp * fp) * (kk * kk - rad * rad),
    ;
    lemma_sqrt_square(fp * rad);
    let sd = sqrt_floor(disc);
    assert(sd == fp * rad);
    let num1 = (-hb - sd) * FP_ONE;
    assert(num1 == ((kk - rad) * (fp * fp))) by (nonlinear_arith)
        requires
            num1 == (kk * fp - fp * rad) * fp,
    ;
    assert(fp * fp > 0) by (nonlinear_arith)
        requires
            fp == 65536,
    ;
    lemma_tdiv_exact(kk - rad, fp * fp);
    let root1 = tdiv(num1, a);
    assert(root1 == kk - rad);
    assert(spec_hit_t(s, r, t_min, t_max) == Some(kk - rad));
    // the hit point: the origin advanced by the root along the axis
    let t = kk - rad;
    assert(fdiv(t * 0) == 0) by (nonlinear_arith)
        requires
            t * 0 == 0,
    ;
    lemma_tdiv_exact(t, fp);
    assert(t * r.dir.z == t * fp);
    let p = Vec3 { x: s.center.x, y: s.center.y, z: (s.center.z - s.radius) as i64 };
    assert(r.origin.z + fdiv(t * fp) == s.center.z - rad);
    // the outward normal: straight back along the axis
    assert((p.x - s.center.x) * fp == 0 * rad) by (nonlinear_arith)
        requires
            p.x == s.center.x,
    ;
    lemma_tdiv_exact(0, rad);
    assert((p.z - s.center.z) * fp == (-fp) * rad) by (nonlinear_arith)
        requires
            p.z == s.center.z - rad,
    ;
    lemma_tdiv_exact(-fp, rad);
    // the ray faces the outward normal
    let back = Vec3 { x: 0, y: 0, z: (-FP_ONE) as i64 };
    assert(back.z == -fp);
    assert(spec_dot_raw(r.dir, back) == -(fp * fp)) by (nonlinear_arith)
        requires
            r.dir.x == 0 && r.dir.y == 0 && r.dir.z == fp,
            back.x == 0 && back.y == 0 && back.z == -fp,
    ;
    lemma_tdiv_exact(-fp, fp);
    assert(-(fp * fp) == (-fp) * fp) by (nonlinear_arith);
    assert(fdiv(-(fp * fp)) == -fp);
}

/// A reported sphere hit lies within the search interval.
pub proof fn lemma_sphere_hit_in_range(s: Sphere, r: Ray, t_min: int, t_max: int)
    requires
        0 <= t_min <= t_max <= COORD_MAX,
    ensures
        spec_sphere_hit(s, r, t_min, t_max) matches Some(h) ==> t_min <= h.t <= t_max,
{
}

/// Widening the search bound never loses ground: against the full
/// interval the same sphere reports a hit no nearer than the one it
/// reported against a tighter bound; and where the tighter search
/// found nothing, a hit against the full interval lies strictly
/// beyond the tighter bound.
pub proof fn lemma_sphere_hit_bound(s: Sphere, r: Ray, t_min: int, b: int, t_max: int)
    requires
        0 <= t_min <= b <= t_max <= COORD_MAX,
    ensures
        match (spec_sphere_hit(s, r, t_min, b), spec_sphere_hit(s, r, t_min, t_max)) {
            (Some(h), Some(h2)) => h2.t >= h.t,
            (None, Some(h2)) => h2.t > b,
            (Some(h), None) => false,
            (None, None) => true,
        },
{
    let a = spec_a_term(r);
    let disc = spec_disc(s, r);
    if a != 0 && disc >= 0 {
        lemma_sqrt_exists(disc);
        let sd = sqrt_floor(disc);
        let hb = spec_half_b(s, r);
        assert((-hb - sd) * FP_ONE <= (-hb + sd) * FP_ONE) by (nonlinear_arith)
            requires
                sd >= 0,
                FP_ONE == 65536,
        ;
        assert(a >= 1) by (nonlinear_arith)
            requires
                a == r.dir.x * r.dir.x + r.dir.y * r.dir.y + r.dir.z * r.dir.z,
                a != 0,
        ;
        crate::fixed::lemma_tdiv_monotone((-hb - sd) * FP_ONE, (-hb + sd) * FP_ONE, a);
    }
}

/// When the scene reports no hit, no primitive hits anywhere in the
/// search interval.
pub proof fn lemma_list_miss(objs: Seq<Sphere>, r: Ray, t_min: int, t_max: int, k: int)
    requires
        spec_list_hit(objs, r, t_min, t_max) is None,
        0 <= k < objs.len(),
    ensures
        spec_sphere_hit(objs[k], r, t_min, t_max) is None,
    decreases objs.len(),
{
    let prev = spec_list_hit(objs.drop_last(), r, t_min, t_max);
    assert(prev is None);
    if k == objs.len() - 1 {
        assert(objs.last() == objs[k]);
    } else {
        lemma_list_miss(objs.drop_last(), r, t_min, t_max, k);
        assert(objs.drop_last()[k] == objs[k]);
    }
}

/// A reported scene hit lies within the search interval.
pub proof fn lemma_list_hit_in_range(objs: Seq<Sphere>, r: Ray, t_min: int, t_max: int)
    requires
        0 <= t_min <= t_max <= COORD_MAX,
    ensures
        spec_list_hit(objs, r, t_min, t_max) matches Some(rec) ==> t_min <= rec.t <= t_max,
    decreases objs.len(),
{
    if objs.len() > 0 {
        let prev = spec_list_hit(objs.drop_last(), r, t_min, t_max);
        lemma_list_hit_in_range(objs.drop_last(), r, t_min, t_max);
        let bound = match prev {
            Some(h) => h.t as int,
            None => t_max,
        };
        lemma_sphere_hit_in_range(objs.last(), r, t_min, bound);
    }
}

/// The scene returns the nearest hit: when it reports a record, every
/// primitive of the scene, searched over the whole interval, either
/// reports nothing or reports a hit no nearer along the ray.
pub proof fn lemma_list_hit_is_nearest(objs: Seq<Sphere>, r: Ray, t_min: int, t_max: int, k: int)
    requires
        0 <= t_min <= t_max <= COORD_MAX,
        0 <= k < objs.len(),
        spec_list_hit(objs, r, t_min, t_max) is Some,
    ensures
        match (spec_sphere_hit(objs[k], r, t_min, t_max), spec_list_hit(objs, r, t_min, t_max)) {
            (Some(h), Some(rec)) => h.t >= rec.t,
            (None, _) => true,
            (_, None) => true,
        },
    decreases objs.len(),
{
    let prev = spec_list_hit(objs.drop_last(), r, t_min, t_max);
    lemma_list_hit_in_range(objs.drop_last(), r, t_min, t_max);
    let bound = match prev {
        Some(h) => h.t as int,
        None => t_max,
    };
    let rec = spec_list_hit(objs, r, t_min, t_max).unwrap();
    lemma_sphere_hit_in_range(objs.last(), r, t_min, bound);
    if k == objs.len() - 1 {
        assert(objs.last() == objs[k]);
        lemma_sphere_hit_bound(objs[k], r, t_min, bound, t_max);
    } else {
        assert(objs.drop_last()[k] == objs[k]);
        match prev {
            Some(p) => {
                lemma_list_hit_is_nearest(objs.drop_last(), r, t_min, t_max, k);
            },
            None => {
                lemma_list_miss(objs.drop_last(), r, t_min, t_max, k);
            },
        }
    }
}

/// Reflecting twice about an axis-aligned unit normal returns the
/// vector itself, rounding included.
pub proof fn lemma_reflect_axis_involution(v: Vec3, n: Vec3)
    requires
        within(v, 0x2_0000),
        n.x == 0,
        n.z == 0,
        n.y == FP_ONE || n.y == -FP_ONE,
    ensures
        spec_reflect(spec_reflect(v, n), n) == v,
{
    lemma_reflect_axis_exact(v, n);
    let r1 = spec_reflect(v, n);
    assert(within(r1, 0x2_0000));
    lemma_reflect_axis_exact(r1, n);
}

} // verus!
