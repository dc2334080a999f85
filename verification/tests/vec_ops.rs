use ray_tracer::fixed::FP_ONE;
use ray_tracer::ray::Ray;
use ray_tracer::vec3::Vec3;

fn v(x: i64, y: i64, z: i64) -> Vec3 {
    Vec3::new(x, y, z)
}

#[test]
fn add_sub_neg_componentwise() {
    let a = v(FP_ONE, 2 * FP_ONE, -FP_ONE);
    let b = v(3 * FP_ONE, -FP_ONE, FP_ONE / 2);
    assert_eq!(a.add(b), v(4 * FP_ONE, FP_ONE, -FP_ONE / 2));
    assert_eq!(a.sub(b), v(-2 * FP_ONE, 3 * FP_ONE, -FP_ONE - FP_ONE / 2));
    assert_eq!(a.neg(), v(-FP_ONE, -2 * FP_ONE, FP_ONE));
}

#[test]
fn dot_and_length_of_three_four_zero() {
    let a = v(3 * FP_ONE, 4 * FP_ONE, 0);
    // |(3, 4, 0)|^2 = 25, |(3, 4, 0)| = 5
    assert_eq!(a.length_squared(), 25 * FP_ONE);
    assert_eq!(a.length(), 5 * FP_ONE);
    assert_eq!(a.dot(v(FP_ONE, 0, 0)), 3 * FP_ONE);
}

#[test]
fn unit_vec_of_axis_multiple() {
    let a = v(0, 0, 2 * FP_ONE);
    assert_eq!(a.unit_vec(), v(0, 0, FP_ONE));
    let b = v(-3 * FP_ONE, 0, 0);
    assert_eq!(b.unit_vec(), v(-FP_ONE, 0, 0));
}

#[test]
fn cross_of_axes_is_third_axis() {
    let x = v(FP_ONE, 0, 0);
    let y = v(0, FP_ONE, 0);
    assert_eq!(x.cross(y), v(0, 0, FP_ONE));
    assert_eq!(y.cross(x), v(0, 0, -FP_ONE));
}

#[test]
fn near_zero_only_below_threshold() {
    assert!(v(0, 0, 0).near_zero());
    assert!(!v(1, 0, 0).near_zero());
    assert!(!v(0, -1, 0).near_zero());
}

#[test]
fn scale_and_mul_rescale_once() {
    let a = v(2 * FP_ONE, -4 * FP_ONE, 0);
    assert_eq!(a.scale(FP_ONE / 2), v(FP_ONE, -2 * FP_ONE, 0));
    assert_eq!(a.mul(v(FP_ONE / 2, FP_ONE / 2, FP_ONE)), v(FP_ONE, -2 * FP_ONE, 0));
}

#[test]
fn reflect_about_y_axis_flips_y() {
    let incoming = v(FP_ONE, -FP_ONE, 0);
    let n = v(0, FP_ONE, 0);
    assert_eq!(incoming.reflect(n), v(FP_ONE, FP_ONE, 0));
}

#[test]
fn reflect_twice_is_identity_on_normal_aligned_vector() {
    // a vector dead against the normal, mirrored twice, returns
    let n = v(0, FP_ONE, 0);
    let incoming = v(0, -2 * FP_ONE, 0);
    let once = incoming.reflect(n);
    assert_eq!(once, v(0, 2 * FP_ONE, 0));
    assert_eq!(once.reflect(n), incoming);
    // and likewise for a slanted vector about an exact axis normal
    let slanted = v(12345, -54321, 777);
    assert_eq!(slanted.reflect(n).reflect(n), slanted);
}

#[test]
fn refract_matching_media_keeps_direction() {
    // refraction ratio one, head-on: the direction passes unchanged
    let uv = v(0, 0, FP_ONE);
    let n = v(0, 0, -FP_ONE);
    assert_eq!(Vec3::refract(uv, n, FP_ONE), uv);
}

#[test]
fn point_at_parameter_walks_the_ray() {
    let r = Ray { origin: v(FP_ONE, 0, 0), dir: v(0, FP_ONE, 0) };
    assert_eq!(r.point_at_parameter(2 * FP_ONE), v(FP_ONE, 2 * FP_ONE, 0));
}

#[test]
fn random_in_unit_sphere_is_inside_and_nonzero() {
    for _ in 0..50 {
        let p = Vec3::random_in_unit_sphere();
        let raw = p.x * p.x + p.y * p.y + p.z * p.z;
        assert!(raw > 0);
        assert!(raw < FP_ONE * FP_ONE);
    }
}

#[test]
fn random_in_untit_disk_is_inside_and_flat() {
    for _ in 0..50 {
        let p = Vec3::random_in_untit_disk();
        assert_eq!(p.z, 0);
        assert!(p.x * p.x + p.y * p.y < FP_ONE * FP_ONE);
    }
}

#[test]
fn random_unit_vec_has_roughly_unit_length() {
    for _ in 0..50 {
        let p = Vec3::random_unit_vec();
        let raw = p.x * p.x + p.y * p.y + p.z * p.z;
        // the normalized length is one up to rounding
        let len = (raw as f64).sqrt() / FP_ONE as f64;
        assert!(len > 0.9 && len < 1.1);
    }
}

#[test]
fn random_in_hemisphere_sides_with_the_normal() {
    let n = v(0, FP_ONE, 0);
    for _ in 0..50 {
        let p = Vec3::random_in_hemisphere(n);
        assert!(p.dot(n) >= 0);
    }
}

#[test]
fn random_components_stay_in_range() {
    for _ in 0..50 {
        let p = Vec3::random(-FP_ONE, FP_ONE);
        assert!(p.x >= -FP_ONE && p.x < FP_ONE);
        assert!(p.y >= -FP_ONE && p.y < FP_ONE);
        assert!(p.z >= -FP_ONE && p.z < FP_ONE);
    }
}
