use ray_tracer::fixed::FP_ONE;
use ray_tracer::hittable::HittableList;
use ray_tracer::material::{Lambertian, Material};
use ray_tracer::ray::Ray;
use ray_tracer::sphere::Sphere;
use ray_tracer::vec3::Vec3;

fn gray() -> Material {
    Material::Lambertian(Lambertian { albedo: Vec3::new(FP_ONE / 2, FP_ONE / 2, FP_ONE / 2) })
}

fn sphere_at_z(z: i64, radius: i64) -> Sphere {
    Sphere { center: Vec3::new(0, 0, z), radius, mat: gray() }
}

#[test]
fn ray_pointing_away_misses() {
    // origin strictly outside, direction away from the sphere on every axis
    let s = sphere_at_z(10 * FP_ONE, FP_ONE);
    let r = Ray { origin: Vec3::new(0, 0, 0), dir: Vec3::new(0, 0, -FP_ONE) };
    assert!(s.hit(&r, 66, 0x4000_0000).is_none());
}

#[test]
fn ray_behind_interval_misses() {
    // the sphere is hit only at parameters beyond t_max
    let s = sphere_at_z(10 * FP_ONE, FP_ONE);
    let r = Ray { origin: Vec3::new(0, 0, 0), dir: Vec3::new(0, 0, FP_ONE) };
    assert!(s.hit(&r, 66, 2 * FP_ONE).is_none());
}

#[test]
fn direct_hit_at_center_gives_near_root_and_unit_normal() {
    // fired straight at the center from distance 10: t = 10 - 1 = 9,
    // normal is the unit vector from the center back toward the ray
    let s = sphere_at_z(10 * FP_ONE, FP_ONE);
    let r = Ray { origin: Vec3::new(0, 0, 0), dir: Vec3::new(0, 0, FP_ONE) };
    let rec = s.hit(&r, 66, 0x4000_0000).unwrap();
    assert_eq!(rec.t, 9 * FP_ONE);
    assert_eq!(rec.p, Vec3::new(0, 0, 9 * FP_ONE));
    assert_eq!(rec.normal, Vec3::new(0, 0, -FP_ONE));
    assert!(rec.front_face);
}

#[test]
fn hit_from_inside_flips_the_normal() {
    let s = sphere_at_z(0, FP_ONE);
    let r = Ray { origin: Vec3::new(0, 0, 0), dir: Vec3::new(0, 0, FP_ONE) };
    let rec = s.hit(&r, 66, 0x4000_0000).unwrap();
    assert_eq!(rec.t, FP_ONE);
    assert!(!rec.front_face);
    // the outward normal points along +z; flipped, it opposes the ray
    assert_eq!(rec.normal, Vec3::new(0, 0, -FP_ONE));
}

#[test]
fn list_returns_the_nearest_hit() {
    let mut world = HittableList::new();
    world.objects.push(sphere_at_z(10 * FP_ONE, FP_ONE));
    world.objects.push(sphere_at_z(5 * FP_ONE, FP_ONE));
    let r = Ray { origin: Vec3::new(0, 0, 0), dir: Vec3::new(0, 0, FP_ONE) };
    let rec = world.hit(&r, 66, 0x4000_0000).unwrap();
    // the nearer sphere (center 5, radius 1) is struck at t = 4
    assert_eq!(rec.t, 4 * FP_ONE);
}

#[test]
fn list_order_does_not_change_the_nearest_hit() {
    let mut a = HittableList::new();
    a.objects.push(sphere_at_z(5 * FP_ONE, FP_ONE));
    a.objects.push(sphere_at_z(10 * FP_ONE, FP_ONE));
    let mut b = HittableList::new();
    b.objects.push(sphere_at_z(10 * FP_ONE, FP_ONE));
    b.objects.push(sphere_at_z(5 * FP_ONE, FP_ONE));
    let r = Ray { origin: Vec3::new(0, 0, 0), dir: Vec3::new(0, 0, FP_ONE) };
    assert_eq!(a.hit(&r, 66, 0x4000_0000).unwrap().t, b.hit(&r, 66, 0x4000_0000).unwrap().t);
}

#[test]
fn empty_list_never_hits() {
    let world = HittableList::new();
    let r = Ray { origin: Vec3::new(0, 0, 0), dir: Vec3::new(0, 0, FP_ONE) };
    assert!(world.hit(&r, 66, 0x4000_0000).is_none());
}
