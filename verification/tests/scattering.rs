use ray_tracer::fixed::FP_ONE;
use ray_tracer::hittable::HitRecord;
use ray_tracer::material::{Dielectric, Lambertian, Material, Metal};
use ray_tracer::ray::Ray;
use ray_tracer::vec3::Vec3;

fn upward_hit(mat: Material) -> HitRecord {
    HitRecord {
        p: Vec3::new(0, 0, 0),
        normal: Vec3::new(0, FP_ONE, 0),
        t: FP_ONE,
        front_face: true,
        mat,
    }
}

#[test]
fn lambertian_never_scatters_a_degenerate_direction() {
    let l = Lambertian { albedo: Vec3::new(FP_ONE / 2, FP_ONE / 2, FP_ONE / 2) };
    let rec = upward_hit(Material::Lambertian(l));
    let r_in = Ray { origin: Vec3::new(0, FP_ONE, 0), dir: Vec3::new(0, -FP_ONE, 0) };
    for _ in 0..100 {
        let (scattered, attenuation) = l.scatter(&r_in, &rec).unwrap();
        assert!(!scattered.dir.near_zero());
        assert_eq!(attenuation, l.albedo);
        assert_eq!(scattered.origin, rec.p);
    }
}

#[test]
fn metal_with_zero_fuzz_is_a_deterministic_mirror() {
    let m = Metal { albedo: Vec3::new(FP_ONE, FP_ONE / 2, FP_ONE / 2), fuzz: 0 };
    let rec = upward_hit(Material::Metal(m));
    // incoming at 45 degrees: (1, -1, 0) normalized
    let r_in = Ray { origin: Vec3::new(-FP_ONE, FP_ONE, 0), dir: Vec3::new(FP_ONE, -FP_ONE, 0) };
    let (first, att) = m.scatter(&r_in, &rec).unwrap();
    // the mirrored unit direction: both components 65536 / sqrt(2), rounded
    assert_eq!(first.dir, Vec3::new(46341, 46341, 0));
    assert_eq!(att, m.albedo);
    // no randomness: every call returns the same ray
    for _ in 0..20 {
        let (again, _) = m.scatter(&r_in, &rec).unwrap();
        assert_eq!(again.dir, first.dir);
        assert_eq!(again.origin, first.origin);
    }
}

#[test]
fn metal_absorbs_rays_scattered_into_the_surface() {
    let m = Metal { albedo: Vec3::new(FP_ONE, FP_ONE, FP_ONE), fuzz: 0 };
    // the normal faces +y but the mirror direction still points down:
    // grazing from above a back-facing normal
    let rec = HitRecord {
        p: Vec3::new(0, 0, 0),
        normal: Vec3::new(0, -FP_ONE, 0),
        t: FP_ONE,
        front_face: false,
        mat: Material::Metal(m),
    };
    let r_in = Ray { origin: Vec3::new(0, FP_ONE, 0), dir: Vec3::new(0, -FP_ONE, 0) };
    // mirrored about -y, the direction points up, against the normal
    assert!(m.scatter(&r_in, &rec).is_none());
}

#[test]
fn dielectric_matching_medium_does_not_bend() {
    // index of refraction one: the glass matches the outside medium,
    // so the ray always refracts straight through
    let d = Dielectric { ir: FP_ONE };
    let rec = HitRecord {
        p: Vec3::new(0, 0, 0),
        normal: Vec3::new(0, 0, -FP_ONE),
        t: FP_ONE,
        front_face: true,
        mat: Material::Dielectric(d),
    };
    let r_in = Ray { origin: Vec3::new(0, 0, -FP_ONE), dir: Vec3::new(0, 0, FP_ONE) };
    for q in [0i64, 1, 1000, FP_ONE - 1] {
        let (scattered, attenuation) = d.scatter_with_draw(&r_in, &rec, q).unwrap();
        assert_eq!(scattered.dir, Vec3::new(0, 0, FP_ONE));
        assert_eq!(attenuation, Vec3::new(FP_ONE, FP_ONE, FP_ONE));
    }
    // and through the randomized entry point as well
    let (scattered, _) = d.scatter(&r_in, &rec).unwrap();
    assert_eq!(scattered.dir, Vec3::new(0, 0, FP_ONE));
}

#[test]
fn dielectric_reflects_under_total_internal_reflection() {
    // leaving glass (ir = 1.5) at a grazing angle: ratio * sin > 1
    let d = Dielectric { ir: 98304 };
    let rec = HitRecord {
        p: Vec3::new(0, 0, 0),
        normal: Vec3::new(0, FP_ONE, 0),
        t: FP_ONE,
        front_face: false,
        mat: Material::Dielectric(d),
    };
    // shallow incidence: mostly sideways
    let r_in = Ray { origin: Vec3::new(-FP_ONE, FP_ONE / 4, 0), dir: Vec3::new(4 * FP_ONE, -FP_ONE, 0) };
    let (scattered, _) = d.scatter_with_draw(&r_in, &rec, FP_ONE - 1).unwrap();
    // a reflection keeps the sideways component and flips the vertical one
    assert!(scattered.dir.y > 0);
    assert!(scattered.dir.x > 0);
}

#[test]
fn material_dispatch_matches_the_variants() {
    let l = Lambertian { albedo: Vec3::new(FP_ONE / 4, FP_ONE / 4, FP_ONE / 4) };
    let rec = upward_hit(Material::Lambertian(l));
    let r_in = Ray { origin: Vec3::new(0, FP_ONE, 0), dir: Vec3::new(0, -FP_ONE, 0) };
    let (_, att) = Material::Lambertian(l).scatter(&r_in, &rec).unwrap();
    assert_eq!(att, l.albedo);
}
