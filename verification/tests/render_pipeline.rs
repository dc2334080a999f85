use ray_tracer::camera::Camera;
use ray_tracer::fixed::FP_ONE;
use ray_tracer::hittable::HittableList;
use ray_tracer::material::{Lambertian, Material};
use ray_tracer::ray::Ray;
use ray_tracer::render::{from_vec3_rgb, ray_color, render, tone_channel};
use ray_tracer::sphere::Sphere;
use ray_tracer::vec3::Vec3;

fn ground_scene() -> HittableList {
    let mut world = HittableList::new();
    world.objects.push(Sphere {
        center: Vec3::new(0, -1000 * FP_ONE, 0),
        radius: 1000 * FP_ONE,
        mat: Material::Lambertian(Lambertian {
            albedo: Vec3::new(FP_ONE / 2, FP_ONE / 2, FP_ONE / 2),
        }),
    });
    world
}

#[test]
fn ray_color_at_depth_zero_is_black() {
    let world = ground_scene();
    let hits_ground = Ray { origin: Vec3::new(0, FP_ONE, 0), dir: Vec3::new(0, -FP_ONE, 0) };
    assert_eq!(ray_color(&hits_ground, &world, 0), Vec3::new(0, 0, 0));
    let toward_sky = Ray { origin: Vec3::new(0, FP_ONE, 0), dir: Vec3::new(0, FP_ONE, 0) };
    assert_eq!(ray_color(&toward_sky, &world, 0), Vec3::new(0, 0, 0));
}

#[test]
fn ray_color_miss_gives_the_sky_gradient() {
    let world = HittableList::new();
    // straight up: t = 1, pure sky blue (0.5, 0.7, 1.0)
    let up = Ray { origin: Vec3::new(0, 0, 0), dir: Vec3::new(0, FP_ONE, 0) };
    assert_eq!(ray_color(&up, &world, 8), Vec3::new(32768, 45875, FP_ONE));
    // straight down: t = 0, pure white
    let down = Ray { origin: Vec3::new(0, 0, 0), dir: Vec3::new(0, -FP_ONE, 0) };
    assert_eq!(ray_color(&down, &world, 8), Vec3::new(FP_ONE, FP_ONE, FP_ONE));
}

#[test]
fn ray_color_channels_stay_within_one_unit() {
    let world = ground_scene();
    for dir in [
        Vec3::new(0, -FP_ONE, 0),
        Vec3::new(FP_ONE, -FP_ONE, FP_ONE / 4),
        Vec3::new(-FP_ONE, FP_ONE / 8, FP_ONE),
    ] {
        let r = Ray { origin: Vec3::new(0, 2 * FP_ONE, 0), dir };
        for _ in 0..20 {
            let c = ray_color(&r, &world, 6);
            assert!(c.x >= 0 && c.x <= FP_ONE);
            assert!(c.y >= 0 && c.y <= FP_ONE);
            assert!(c.z >= 0 && c.z <= FP_ONE);
        }
    }
}

#[test]
fn tone_map_full_brightness_is_255_and_zero_is_0() {
    // a per-sample contribution of exactly one maps to byte 255
    assert_eq!(tone_channel(4 * FP_ONE, 4), 255);
    assert_eq!(tone_channel(0, 4), 0);
    let px = from_vec3_rgb(Vec3::new(4 * FP_ONE, 0, 2 * FP_ONE), 4);
    assert_eq!(px[0], 255);
    assert_eq!(px[1], 0);
    // the half-bright channel: sqrt(0.5) * 256 = 181
    assert_eq!(px[2], 181);
}

#[test]
fn tone_map_is_monotone_in_the_accumulated_value() {
    let mut prev: u8 = 0;
    for step in 0..=16i64 {
        let b = tone_channel(step * FP_ONE, 16);
        assert!(b >= prev);
        prev = b;
    }
    assert_eq!(prev, 255);
}

#[test]
fn pinhole_camera_is_deterministic() {
    // aperture zero: no lens jitter, so the same screen coordinate
    // always yields the same ray
    let cam = Camera::new(
        Vec3::new(13 * FP_ONE, 2 * FP_ONE, 3 * FP_ONE),
        Vec3::new(0, 0, 0),
        Vec3::new(0, FP_ONE, 0),
        11556,
        98304,
        0,
        10 * FP_ONE,
    );
    let first = cam.get_ray(FP_ONE / 2, FP_ONE / 3);
    for _ in 0..20 {
        let again = cam.get_ray(FP_ONE / 2, FP_ONE / 3);
        assert_eq!(again.origin, first.origin);
        assert_eq!(again.dir, first.dir);
    }
}

#[test]
fn end_to_end_ground_scene_renders_a_varied_valid_image() {
    // one diffuse ground sphere, camera looking at the origin from
    // (13, 2, 3): the ground must be visible against the sky
    let world = ground_scene();
    let cam = Camera::new(
        Vec3::new(13 * FP_ONE, 2 * FP_ONE, 3 * FP_ONE),
        Vec3::new(0, 0, 0),
        Vec3::new(0, FP_ONE, 0),
        11556,  // tan(10 degrees): a 20 degree vertical field of view
        98304,  // aspect ratio 1.5
        6554,   // aperture 0.1
        10 * FP_ONE,
    );
    let width = 20usize;
    let height = 13usize;
    let pixels = render(&world, &cam, width, height, 4, 8);
    assert_eq!(pixels.len(), 3 * width * height);
    // every byte is a valid channel by type; the image is not uniform
    let first = (pixels[0], pixels[1], pixels[2]);
    let varied = (0..width * height).any(|p| {
        (pixels[3 * p], pixels[3 * p + 1], pixels[3 * p + 2]) != first
    });
    assert!(varied);
}
