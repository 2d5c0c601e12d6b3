//! The renderer, the scheduler arithmetic, the output quantization, the
//! checker texture and the scene fallback.

use raytracer::render::{
    merge_buffers, render, render_bvh, samples_per_worker, write_color_to_output, zero_raster,
};
use raytracer::scene::{default_scene, scene_or_default, two_spheres, test_scene, Scene};
use raytracer::scene_builder::{create, create_checker_spheres_test, create_checker_test, create_test};
use raytracer::texture::{CheckerTexture, SolidColor};
use raytracer::util::{RandomSource, Vec3, SCALE};

#[test]
fn single_worker_owns_the_whole_budget() {
    assert_eq!(samples_per_worker(100, 1), 100);
    assert_eq!(samples_per_worker(0, 1), 0);
    assert_eq!(samples_per_worker(7, 1), 7);
}

#[test]
fn sample_budget_rounds_half_away() {
    assert_eq!(samples_per_worker(10, 4), 3);
    assert_eq!(samples_per_worker(10, 3), 3);
    assert_eq!(samples_per_worker(100, 10), 10);
    assert_eq!(samples_per_worker(9, 2), 5);
}

#[test]
fn merging_with_a_zero_buffer_changes_nothing() {
    let zero = zero_raster(3, 2);
    let mut buf = zero_raster(3, 2);
    buf[0][1] = Vec3::new(100, 200, 300);
    buf[1][2] = Vec3::new(-50, 0, 7);
    let merged = merge_buffers(&zero, &buf);
    for y in 0..2 {
        for x in 0..3 {
            assert_eq!(merged[y][x], buf[y][x]);
        }
    }
}

#[test]
fn merge_sums_element_wise() {
    let mut a = zero_raster(2, 1);
    let mut b = zero_raster(2, 1);
    a[0][0] = Vec3::new(1, 2, 3);
    b[0][0] = Vec3::new(10, 20, 30);
    a[0][1] = Vec3::new(-1, -2, -3);
    b[0][1] = Vec3::new(1, 2, 3);
    let merged = merge_buffers(&a, &b);
    assert_eq!(merged[0][0], Vec3::new(11, 22, 33));
    assert_eq!(merged[0][1], Vec3::new(0, 0, 0));
}

#[test]
fn channel_quantization_hits_exact_values() {
    // Accumulated (25, 0, 100) over one hundred samples: the scaled values
    // are a quarter, zero and one; gamma is the square root.
    let color = Vec3::new(25600, 0, 102400);
    let (r, g, b) = write_color_to_output(color, 100);
    assert_eq!(r, 128);
    assert_eq!(g, 0);
    assert_eq!(b, 255);
}

#[test]
fn negative_accumulation_clamps_to_black() {
    let (r, g, b) = write_color_to_output(Vec3::new(-4096, -1, 0), 4);
    assert_eq!((r, g, b), (0, 0, 0));
}

#[test]
fn loading_nothing_yields_the_default_scene() {
    let s = scene_or_default(None);
    let d = default_scene();
    assert_eq!(s.image_width, 400);
    assert_eq!(s.image_height, 400);
    assert_eq!(s.samples_per_pixel, 100);
    assert_eq!(s.aspect_ratio, SCALE);
    assert_eq!(s.world.objects.len(), 1);
    assert_eq!(s.camera, d.camera);
    match (&s.world.objects[0], &d.world.objects[0]) {
        (
            raytracer::renderable::Object::Sphere(a),
            raytracer::renderable::Object::Sphere(b),
        ) => {
            assert_eq!(a, b);
            assert_eq!(a.center, Vec3::new(4096, 1024, 0));
            assert_eq!(a.r, 1024);
        }
        _ => panic!("default scene should hold one sphere"),
    }
}

#[test]
fn loading_a_scene_keeps_it() {
    let mut d = default_scene();
    d.image_width = 17;
    let s = scene_or_default(Some(d));
    assert_eq!(s.image_width, 17);
}

#[test]
fn checker_texture_alternates_cells() {
    let t = CheckerTexture::new_from_colors(
        SCALE,
        Vec3::new(0, 0, 0),
        Vec3::new(SCALE, SCALE, SCALE),
    );
    // At the origin the cell parity is even; half a unit along one axis
    // keeps the cell, a full unit flips it.
    let even = t.value(0, 0, &Vec3::new(100, 100, 100));
    let odd = t.value(0, 0, &Vec3::new(1124, 100, 100));
    assert_eq!(even, Vec3::new(SCALE, SCALE, SCALE));
    assert_eq!(odd, Vec3::new(0, 0, 0));
}

#[test]
fn solid_color_ignores_the_point() {
    let t = SolidColor::from_values(1, 2, 3);
    assert_eq!(t.value(0, 0, &Vec3::new(999, -999, 5)), Vec3::new(1, 2, 3));
}

fn tiny_scene() -> Scene {
    let mut s = default_scene();
    s.image_width = 4;
    s.image_height = 3;
    s.samples_per_pixel = 2;
    s
}

#[test]
fn render_produces_the_full_raster() {
    let scene = tiny_scene();
    let mut rng = RandomSource::new(3);
    let pixels = render(&scene, 2, &mut rng);
    assert_eq!(pixels.len(), 3);
    for row in &pixels {
        assert_eq!(row.len(), 4);
    }
}

#[test]
fn render_bvh_produces_the_full_raster() {
    let scene = tiny_scene();
    let mut rng = RandomSource::new(3);
    let pixels = render_bvh(&scene, 2, &mut rng);
    assert_eq!(pixels.len(), 3);
    for row in &pixels {
        assert_eq!(row.len(), 4);
    }
}

#[test]
fn built_in_worlds_hold_their_objects() {
    assert_eq!(two_spheres().objects.len(), 2);
    assert_eq!(test_scene().objects.len(), 4);
    let mut rng = RandomSource::new(9);
    assert!(raytracer::scene::random_scene(&mut rng).objects.len() >= 4);
    assert!(raytracer::scene::random_scene_checker(&mut rng).objects.len() >= 4);
}

#[test]
fn builders_fill_their_documents() {
    let mut rng = RandomSource::new(4);
    let (meta, _cam, world) =
        create_checker_spheres_test(String::from("two-spheres.json"), &mut rng);
    assert_eq!(meta.file_name, "two-spheres.json");
    assert_eq!(meta.aspect_ratio, 1365);
    assert_eq!(meta.image_width, 400);
    assert_eq!(meta.image_height, 300);
    assert_eq!(meta.samples_per_pixel, 20);
    assert_eq!(world.objects.len(), 2);

    let (meta2, _c2, _w2) = create_checker_test(String::from("a.json"), &mut rng);
    assert_eq!((meta2.aspect_ratio, meta2.image_width, meta2.image_height), (1536, 300, 200));
    let (meta3, _c3, _w3) = create_test(String::from("b.json"), &mut rng);
    assert_eq!(meta3.samples_per_pixel, 20);
    let (meta4, _c4, w4) = create(String::from("c.json"), &mut rng);
    assert_eq!(meta4.file_name, "c.json");
    assert!(w4.objects.len() >= 4);
}

#[test]
fn one_worker_render_matches_the_baseline() {
    // With one worker and a fixed seed the partition is the whole budget and
    // the merge of the single buffer is the identity, so the multi-worker
    // path reproduces the single-threaded render exactly.
    let scene = tiny_scene();
    let spp = samples_per_worker(scene.samples_per_pixel, 1);
    assert_eq!(spp, scene.samples_per_pixel);
    let mut rng1 = RandomSource::new(77);
    let baseline = render(&scene, 2, &mut rng1);
    let mut rng2 = RandomSource::new(77);
    let worker = render(&scene, 2, &mut rng2);
    let merged = merge_buffers(&zero_raster(4, 3), &worker);
    for y in 0..3 {
        for x in 0..4 {
            assert_eq!(merged[y][x], baseline[y][x]);
        }
    }
}

#[test]
fn every_ray_passes_through_its_viewport_point() {
    let cam = default_scene().camera;
    let mut rng = RandomSource::new(13);
    for (s, t) in [(0i64, 0i64), (512, 256), (1024, 1024), (700, 31)] {
        let r = cam.get_ray(s, t, &mut rng);
        let through = r.origin.add(r.direction);
        let target = cam
            .lower_left_corner
            .add(cam.horizontal.scale(s))
            .add(cam.vertical.scale(t));
        assert_eq!(through, target);
    }
}

#[test]
fn empty_world_renders_pure_sky_blue_channel() {
    // With nothing to hit, every sample is the sky gradient, whose blue
    // channel is exactly one; the accumulation is pinned by contract.
    let mut scene = tiny_scene();
    scene.world = raytracer::renderable::RenderableList::new();
    let samples = 3;
    let mut rng = RandomSource::new(8);
    let pixels = render(&scene, samples, &mut rng);
    for row in &pixels {
        for p in row {
            assert_eq!(p.z, samples as i64 * SCALE);
        }
    }
    let mut rng2 = RandomSource::new(8);
    let pixels2 = render_bvh(&scene, samples, &mut rng2);
    for row in &pixels2 {
        for p in row {
            assert_eq!(p.z, samples as i64 * SCALE);
        }
    }
}

#[test]
fn declined_scatter_absorbs_the_sample() {
    let attenuation = Vec3::new(512, 512, 512);
    let color = Vec3::new(256, 512, 1024);
    let ray = raytracer::ray::Ray::new(Vec3::new(0, 0, 0), Vec3::new(0, 0, 1024));
    assert!(raytracer::render::apply_scatter(attenuation, false, color, ray).is_none());
    let (att, out) = raytracer::render::apply_scatter(attenuation, true, color, ray).unwrap();
    // The attenuation product is component-wise: 0.5 * (0.25, 0.5, 1.0).
    assert_eq!(att, Vec3::new(128, 256, 512));
    assert_eq!(out, ray);
}

#[test]
fn builders_pin_their_worlds() {
    let mut rng = RandomSource::new(40);
    let (_m, _c, w) = create_test(String::from("t.json"), &mut rng);
    match &w.objects[0] {
        raytracer::renderable::Object::Sphere(g) => {
            assert_eq!(g.center, Vec3::new(0, -1024000, 0));
            assert_eq!(g.r, 1024000);
        }
        _ => panic!("ground sphere missing"),
    }
    let n = w.objects.len();
    match &w.objects[n - 1] {
        raytracer::renderable::Object::Sphere(m) => {
            assert_eq!(m.center, Vec3::new(4096, 1024, 0));
        }
        _ => panic!("metal showcase sphere missing"),
    }
}
