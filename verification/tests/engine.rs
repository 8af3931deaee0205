//! Engine tests: intersector, shadow test, recursive tracer, scheduler
//! determinism, the compute entry point, and the end-to-end scene.

use raytrace::fixed::FX_ONE;
use raytrace::geometry::{Geometry, Ray, Sphere};
use raytrace::kernel::{
    build_kernel_objects, main_cs, nearest_hit, reflect, render_worker_inner, shadowed,
};
use raytrace::render::{render, render_rows, sample_offset};
use raytrace::scene::{new_scene_metadata, InputData, Material, SceneMetadata, UVec2};
use raytrace::vec3::Vec3;

fn plain_material() -> Material {
    Material {
        color: Vec3::new(FX_ONE, 0, 0),
        ka: 13107,
        kd: 52428,
        ks: 0,
        specular_exp: 1,
        reflect_rate: 0,
    }
}

fn single_sphere_scene() -> (SceneMetadata, Vec<(Geometry, Material)>) {
    let text = "E 0 0 -5\nV 0 0 1 0 1 0\nF 60\nR 4 4\nM 1 0 0 0.2 0.8 0 1 0\nL 0 5 -5\nS 0 0 0 1\n";
    let d = InputData::parse(text).unwrap();
    let objects = d.objects.clone();
    let scene = new_scene_metadata(d, 1);
    (scene, objects)
}

#[test]
fn reflect_mirrors_about_normal() {
    let d = Vec3::new(0, 0, FX_ONE);
    let n = Vec3::new(0, 0, -FX_ONE);
    assert_eq!(reflect(d, n), Vec3::new(0, 0, -FX_ONE));
    // grazing along the surface is unchanged
    let g = Vec3::new(FX_ONE, 0, 0);
    assert_eq!(reflect(g, n), g);
}

#[test]
fn nearest_hit_picks_smallest_parameter() {
    let m = plain_material();
    let near = Sphere::new(0, Vec3::new(0, 0, 3 * FX_ONE), FX_ONE);
    let far = Sphere::new(1, Vec3::new(0, 0, 7 * FX_ONE), FX_ONE);
    let objects = vec![
        (Geometry::Sphere(far), m),
        (Geometry::Sphere(near), m),
    ];
    let ray = Ray::new(Vec3::zero(), Vec3::new(0, 0, FX_ONE));
    // index 1 (the near sphere) wins at parameter 2
    assert_eq!(nearest_hit(&objects, ray, None), Some((1, 2 * FX_ONE)));
    // excluding the near sphere's identity leaves the far one at 6
    assert_eq!(nearest_hit(&objects, ray, Some(0)), Some((0, 6 * FX_ONE)));
    assert_eq!(nearest_hit(&objects, ray, Some(1)), Some((1, 2 * FX_ONE)));
    // a ray pointed away from both hits nothing
    let away = Ray::new(Vec3::zero(), Vec3::new(0, 0, -FX_ONE));
    assert_eq!(nearest_hit(&objects, away, None), None);
}

#[test]
fn shadow_consistency_occluder_between_point_and_light() {
    let m = plain_material();
    let occluder = Sphere::new(0, Vec3::new(0, 0, 2 * FX_ONE), FX_ONE);
    let objects = vec![(Geometry::Sphere(occluder), m)];
    // a surface point of some other object, with the light straight behind
    // the occluder: shadowed
    assert!(shadowed(
        &objects,
        Vec3::zero(),
        Vec3::new(0, 0, FX_ONE),
        Vec3::new(0, 0, 10 * FX_ONE),
        Some(1),
    ));
    // the occluder never shadows itself
    assert!(!shadowed(
        &objects,
        Vec3::zero(),
        Vec3::new(0, 0, FX_ONE),
        Vec3::new(0, 0, 10 * FX_ONE),
        Some(0),
    ));
    // light in front of the occluder: parametrically nearer than any hit
    assert!(!shadowed(
        &objects,
        Vec3::zero(),
        Vec3::new(0, 0, FX_ONE),
        Vec3::new(0, 0, FX_ONE / 2),
        Some(1),
    ));
}

#[test]
fn tracer_importance_cutoff_returns_background() {
    let (scene, objects) = single_sphere_scene();
    let dir = Vec3::new(0, 0, FX_ONE);
    // importance below 1/256
    let c = render_worker_inner(0, &scene.eye, &dir, &scene, &objects, 100, 0, None);
    assert_eq!(c, scene.background);
    // depth beyond the bound
    let d = render_worker_inner(0, &scene.eye, &dir, &scene, &objects, FX_ONE, 9, None);
    assert_eq!(d, scene.background);
}

#[test]
fn tracer_zero_reflectivity_ignores_jitter_seed() {
    // with reflect_rate zero the reflection branch contributes nothing, so
    // the traced color cannot depend on the worker seed
    let (scene, objects) = single_sphere_scene();
    let dir = Vec3::new(0, 0, FX_ONE);
    let a = render_worker_inner(1, &scene.eye, &dir, &scene, &objects, FX_ONE, 0, None);
    let b = render_worker_inner(99, &scene.eye, &dir, &scene, &objects, FX_ONE, 0, None);
    assert_eq!(a, b);
    // and the hit is lit: a reddish, non-background color
    assert!(a.x > 0);
    assert!(a.x > a.y);
}

#[test]
fn end_to_end_scene_center_lit_corners_background() {
    let (scene, objects) = single_sphere_scene();
    let buf = render(&scene, &objects);
    assert_eq!(buf.len(), 16);
    // corner pixels equal the background
    for idx in [0usize, 3, 12, 15] {
        assert_eq!(buf[idx], Vec3::zero());
    }
    // the center pixel shows the lit reddish hemisphere
    let center = buf[10];
    assert!(center.x > 0);
    assert!(center.x > center.y);
    assert_eq!(center.y, center.z);
}

#[test]
fn render_matches_row_chunks() {
    // a parallel schedule assembles the same image as the sequential one
    let (scene, objects) = single_sphere_scene();
    let full = render(&scene, &objects);
    let mut assembled = render_rows(&scene, &objects, 0, 2);
    assembled.extend(render_rows(&scene, &objects, 2, 4));
    assert_eq!(full, assembled);
    // rendering twice is pixel-identical
    assert_eq!(full, render(&scene, &objects));
}

#[test]
fn sample_offsets_stratified_then_jittered() {
    // four samples sit on a regular 2x2 grid
    assert_eq!(sample_offset(4, 0, 0), (0, 0));
    assert_eq!(sample_offset(4, 1, 0), (32768, 0));
    assert_eq!(sample_offset(4, 2, 0), (0, 32768));
    assert_eq!(sample_offset(4, 3, 0), (32768, 32768));
    // beyond the stratified quota, deterministic quasi-random offsets
    assert_eq!(sample_offset(2, 1, 5), (1234, 61554));
}

#[test]
fn compute_entry_point_writes_one_pixel() {
    let (scene, objects) = single_sphere_scene();
    let (sph, mat) = match objects[0] {
        (Geometry::Sphere(s), m) => (s, m),
        _ => panic!("expected a sphere"),
    };
    let spheres = vec![sph];
    let smats = vec![mat];
    let tris = Vec::new();
    let tmats = Vec::new();
    let mut buf = vec![Vec3::zero(); 16];
    main_cs((2, 2, 0), &scene, &spheres, &smats, &tris, &tmats, &mut buf);
    assert!(buf[10].x > 0);
    // an out-of-range invocation writes nothing
    let before = buf.clone();
    main_cs((4, 0, 0), &scene, &spheres, &smats, &tris, &tmats, &mut buf);
    main_cs((0, 4, 0), &scene, &spheres, &smats, &tris, &tmats, &mut buf);
    assert_eq!(buf, before);
    // the combined object list pairs buffers in order
    let objs = build_kernel_objects(&spheres, &smats, &tris, &tmats);
    assert_eq!(objs.len(), 1);
}

#[test]
fn compute_entry_point_matches_metadata_resolution() {
    // a buffer filled invocation by invocation stays within bounds
    let m = plain_material();
    let sph = Sphere::new(0, Vec3::new(0, 0, 3 * FX_ONE), FX_ONE);
    let scene = SceneMetadata {
        eye: Vec3::zero(),
        canvas_wv: Vec3::new(-2 * FX_ONE, 0, 0),
        canvas_hv: Vec3::new(0, -2 * FX_ONE, 0),
        canvas_corner: Vec3::new(FX_ONE, FX_ONE, FX_ONE),
        background: Vec3::zero(),
        light_position: Vec3::new(0, 5 * FX_ONE, 0),
        resolution: UVec2 { x: 2, y: 2 },
        antialiasing: 1,
        padding: 0,
    };
    let spheres = vec![sph];
    let smats = vec![m];
    let tris = Vec::new();
    let tmats = Vec::new();
    let mut buf = vec![Vec3::zero(); 4];
    for y in 0..2u32 {
        for x in 0..2u32 {
            main_cs((x, y, 0), &scene, &spheres, &smats, &tris, &tmats, &mut buf);
        }
    }
    assert_eq!(buf.len(), 4);
}
