//! Intersection scenarios, scene parsing and image encoding.

use raytrace::fixed::FX_ONE;
use raytrace::geometry::{Geometry, Point, Ray, RayIntersectable, Sphere, Triangle};
use raytrace::ppm::encode_ppm;
use raytrace::scene::{new_scene_metadata, InputData};
use raytrace::vec3::Vec3;

#[test]
fn sphere_hit_at_entry_point() {
    // a ray aimed at the center from outside enters at center - dir * radius
    let s = Sphere::new(0, Vec3::new(0, 0, 3 * FX_ONE), FX_ONE);
    let ray = Ray::new(Vec3::zero(), Vec3::new(0, 0, FX_ONE));
    assert_eq!(s.ray_intersect(ray), Some(Vec3::new(0, 0, 2 * FX_ONE)));
    // sampled directions along the other axes
    let sx = Sphere::new(1, Vec3::new(5 * FX_ONE, 0, 0), 2 * FX_ONE);
    let rx = Ray::new(Vec3::zero(), Vec3::new(FX_ONE, 0, 0));
    assert_eq!(sx.ray_intersect(rx), Some(Vec3::new(3 * FX_ONE, 0, 0)));
    let sy = Sphere::new(2, Vec3::new(0, -4 * FX_ONE, 0), FX_ONE);
    let ry = Ray::new(Vec3::zero(), Vec3::new(0, -FX_ONE, 0));
    assert_eq!(sy.ray_intersect(ry), Some(Vec3::new(0, -3 * FX_ONE, 0)));
}

#[test]
fn sphere_miss_beyond_radius() {
    // perpendicular distance 3 exceeds radius 2: no hit
    let s = Sphere::new(0, Vec3::new(3 * FX_ONE, 0, 4 * FX_ONE), 2 * FX_ONE);
    let ray = Ray::new(Vec3::zero(), Vec3::new(0, 0, FX_ONE));
    assert_eq!(s.ray_intersect(ray), None);
    // behind the origin: closest approach is negative
    let b = Sphere::new(1, Vec3::new(0, 0, -3 * FX_ONE), FX_ONE);
    assert_eq!(b.ray_intersect(ray), None);
}

#[test]
fn triangle_centroid_hit() {
    let t = Triangle::new(
        0,
        [
            Vec3::zero(),
            Vec3::new(3 * FX_ONE, 0, 0),
            Vec3::new(0, 3 * FX_ONE, 0),
        ],
    );
    // perpendicular ray through the centroid (1, 1, 0)
    let ray = Ray::new(Vec3::new(FX_ONE, FX_ONE, -2 * FX_ONE), Vec3::new(0, 0, FX_ONE));
    assert_eq!(t.ray_intersect(ray), Some(Vec3::new(FX_ONE, FX_ONE, 0)));
}

#[test]
fn triangle_outside_miss() {
    let t = Triangle::new(
        0,
        [
            Vec3::zero(),
            Vec3::new(3 * FX_ONE, 0, 0),
            Vec3::new(0, 3 * FX_ONE, 0),
        ],
    );
    // perpendicular ray through a point outside the plane projection
    let ray = Ray::new(
        Vec3::new(-FX_ONE, -FX_ONE, -2 * FX_ONE),
        Vec3::new(0, 0, FX_ONE),
    );
    assert_eq!(t.ray_intersect(ray), None);
}

#[test]
fn ray_lerp_solve_direction() {
    let ray = Ray::new(Vec3::new(0, 0, FX_ONE), Vec3::new(0, 0, 7 * FX_ONE));
    // the direction is normalized at construction
    assert_eq!(ray.direction(), Vec3::new(0, 0, FX_ONE));
    let p = ray.lerp(2 * FX_ONE);
    assert_eq!(p, Vec3::new(0, 0, 3 * FX_ONE));
    // the coordinate-sum recovery returns the advanced parameter
    assert_eq!(ray.solve(p), 2 * FX_ONE);
}

#[test]
fn geometry_dispatch_and_ids() {
    let s = Sphere::new(7, Vec3::new(0, 0, 3 * FX_ONE), FX_ONE);
    let g = Geometry::Sphere(s);
    assert_eq!(g.id(), Some(7));
    let ray = Ray::new(Vec3::zero(), Vec3::new(0, 0, FX_ONE));
    assert_eq!(g.ray_intersect(ray), Some(Vec3::new(0, 0, 2 * FX_ONE)));
    // the sphere normal points inward, toward the center
    assert_eq!(g.normal(Vec3::new(0, 0, 2 * FX_ONE)), Vec3::new(0, 0, FX_ONE));
    let p = Geometry::Point(Point::new(Vec3::new(0, 0, 5 * FX_ONE)));
    assert_eq!(p.id(), None);
    assert_eq!(p.normal(Vec3::zero()), Vec3::zero());
    // identity comparison goes by id alone
    assert_eq!(s, Sphere::new(7, Vec3::zero(), 5));
    assert!(Sphere::new(1, Vec3::zero(), 5) != Sphere::new(2, Vec3::zero(), 5));
}

#[test]
fn parse_full_scene() {
    let text = "E 0 0 -5\nV 0 0 1 0 1 0\nF 60\nR 4 4\nM 1 0 0 0.2 0.8 0 1 0\nL 0 5 -5\nS 0 0 0 1\n";
    let d = InputData::parse(text).unwrap();
    assert_eq!(d.eye, Vec3::new(0, 0, -5 * FX_ONE));
    assert_eq!(d.view_direction, Vec3::new(0, 0, FX_ONE));
    assert_eq!(d.up_direction, Vec3::new(0, FX_ONE, 0));
    assert_eq!(d.fov, 60 * FX_ONE);
    assert_eq!(d.resolution, (4, 4));
    assert_eq!(d.light, Vec3::new(0, 5 * FX_ONE, -5 * FX_ONE));
    assert_eq!(d.objects.len(), 1);
    let (g, m) = d.objects[0];
    match g {
        Geometry::Sphere(s) => {
            assert_eq!(s.id(), 0);
            assert_eq!(s.center, Vec3::zero());
            assert_eq!(s.radius, FX_ONE);
        },
        _ => panic!("expected a sphere"),
    }
    assert_eq!(m.color, Vec3::new(FX_ONE, 0, 0));
    // 0.2 and 0.8 truncate toward zero in Q16.16
    assert_eq!(m.ka, 13107);
    assert_eq!(m.kd, 52428);
    assert_eq!(m.ks, 0);
    assert_eq!(m.specular_exp, 1);
    assert_eq!(m.reflect_rate, 0);
}

#[test]
fn parse_decimals_and_signs() {
    let d = InputData::parse("E 1.5 -2.25 +3\n").unwrap();
    assert_eq!(d.eye, Vec3::new(98304, -147456, 3 * FX_ONE));
}

#[test]
fn parse_ignores_unknown_tags_and_blank_lines() {
    let d = InputData::parse("\nX 1 2 3\n\nE 1 0 0\n# not a record\n").unwrap();
    assert_eq!(d.eye, Vec3::new(FX_ONE, 0, 0));
}

#[test]
fn parse_triangle_record() {
    let d = InputData::parse("T 0 0 0 1 0 0 0 1 0\n").unwrap();
    assert_eq!(d.objects.len(), 1);
    match d.objects[0].0 {
        Geometry::Triangle(t) => assert_eq!(t.id(), 0),
        _ => panic!("expected a triangle"),
    }
}

#[test]
fn parse_object_ids_in_declaration_order() {
    let d = InputData::parse("S 0 0 0 1\nT 0 0 0 1 0 0 0 1 0\nS 2 2 2 1\n").unwrap();
    let ids: Vec<Option<u32>> = d.objects.iter().map(|o| o.0.id()).collect();
    assert_eq!(ids, vec![Some(0), Some(1), Some(2)]);
}

#[test]
fn parse_errors() {
    // missing fields
    assert!(InputData::parse("E 1\n").is_err());
    // malformed number
    assert!(InputData::parse("F abc\n").is_err());
    // resolution outside the supported range
    assert!(InputData::parse("R 0 4\n").is_err());
    assert!(InputData::parse("R 4 40000\n").is_err());
    // reflectivity outside [0, 1]
    assert!(InputData::parse("M 1 0 0 0.2 0.8 0 1 2\n").is_err());
    // integer part out of range
    assert!(InputData::parse("F 99999999999\n").is_err());
}

#[test]
fn camera_frame_for_axis_view() {
    let d = InputData::parse("E 0 0 -5\nV 0 0 1 0 1 0\nF 60\nR 4 4\n").unwrap();
    let scene = new_scene_metadata(d, 1);
    assert_eq!(scene.eye, Vec3::new(0, 0, -5 * FX_ONE));
    assert_eq!(scene.resolution.x, 4);
    assert_eq!(scene.resolution.y, 4);
    assert_eq!(scene.background, Vec3::zero());
    assert_eq!(scene.antialiasing, 1);
    // the canvas vectors run opposite the up and left axes and span
    // twice tan(fov / 2), with the exact recurrence value 37839
    assert_eq!(scene.canvas_wv, Vec3::new(-2 * 37839, 0, 0));
    assert_eq!(scene.canvas_hv, Vec3::new(0, -2 * 37839, 0));
    // the corner sits half a canvas up and left of the plane's center
    assert_eq!(scene.canvas_corner, Vec3::new(37839, 37839, -4 * FX_ONE));
}

#[test]
fn ppm_zero_buffer_round_trip() {
    let buf = vec![Vec3::zero(); 16];
    let out = encode_ppm(&buf, 4, 4, false);
    let header = b"P6\n4 4\n255\n";
    assert_eq!(&out[..header.len()], header);
    assert_eq!(out.len(), header.len() + 3 * 16);
    assert!(out[header.len()..].iter().all(|&b| b == 0));
    let wide = encode_ppm(&buf, 4, 4, true);
    let wheader = b"P6\n4 4\n65535\n";
    assert_eq!(&wide[..wheader.len()], wheader);
    assert_eq!(wide.len(), wheader.len() + 6 * 16);
    assert!(wide[wheader.len()..].iter().all(|&b| b == 0));
}

#[test]
fn ppm_quantization() {
    // full white quantizes to 255 (or 65535); a half channel rounds
    let buf = vec![Vec3::new(FX_ONE, 32768, 0)];
    let out = encode_ppm(&buf, 1, 1, false);
    let header = b"P6\n1 1\n255\n";
    assert_eq!(&out[header.len()..], &[255u8, 128, 0]);
    let wide = encode_ppm(&buf, 1, 1, true);
    let wheader = b"P6\n1 1\n65535\n";
    // 32768/65536 * 65535 rounded = 32768; big endian
    assert_eq!(&wide[wheader.len()..], &[255u8, 255, 128, 0, 0, 0]);
}

#[test]
fn point_primitive_alignment() {
    // an aligned ray recovers the point by the coordinate-sum parameter
    let p = Point::new(Vec3::new(0, 0, 5 * FX_ONE));
    let ray = Ray::new(Vec3::zero(), Vec3::new(0, 0, FX_ONE));
    assert_eq!(p.ray_intersect(ray), Some(Vec3::new(0, 0, 5 * FX_ONE)));
}

fn first_hit<T: RayIntersectable>(shape: &T, ray: Ray) -> Option<Vec3> {
    shape.ray_intersect(ray)
}

#[test]
fn trait_dispatch_agrees_with_inherent_queries() {
    let s = Sphere::new(0, Vec3::new(0, 0, 3 * FX_ONE), FX_ONE);
    let ray = Ray::new(Vec3::zero(), Vec3::new(0, 0, FX_ONE));
    assert_eq!(first_hit(&s, ray), s.ray_intersect(ray));
    let g = Geometry::Sphere(s);
    assert_eq!(first_hit(&g, ray), g.ray_intersect(ray));
}
