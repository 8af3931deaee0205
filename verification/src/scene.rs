//! Scene model: materials, the camera-derived scene record, and parsed
//! input data.
//!
//! A scene is built once, from a line-oriented text description, and is
//! read-only for the whole render. `new_scene_metadata` derives the image
//! plane (corner and basis vectors) from the camera parameters; the field
//! of view's tangent comes from the exact CORDIC recurrence of `fixed`.

use vstd::prelude::*;
use crate::fixed::{
    FX_ONE, fx_ok, fx_mul_s, fx_div_s, tan_s, fx_add, fx_mul, fx_div, fx_tan, fx_from_i32,
};
use crate::vec3::{Vec3, v_ok, v_add_s, v_neg_s, v_scale_s, v_cross_s, v_norm_s, v_len_s};
use crate::geometry::Geometry;

verus! {

/// A surface description: base color, ambient/diffuse/specular
/// coefficients, the specular exponent and the mirror reflectivity.
/// The exponent is a plain natural number: the specular power is an
/// iterated product in fixed point.
#[derive(Clone, Copy, Debug)]
pub struct Material {
    pub color: Vec3,
    pub ka: i64,
    pub kd: i64,
    pub ks: i64,
    pub specular_exp: u32,
    pub reflect_rate: i64,
}

impl Material {
    /// Coefficients in range; the reflectivity must lie in `[0, 1]`, which
    /// keeps the tracer's importance decaying.
    pub open spec fn wf(self) -> bool {
        v_ok(self.color@) && fx_ok(self.ka as int) && fx_ok(self.kd as int) && fx_ok(
            self.ks as int,
        ) && 0 <= self.reflect_rate <= FX_ONE
    }
}

/// A two-component resolution, row-major width then height.
#[derive(Clone, Copy, PartialEq, Eq, Structural, Debug)]
pub struct UVec2 {
    pub x: u32,
    pub y: u32,
}

/// Everything the per-pixel tracer reads: camera frame, light, background,
/// resolution and the antialiasing level.
#[derive(Clone, Copy, Debug)]
pub struct SceneMetadata {
    pub eye: Vec3,
    pub canvas_wv: Vec3,
    pub canvas_hv: Vec3,
    pub canvas_corner: Vec3,
    pub background: Vec3,
    pub light_position: Vec3,
    pub resolution: UVec2,
    pub antialiasing: u32,
    pub padding: u32,
}

impl SceneMetadata {
    /// Vectors in range, resolution positive and small enough that the
    /// pixel count fits comfortably in a buffer index.
    pub open spec fn wf(self) -> bool {
        v_ok(self.eye@) && v_ok(self.canvas_wv@) && v_ok(self.canvas_hv@) && v_ok(
            self.canvas_corner@,
        ) && v_ok(self.background@) && v_ok(self.light_position@) && 1 <= self.resolution.x
            <= 32768 && 1 <= self.resolution.y <= 32768
    }
}

/// A parsed scene description: camera parameters, light, and the ordered
/// object list with per-object materials.
pub struct InputData {
    pub eye: Vec3,
    pub view_direction: Vec3,
    pub up_direction: Vec3,
    pub fov: i64,
    pub resolution: (i32, i32),
    pub objects: Vec<(Geometry, Material)>,
    pub light: Vec3,
}

/// Every object and material of the list is well-formed.
pub open spec fn objects_wf(s: Seq<(Geometry, Material)>) -> bool {
    forall|i: int| 0 <= i < s.len() ==> (#[trigger] s[i]).0.wf() && s[i].1.wf()
}

impl InputData {
    pub open spec fn wf(self) -> bool {
        v_ok(self.eye@) && v_ok(self.view_direction@) && v_ok(self.up_direction@) && v_ok(
            self.light@,
        ) && fx_ok(self.fov as int) && 1 <= self.resolution.0 <= 32768 && 1 <= self.resolution.1
            <= 32768 && objects_wf(self.objects@)
    }
}

/// Radians per degree, in Q16.16.
pub const RAD_PER_DEG: i64 = 1144;

/// Tangent of half the field of view, the ratio of the half-width of the
/// image plane to its distance from the eye.
pub open spec fn tan_half_fov_s(fov: int) -> int {
    tan_s(fx_mul_s(fx_mul_s(fov, 32768), RAD_PER_DEG as int))
}

/// Width of the image plane: `tan(fov/2) * |view| * 2`.
pub open spec fn canvas_width_s(fov: int, view: (int, int, int)) -> int {
    let w0 = fx_mul_s(tan_half_fov_s(fov), v_len_s(view));
    crate::fixed::fx_sat(w0 + w0)
}

/// Height of the image plane: the width scaled by the aspect ratio.
pub open spec fn canvas_height_s(fov: int, view: (int, int, int), res: (int, int)) -> int {
    fx_mul_s(canvas_width_s(fov, view), fx_div_s(res.1 * (FX_ONE as int), res.0 * (FX_ONE as int)))
}

/// The upward unit basis vector of the image plane.
pub open spec fn unit_up_s(up: (int, int, int)) -> (int, int, int) {
    v_norm_s(up)
}

/// The leftward unit basis vector of the image plane.
pub open spec fn unit_left_s(up: (int, int, int), view: (int, int, int)) -> (int, int, int) {
    v_norm_s(v_cross_s(unit_up_s(up), view))
}

/// The world-space top corner of the image plane.
pub open spec fn canvas_corner_s(
    eye: (int, int, int),
    view: (int, int, int),
    up: (int, int, int),
    fov: int,
    res: (int, int),
) -> (int, int, int) {
    let center = v_add_s(eye, v_norm_s(view));
    let w = canvas_width_s(fov, view);
    let h = canvas_height_s(fov, view, res);
    v_add_s(
        v_add_s(center, v_scale_s(unit_up_s(up), fx_mul_s(h, 32768))),
        v_scale_s(unit_left_s(up, view), fx_mul_s(w, 32768)),
    )
}

/// Derive the render-ready scene record from parsed input: the image
/// plane's corner and (downward, rightward) basis vectors, the camera and
/// light positions, a black background, and the resolution.
pub fn new_scene_metadata(data: InputData, antialiasing: u32) -> (r: SceneMetadata)
    requires
        data.wf(),
    ensures
        r.eye == data.eye,
        r.canvas_corner@ == canvas_corner_s(
            data.eye@,
            data.view_direction@,
            data.up_direction@,
            data.fov as int,
            (data.resolution.0 as int, data.resolution.1 as int),
        ),
        r.canvas_hv@ == v_scale_s(
            v_neg_s(unit_up_s(data.up_direction@)),
            canvas_height_s(
                data.fov as int,
                data.view_direction@,
                (data.resolution.0 as int, data.resolution.1 as int),
            ),
        ),
        r.canvas_wv@ == v_scale_s(
            v_neg_s(unit_left_s(data.up_direction@, data.view_direction@)),
            canvas_width_s(data.fov as int, data.view_direction@),
        ),
        r.resolution.x == data.resolution.0 as u32,
        r.resolution.y == data.resolution.1 as u32,
        r.background@ == (0int, 0int, 0int),
        r.light_position == data.light,
        r.antialiasing == antialiasing,
        r.wf(),
{
    let center = data.eye.add(data.view_direction.normalize());
    let tan_half = fx_tan(fx_mul(fx_mul(data.fov, 32768), RAD_PER_DEG));
    let w0 = fx_mul(tan_half, data.view_direction.length());
    let width = fx_add(w0, w0);
    let height = fx_mul(
        width,
        fx_div(fx_from_i32(data.resolution.1), fx_from_i32(data.resolution.0)),
    );
    let unit_up = data.up_direction.normalize();
    let unit_left = unit_up.cross(data.view_direction).normalize();
    let corner = center.add(unit_up.scale(fx_mul(height, 32768))).add(
        unit_left.scale(fx_mul(width, 32768)),
    );
    SceneMetadata {
        eye: data.eye,
        canvas_corner: corner,
        canvas_hv: unit_up.neg().scale(height),
        canvas_wv: unit_left.neg().scale(width),
        resolution: UVec2 { x: data.resolution.0 as u32, y: data.resolution.1 as u32 },
        background: Vec3::zero(),
        light_position: data.light,
        antialiasing,
        padding: 0,
    }
}

} // verus!
