//! The CPU pixel scheduler: antialiased sampling and the whole-buffer
//! render.
//!
//! Each pixel's color is a pure function of the scene, the object list and
//! the pixel's own index: the first square's worth of sub-pixel samples lie
//! on a regular stratified grid and any remaining samples come from a fixed
//! integer congruence of the pixel index, never from ambient state. The
//! buffer contract pins every entry to that function, so any schedule that
//! computes pixels from these functions — one thread or many — produces
//! the same image; `lemma_render_deterministic` and `lemma_rows_agree`
//! state this.

use vstd::prelude::*;
use crate::fixed::{
    FX_ONE, fx_sat, div_trunc, fx_div_s, sqrt_floor, fx_div, fx_from_u32, isqrt,
};
use crate::vec3::{Vec3, v_ok, v_add_s, v_sub_s, v_scale_s, v_divn_s};
use crate::geometry::Geometry;
use crate::scene::{Material, SceneMetadata, objects_wf};
use crate::kernel::trace_s;
use crate::kernel::render_worker_inner;
use vstd::arithmetic::div_mod::{
    lemma_fundamental_div_mod, lemma_div_multiples_vanish_fancy, lemma_div_pos_is_pos,
};

verus! {

/// Sub-pixel offset of sample `i` out of `n` at pixel seed `seed`, in
/// `[0, 1)` of a pixel's extent: the first `k * k` samples (`k` the integer
/// square root of `n`) lie on a regular grid, and any samples beyond that
/// stratified quota take deterministic quasi-random offsets from a fixed
/// congruence of the seed.
pub open spec fn sample_offset_s(n: int, i: int, seed: int) -> (int, int) {
    let k = sqrt_floor(n as nat) as int;
    if k > 0 && i < k * k {
        (div_trunc((i % k) * (FX_ONE as int), k), div_trunc((i / k) * (FX_ONE as int), k))
    } else {
        ((seed * 16807 + i * 48271) % (FX_ONE as int), (seed * 48271 + i * 16807) % (
        FX_ONE as int))
    }
}

/// The sub-pixel offset of one sample.
pub fn sample_offset(n: u32, i: u32, seed: u32) -> (r: (i64, i64))
    requires
        i < n,
    ensures
        (r.0 as int, r.1 as int) == sample_offset_s(n as int, i as int, seed as int),
{
    let k64 = isqrt(n as u128);
    let k: u32 = k64 as u32;
    proof {
        crate::fixed::lemma_sqrt_floor(n as nat);
        assert(sqrt_floor(n as nat) * sqrt_floor(n as nat) <= n as nat);
        assert(sqrt_floor(n as nat) <= 65536) by (nonlinear_arith)
            requires
                sqrt_floor(n as nat) * sqrt_floor(n as nat) <= n as nat,
                n < 0x1_0000_0000,
        ;
    }
    if k > 0 && i < k * k {
        let gx: i64 = ((i % k) as i64) * (FX_ONE as i64) / (k as i64);
        let gy: i64 = ((i / k) as i64) * (FX_ONE as i64) / (k as i64);
        proof {
            lemma_div_pos_is_pos(((i % k) as int) * (FX_ONE as int), k as int);
            lemma_div_pos_is_pos(((i / k) as int) * (FX_ONE as int), k as int);
        }
        (gx, gy)
    } else {
        let a: i64 = (seed as i64) * 16807 + (i as i64) * 48271;
        let b: i64 = (seed as i64) * 48271 + (i as i64) * 16807;
        (a % (FX_ONE as i64), b % (FX_ONE as i64))
    }
}

/// The unnormalized direction of the primary ray through sample offset
/// `off` of pixel `(c, r)`: the image-plane corner advanced by the pixel's
/// fractional position along both canvas vectors, minus the eye.
pub open spec fn sample_dir_s(
    scene: SceneMetadata,
    c: int,
    r: int,
    off: (int, int),
) -> (int, int, int) {
    let fc = fx_div_s(fx_sat(c * (FX_ONE as int) + off.0), scene.resolution.x as int * (
    FX_ONE as int));
    let fr = fx_div_s(fx_sat(r * (FX_ONE as int) + off.1), scene.resolution.y as int * (
    FX_ONE as int));
    let p = v_add_s(
        v_add_s(scene.canvas_corner@, v_scale_s(scene.canvas_wv@, fc)),
        v_scale_s(scene.canvas_hv@, fr),
    );
    v_sub_s(p, scene.eye@)
}

/// Sum of the traced colors of the first `i` samples of pixel `(c, r)`,
/// each a full-importance trace seeded by the pixel's flattened index.
pub open spec fn pixel_sum_s(
    scene: SceneMetadata,
    objects: Seq<(Geometry, Material)>,
    c: int,
    r: int,
    n: int,
    i: nat,
) -> (int, int, int)
    decreases i,
{
    if i == 0 {
        (0, 0, 0)
    } else {
        let prev = pixel_sum_s(scene, objects, c, r, n, (i - 1) as nat);
        let seed = r * scene.resolution.x + c;
        let off = sample_offset_s(n, i - 1, seed);
        let dir = sample_dir_s(scene, c, r, off);
        v_add_s(prev, trace_s(scene, objects, seed, scene.eye@, dir, FX_ONE as int, 0, None))
    }
}

/// The color of pixel `(c, r)`: the mean of its antialiasing samples
/// (at least one).
pub open spec fn pixel_color_s(
    scene: SceneMetadata,
    objects: Seq<(Geometry, Material)>,
    c: int,
    r: int,
) -> (int, int, int) {
    let n: int = if scene.antialiasing < 1 {
        1
    } else {
        scene.antialiasing as int
    };
    v_divn_s(pixel_sum_s(scene, objects, c, r, n, n as nat), n * (FX_ONE as int))
}

/// Render one pixel: trace every sub-pixel sample and average.
pub fn render_pixel(
    scene: &SceneMetadata,
    objects: &Vec<(Geometry, Material)>,
    c: u32,
    r: u32,
) -> (color: Vec3)
    requires
        scene.wf(),
        objects_wf(objects@),
        c < scene.resolution.x,
        r < scene.resolution.y,
    ensures
        color@ == pixel_color_s(*scene, objects@, c as int, r as int),
        v_ok(color@),
{
    let n: u32 = if scene.antialiasing < 1 {
        1
    } else {
        scene.antialiasing
    };
    proof {
        assert((r as int) * (scene.resolution.x as int) + (c as int) < (65536int * 65536))
            by (nonlinear_arith)
            requires
                0 <= r < 65536,
                0 <= c < 65536,
                c < scene.resolution.x,
                scene.resolution.x <= 65536,
        ;
        assert(0 <= (r as int) * (scene.resolution.x as int)) by (nonlinear_arith)
            requires
                0 <= r,
                0 <= scene.resolution.x,
        ;
    }
    let seed_64: u64 = (r as u64) * (scene.resolution.x as u64) + (c as u64);
    let seed: u32 = seed_64 as u32;
    let mut acc = Vec3::zero();
    let mut i: u32 = 0;
    while i < n
        invariant
            i <= n,
            scene.wf(),
            objects_wf(objects@),
            c < scene.resolution.x,
            r < scene.resolution.y,
            seed as int == (r as int) * (scene.resolution.x as int) + c as int,
            n as int == (if scene.antialiasing < 1 {
                1int
            } else {
                scene.antialiasing as int
            }),
            acc@ == pixel_sum_s(*scene, objects@, c as int, r as int, n as int, i as nat),
            v_ok(acc@),
        decreases n - i,
    {
        let off = sample_offset(n, i, seed);
        let fc = fx_div(
            crate::fixed::fx_add(crate::fixed::fx_from_u32(c), off.0),
            fx_from_u32(scene.resolution.x),
        );
        let fr = fx_div(
            crate::fixed::fx_add(crate::fixed::fx_from_u32(r), off.1),
            fx_from_u32(scene.resolution.y),
        );
        let p = scene.canvas_corner.add(scene.canvas_wv.scale(fc)).add(
            scene.canvas_hv.scale(fr),
        );
        let dir = p.sub(scene.eye);
        let sub = render_worker_inner(seed, &scene.eye, &dir, scene, objects, FX_ONE, 0, None);
        acc = acc.add(sub);
        i = i + 1;
    }
    acc.div_by(fx_from_u32(n))
}

/// Render the whole buffer in row-major order. Every entry is pinned to
/// `pixel_color_s` of its own coordinates, so the image is a pure function
/// of the scene and the objects.
pub fn render(scene: &SceneMetadata, objects: &Vec<(Geometry, Material)>) -> (buf: Vec<Vec3>)
    requires
        scene.wf(),
        objects_wf(objects@),
    ensures
        buf@.len() == scene.resolution.x * scene.resolution.y,
        forall|j: int|
            0 <= j < buf@.len() ==> (#[trigger] buf@[j])@ == pixel_color_s(
                *scene,
                objects@,
                j % (scene.resolution.x as int),
                j / (scene.resolution.x as int),
            ),
{
    let w = scene.resolution.x;
    let h = scene.resolution.y;
    proof {
        assert((w as int) * (h as int) <= 32768int * 32768) by (nonlinear_arith)
            requires
                0 <= w <= 32768,
                0 <= h <= 32768,
        ;
    }
    let total_64: u64 = (w as u64) * (h as u64);
    let total: usize = total_64 as usize;
    let mut buf: Vec<Vec3> = Vec::new();
    let mut idx: usize = 0;
    while idx < total
        invariant
            idx <= total,
            scene.wf(),
            objects_wf(objects@),
            w == scene.resolution.x,
            h == scene.resolution.y,
            total as int == (w as int) * (h as int),
            1 <= w <= 32768,
            1 <= h <= 32768,
            buf@.len() == idx,
            forall|j: int|
                0 <= j < idx ==> (#[trigger] buf@[j])@ == pixel_color_s(
                    *scene,
                    objects@,
                    j % (w as int),
                    j / (w as int),
                ),
        decreases total - idx,
    {
        let c: usize = idx % (w as usize);
        let r: usize = idx / (w as usize);
        proof {
            lemma_fundamental_div_mod(idx as int, w as int);
            assert((r as int) * (w as int) < total as int) by (nonlinear_arith)
                requires
                    (w as int) * (r as int) + (c as int) == idx as int,
                    idx < total,
                    total as int == (w as int) * (h as int),
                    0 <= c < w,
                    1 <= w,
                    0 <= r,
            ;
            assert((r as int) < (h as int)) by (nonlinear_arith)
                requires
                    (r as int) * (w as int) < (w as int) * (h as int),
                    1 <= w,
                    0 <= r,
            ;
        }
        let color = render_pixel(scene, objects, c as u32, r as u32);
        buf.push(color);
        idx = idx + 1;
    }
    buf
}

/// Render only the rows `row0 .. row1`, in the same row-major order; this
/// is the unit of work a parallel driver hands to each worker.
pub fn render_rows(
    scene: &SceneMetadata,
    objects: &Vec<(Geometry, Material)>,
    row0: u32,
    row1: u32,
) -> (buf: Vec<Vec3>)
    requires
        scene.wf(),
        objects_wf(objects@),
        row0 <= row1,
        row1 <= scene.resolution.y,
    ensures
        buf@.len() == (row1 - row0) * scene.resolution.x,
        forall|j: int|
            0 <= j < buf@.len() ==> (#[trigger] buf@[j])@ == pixel_color_s(
                *scene,
                objects@,
                j % (scene.resolution.x as int),
                row0 + j / (scene.resolution.x as int),
            ),
{
    let w = scene.resolution.x;
    proof {
        assert(((row1 - row0) as int) * (w as int) <= 32768int * 32768) by (nonlinear_arith)
            requires
                0 <= (row1 - row0) as int <= 32768,
                0 <= w <= 32768,
        ;
    }
    let total_64: u64 = ((row1 - row0) as u64) * (w as u64);
    let total: usize = total_64 as usize;
    let mut buf: Vec<Vec3> = Vec::new();
    let mut idx: usize = 0;
    while idx < total
        invariant
            idx <= total,
            scene.wf(),
            objects_wf(objects@),
            w == scene.resolution.x,
            row0 <= row1 <= scene.resolution.y,
            total as int == ((row1 - row0) as int) * (w as int),
            1 <= w <= 32768,
            buf@.len() == idx,
            forall|j: int|
                0 <= j < idx ==> (#[trigger] buf@[j])@ == pixel_color_s(
                    *scene,
                    objects@,
                    j % (w as int),
                    row0 + j / (w as int),
                ),
        decreases total - idx,
    {
        let c: usize = idx % (w as usize);
        let dr: usize = idx / (w as usize);
        proof {
            lemma_fundamental_div_mod(idx as int, w as int);
            assert((dr as int) * (w as int) < total as int) by (nonlinear_arith)
                requires
                    (w as int) * (dr as int) + (c as int) == idx as int,
                    idx < total,
                    total as int == ((row1 - row0) as int) * (w as int),
                    0 <= c < w,
                    1 <= w,
                    0 <= dr,
            ;
            assert((dr as int) < ((row1 - row0) as int)) by (nonlinear_arith)
                requires
                    (dr as int) * (w as int) < ((row1 - row0) as int) * (w as int),
                    1 <= w,
                    0 <= dr,
            ;
        }
        let r: u32 = row0 + (dr as u32);
        let color = render_pixel(scene, objects, c as u32, r);
        buf.push(color);
        idx = idx + 1;
    }
    buf
}

/// Determinism: any two buffers that satisfy `render`'s contract for the
/// same scene and objects are identical, pixel for pixel. A sequential and
/// a parallel schedule both fill their buffers from `pixel_color_s`, so
/// they produce the same image.
pub proof fn lemma_render_deterministic(
    scene: SceneMetadata,
    objects: Seq<(Geometry, Material)>,
    b1: Seq<Vec3>,
    b2: Seq<Vec3>,
)
    requires
        b1.len() == scene.resolution.x * scene.resolution.y,
        b2.len() == b1.len(),
        forall|j: int|
            0 <= j < b1.len() ==> (#[trigger] b1[j])@ == pixel_color_s(
                scene,
                objects,
                j % (scene.resolution.x as int),
                j / (scene.resolution.x as int),
            ),
        forall|j: int|
            0 <= j < b2.len() ==> (#[trigger] b2[j])@ == pixel_color_s(
                scene,
                objects,
                j % (scene.resolution.x as int),
                j / (scene.resolution.x as int),
            ),
    ensures
        b1 =~= b2,
{
    assert forall|j: int| 0 <= j < b1.len() implies b1[j] == b2[j] by {
        assert(b1[j]@ == b2[j]@);
    }
}

/// A row chunk agrees with the full render wherever both are defined: the
/// entry a worker computes for pixel `(c, row0 + d)` is the entry the full
/// buffer holds at index `(row0 + d) * width + c`.
pub proof fn lemma_rows_agree(
    scene: SceneMetadata,
    objects: Seq<(Geometry, Material)>,
    full: Seq<Vec3>,
    part: Seq<Vec3>,
    row0: int,
    row1: int,
)
    requires
        1 <= scene.resolution.x,
        0 <= row0 <= row1,
        row1 * scene.resolution.x <= full.len(),
        forall|j: int|
            0 <= j < full.len() ==> (#[trigger] full[j])@ == pixel_color_s(
                scene,
                objects,
                j % (scene.resolution.x as int),
                j / (scene.resolution.x as int),
            ),
        part.len() == (row1 - row0) * scene.resolution.x,
        forall|j: int|
            0 <= j < part.len() ==> (#[trigger] part[j])@ == pixel_color_s(
                scene,
                objects,
                j % (scene.resolution.x as int),
                row0 + j / (scene.resolution.x as int),
            ),
    ensures
        forall|j: int|
            0 <= j < part.len() ==> #[trigger] part[j] == full[row0 * scene.resolution.x + j],
{
    let w = scene.resolution.x as int;
    assert forall|j: int| 0 <= j < part.len() implies #[trigger] part[j] == full[row0 * w + j] by {
        let fj = row0 * w + j;
        lemma_fundamental_div_mod(j, w);
        let d = j / w;
        let m = j % w;
        lemma_div_pos_is_pos(j, w);
        assert(fj == w * (row0 + d) + m) by (nonlinear_arith)
            requires
                fj == row0 * w + j,
                j == w * d + m,
        ;
        assert(0 <= fj) by (nonlinear_arith)
            requires
                fj == w * (row0 + d) + m,
                0 <= row0,
                0 <= d,
                0 <= m,
                1 <= w,
        ;
        assert(fj < row1 * w) by (nonlinear_arith)
            requires
                fj == row0 * w + j,
                j < (row1 - row0) * w,
        ;
        lemma_div_multiples_vanish_fancy(row0 + d, m, w);
        assert(fj / w == row0 + d);
        assert(fj % w == fj - w * (fj / w)) by {
            lemma_fundamental_div_mod(fj, w);
        }
        assert(fj % w == m);
        assert(part[j]@ == full[fj]@);
    }
}

} // verus!
