//! The rendering core: nearest-hit intersection, shadow test, shading and
//! the recursive tracer, together with the per-invocation compute entry
//! point that mirrors it on flattened object buffers.
//!
//! Policies fixed here, where the underlying formulas leave a choice:
//! the recursion bound is eight;
//! candidate hits whose direction components sum to zero are rejected,
//! the exact analogue of the undefined parameter the coordinate-sum
//! recovery would produce; among equally near hits the earliest object in
//! declaration order wins; and the reflection jitter comes from a fixed
//! integer congruence of the worker id, the depth and the sample index, so
//! a render is a pure function of its inputs.

use vstd::prelude::*;
use crate::fixed::{
    FX_ONE, fx_ok, fx_sat, div_trunc, fx_mul_s, fx_div_s, fx_powi_s, abs_s,
    fx_add, fx_sub, fx_mul, fx_div, fx_powi, fx_abs, fx_trunc, fx_from_u32,
};
use crate::vec3::{
    Vec3, v_ok, v_add_s, v_sub_s, v_neg_s, v_scale_s, v_dot_s, v_cross_s, v_norm_s, v_sum_s,
    v_clamp01_s, v_divn_s, v_len_s, vec3_sum,
};
use crate::geometry::{Ray, Sphere, Triangle, Geometry, lerp_s, solve_s};
use crate::scene::{Material, SceneMetadata, objects_wf};
use vstd::arithmetic::div_mod::{lemma_div_pos_is_pos, lemma_div_is_ordered};

verus! {

/// Bound on the recursion depth of the tracer.
pub const MAX_RECURSION_DEPTH: u32 = 8;

/// Importance below which a ray cannot influence its pixel: 1/256.
pub const IMPORTANCE_CUTOFF: i64 = 256;

/// Mirror reflection of a direction about a surface normal:
/// `d - 2 (d . n) n`.
pub open spec fn reflect_s(d: (int, int, int), n: (int, int, int)) -> (int, int, int) {
    v_sub_s(d, v_scale_s(n, fx_sat(2 * v_dot_s(d, n))))
}

/// Mirror reflection of `slf` about `normal`.
pub fn reflect(slf: Vec3, normal: Vec3) -> (r: Vec3)
    requires
        v_ok(slf@),
        v_ok(normal@),
    ensures
        r@ == reflect_s(slf@, normal@),
        v_ok(r@),
{
    let k = slf.dot(normal);
    slf.sub(normal.scale(fx_add(k, k)))
}

/// Does an object's identity match the excluded one? A bare point carries
/// no identity and is never excluded.
pub open spec fn excluded_s(id: Option<u32>, excl: Option<u32>) -> bool {
    match (id, excl) {
        (Some(a), Some(b)) => a == b,
        _ => false,
    }
}

fn excluded(id: Option<u32>, excl: Option<u32>) -> (r: bool)
    ensures
        r == excluded_s(id, excl),
{
    match (id, excl) {
        (Some(a), Some(b)) => a == b,
        _ => false,
    }
}

/// Parametric distance of a valid candidate hit on one object. The object
/// must not be the excluded one; the ray must hit it; the coordinate-sum
/// parameter recovery must be defined (direction components must not sum
/// to zero, the exact form the floating-point NaN rejection takes here);
/// and the recovered parameter must not be negative.
pub open spec fn cand_t_s(
    obj: (Geometry, Material),
    origin: (int, int, int),
    dir: (int, int, int),
    excl: Option<u32>,
) -> Option<int> {
    if excluded_s(obj.0.id_s(), excl) {
        None
    } else {
        match obj.0.hit_over(origin, dir) {
            None => None,
            Some(pt) => if v_sum_s(dir) == 0 {
                None
            } else {
                let t = solve_s(origin, dir, pt);
                if t < 0 {
                    None
                } else {
                    Some(t)
                }
            },
        }
    }
}

/// Nearest valid hit over the object list: the smallest parameter wins,
/// and the earliest of equally near objects wins. The result is the
/// winning index and its parameter.
pub open spec fn best_s(
    objects: Seq<(Geometry, Material)>,
    origin: (int, int, int),
    dir: (int, int, int),
    excl: Option<u32>,
) -> Option<(int, int)>
    decreases objects.len(),
{
    if objects.len() == 0 {
        None
    } else {
        let prev = best_s(objects.drop_last(), origin, dir, excl);
        let c = cand_t_s(objects.last(), origin, dir, excl);
        match (prev, c) {
            (None, None) => None,
            (None, Some(t)) => Some((objects.len() - 1, t)),
            (Some(p), None) => Some(p),
            (Some(p), Some(t)) => if t < p.1 {
                Some((objects.len() - 1, t))
            } else {
                Some(p)
            },
        }
    }
}

/// A winning hit names an index in range whose candidate parameter it is.
pub proof fn lemma_best_range(
    objects: Seq<(Geometry, Material)>,
    origin: (int, int, int),
    dir: (int, int, int),
    excl: Option<u32>,
)
    ensures
        match best_s(objects, origin, dir, excl) {
            None => true,
            Some(p) => 0 <= p.0 < objects.len() && cand_t_s(objects[p.0], origin, dir, excl)
                == Some(p.1),
        },
    decreases objects.len(),
{
    if objects.len() > 0 {
        lemma_best_range(objects.drop_last(), origin, dir, excl);
        assert(objects.drop_last().len() == objects.len() - 1);
        assert(forall|i: int|
            0 <= i < objects.len() - 1 ==> objects.drop_last()[i] == objects[i]);
        assert(objects.last() == objects[objects.len() - 1]);
    }
}

/// Find the nearest valid hit of a ray against every object, excluding the
/// identity `excl`; returns the winning index and parametric distance.
pub fn nearest_hit(
    objects: &Vec<(Geometry, Material)>,
    ray: Ray,
    excl: Option<u32>,
) -> (r: Option<(usize, i64)>)
    requires
        objects_wf(objects@),
        ray.wf(),
    ensures
        match r {
            None => best_s(objects@, ray.origin@, ray.dir(), excl) is None,
            Some(p) => best_s(objects@, ray.origin@, ray.dir(), excl) == Some(
                (p.0 as int, p.1 as int),
            ),
        },
{
    let ghost o = ray.origin@;
    let ghost d = ray.dir();
    let mut res: Option<(usize, i64)> = None;
    let mut k: usize = 0;
    while k < objects.len()
        invariant
            k <= objects.len(),
            objects_wf(objects@),
            ray.wf(),
            o == ray.origin@,
            d == ray.dir(),
            match res {
                None => best_s(objects@.take(k as int), o, d, excl) is None,
                Some(p) => best_s(objects@.take(k as int), o, d, excl) == Some(
                    (p.0 as int, p.1 as int),
                ) && p.0 < k,
            },
        decreases objects.len() - k,
    {
        let obj = objects[k];
        let c: Option<i64> = if excluded(obj.0.id(), excl) {
            None
        } else {
            match obj.0.ray_intersect(ray) {
                None => None,
                Some(pt) => {
                    if vec3_sum(ray.direction()) == 0 {
                        None
                    } else {
                        let t = ray.solve(pt);
                        if t < 0 {
                            None
                        } else {
                            Some(t)
                        }
                    }
                },
            }
        };
        proof {
            assert(match c {
                None => cand_t_s(objects@[k as int], o, d, excl) is None,
                Some(t) => cand_t_s(objects@[k as int], o, d, excl) == Some(t as int),
            });
        }
        match c {
            None => {},
            Some(t) => {
                match res {
                    None => { res = Some((k, t)); },
                    Some(p) => {
                        if t < p.1 {
                            res = Some((k, t));
                        }
                    },
                }
            },
        }
        proof {
            assert(objects@.take(k as int + 1).drop_last() =~= objects@.take(k as int));
            assert(objects@.take(k as int + 1).last() == objects@[k as int]);
        }
        k = k + 1;
    }
    proof {
        assert(objects@.take(objects@.len() as int) =~= objects@);
    }
    res
}

/// Does one object throw the surface point into shadow? The object must
/// not be the shaded one; a hit of the ray toward the light shadows when
/// it lies off the surface point (a positive distance, the integer form of
/// the small-epsilon self-shadowing guard) and parametrically no farther
/// than the light.
pub open spec fn shadow_hit_s(
    obj: (Geometry, Material),
    collision: (int, int, int),
    light_dir: (int, int, int),
    light_pos: (int, int, int),
    self_id: Option<u32>,
) -> bool {
    if excluded_s(obj.0.id_s(), self_id) {
        false
    } else {
        match obj.0.hit_over(collision, light_dir) {
            None => false,
            Some(c) => if v_sum_s(light_dir) == 0 {
                false
            } else {
                v_len_s(v_sub_s(c, collision)) > 0 && solve_s(collision, light_dir, c) <= solve_s(
                    collision,
                    light_dir,
                    light_pos,
                )
            },
        }
    }
}

/// Is the surface point shadowed by any object of the scene?
pub open spec fn shadowed_s(
    objects: Seq<(Geometry, Material)>,
    collision: (int, int, int),
    light_dir: (int, int, int),
    light_pos: (int, int, int),
    self_id: Option<u32>,
) -> bool {
    exists|i: int|
        0 <= i < objects.len() && shadow_hit_s(
            #[trigger] objects[i],
            collision,
            light_dir,
            light_pos,
            self_id,
        )
}

/// Shadow test: cast a ray from the surface point toward the light and
/// look for an occluder between the two, excluding the shaded object.
pub fn shadowed(
    objects: &Vec<(Geometry, Material)>,
    collision: Vec3,
    light_dir: Vec3,
    light_pos: Vec3,
    self_id: Option<u32>,
) -> (r: bool)
    requires
        objects_wf(objects@),
        v_ok(collision@),
        v_ok(light_dir@),
        v_ok(light_pos@),
    ensures
        r == shadowed_s(objects@, collision@, light_dir@, light_pos@, self_id),
{
    // the shadow ray keeps the already-normalized light direction as is
    let sray = Ray { origin: collision, direction: light_dir };
    let mut k: usize = 0;
    while k < objects.len()
        invariant
            k <= objects.len(),
            objects_wf(objects@),
            v_ok(collision@),
            v_ok(light_dir@),
            v_ok(light_pos@),
            sray.origin == collision,
            sray.dir() == light_dir@,
            forall|i: int|
                0 <= i < k ==> !shadow_hit_s(
                    #[trigger] objects@[i],
                    collision@,
                    light_dir@,
                    light_pos@,
                    self_id,
                ),
        decreases objects.len() - k,
    {
        let obj = objects[k];
        if !excluded(obj.0.id(), self_id) {
            match obj.0.ray_intersect(sray) {
                None => {},
                Some(c) => {
                    if vec3_sum(light_dir) != 0 {
                        let moved = c.distance(collision) > 0;
                        if moved && sray.solve(c) <= sray.solve(light_pos) {
                            return true;
                        }
                    }
                },
            }
        }
        k = k + 1;
    }
    false
}

/// Zero-floored value, used for the diffuse and specular dot products.
pub open spec fn max0_s(v: int) -> int {
    if v < 0 {
        0
    } else {
        v
    }
}

/// An orthonormal pair completing a normal into a frame: cross the normal
/// with the axis it is least aligned with, normalize, and cross again.
pub open spec fn ortho_pair_s(n: (int, int, int)) -> ((int, int, int), (int, int, int)) {
    let axis: (int, int, int) = if abs_s(n.0) <= abs_s(n.1) && abs_s(n.0) <= abs_s(n.2) {
        (FX_ONE as int, 0, 0)
    } else if abs_s(n.1) <= abs_s(n.2) {
        (0, FX_ONE as int, 0)
    } else {
        (0, 0, FX_ONE as int)
    };
    let u = v_norm_s(v_cross_s(n, axis));
    (u, v_cross_s(n, u))
}

/// An orthonormal pair completing `n` into a frame.
pub fn ortho_pair(n: Vec3) -> (r: (Vec3, Vec3))
    requires
        v_ok(n@),
    ensures
        (r.0@, r.1@) == ortho_pair_s(n@),
        v_ok(r.0@),
        v_ok(r.1@),
{
    let ax = fx_abs(n.x);
    let ay = fx_abs(n.y);
    let az = fx_abs(n.z);
    let axis = if ax <= ay && ax <= az {
        Vec3::new(FX_ONE, 0, 0)
    } else if ay <= az {
        Vec3::new(0, FX_ONE, 0)
    } else {
        Vec3::new(0, 0, FX_ONE)
    };
    let u = n.cross(axis).normalize();
    (u, n.cross(u))
}

/// Deterministic reflection jitter: a fixed congruence of the worker id,
/// the recursion depth and the sample index, mapped into `[-1, 1)`. Using
/// a pure function here makes every render reproducible.
pub open spec fn jitter_s(worker: int, depth: int, i: int) -> (int, int) {
    (
        (worker * 48271 + depth * 69621 + i * 16807) % 131072 - 65536,
        (worker * 16807 + depth * 48271 + i * 69621) % 131072 - 65536,
    )
}

/// Deterministic reflection jitter offsets for one sample.
pub fn jitter(worker: u32, depth: u32, i: u32) -> (r: (i64, i64))
    ensures
        (r.0 as int, r.1 as int) == jitter_s(worker as int, depth as int, i as int),
{
    let a: i64 = (worker as i64) * 48271 + (depth as i64) * 69621 + (i as i64) * 16807;
    let b: i64 = (worker as i64) * 16807 + (depth as i64) * 48271 + (i as i64) * 69621;
    (a % 131072 - 65536, b % 131072 - 65536)
}

/// Number of reflection samples: importance times the remaining depth
/// budget, truncated, at least one.
pub open spec fn samples_s(importance: int, depth: int) -> int {
    let v = div_trunc(
        fx_mul_s(importance, (MAX_RECURSION_DEPTH as int - depth) * (FX_ONE as int)),
        FX_ONE as int,
    );
    if v < 1 {
        1
    } else {
        v
    }
}

/// The flipped surface normal at the nearest hit: the geometry's normal,
/// normalized, turned to face the incoming ray.
pub open spec fn hit_normal_s(
    objects: Seq<(Geometry, Material)>,
    hit: (int, int),
    origin: (int, int, int),
    direction: (int, int, int),
) -> (int, int, int) {
    let dir = v_norm_s(direction);
    let collision = lerp_s(origin, dir, hit.1);
    let tmpn = v_norm_s(objects[hit.0].0.normal_spec(collision));
    if v_dot_s(tmpn, v_neg_s(direction)) < 0 {
        v_neg_s(tmpn)
    } else {
        tmpn
    }
}

/// Is the nearest hit's surface point in shadow?
pub open spec fn hit_shadow_s(
    scene: SceneMetadata,
    objects: Seq<(Geometry, Material)>,
    hit: (int, int),
    origin: (int, int, int),
    direction: (int, int, int),
) -> bool {
    let dir = v_norm_s(direction);
    let collision = lerp_s(origin, dir, hit.1);
    let light_dir = v_norm_s(v_sub_s(scene.light_position@, collision));
    shadowed_s(objects, collision, light_dir, scene.light_position@, objects[hit.0].0.id_s())
}

/// The diffuse term at the nearest hit: the floored cosine between the
/// flipped normal and the light direction, and exactly zero in shadow.
pub open spec fn hit_diffuse_s(
    scene: SceneMetadata,
    objects: Seq<(Geometry, Material)>,
    hit: (int, int),
    origin: (int, int, int),
    direction: (int, int, int),
) -> int {
    if hit_shadow_s(scene, objects, hit, origin, direction) {
        0
    } else {
        let dir = v_norm_s(direction);
        let collision = lerp_s(origin, dir, hit.1);
        let light_dir = v_norm_s(v_sub_s(scene.light_position@, collision));
        max0_s(v_dot_s(hit_normal_s(objects, hit, origin, direction), light_dir))
    }
}

/// The specular term at the nearest hit: the floored cosine between the
/// flipped normal and the half vector, raised to the material's specular
/// exponent, and exactly zero in shadow.
pub open spec fn hit_specular_s(
    scene: SceneMetadata,
    objects: Seq<(Geometry, Material)>,
    hit: (int, int),
    origin: (int, int, int),
    direction: (int, int, int),
) -> int {
    if hit_shadow_s(scene, objects, hit, origin, direction) {
        0
    } else {
        let dir = v_norm_s(direction);
        let collision = lerp_s(origin, dir, hit.1);
        let light_dir = v_norm_s(v_sub_s(scene.light_position@, collision));
        let half = v_norm_s(v_add_s(light_dir, v_neg_s(v_norm_s(direction))));
        fx_powi_s(
            max0_s(v_dot_s(hit_normal_s(objects, hit, origin, direction), half)),
            objects[hit.0].1.specular_exp as nat,
        )
    }
}

/// The local (non-recursive) color at the nearest hit: the material color
/// scaled by ambient plus diffuse, plus white scaled by specular.
pub open spec fn hit_local_s(
    scene: SceneMetadata,
    objects: Seq<(Geometry, Material)>,
    hit: (int, int),
    origin: (int, int, int),
    direction: (int, int, int),
) -> (int, int, int) {
    v_add_s(
        v_scale_s(
            objects[hit.0].1.color@,
            fx_sat(
                objects[hit.0].1.ka + fx_mul_s(
                    objects[hit.0].1.kd as int,
                    hit_diffuse_s(scene, objects, hit, origin, direction),
                ),
            ),
        ),
        v_scale_s(
            (FX_ONE as int, FX_ONE as int, FX_ONE as int),
            hit_specular_s(scene, objects, hit, origin, direction),
        ),
    )
}

/// The color a traced ray contributes. Termination: background when the
/// importance has decayed below the cutoff or the depth bound is passed.
/// Otherwise the nearest valid hit is shaded with the ambient, shadowed
/// diffuse and shadowed specular terms, and blended with the average of
/// the recursively traced reflection samples, weighted by the material's
/// reflectivity against its complement; the result is clamped per channel
/// into the unit cube. A miss yields the background.
pub open spec fn trace_s(
    scene: SceneMetadata,
    objects: Seq<(Geometry, Material)>,
    worker: int,
    origin: (int, int, int),
    direction: (int, int, int),
    importance: int,
    depth: int,
    prev: Option<u32>,
) -> (int, int, int)
    decreases MAX_RECURSION_DEPTH + 1 - depth, 1int, 0int,
{
    if importance < IMPORTANCE_CUTOFF as int || depth > MAX_RECURSION_DEPTH as int {
        scene.background@
    } else {
        let dir = v_norm_s(direction);
        match best_s(objects, origin, dir, prev) {
            None => scene.background@,
            Some(hit) => {
                let obj = objects[hit.0];
                let collision = lerp_s(origin, dir, hit.1);
                let nrm = hit_normal_s(objects, hit, origin, direction);
                let refl = reflect_s(direction, nrm);
                let rmax: int = if scene.resolution.x > scene.resolution.y {
                    scene.resolution.x as int
                } else {
                    scene.resolution.y as int
                };
                let eps = fx_div_s(FX_ONE as int, 2 * rmax * (FX_ONE as int));
                let orthos = ortho_pair_s(nrm);
                let imp2 = fx_mul_s(importance, obj.1.reflect_rate as int);
                let n = samples_s(importance, depth);
                let acc = sample_sum_s(
                    scene,
                    objects,
                    worker,
                    collision,
                    refl,
                    orthos.0,
                    orthos.1,
                    eps,
                    imp2,
                    depth,
                    obj.0.id_s(),
                    n as nat,
                );
                let reflect_color = v_divn_s(acc, n * (FX_ONE as int));
                let local = hit_local_s(scene, objects, hit, origin, direction);
                v_clamp01_s(
                    v_add_s(
                        v_scale_s(local, fx_sat(FX_ONE as int - obj.1.reflect_rate as int)),
                        v_scale_s(reflect_color, obj.1.reflect_rate as int),
                    ),
                )
            },
        }
    }
}

/// Sum of the first `i` reflection samples: each perturbs the hit point
/// within the orthonormal frame `(u, w)` by the jitter offsets scaled with
/// `eps`, and traces one step deeper with the decayed importance.
pub open spec fn sample_sum_s(
    scene: SceneMetadata,
    objects: Seq<(Geometry, Material)>,
    worker: int,
    collision: (int, int, int),
    refl: (int, int, int),
    u: (int, int, int),
    w: (int, int, int),
    eps: int,
    imp2: int,
    depth: int,
    id: Option<u32>,
    i: nat,
) -> (int, int, int)
    decreases MAX_RECURSION_DEPTH + 1 - depth, 0int, i,
{
    if i == 0 || depth > MAX_RECURSION_DEPTH as int {
        (0, 0, 0)
    } else {
        let prev = sample_sum_s(
            scene,
            objects,
            worker,
            collision,
            refl,
            u,
            w,
            eps,
            imp2,
            depth,
            id,
            (i - 1) as nat,
        );
        let j = jitter_s(worker, depth, i - 1);
        let rv = v_add_s(
            v_scale_s(v_add_s(v_scale_s(u, j.0), v_scale_s(w, j.1)), eps),
            collision,
        );
        v_add_s(prev, trace_s(scene, objects, worker, rv, refl, imp2, depth + 1, id))
    }
}

/// A product of two unit-interval scalars stays in the unit interval.
proof fn lemma_unit_mul(a: int, b: int)
    requires
        0 <= a <= FX_ONE as int,
        0 <= b <= FX_ONE as int,
    ensures
        0 <= fx_mul_s(a, b) <= FX_ONE as int,
{
    assert(0 <= a * b <= 65536 * 65536) by (nonlinear_arith)
        requires
            0 <= a <= 65536,
            0 <= b <= 65536,
    ;
    lemma_div_pos_is_pos(a * b, 65536);
    lemma_div_is_ordered(a * b, 65536int * 65536, 65536);
}

/// The sample count derived from a unit-interval importance and the depth
/// budget lies between zero and the depth bound.
proof fn lemma_samples_raw_bound(importance: int, k: int)
    requires
        0 <= importance <= FX_ONE as int,
        0 <= k <= MAX_RECURSION_DEPTH as int,
    ensures
        0 <= div_trunc(fx_mul_s(importance, k * (FX_ONE as int)), FX_ONE as int)
            <= MAX_RECURSION_DEPTH as int,
{
    assert(0 <= importance * (k * 65536) <= 65536 * (8 * 65536)) by (nonlinear_arith)
        requires
            0 <= importance <= 65536,
            0 <= k <= 8,
    ;
    lemma_div_pos_is_pos(importance * (k * 65536), 65536);
    lemma_div_is_ordered(importance * (k * 65536), 65536int * (8 * 65536), 65536);
    let m = div_trunc(importance * (k * 65536), 65536);
    assert(0 <= m <= 8 * 65536);
    lemma_div_pos_is_pos(m, 65536);
    lemma_div_is_ordered(m, 8int * 65536, 65536);
}

/// The recursive tracer: intersect, shade, and continue along jittered
/// mirror reflections until the importance or depth bound stops it. The
/// result is exactly `trace_s` of the inputs.
pub fn render_worker_inner(
    worker_id: u32,
    origin: &Vec3,
    direction: &Vec3,
    scene: &SceneMetadata,
    objects: &Vec<(Geometry, Material)>,
    importance: i64,
    recursion_depth: u32,
    prev_obj_id: Option<u32>,
) -> (r: Vec3)
    requires
        scene.wf(),
        objects_wf(objects@),
        v_ok(origin@),
        v_ok(direction@),
        0 <= importance <= FX_ONE,
    ensures
        r@ == trace_s(
            *scene,
            objects@,
            worker_id as int,
            origin@,
            direction@,
            importance as int,
            recursion_depth as int,
            prev_obj_id,
        ),
        v_ok(r@),
    decreases MAX_RECURSION_DEPTH + 1 - recursion_depth,
{
    if importance < IMPORTANCE_CUTOFF || recursion_depth > MAX_RECURSION_DEPTH {
        return scene.background;
    }
    let ray = Ray::new(*origin, *direction);
    match nearest_hit(objects, ray, prev_obj_id) {
        None => scene.background,
        Some((idx, t)) => {
            proof {
                lemma_best_range(objects@, origin@, ray.dir(), prev_obj_id);
            }
            let obj = objects[idx];
            let geo = obj.0;
            let mat = obj.1;
            let gid = geo.id();
            let collision = ray.lerp(t);
            let tmpn = geo.normal(collision).normalize();
            let nrm = if tmpn.dot(direction.neg()) < 0 {
                tmpn.neg()
            } else {
                tmpn
            };
            let light_dir = scene.light_position.sub(collision).normalize();
            let shadow = shadowed(objects, collision, light_dir, scene.light_position, gid);
            let diffuse = if !shadow {
                let d = nrm.dot(light_dir);
                if d < 0 {
                    0
                } else {
                    d
                }
            } else {
                0
            };
            let half = light_dir.add(direction.normalize().neg()).normalize();
            let specular = if !shadow {
                let sd = nrm.dot(half);
                fx_powi(if sd < 0 { 0 } else { sd }, mat.specular_exp)
            } else {
                0
            };
            let refl = reflect(*direction, nrm);
            let rmax = if scene.resolution.x > scene.resolution.y {
                scene.resolution.x
            } else {
                scene.resolution.y
            };
            let eps = fx_div(FX_ONE, fx_from_u32(2 * rmax));
            let orthos = ortho_pair(nrm);
            let imp2 = fx_mul(importance, mat.reflect_rate);
            proof {
                lemma_unit_mul(importance as int, mat.reflect_rate as int);
                lemma_samples_raw_bound(
                    importance as int,
                    (MAX_RECURSION_DEPTH - recursion_depth) as int,
                );
            }
            let sraw = fx_trunc(fx_mul(importance, fx_from_u32(MAX_RECURSION_DEPTH - recursion_depth)));
            let samples: u32 = if sraw < 1 {
                1
            } else {
                sraw as u32
            };
            let mut acc = Vec3::zero();
            let mut i: u32 = 0;
            while i < samples
                invariant
                    i <= samples,
                    scene.wf(),
                    objects_wf(objects@),
                    v_ok(collision@),
                    v_ok(refl@),
                    v_ok(orthos.0@),
                    v_ok(orthos.1@),
                    0 <= imp2 <= FX_ONE,
                    recursion_depth <= MAX_RECURSION_DEPTH,
                    acc@ == sample_sum_s(
                        *scene,
                        objects@,
                        worker_id as int,
                        collision@,
                        refl@,
                        orthos.0@,
                        orthos.1@,
                        eps as int,
                        imp2 as int,
                        recursion_depth as int,
                        gid,
                        i as nat,
                    ),
                    v_ok(acc@),
                decreases samples - i,
            {
                let j = jitter(worker_id, recursion_depth, i);
                let rv = orthos.0.scale(j.0).add(orthos.1.scale(j.1)).scale(eps).add(collision);
                let sub = render_worker_inner(
                    worker_id,
                    &rv,
                    &refl,
                    scene,
                    objects,
                    imp2,
                    recursion_depth + 1,
                    gid,
                );
                acc = acc.add(sub);
                i = i + 1;
            }
            let reflect_color = acc.div_by(fx_from_u32(samples));
            let local = mat.color.scale(fx_add(mat.ka, fx_mul(mat.kd, diffuse))).add(
                Vec3::new(FX_ONE, FX_ONE, FX_ONE).scale(specular),
            );
            local.scale(fx_sub(FX_ONE, mat.reflect_rate)).add(
                reflect_color.scale(mat.reflect_rate),
            ).clamp01()
        },
    }
}


/// Recursion termination, cutoff side: when the importance has decayed
/// below 1/256, or the depth bound is passed, one call of the tracer
/// returns the background unconditionally.
pub proof fn lemma_trace_cutoff(
    scene: SceneMetadata,
    objects: Seq<(Geometry, Material)>,
    worker: int,
    origin: (int, int, int),
    direction: (int, int, int),
    importance: int,
    depth: int,
    prev: Option<u32>,
)
    requires
        importance < IMPORTANCE_CUTOFF as int || depth > MAX_RECURSION_DEPTH as int,
    ensures
        trace_s(scene, objects, worker, origin, direction, importance, depth, prev)
            == scene.background@,
{
}

/// Recursion termination, mirror side: on a hit whose material has zero
/// reflectivity, the traced color is exactly the clamped local
/// (non-recursive) shaded color; the reflection branch contributes
/// nothing.
pub proof fn lemma_zero_reflect_rate_local(
    scene: SceneMetadata,
    objects: Seq<(Geometry, Material)>,
    worker: int,
    origin: (int, int, int),
    direction: (int, int, int),
    importance: int,
    depth: int,
    prev: Option<u32>,
    hit: (int, int),
)
    requires
        IMPORTANCE_CUTOFF as int <= importance,
        0 <= depth <= MAX_RECURSION_DEPTH as int,
        best_s(objects, origin, v_norm_s(direction), prev) == Some(hit),
        0 <= hit.0 < objects.len(),
        objects[hit.0].1.reflect_rate == 0,
    ensures
        trace_s(scene, objects, worker, origin, direction, importance, depth, prev)
            == v_clamp01_s(hit_local_s(scene, objects, hit, origin, direction)),
{
    let dir = v_norm_s(direction);
    let obj = objects[hit.0];
    let collision = lerp_s(origin, dir, hit.1);
    let nrm = hit_normal_s(objects, hit, origin, direction);
    let refl = reflect_s(direction, nrm);
    let rmax: int = if scene.resolution.x > scene.resolution.y {
        scene.resolution.x as int
    } else {
        scene.resolution.y as int
    };
    let eps = fx_div_s(FX_ONE as int, 2 * rmax * (FX_ONE as int));
    let orthos = ortho_pair_s(nrm);
    let imp2 = fx_mul_s(importance, 0);
    let n = samples_s(importance, depth);
    let acc = sample_sum_s(
        scene,
        objects,
        worker,
        collision,
        refl,
        orthos.0,
        orthos.1,
        eps,
        imp2,
        depth,
        obj.0.id_s(),
        n as nat,
    );
    let rc = v_divn_s(acc, n * (FX_ONE as int));
    let local = hit_local_s(scene, objects, hit, origin, direction);
    crate::fixed::lemma_fx_mul_zero(rc.0);
    crate::fixed::lemma_fx_mul_zero(rc.1);
    crate::fixed::lemma_fx_mul_zero(rc.2);
    assert(v_scale_s(rc, 0) == (0int, 0int, 0int));
    assert(fx_ok(local.0) && fx_ok(local.1) && fx_ok(local.2));
    assert(fx_sat(FX_ONE as int - 0) == FX_ONE as int);
    crate::fixed::lemma_fx_mul_one(local.0);
    crate::fixed::lemma_fx_mul_one(local.1);
    crate::fixed::lemma_fx_mul_one(local.2);
    assert(v_scale_s(local, FX_ONE as int) == local);
    assert(v_add_s(local, (0int, 0int, 0int)) == local);
    assert(trace_s(scene, objects, worker, origin, direction, importance, depth, prev)
        == v_clamp01_s(v_add_s(v_scale_s(local, fx_sat(FX_ONE as int - 0)), v_scale_s(rc, 0))));
}

/// Shadow consistency, shading side: at a shadowed hit the diffuse and
/// specular terms are exactly zero.
pub proof fn lemma_shadowed_point_dark(
    scene: SceneMetadata,
    objects: Seq<(Geometry, Material)>,
    hit: (int, int),
    origin: (int, int, int),
    direction: (int, int, int),
)
    requires
        hit_shadow_s(scene, objects, hit, origin, direction),
    ensures
        hit_diffuse_s(scene, objects, hit, origin, direction) == 0,
        hit_specular_s(scene, objects, hit, origin, direction) == 0,
{
}

/// Shadow consistency, geometric side: in a single-sphere scene whose
/// sphere stands on the axis between a surface point and the light, the
/// surface point is shadowed; with the previous law its diffuse and
/// specular terms are then exactly zero.
pub proof fn lemma_light_behind_occluder_shadows(
    objects: Seq<(Geometry, Material)>,
    sph: Sphere,
    c: int,
    rad: int,
    lz: int,
    self_id: Option<u32>,
)
    requires
        objects.len() == 1,
        objects[0].0 == Geometry::Sphere(sph),
        sph.center@ == (0int, 0int, c * 65536),
        sph.radius as int == rad * 65536,
        0 < rad,
        rad < c,
        c <= lz,
        lz <= 30000,
        !excluded_s(Some(sph.id_s()), self_id),
    ensures
        shadowed_s(objects, (0, 0, 0), (0, 0, 65536), (0, 0, lz * 65536), self_id),
{
    crate::geometry::lemma_sphere_center_hit(0, c, rad);
    let pt = (0int, 0int, (c - rad) * 65536);
    assert(objects[0].0.hit_over((0, 0, 0), (0, 0, 65536)) == Some(pt));
    let q = (c - rad) * 65536;
    assert(v_sub_s(pt, (0, 0, 0)) == pt);
    assert(0 * 0 + 0 * 0 + q * q == q * q);
    assert(q * q >= 0) by (nonlinear_arith);
    crate::fixed::lemma_sqrt_perfect(q);
    assert(v_len_s(pt) == q) by {
        assert(pt.0 * pt.0 + pt.1 * pt.1 + pt.2 * pt.2 == q * q) by (nonlinear_arith)
            requires
                pt.0 == 0,
                pt.1 == 0,
                pt.2 == q,
        ;
    }
    assert(v_len_s(pt) > 0);
    assert(v_sum_s((0int, 0int, 65536int)) == 65536);
    assert(v_sum_s(pt) == q);
    crate::fixed::lemma_mul_div_one(q);
    assert(solve_s((0, 0, 0), (0, 0, 65536), pt) == q);
    let lraw = lz * 65536;
    assert(v_sum_s((0int, 0int, lraw)) == lraw);
    crate::fixed::lemma_mul_div_one(lraw);
    assert(solve_s((0, 0, 0), (0, 0, 65536), (0, 0, lraw)) == lraw);
    assert(q <= lraw);
    assert(shadow_hit_s(objects[0], (0, 0, 0), (0, 0, 65536), (0, 0, lraw), self_id));
    assert(shadowed_s(objects, (0, 0, 0), (0, 0, 65536), (0, 0, lraw), self_id)) by {
        assert(0 <= 0 < objects.len() && shadow_hit_s(
            objects[0],
            (0, 0, 0),
            (0, 0, 65536),
            (0, 0, lraw),
            self_id,
        ));
    }
}

/// The object list a compute invocation sees: every sphere paired with
/// its material, then every triangle with its material, in buffer order.
pub open spec fn kernel_objects_s(
    spheres: Seq<Sphere>,
    sphere_mats: Seq<Material>,
    tris: Seq<Triangle>,
    tri_mats: Seq<Material>,
) -> Seq<(Geometry, Material)> {
    Seq::new(
        spheres.len() + tris.len(),
        |i: int|
            if i < spheres.len() {
                (Geometry::Sphere(spheres[i]), sphere_mats[i])
            } else {
                (Geometry::Triangle(tris[i - spheres.len()]), tri_mats[i - spheres.len()])
            },
    )
}

/// The unnormalized direction from the eye through the image-plane point
/// of pixel `(x, y)`: the corner advanced by `x` pixel widths and `y`
/// pixel heights along the normalized canvas basis vectors.
pub open spec fn kernel_pixel_dir_s(scene: SceneMetadata, x: int, y: int) -> (int, int, int) {
    let pw = fx_div_s(v_len_s(scene.canvas_wv@), scene.resolution.x as int * (FX_ONE as int));
    let ph = fx_div_s(v_len_s(scene.canvas_hv@), scene.resolution.y as int * (FX_ONE as int));
    let p = v_add_s(
        v_add_s(
            scene.canvas_corner@,
            v_scale_s(v_norm_s(scene.canvas_wv@), fx_mul_s(pw, x * (FX_ONE as int))),
        ),
        v_scale_s(v_norm_s(scene.canvas_hv@), fx_mul_s(ph, y * (FX_ONE as int))),
    );
    v_sub_s(p, scene.eye@)
}

/// The color one compute invocation writes for pixel `(x, y)`: a single
/// full-importance trace from the eye, with the flattened pixel index as
/// the worker id.
pub open spec fn kernel_pixel_s(
    scene: SceneMetadata,
    spheres: Seq<Sphere>,
    sphere_mats: Seq<Material>,
    tris: Seq<Triangle>,
    tri_mats: Seq<Material>,
    x: int,
    y: int,
) -> (int, int, int) {
    trace_s(
        scene,
        kernel_objects_s(spheres, sphere_mats, tris, tri_mats),
        y * scene.resolution.x + x,
        scene.eye@,
        kernel_pixel_dir_s(scene, x, y),
        FX_ONE as int,
        0,
        None,
    )
}

/// Every sphere and material of the paired buffers is well-formed.
pub open spec fn spheres_wf(spheres: Seq<Sphere>, mats: Seq<Material>) -> bool {
    forall|i: int|
        0 <= i < spheres.len() ==> (#[trigger] spheres[i]).wf() && i < mats.len() && mats[i].wf()
}

/// Every triangle and material of the paired buffers is well-formed.
pub open spec fn tris_wf(tris: Seq<Triangle>, mats: Seq<Material>) -> bool {
    forall|i: int|
        0 <= i < tris.len() ==> (#[trigger] tris[i]).wf() && i < mats.len() && mats[i].wf()
}

/// Pair the flattened sphere and triangle buffers with their materials,
/// in buffer order: the object list a compute invocation intersects.
pub fn build_kernel_objects(
    sphere_objs: &Vec<Sphere>,
    sphere_material: &Vec<Material>,
    mesh_objs: &Vec<Triangle>,
    mesh_material: &Vec<Material>,
) -> (r: Vec<(Geometry, Material)>)
    requires
        sphere_objs@.len() == sphere_material@.len(),
        mesh_objs@.len() == mesh_material@.len(),
        spheres_wf(sphere_objs@, sphere_material@),
        tris_wf(mesh_objs@, mesh_material@),
    ensures
        r@ == kernel_objects_s(sphere_objs@, sphere_material@, mesh_objs@, mesh_material@),
        objects_wf(r@),
{
    let mut objs: Vec<(Geometry, Material)> = Vec::new();
    let mut k: usize = 0;
    while k < sphere_objs.len()
        invariant
            k <= sphere_objs@.len(),
            sphere_objs@.len() == sphere_material@.len(),
            spheres_wf(sphere_objs@, sphere_material@),
            objs@.len() == k,
            forall|i: int|
                0 <= i < k ==> objs@[i] == (
                    Geometry::Sphere(sphere_objs@[i]),
                    sphere_material@[i],
                ),
        decreases sphere_objs@.len() - k,
    {
        objs.push((Geometry::Sphere(sphere_objs[k]), sphere_material[k]));
        k = k + 1;
    }
    let ghost slen = sphere_objs@.len();
    let mut m: usize = 0;
    while m < mesh_objs.len()
        invariant
            m <= mesh_objs@.len(),
            mesh_objs@.len() == mesh_material@.len(),
            tris_wf(mesh_objs@, mesh_material@),
            spheres_wf(sphere_objs@, sphere_material@),
            sphere_objs@.len() == sphere_material@.len(),
            slen == sphere_objs@.len(),
            objs@.len() == slen + m,
            forall|i: int|
                0 <= i < slen ==> objs@[i] == (
                    Geometry::Sphere(sphere_objs@[i]),
                    sphere_material@[i],
                ),
            forall|i: int|
                slen <= i < slen + m ==> objs@[i] == (
                    Geometry::Triangle(mesh_objs@[i - slen]),
                    mesh_material@[i - slen],
                ),
        decreases mesh_objs@.len() - m,
    {
        objs.push((Geometry::Triangle(mesh_objs[m]), mesh_material[m]));
        m = m + 1;
    }
    proof {
        assert(objs@ =~= kernel_objects_s(
            sphere_objs@,
            sphere_material@,
            mesh_objs@,
            mesh_material@,
        ));
        assert(objects_wf(objs@));
    }
    objs
}

/// The compute entry point, one invocation per pixel of a 2D dispatch:
/// trace the pixel's primary ray against the flattened object buffers and
/// write the color at the pixel's flattened index. An invocation beyond
/// the resolution writes nothing.
#[verifier::rlimit(100)]
pub fn main_cs(
    id: (u32, u32, u32),
    scene_metadata: &SceneMetadata,
    sphere_objs: &Vec<Sphere>,
    sphere_material: &Vec<Material>,
    mesh_objs: &Vec<Triangle>,
    mesh_material: &Vec<Material>,
    buf: &mut Vec<Vec3>,
)
    requires
        scene_metadata.wf(),
        sphere_objs@.len() == sphere_material@.len(),
        mesh_objs@.len() == mesh_material@.len(),
        spheres_wf(sphere_objs@, sphere_material@),
        tris_wf(mesh_objs@, mesh_material@),
        old(buf)@.len() == scene_metadata.resolution.x * scene_metadata.resolution.y,
    ensures
        final(buf)@.len() == old(buf)@.len(),
        id.0 < scene_metadata.resolution.x && id.1 < scene_metadata.resolution.y ==> {
            let index = (id.1 as int) * (scene_metadata.resolution.x as int) + id.0 as int;
            let color = kernel_pixel_s(
                *scene_metadata,
                sphere_objs@,
                sphere_material@,
                mesh_objs@,
                mesh_material@,
                id.0 as int,
                id.1 as int,
            );
            final(buf)@[index]@ == color && (forall|j: int|
                0 <= j < old(buf)@.len() && j != index ==> final(buf)@[j] == old(buf)@[j])
        },
        !(id.0 < scene_metadata.resolution.x && id.1 < scene_metadata.resolution.y)
            ==> final(buf)@ == old(buf)@,
{
    let w = scene_metadata.resolution.x;
    let h = scene_metadata.resolution.y;
    if id.0 >= w || id.1 >= h {
        return ;
    }
    let objs = build_kernel_objects(sphere_objs, sphere_material, mesh_objs, mesh_material);
    let pw = fx_div(scene_metadata.canvas_wv.length(), fx_from_u32(w));
    let ph = fx_div(scene_metadata.canvas_hv.length(), fx_from_u32(h));
    let pixel_coord = scene_metadata.canvas_corner.add(
        scene_metadata.canvas_wv.normalize().scale(fx_mul(pw, fx_from_u32(id.0))),
    ).add(scene_metadata.canvas_hv.normalize().scale(fx_mul(ph, fx_from_u32(id.1))));
    let dir = pixel_coord.sub(scene_metadata.eye);
    proof {
        assert((id.1 as int) * (w as int) + (id.0 as int) < (h as int) * (w as int))
            by (nonlinear_arith)
            requires
                id.0 < w,
                id.1 < h,
                1 <= w,
        ;
        assert((h as int) * (w as int) <= 65536int * 65536) by (nonlinear_arith)
            requires
                w <= 65536,
                h <= 65536,
                0 <= w,
                0 <= h,
        ;
        assert((h as int) * (w as int) == (w as int) * (h as int)) by (nonlinear_arith);
    }
    let index_64: u64 = (id.1 as u64) * (w as u64) + (id.0 as u64);
    let index: usize = index_64 as usize;
    let worker: u32 = index_64 as u32;
    proof {
        assert(index < buf@.len());
        assert(dir@ == kernel_pixel_dir_s(*scene_metadata, id.0 as int, id.1 as int));
        assert(worker as int == (id.1 as int) * (scene_metadata.resolution.x as int)
            + id.0 as int);
    }
    let pixel = render_worker_inner(
        worker,
        &scene_metadata.eye,
        &dir,
        scene_metadata,
        &objs,
        FX_ONE,
        0,
        None,
    );
    buf.set(index, pixel);
}

} // verus!
