//! Rays and the closed set of intersectable shapes.
//!
//! The shapes are a sphere, a triangle and a degenerate point, gathered in
//! the `Geometry` sum type; intersection and surface-normal queries dispatch
//! by variant. Each intersection routine mirrors the classic floating-point
//! formulas in exact Q16.16 arithmetic, so its result is characterized
//! exactly by a spec function. Where IEEE arithmetic would reject a NaN
//! (a near-parallel plane, a degenerate parameter recovery), the fixed-point
//! code rejects the exact zero that takes its place; each such policy is
//! noted at the check.

use vstd::prelude::*;
use crate::fixed::{FX_ONE, fx_ok, fx_sat, div_trunc, fx_mul_s, fx_div_s, fx_sqrt_s};
use crate::fixed::{fx_sub, fx_mul, fx_div, fx_sqrt};
use crate::vec3::{
    Vec3, v_ok, v_add_s, v_sub_s, v_neg_s, v_scale_s, v_dot_s, v_cross_s, v_norm_s, v_sum_s,
    vec3_sum,
};

verus! {

/// View of an optional intersection point.
pub open spec fn opt_v(o: Option<Vec3>) -> Option<(int, int, int)> {
    match o {
        Some(v) => Some(v@),
        None => None,
    }
}

/// A parametric ray: an origin and a direction that `new` normalizes.
#[derive(Clone, Copy, Debug)]
pub struct Ray {
    pub origin: Vec3,
    pub direction: Vec3,
}

/// Point reached by a ray after advancing `t` along its direction.
pub open spec fn lerp_s(origin: (int, int, int), dir: (int, int, int), t: int) -> (int, int, int) {
    v_add_s(origin, v_scale_s(dir, t))
}

/// Parameter recovered from a point by the coordinate-sum quotient.
pub open spec fn solve_s(origin: (int, int, int), dir: (int, int, int), pt: (int, int, int)) -> int
    recommends
        v_sum_s(dir) != 0,
{
    fx_div_s(fx_sat(v_sum_s(pt) - v_sum_s(origin)), v_sum_s(dir))
}

/// Ray-sphere intersection over plain triples: `None` when the closest
/// approach lies behind the origin or the perpendicular distance exceeds the
/// radius, otherwise the entry point at parameter `tca - thc`.
pub open spec fn sphere_hit_s(
    center: (int, int, int),
    radius: int,
    origin: (int, int, int),
    dir: (int, int, int),
) -> Option<(int, int, int)> {
    let l = v_sub_s(center, origin);
    let tca = v_dot_s(l, dir);
    if tca < 0 {
        None
    } else {
        let d2 = fx_sat(v_dot_s(l, l) - fx_mul_s(tca, tca));
        if d2 < 0 {
            None
        } else {
            let arg = fx_sat(fx_mul_s(radius, radius) - d2);
            if arg < 0 {
                None
            } else {
                Some(lerp_s(origin, dir, fx_sat(tca - fx_sqrt_s(arg))))
            }
        }
    }
}

/// Ray-triangle intersection over plain triples: plane intersection with a
/// parallel rejection (`normal . direction == 0`, the exact form the classic
/// small-epsilon test takes in integers), then the same-side inside test.
pub open spec fn triangle_hit_s(
    v0: (int, int, int),
    v1: (int, int, int),
    v2: (int, int, int),
    normal: (int, int, int),
    origin: (int, int, int),
    dir: (int, int, int),
) -> Option<(int, int, int)> {
    let d = v_dot_s(normal, dir);
    if d == 0 {
        None
    } else {
        let t = fx_div_s(v_dot_s(normal, v_sub_s(v0, origin)), d);
        if t < 0 {
            None
        } else {
            let proj = lerp_s(origin, dir, t);
            let x0 = v_sub_s(v0, proj);
            let x1 = v_sub_s(v1, proj);
            let x2 = v_sub_s(v2, proj);
            let y0 = v_cross_s(x1, x2);
            let y1 = v_cross_s(x2, x0);
            let y2 = v_cross_s(x0, x1);
            if v_dot_s(y0, y1) < 0 || v_dot_s(y0, y2) < 0 {
                None
            } else {
                Some(proj)
            }
        }
    }
}

/// Ray-point intersection over plain triples: the alignment test (which
/// accepts any direction whose dot product with the direction toward the
/// point does not exceed one), with a degenerate parameter recovery
/// rejected.
pub open spec fn point_hit_s(
    pos: (int, int, int),
    origin: (int, int, int),
    dir: (int, int, int),
) -> Option<(int, int, int)> {
    let d = v_dot_s(dir, v_norm_s(v_sub_s(pos, origin)));
    if fx_sat(d - FX_ONE as int) < 1 {
        if v_sum_s(dir) == 0 {
            None
        } else {
            Some(lerp_s(origin, dir, solve_s(origin, dir, pos)))
        }
    } else {
        None
    }
}

impl Ray {
    /// Both fields are within the representable range.
    pub open spec fn wf(self) -> bool {
        v_ok(self.origin@) && v_ok(self.direction@)
    }

    /// The stored (normalized) direction, for contracts of other modules.
    pub open spec fn dir(self) -> (int, int, int) {
        self.direction@
    }

    /// Build a ray; the direction is normalized here, so a nonzero argument
    /// yields a unit direction. A zero direction stays zero.
    pub fn new(origin: Vec3, direction: Vec3) -> (r: Ray)
        requires
            v_ok(direction@),
        ensures
            r.origin == origin,
            r.dir() == v_norm_s(direction@),
            v_ok(r.dir()),
    {
        Ray { origin, direction: direction.normalize() }
    }

    /// The point this ray reaches after advancing `t`.
    pub fn lerp(&self, t: i64) -> (r: Vec3)
        ensures
            r@ == lerp_s(self.origin@, self.dir(), t as int),
            v_ok(r@),
    {
        self.origin.add(self.direction.scale(t))
    }

    /// Recover the parameter of a point assumed to lie on the ray, by the
    /// quotient of coordinate sums. The caller must rule out a direction
    /// whose components sum to zero, the known degeneracy of this formula.
    pub fn solve(&self, pt: Vec3) -> (r: i64)
        requires
            v_sum_s(self.dir()) != 0,
        ensures
            r as int == solve_s(self.origin@, self.dir(), pt@),
            fx_ok(r as int),
    {
        let num = fx_sub(vec3_sum(pt), vec3_sum(self.origin));
        fx_div(num, vec3_sum(self.direction))
    }

    /// The stored direction.
    pub fn direction(&self) -> (r: Vec3)
        ensures
            r@ == self.dir(),
    {
        self.direction
    }
}

/// A sphere with a stable identity, a center and a radius.
#[derive(Clone, Copy, Debug)]
pub struct Sphere {
    pub id: u32,
    pub center: Vec3,
    pub radius: i64,
}

impl Sphere {
    /// Center and radius are within the representable range.
    pub open spec fn wf(self) -> bool {
        v_ok(self.center@) && fx_ok(self.radius as int)
    }

    /// The stable identity, for contracts of other modules.
    pub open spec fn id_s(self) -> u32 {
        self.id
    }

    pub fn new(id: u32, center: Vec3, radius: i64) -> (r: Sphere)
        ensures
            r.id_s() == id,
            r.center == center,
            r.radius == radius,
    {
        Sphere { id, center, radius }
    }

    pub fn id(self) -> (r: u32)
        ensures
            r == self.id_s(),
    {
        self.id
    }

    /// Intersection of a ray with this sphere, over views.
    pub open spec fn hit_s(self, ray: Ray) -> Option<(int, int, int)> {
        sphere_hit_s(self.center@, self.radius as int, ray.origin@, ray.dir())
    }

    /// Analytic quadratic ray-sphere intersection.
    pub fn ray_intersect(&self, ray: Ray) -> (r: Option<Vec3>)
        requires
            self.wf(),
            ray.wf(),
        ensures
            opt_v(r) == self.hit_s(ray),
    {
        let l = self.center.sub(ray.origin);
        let tca = l.dot(ray.direction);
        if tca < 0 {
            return None;
        }
        let d2 = fx_sub(l.dot(l), fx_mul(tca, tca));
        if d2 < 0 {
            return None;
        }
        // a negative radicand is the fixed-point analogue of a NaN sqrt
        let arg = fx_sub(fx_mul(self.radius, self.radius), d2);
        if arg < 0 {
            return None;
        }
        let thc = fx_sqrt(arg);
        Some(ray.lerp(fx_sub(tca, thc)))
    }

    /// Inward surface normal at an intersection point.
    pub fn normal(&self, intersection_point: Vec3) -> (r: Vec3)
        requires
            self.wf(),
            v_ok(intersection_point@),
        ensures
            r@ == v_norm_s(v_sub_s(self.center@, intersection_point@)),
            v_ok(r@),
    {
        self.center.sub(intersection_point).normalize()
    }
}

impl PartialEq for Sphere {
    /// Identity comparison: two spheres are the same object when their ids
    /// coincide.
    fn eq(&self, other: &Self) -> (r: bool) {
        self.id == other.id
    }
}

impl vstd::std_specs::cmp::PartialEqSpecImpl for Sphere {
    open spec fn obeys_eq_spec() -> bool {
        true
    }

    open spec fn eq_spec(&self, other: &Sphere) -> bool {
        self.id == other.id
    }
}

/// A triangle with a stable identity; the normal is the precomputed,
/// unnormalized cross product of two edges.
#[derive(Clone, Copy, Debug)]
pub struct Triangle {
    pub id: u32,
    pub verticies: [Vec3; 3],
    pub normal: Vec3,
}

impl Triangle {
    /// Vertices and the cached normal are within the representable range.
    pub open spec fn wf(self) -> bool {
        v_ok(self.verticies[0]@) && v_ok(self.verticies[1]@) && v_ok(self.verticies[2]@)
            && v_ok(self.normal@)
    }

    /// The stable identity, for contracts of other modules.
    pub open spec fn id_s(self) -> u32 {
        self.id
    }

    /// The three vertices, for contracts of other modules.
    pub open spec fn vert(self, i: int) -> (int, int, int)
        recommends
            0 <= i < 3,
    {
        self.verticies[i]@
    }

    /// The cached plane normal, for contracts of other modules.
    pub open spec fn normal_s(self) -> (int, int, int) {
        self.normal@
    }

    pub fn new(id: u32, pts: [Vec3; 3]) -> (r: Triangle)
        requires
            v_ok(pts[0]@),
            v_ok(pts[1]@),
            v_ok(pts[2]@),
        ensures
            r.id_s() == id,
            r.vert(0) == pts[0]@,
            r.vert(1) == pts[1]@,
            r.vert(2) == pts[2]@,
            r.normal_s() == v_cross_s(v_sub_s(pts[1]@, pts[0]@), v_sub_s(pts[2]@, pts[0]@)),
            r.verticies == pts,
            r.wf(),
    {
        let normal = pts[1].sub(pts[0]).cross(pts[2].sub(pts[0]));
        Triangle { id, verticies: pts, normal }
    }

    pub fn id(self) -> (r: u32)
        ensures
            r == self.id_s(),
    {
        self.id
    }

    /// Intersection of a ray with this triangle, over views.
    pub open spec fn hit_s(self, ray: Ray) -> Option<(int, int, int)> {
        triangle_hit_s(self.vert(0), self.vert(1), self.vert(2), self.normal_s(), ray.origin@, ray.dir())
    }

    /// Plane intersection followed by the same-side inside test.
    pub fn ray_intersect(&self, ray: Ray) -> (r: Option<Vec3>)
        requires
            self.wf(),
            ray.wf(),
        ensures
            opt_v(r) == self.hit_s(ray),
    {
        let d = self.normal.dot(ray.direction);
        if d == 0 {
            return None;
        }
        let t = fx_div(self.normal.dot(self.verticies[0].sub(ray.origin)), d);
        if t < 0 {
            return None;
        }
        let proj = ray.lerp(t);
        let x0 = self.verticies[0].sub(proj);
        let x1 = self.verticies[1].sub(proj);
        let x2 = self.verticies[2].sub(proj);
        let y0 = x1.cross(x2);
        let y1 = x2.cross(x0);
        let y2 = x0.cross(x1);
        if y0.dot(y1) < 0 || y0.dot(y2) < 0 {
            return None;
        }
        Some(proj)
    }

    /// The cached plane normal, independent of the query point.
    pub fn normal(&self, _intersection_point: Vec3) -> (r: Vec3)
        requires
            self.wf(),
        ensures
            r@ == self.normal_s(),
            v_ok(r@),
    {
        self.normal
    }
}

impl PartialEq for Triangle {
    /// Identity comparison: two triangles are the same object when their
    /// ids coincide.
    fn eq(&self, other: &Self) -> (r: bool) {
        self.id == other.id
    }
}

impl vstd::std_specs::cmp::PartialEqSpecImpl for Triangle {
    open spec fn obeys_eq_spec() -> bool {
        true
    }

    open spec fn eq_spec(&self, other: &Triangle) -> bool {
        self.id == other.id
    }
}

/// A degenerate zero-area primitive, kept for light visualization.
#[derive(Clone, Copy, Debug)]
pub struct Point(pub Vec3);

impl Point {
    pub open spec fn wf(self) -> bool {
        v_ok(self.0@)
    }

    /// The carried position, for contracts of other modules.
    pub open spec fn pos(self) -> (int, int, int) {
        self.0@
    }

    pub fn new(pos: Vec3) -> (r: Point)
        ensures
            r.pos() == pos@,
    {
        Point(pos)
    }

    /// A ray hits the point when its direction lines up with the direction
    /// toward the point; the alignment test accepts any dot product not
    /// exceeding one. A direction whose components sum to zero would make
    /// the parameter recovery degenerate and is rejected instead of
    /// producing an undefined coordinate.
    pub open spec fn hit_s(self, ray: Ray) -> Option<(int, int, int)> {
        point_hit_s(self.pos(), ray.origin@, ray.dir())
    }

    pub fn ray_intersect(&self, ray: Ray) -> (r: Option<Vec3>)
        requires
            self.wf(),
            ray.wf(),
        ensures
            opt_v(r) == self.hit_s(ray),
    {
        let toward = self.0.sub(ray.origin).normalize();
        let d = ray.direction.dot(toward);
        if fx_sub(d, FX_ONE) < 1 {
            if vec3_sum(ray.direction) == 0 {
                None
            } else {
                Some(ray.lerp(ray.solve(self.0)))
            }
        } else {
            None
        }
    }

    /// A point has no surface; its normal is the zero vector.
    pub fn normal(&self, _intersection_point: Vec3) -> (r: Vec3)
        ensures
            r@ == (0int, 0int, 0int),
            v_ok(r@),
    {
        Vec3::zero()
    }
}

/// The closed set of intersectable shapes.
#[derive(Clone, Copy, Debug)]
pub enum Geometry {
    Sphere(Sphere),
    Triangle(Triangle),
    Point(Point),
}

impl Geometry {
    pub open spec fn wf(self) -> bool {
        match self {
            Geometry::Sphere(s) => s.wf(),
            Geometry::Triangle(t) => t.wf(),
            Geometry::Point(p) => p.wf(),
        }
    }

    /// The identity used for self-intersection exclusion; a bare point has
    /// none and is never excluded.
    pub open spec fn id_s(self) -> Option<u32> {
        match self {
            Geometry::Sphere(s) => Some(s.id_s()),
            Geometry::Triangle(t) => Some(t.id_s()),
            Geometry::Point(_) => None,
        }
    }

    pub fn id(&self) -> (r: Option<u32>)
        ensures
            r == self.id_s(),
    {
        match self {
            Geometry::Sphere(s) => Some(s.id),
            Geometry::Triangle(t) => Some(t.id),
            Geometry::Point(_) => None,
        }
    }

    /// Intersection by variant dispatch, over views.
    pub open spec fn hit_over(self, origin: (int, int, int), dir: (int, int, int)) -> Option<
        (int, int, int),
    > {
        match self {
            Geometry::Sphere(s) => sphere_hit_s(s.center@, s.radius as int, origin, dir),
            Geometry::Triangle(t) => triangle_hit_s(
                t.vert(0),
                t.vert(1),
                t.vert(2),
                t.normal_s(),
                origin,
                dir,
            ),
            Geometry::Point(p) => point_hit_s(p.pos(), origin, dir),
        }
    }

    /// Intersection by variant dispatch.
    pub open spec fn hit_spec(self, ray: Ray) -> Option<(int, int, int)> {
        self.hit_over(ray.origin@, ray.dir())
    }

    pub fn ray_intersect(&self, ray: Ray) -> (r: Option<Vec3>)
        requires
            self.wf(),
            ray.wf(),
        ensures
            opt_v(r) == self.hit_spec(ray),
    {
        match self {
            Geometry::Sphere(s) => s.ray_intersect(ray),
            Geometry::Triangle(t) => t.ray_intersect(ray),
            Geometry::Point(p) => p.ray_intersect(ray),
        }
    }

    /// Surface normal at an intersection point, by variant dispatch.
    pub open spec fn normal_spec(self, pt: (int, int, int)) -> (int, int, int) {
        match self {
            Geometry::Sphere(s) => v_norm_s(v_sub_s(s.center@, pt)),
            Geometry::Triangle(t) => t.normal_s(),
            Geometry::Point(_) => (0, 0, 0),
        }
    }

    pub fn normal(&self, intersection_point: Vec3) -> (r: Vec3)
        requires
            self.wf(),
            v_ok(intersection_point@),
        ensures
            r@ == self.normal_spec(intersection_point@),
            v_ok(r@),
    {
        match self {
            Geometry::Sphere(s) => s.normal(intersection_point),
            Geometry::Triangle(t) => t.normal(intersection_point),
            Geometry::Point(p) => p.normal(intersection_point),
        }
    }
}


/// Open dispatch over intersectable shapes: an implementor brings its own
/// invariant and the exact models of its two queries, and the executable
/// methods are held to those models. Every shape of this crate implements
/// it; the `Geometry` sum type remains the closed, exhaustive form.
pub trait RayIntersectable {
    /// The implementor's internal invariant.
    spec fn inv(&self) -> bool;

    /// Exact model of the intersection query.
    spec fn hit_model(&self, ray: Ray) -> Option<(int, int, int)>;

    /// Exact model of the surface-normal query.
    spec fn normal_model(&self, pt: (int, int, int)) -> (int, int, int);

    /// Return the intersection point of the ray, if any.
    fn ray_intersect(&self, ray: Ray) -> (r: Option<Vec3>)
        requires
            self.inv(),
            ray.wf(),
        ensures
            opt_v(r) == self.hit_model(ray),
    ;

    /// Surface normal at an intersection point.
    fn normal(&self, intersection_point: Vec3) -> (r: Vec3)
        requires
            self.inv(),
            v_ok(intersection_point@),
        ensures
            r@ == self.normal_model(intersection_point@),
            v_ok(r@),
    ;
}

impl RayIntersectable for Sphere {
    open spec fn inv(&self) -> bool {
        self.wf()
    }

    open spec fn hit_model(&self, ray: Ray) -> Option<(int, int, int)> {
        self.hit_s(ray)
    }

    open spec fn normal_model(&self, pt: (int, int, int)) -> (int, int, int) {
        v_norm_s(v_sub_s(self.center@, pt))
    }

    fn ray_intersect(&self, ray: Ray) -> (r: Option<Vec3>) {
        Sphere::ray_intersect(self, ray)
    }

    fn normal(&self, intersection_point: Vec3) -> (r: Vec3) {
        Sphere::normal(self, intersection_point)
    }
}

impl RayIntersectable for Triangle {
    open spec fn inv(&self) -> bool {
        self.wf()
    }

    open spec fn hit_model(&self, ray: Ray) -> Option<(int, int, int)> {
        self.hit_s(ray)
    }

    open spec fn normal_model(&self, pt: (int, int, int)) -> (int, int, int) {
        self.normal_s()
    }

    fn ray_intersect(&self, ray: Ray) -> (r: Option<Vec3>) {
        Triangle::ray_intersect(self, ray)
    }

    fn normal(&self, intersection_point: Vec3) -> (r: Vec3) {
        Triangle::normal(self, intersection_point)
    }
}

impl RayIntersectable for Point {
    open spec fn inv(&self) -> bool {
        self.wf()
    }

    open spec fn hit_model(&self, ray: Ray) -> Option<(int, int, int)> {
        self.hit_s(ray)
    }

    open spec fn normal_model(&self, pt: (int, int, int)) -> (int, int, int) {
        (0, 0, 0)
    }

    fn ray_intersect(&self, ray: Ray) -> (r: Option<Vec3>) {
        Point::ray_intersect(self, ray)
    }

    fn normal(&self, intersection_point: Vec3) -> (r: Vec3) {
        Point::normal(self, intersection_point)
    }
}

impl RayIntersectable for Geometry {
    open spec fn inv(&self) -> bool {
        self.wf()
    }

    open spec fn hit_model(&self, ray: Ray) -> Option<(int, int, int)> {
        self.hit_spec(ray)
    }

    open spec fn normal_model(&self, pt: (int, int, int)) -> (int, int, int) {
        self.normal_spec(pt)
    }

    fn ray_intersect(&self, ray: Ray) -> (r: Option<Vec3>) {
        Geometry::ray_intersect(self, ray)
    }

    fn normal(&self, intersection_point: Vec3) -> (r: Vec3) {
        Geometry::normal(self, intersection_point)
    }
}

/// Intersection correctness, hit side: a ray aimed along an axis at a
/// sphere's center from outside intersects exactly at the entry point
/// `center - direction * radius`. Stated for axis-aligned integer
/// configurations, where every fixed-point step is exact.
pub proof fn lemma_sphere_center_hit(a: int, b: int, rad: int)
    requires
        -30000 <= a,
        b <= 30000,
        a < b,
        0 < rad,
        rad <= b - a,
    ensures
        sphere_hit_s((0, 0, b * 65536), rad * 65536, (0, 0, a * 65536), (0, 0, 65536)) == Some(
            v_sub_s((0, 0, b * 65536), v_scale_s((0, 0, 65536), rad * 65536)),
        ),
        sphere_hit_s((0, 0, b * 65536), rad * 65536, (0, 0, a * 65536), (0, 0, 65536)) == Some(
            (0int, 0int, (b - rad) * 65536),
        ),
{
    let k = b - a;
    let l2: int = k * 65536;
    let r2: int = rad * 65536;
    crate::fixed::lemma_mul_div_one(l2);
    assert(v_dot_s(v_sub_s((0, 0, b * 65536), (0, 0, a * 65536)), (0, 0, 65536)) == l2);
    let tca = l2;
    assert(l2 * l2 == (k * k * 65536) * 65536) by (nonlinear_arith)
        requires
            l2 == k * 65536,
    ;
    crate::fixed::lemma_mul_div_one(k * k * 65536);
    assert(0 <= k * k * 65536 <= 0x2000_0000_0000_0000) by (nonlinear_arith)
        requires
            0 < k <= 60000,
    ;
    assert(v_dot_s(v_sub_s((0, 0, b * 65536), (0, 0, a * 65536)), v_sub_s((0, 0, b * 65536), (0, 0, a * 65536)))
        == k * k * 65536);
    assert(fx_mul_s(tca, tca) == k * k * 65536);
    assert(r2 * r2 == (rad * rad * 65536) * 65536) by (nonlinear_arith)
        requires
            r2 == rad * 65536,
    ;
    crate::fixed::lemma_mul_div_one(rad * rad * 65536);
    assert(0 <= rad * rad * 65536 <= 0x2000_0000_0000_0000) by (nonlinear_arith)
        requires
            0 < rad <= 60000,
    ;
    assert(fx_mul_s(r2, r2) == rad * rad * 65536);
    // thc: the square root of the exact square (rad * 65536)^2
    assert((rad * rad * 65536) * 65536 == r2 * r2) by (nonlinear_arith)
        requires
            r2 == rad * 65536,
    ;
    crate::fixed::lemma_sqrt_perfect(r2);
    assert(fx_sqrt_s(rad * rad * 65536) == r2);
    let t = fx_sat(tca - r2);
    assert(t == (b - a - rad) * 65536) by (nonlinear_arith)
        requires
            tca == (b - a) * 65536,
            r2 == rad * 65536,
            0 <= tca - r2 <= 0x2000_0000_0000_0000,
            t == fx_sat(tca - r2),
    ;
    crate::fixed::lemma_mul_div_one(t);
    assert(65536 * t == t * 65536);
    assert(fx_mul_s(65536, t) == t);
    assert(lerp_s((0, 0, a * 65536), (0, 0, 65536), t) == (0int, 0int, (b - rad) * 65536));
    crate::fixed::lemma_mul_div_one(r2);
    assert(65536 * r2 == r2 * 65536);
    assert(fx_mul_s(65536, r2) == r2);
    assert(v_scale_s((0, 0, 65536), r2) == (0int, 0int, r2));
}

/// Intersection correctness, miss side: a ray whose perpendicular distance
/// from a sphere's center exceeds the radius reports no hit. Stated for
/// integer configurations with the ray along an axis and the center offset
/// by `(p, q)` across it, where every fixed-point step is exact: the
/// discriminant comes out negative and the query answers `None`.
pub proof fn lemma_sphere_perpendicular_miss(p: int, q: int, c: int, rad: int)
    requires
        0 <= c <= 30000,
        0 <= rad <= 30000,
        -30000 <= p <= 30000,
        -30000 <= q <= 30000,
        rad * rad < p * p + q * q,
    ensures
        sphere_hit_s((p * 65536, q * 65536, c * 65536), rad * 65536, (0, 0, 0), (0, 0, 65536))
            == None::<(int, int, int)>,
{
    let l = v_sub_s((p * 65536, q * 65536, c * 65536), (0, 0, 0));
    assert(l == (p * 65536, q * 65536, c * 65536));
    crate::fixed::lemma_mul_div_one(c * 65536);
    assert((p * 65536) * 0 + (q * 65536) * 0 + (c * 65536) * 65536 == (c * 65536) * 65536)
        by (nonlinear_arith);
    assert(v_dot_s(l, (0, 0, 65536)) == c * 65536);
    let tca = c * 65536;
    assert((p * 65536) * (p * 65536) + (q * 65536) * (q * 65536) + (c * 65536) * (c * 65536)
        == ((p * p + q * q + c * c) * 65536) * 65536) by (nonlinear_arith);
    crate::fixed::lemma_mul_div_one((p * p + q * q + c * c) * 65536);
    assert(0 <= (p * p + q * q + c * c) * 65536 <= 0x2000_0000_0000_0000) by (nonlinear_arith)
        requires
            -30000 <= p <= 30000,
            -30000 <= q <= 30000,
            0 <= c <= 30000,
    ;
    assert(v_dot_s(l, l) == (p * p + q * q + c * c) * 65536);
    assert(tca * tca == (c * c * 65536) * 65536) by (nonlinear_arith)
        requires
            tca == c * 65536,
    ;
    crate::fixed::lemma_mul_div_one(c * c * 65536);
    assert(0 <= c * c * 65536 <= 0x2000_0000_0000_0000) by (nonlinear_arith)
        requires
            0 <= c <= 30000,
    ;
    assert(fx_mul_s(tca, tca) == c * c * 65536);
    let d2 = fx_sat((p * p + q * q + c * c) * 65536 - c * c * 65536);
    assert(d2 == (p * p + q * q) * 65536 && 0 <= d2) by (nonlinear_arith)
        requires
            d2 == fx_sat((p * p + q * q + c * c) * 65536 - c * c * 65536),
            -30000 <= p <= 30000,
            -30000 <= q <= 30000,
            0 <= c <= 30000,
    ;
    let r2: int = rad * 65536;
    assert(r2 * r2 == (rad * rad * 65536) * 65536) by (nonlinear_arith)
        requires
            r2 == rad * 65536,
    ;
    crate::fixed::lemma_mul_div_one(rad * rad * 65536);
    assert(0 <= rad * rad * 65536 <= 0x2000_0000_0000_0000) by (nonlinear_arith)
        requires
            0 <= rad <= 30000,
    ;
    assert(fx_mul_s(r2, r2) == rad * rad * 65536);
    assert(fx_sat(rad * rad * 65536 - d2) < 0) by (nonlinear_arith)
        requires
            d2 == (p * p + q * q) * 65536,
            rad * rad < p * p + q * q,
            0 <= rad,
    ;
}

/// Triangle containment, hit side: a ray through the centroid of a
/// right triangle, perpendicular to its plane, intersects exactly at the
/// centroid. Stated for the axis-aligned family with legs `3a` and `3b`
/// in the z-plane, where every fixed-point step is exact; the normal is
/// the one `Triangle::new` precomputes.
pub proof fn lemma_triangle_centroid_hit(a: int, b: int, h: int)
    requires
        1 <= a <= 1000,
        1 <= b <= 1000,
        1 <= h <= 1000,
    ensures
        triangle_hit_s(
            (0, 0, 0),
            (3 * a * 65536, 0, 0),
            (0, 3 * b * 65536, 0),
            v_cross_s(
                v_sub_s((3 * a * 65536, 0, 0), (0, 0, 0)),
                v_sub_s((0, 3 * b * 65536, 0), (0, 0, 0)),
            ),
            (a * 65536, b * 65536, -h * 65536),
            (0, 0, 65536),
        ) == Some((a * 65536, b * 65536, 0int)),
{
    let e1 = v_sub_s((3 * a * 65536, 0, 0), (0int, 0int, 0int));
    let e2 = v_sub_s((0, 3 * b * 65536, 0), (0int, 0int, 0int));
    assert(e1 == (3 * a * 65536, 0int, 0int));
    assert(e2 == (0int, 3 * b * 65536, 0int));
    let nz: int = 9 * a * b * 65536;
    assert((3 * a * 65536) * (3 * b * 65536) - 0 * 0 == nz * 65536) by (nonlinear_arith)
        requires
            nz == 9 * a * b * 65536,
    ;
    crate::fixed::lemma_mul_div_one(nz);
    assert(0 <= nz <= 0x2000_0000_0000_0000) by (nonlinear_arith)
        requires
            nz == 9 * a * b * 65536,
            1 <= a <= 1000,
            1 <= b <= 1000,
    ;
    let n = v_cross_s(e1, e2);
    assert(n == (0int, 0int, nz));
    // d = n . dir
    crate::fixed::lemma_mul_div_one(nz);
    assert(v_dot_s(n, (0, 0, 65536)) == fx_sat(div_trunc(nz * 65536, 65536)));
    assert(v_dot_s(n, (0, 0, 65536)) == nz);
    assert(nz >= 65536) by (nonlinear_arith)
        requires
            nz == 9 * a * b * 65536,
            1 <= a,
            1 <= b,
    ;
    // t = (n . (v0 - origin)) / d
    let w = v_sub_s((0int, 0int, 0int), (a * 65536, b * 65536, -h * 65536));
    assert(w == (-(a * 65536), -(b * 65536), h * 65536));
    assert(0 * (-(a * 65536)) + 0 * (-(b * 65536)) + nz * (h * 65536) == (9 * a * b * h * 65536)
        * 65536) by (nonlinear_arith)
        requires
            nz == 9 * a * b * 65536,
    ;
    crate::fixed::lemma_mul_div_one(9 * a * b * h * 65536);
    assert(0 <= 9 * a * b * h * 65536 <= 0x2000_0000_0000_0000) by (nonlinear_arith)
        requires
            1 <= a <= 1000,
            1 <= b <= 1000,
            1 <= h <= 1000,
    ;
    let num = 9 * a * b * h * 65536;
    assert(v_dot_s(n, w) == num);
    assert(num * 65536 == nz * (h * 65536)) by (nonlinear_arith)
        requires
            num == 9 * a * b * h * 65536,
            nz == 9 * a * b * 65536,
    ;
    vstd::arithmetic::div_mod::lemma_div_multiples_vanish(h * 65536, nz);
    assert(div_trunc(num * 65536, nz) == h * 65536) by {
        assert(num * 65536 > 0) by (nonlinear_arith)
            requires
                num == 9 * a * b * h * 65536,
                1 <= a,
                1 <= b,
                1 <= h,
        ;
        assert((nz * (h * 65536)) / nz == h * 65536);
    }
    let t = h * 65536;
    assert(fx_div_s(num, nz) == t);
    assert(0 <= t);
    // projection = origin + t * dir
    crate::fixed::lemma_mul_div_one(t);
    assert(65536 * t == t * 65536);
    assert(fx_mul_s(65536, t) == t);
    assert(fx_mul_s(0, t) == 0) by {
        assert(0 * t == 0);
    }
    let proj = lerp_s((a * 65536, b * 65536, -h * 65536), (0, 0, 65536), t);
    assert(proj == (a * 65536, b * 65536, 0int));
    // inside test
    let x0 = v_sub_s((0int, 0int, 0int), proj);
    let x1 = v_sub_s((3 * a * 65536, 0, 0), proj);
    let x2 = v_sub_s((0, 3 * b * 65536, 0), proj);
    assert(x0 == (-(a * 65536), -(b * 65536), 0int));
    assert(x1 == (2 * a * 65536, -(b * 65536), 0int));
    assert(x2 == (-(a * 65536), 2 * b * 65536, 0int));
    let yz: int = 3 * a * b * 65536;
    assert((2 * a * 65536) * (2 * b * 65536) - (-(b * 65536)) * (-(a * 65536)) == yz * 65536)
        by (nonlinear_arith)
        requires
            yz == 3 * a * b * 65536,
    ;
    assert((-(a * 65536)) * (2 * b * 65536) - (-(b * 65536)) * (-(a * 65536)) == -(yz * 65536))
        by (nonlinear_arith)
        requires
            yz == 3 * a * b * 65536,
    ;
    assert((-(a * 65536)) * (-(b * 65536)) - (2 * b * 65536) * (-(a * 65536)) == yz * 65536)
        by (nonlinear_arith)
        requires
            yz == 3 * a * b * 65536,
    ;
    assert((-(a * 65536)) * (-(b * 65536)) - (-(b * 65536)) * (2 * a * 65536) == yz * 65536)
        by (nonlinear_arith)
        requires
            yz == 3 * a * b * 65536,
    ;
    crate::fixed::lemma_mul_div_one(yz);
    assert(0 <= yz <= 0x2000_0000_0000_0000) by (nonlinear_arith)
        requires
            yz == 3 * a * b * 65536,
            1 <= a <= 1000,
            1 <= b <= 1000,
    ;
    assert((-(yz * 65536)) == (-yz) * 65536);
    crate::fixed::lemma_mul_div_one(-yz);
    let y0 = v_cross_s(x1, x2);
    let y1 = v_cross_s(x2, x0);
    let y2 = v_cross_s(x0, x1);
    assert(x1.1 * x2.2 - x1.2 * x2.1 == 0 && x1.2 * x2.0 - x1.0 * x2.2 == 0) by (nonlinear_arith)
        requires
            x1.2 == 0,
            x2.2 == 0,
    ;
    assert(x2.1 * x0.2 - x2.2 * x0.1 == 0 && x2.2 * x0.0 - x2.0 * x0.2 == 0) by (nonlinear_arith)
        requires
            x2.2 == 0,
            x0.2 == 0,
    ;
    assert(x0.1 * x1.2 - x0.2 * x1.1 == 0 && x0.2 * x1.0 - x0.0 * x1.2 == 0) by (nonlinear_arith)
        requires
            x0.2 == 0,
            x1.2 == 0,
    ;
    assert(y0 == (0int, 0int, yz));
    assert(y1 == (0int, 0int, yz));
    assert(y2 == (0int, 0int, yz));
    assert(yz * yz == (9 * a * a * b * b * 65536) * 65536) by (nonlinear_arith)
        requires
            yz == 3 * a * b * 65536,
    ;
    crate::fixed::lemma_mul_div_one(9 * a * a * b * b * 65536);
    assert(0 <= 9 * a * a * b * b * 65536 <= 0x2000_0000_0000_0000) by (nonlinear_arith)
        requires
            1 <= a <= 1000,
            1 <= b <= 1000,
    ;
    assert(v_dot_s(y0, y1) == 9 * a * a * b * b * 65536);
    assert(v_dot_s(y0, y2) == 9 * a * a * b * b * 65536);
    assert(v_dot_s(y0, y1) >= 0);
    assert(v_dot_s(y0, y2) >= 0);
}

/// Triangle containment, miss side: a perpendicular ray through a point
/// strictly outside the triangle's plane projection (here: beyond the
/// right-angle corner in both axes) reports no hit, because the same-side
/// test finds opposite signs.
pub proof fn lemma_triangle_outside_miss(a: int, b: int, h: int, e: int, f: int)
    requires
        1 <= a <= 1000,
        1 <= b <= 1000,
        1 <= h <= 1000,
        1 <= e <= 1000,
        1 <= f <= 1000,
    ensures
        triangle_hit_s(
            (0, 0, 0),
            (3 * a * 65536, 0, 0),
            (0, 3 * b * 65536, 0),
            v_cross_s(
                v_sub_s((3 * a * 65536, 0, 0), (0, 0, 0)),
                v_sub_s((0, 3 * b * 65536, 0), (0, 0, 0)),
            ),
            (-(e * 65536), -(f * 65536), -(h * 65536)),
            (0, 0, 65536),
        ) == None::<(int, int, int)>,
{
    let e1 = v_sub_s((3 * a * 65536, 0, 0), (0int, 0int, 0int));
    let e2 = v_sub_s((0, 3 * b * 65536, 0), (0int, 0int, 0int));
    assert(e1 == (3 * a * 65536, 0int, 0int));
    assert(e2 == (0int, 3 * b * 65536, 0int));
    let nz: int = 9 * a * b * 65536;
    assert((3 * a * 65536) * (3 * b * 65536) - 0 * 0 == nz * 65536) by (nonlinear_arith)
        requires
            nz == 9 * a * b * 65536,
    ;
    crate::fixed::lemma_mul_div_one(nz);
    assert(0 <= nz <= 0x2000_0000_0000_0000) by (nonlinear_arith)
        requires
            nz == 9 * a * b * 65536,
            1 <= a <= 1000,
            1 <= b <= 1000,
    ;
    let n = v_cross_s(e1, e2);
    assert(n == (0int, 0int, nz));
    assert(v_dot_s(n, (0, 0, 65536)) == fx_sat(div_trunc(nz * 65536, 65536)));
    assert(v_dot_s(n, (0, 0, 65536)) == nz);
    assert(nz >= 65536) by (nonlinear_arith)
        requires
            nz == 9 * a * b * 65536,
            1 <= a,
            1 <= b,
    ;
    let w = v_sub_s((0int, 0int, 0int), (-(e * 65536), -(f * 65536), -(h * 65536)));
    assert(w == (e * 65536, f * 65536, h * 65536));
    let num = 9 * a * b * h * 65536;
    assert(0 * (e * 65536) + 0 * (f * 65536) + nz * (h * 65536) == num * 65536)
        by (nonlinear_arith)
        requires
            nz == 9 * a * b * 65536,
            num == 9 * a * b * h * 65536,
    ;
    assert(num * 65536 == nz * (h * 65536)) by (nonlinear_arith)
        requires
            num == 9 * a * b * h * 65536,
            nz == 9 * a * b * 65536,
    ;
    vstd::arithmetic::div_mod::lemma_div_multiples_vanish(h * 65536, nz);
    assert(div_trunc(num * 65536, nz) == h * 65536) by {
        assert(num * 65536 > 0) by (nonlinear_arith)
            requires
                num == 9 * a * b * h * 65536,
                1 <= a,
                1 <= b,
                1 <= h,
        ;
        assert((nz * (h * 65536)) / nz == h * 65536);
    }
    crate::fixed::lemma_mul_div_one(9 * a * b * h * 65536);
    assert(0 <= 9 * a * b * h * 65536 <= 0x2000_0000_0000_0000) by (nonlinear_arith)
        requires
            1 <= a <= 1000,
            1 <= b <= 1000,
            1 <= h <= 1000,
    ;
    assert(v_dot_s(n, w) == num);
    let t = h * 65536;
    assert(fx_div_s(num, nz) == t);
    crate::fixed::lemma_mul_div_one(t);
    assert(65536 * t == t * 65536);
    assert(fx_mul_s(65536, t) == t);
    assert(fx_mul_s(0, t) == 0) by {
        assert(0 * t == 0);
    }
    let proj = lerp_s((-(e * 65536), -(f * 65536), -(h * 65536)), (0, 0, 65536), t);
    assert(proj == (-(e * 65536), -(f * 65536), 0int));
    let x0 = v_sub_s((0int, 0int, 0int), proj);
    let x1 = v_sub_s((3 * a * 65536, 0, 0), proj);
    let x2 = v_sub_s((0, 3 * b * 65536, 0), proj);
    assert(x0 == (e * 65536, f * 65536, 0int));
    assert(x1 == ((3 * a + e) * 65536, f * 65536, 0int));
    assert(x2 == (e * 65536, (3 * b + f) * 65536, 0int));
    let g0: int = (9 * a * b + 3 * a * f + 3 * b * e) * 65536;
    let g1: int = -(3 * b * e) * 65536;
    assert(((3 * a + e) * 65536) * ((3 * b + f) * 65536) - (f * 65536) * (e * 65536) == g0
        * 65536) by (nonlinear_arith)
        requires
            g0 == (9 * a * b + 3 * a * f + 3 * b * e) * 65536,
    ;
    assert((e * 65536) * (f * 65536) - ((3 * b + f) * 65536) * (e * 65536) == g1 * 65536)
        by (nonlinear_arith)
        requires
            g1 == -(3 * b * e) * 65536,
    ;
    crate::fixed::lemma_mul_div_one(g0);
    crate::fixed::lemma_mul_div_one(g1);
    assert(0 <= g0 <= 0x2000_0000_0000_0000 && -0x2000_0000_0000_0000 <= g1 <= 0)
        by (nonlinear_arith)
        requires
            g0 == (9 * a * b + 3 * a * f + 3 * b * e) * 65536,
            g1 == -(3 * b * e) * 65536,
            1 <= a <= 1000,
            1 <= b <= 1000,
            1 <= e <= 1000,
            1 <= f <= 1000,
    ;
    let y0 = v_cross_s(x1, x2);
    let y1 = v_cross_s(x2, x0);
    assert(x1.1 * x2.2 - x1.2 * x2.1 == 0 && x1.2 * x2.0 - x1.0 * x2.2 == 0) by (nonlinear_arith)
        requires
            x1.2 == 0,
            x2.2 == 0,
    ;
    assert(x2.1 * x0.2 - x2.2 * x0.1 == 0 && x2.2 * x0.0 - x2.0 * x0.2 == 0) by (nonlinear_arith)
        requires
            x2.2 == 0,
            x0.2 == 0,
    ;
    assert(y0.2 == g0);
    assert(y1.2 == g1);
    assert(y0.0 == 0 && y0.1 == 0 && y1.0 == 0 && y1.1 == 0);
    assert(g0 >= 65536 && g1 <= -65536) by (nonlinear_arith)
        requires
            g0 == (9 * a * b + 3 * a * f + 3 * b * e) * 65536,
            g1 == -(3 * b * e) * 65536,
            1 <= a,
            1 <= b,
            1 <= e,
            1 <= f,
    ;
    assert(-(g0 * g1) >= 65536) by (nonlinear_arith)
        requires
            g0 >= 65536,
            g1 <= -65536,
    ;
    vstd::arithmetic::div_mod::lemma_div_non_zero(-(g0 * g1), 65536);
    assert(((g0 * g1) * -1) / 65536 > 0);
    assert(div_trunc(g0 * g1, 65536) < 0);
    assert(0 * 0 + 0 * 0 + g0 * g1 == g0 * g1);
    assert(v_dot_s(y0, y1) == fx_sat(div_trunc(g0 * g1, 65536)));
    assert(v_dot_s(y0, y1) < 0);
}

} // verus!
