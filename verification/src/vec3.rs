//! Three-component fixed-point vectors.
//!
//! A `Vec3` holds three Q16.16 raw scalars. Its view is the triple of their
//! mathematical values, and every operation has an exact contract over that
//! view, phrased with the saturating scalar operations of `fixed`.

use vstd::prelude::*;
use crate::fixed::{
    FX_ONE, fx_ok, fx_sat, div_trunc, fx_mul_s, fx_div_s, clamp01_s, sqrt_floor,
    fx_add, fx_sub, fx_neg, fx_mul, fx_div, fx_clamp, fx_clamp01, isqrt, lemma_sqrt_floor,
    div_trunc_i128,
};

verus! {

/// A point or direction in space, in Q16.16 fixed point.
#[derive(Clone, Copy, PartialEq, Eq, Structural, Debug)]
pub struct Vec3 {
    pub x: i64,
    pub y: i64,
    pub z: i64,
}

impl View for Vec3 {
    type V = (int, int, int);

    open spec fn view(&self) -> (int, int, int) {
        (self.x as int, self.y as int, self.z as int)
    }
}

/// All three components are in the saturation range.
pub open spec fn v_ok(v: (int, int, int)) -> bool {
    fx_ok(v.0) && fx_ok(v.1) && fx_ok(v.2)
}

/// Componentwise saturating sum.
pub open spec fn v_add_s(a: (int, int, int), b: (int, int, int)) -> (int, int, int) {
    (fx_sat(a.0 + b.0), fx_sat(a.1 + b.1), fx_sat(a.2 + b.2))
}

/// Componentwise saturating difference.
pub open spec fn v_sub_s(a: (int, int, int), b: (int, int, int)) -> (int, int, int) {
    (fx_sat(a.0 - b.0), fx_sat(a.1 - b.1), fx_sat(a.2 - b.2))
}

/// Componentwise negation.
pub open spec fn v_neg_s(a: (int, int, int)) -> (int, int, int) {
    (fx_sat(-a.0), fx_sat(-a.1), fx_sat(-a.2))
}

/// Scale every component by a fixed-point scalar.
pub open spec fn v_scale_s(a: (int, int, int), s: int) -> (int, int, int) {
    (fx_mul_s(a.0, s), fx_mul_s(a.1, s), fx_mul_s(a.2, s))
}

/// Inner product: the exact sum of raw products, rescaled once.
pub open spec fn v_dot_s(a: (int, int, int), b: (int, int, int)) -> int {
    fx_sat(div_trunc(a.0 * b.0 + a.1 * b.1 + a.2 * b.2, FX_ONE as int))
}

/// Cross product, each component an exact difference of raw products
/// rescaled once.
pub open spec fn v_cross_s(a: (int, int, int), b: (int, int, int)) -> (int, int, int) {
    (
        fx_sat(div_trunc(a.1 * b.2 - a.2 * b.1, FX_ONE as int)),
        fx_sat(div_trunc(a.2 * b.0 - a.0 * b.2, FX_ONE as int)),
        fx_sat(div_trunc(a.0 * b.1 - a.1 * b.0, FX_ONE as int)),
    )
}

/// Euclidean length in raw units: the square root of the raw sum of squares
/// is again a Q16.16 raw scalar.
pub open spec fn v_len_s(a: (int, int, int)) -> int {
    sqrt_floor((a.0 * a.0 + a.1 * a.1 + a.2 * a.2) as nat) as int
}

/// Unit vector in the direction of `a`; the zero vector is left unchanged.
pub open spec fn v_norm_s(a: (int, int, int)) -> (int, int, int) {
    let len = v_len_s(a);
    if len == 0 {
        (0, 0, 0)
    } else {
        (
            fx_sat(div_trunc(a.0 * (FX_ONE as int), len)),
            fx_sat(div_trunc(a.1 * (FX_ONE as int), len)),
            fx_sat(div_trunc(a.2 * (FX_ONE as int), len)),
        )
    }
}

/// Saturating sum of the three components.
pub open spec fn v_sum_s(a: (int, int, int)) -> int {
    fx_sat(fx_sat(a.0 + a.1) + a.2)
}

/// Componentwise clamp into `[0, 1]`.
pub open spec fn v_clamp01_s(a: (int, int, int)) -> (int, int, int) {
    (clamp01_s(a.0), clamp01_s(a.1), clamp01_s(a.2))
}

/// Componentwise division by a fixed-point scalar.
pub open spec fn v_divn_s(a: (int, int, int), s: int) -> (int, int, int)
    recommends
        s != 0,
{
    (fx_div_s(a.0, s), fx_div_s(a.1, s), fx_div_s(a.2, s))
}

impl Vec3 {
    /// Build a vector from raw Q16.16 components.
    pub fn new(x: i64, y: i64, z: i64) -> (r: Vec3)
        ensures
            r@ == (x as int, y as int, z as int),
    {
        Vec3 { x, y, z }
    }

    /// The zero vector.
    pub fn zero() -> (r: Vec3)
        ensures
            r@ == (0int, 0int, 0int),
            v_ok(r@),
    {
        Vec3 { x: 0, y: 0, z: 0 }
    }

    /// Componentwise saturating addition.
    pub fn add(self, o: Vec3) -> (r: Vec3)
        ensures
            r@ == v_add_s(self@, o@),
            v_ok(r@),
    {
        Vec3 { x: fx_add(self.x, o.x), y: fx_add(self.y, o.y), z: fx_add(self.z, o.z) }
    }

    /// Componentwise saturating subtraction.
    pub fn sub(self, o: Vec3) -> (r: Vec3)
        ensures
            r@ == v_sub_s(self@, o@),
            v_ok(r@),
    {
        Vec3 { x: fx_sub(self.x, o.x), y: fx_sub(self.y, o.y), z: fx_sub(self.z, o.z) }
    }

    /// Componentwise negation.
    pub fn neg(self) -> (r: Vec3)
        ensures
            r@ == v_neg_s(self@),
            v_ok(r@),
    {
        Vec3 { x: fx_neg(self.x), y: fx_neg(self.y), z: fx_neg(self.z) }
    }

    /// Scale by a fixed-point scalar.
    pub fn scale(self, s: i64) -> (r: Vec3)
        ensures
            r@ == v_scale_s(self@, s as int),
            v_ok(r@),
    {
        Vec3 { x: fx_mul(self.x, s), y: fx_mul(self.y, s), z: fx_mul(self.z, s) }
    }

    /// Inner product.
    pub fn dot(self, o: Vec3) -> (r: i64)
        requires
            v_ok(self@),
            v_ok(o@),
        ensures
            r as int == v_dot_s(self@, o@),
            fx_ok(r as int),
    {
        proof {
            lemma_prod_bounds(self@, o@);
        }
        let sum: i128 = (self.x as i128) * (o.x as i128) + (self.y as i128) * (o.y as i128)
            + (self.z as i128) * (o.z as i128);
        fx_clamp(div_trunc_i128(sum, FX_ONE as i128))
    }

    /// Cross product.
    pub fn cross(self, o: Vec3) -> (r: Vec3)
        requires
            v_ok(self@),
            v_ok(o@),
        ensures
            r@ == v_cross_s(self@, o@),
            v_ok(r@),
    {
        proof {
            lemma_prod_bounds(self@, o@);
        }
        let cx: i128 = (self.y as i128) * (o.z as i128) - (self.z as i128) * (o.y as i128);
        let cy: i128 = (self.z as i128) * (o.x as i128) - (self.x as i128) * (o.z as i128);
        let cz: i128 = (self.x as i128) * (o.y as i128) - (self.y as i128) * (o.x as i128);
        Vec3 {
            x: fx_clamp(div_trunc_i128(cx, FX_ONE as i128)),
            y: fx_clamp(div_trunc_i128(cy, FX_ONE as i128)),
            z: fx_clamp(div_trunc_i128(cz, FX_ONE as i128)),
        }
    }

    /// Euclidean length in raw units.
    pub fn length(self) -> (r: i64)
        requires
            v_ok(self@),
        ensures
            r as int == v_len_s(self@),
            0 <= r,
    {
        proof {
            lemma_square_bounds(self@);
        }
        let sum: i128 = (self.x as i128) * (self.x as i128) + (self.y as i128) * (self.y as i128)
            + (self.z as i128) * (self.z as i128);
        let r = isqrt(sum as u128);
        proof {
            lemma_sqrt_floor(sum as nat);
            assert(sqrt_floor(sum as nat) < 0x4000_0000_0000_0000) by (nonlinear_arith)
                requires
                    sqrt_floor(sum as nat) * sqrt_floor(sum as nat) <= sum as nat,
                    (sum as nat) < 0x1000_0000_0000_0000_0000_0000_0000_0000,
            ;
        }
        r as i64
    }

    /// Distance between two points, in raw units.
    pub fn distance(self, o: Vec3) -> (r: i64)
        requires
            v_ok(self@),
            v_ok(o@),
        ensures
            r as int == v_len_s(v_sub_s(self@, o@)),
            0 <= r,
    {
        self.sub(o).length()
    }

    /// Unit vector in the same direction; the zero vector stays zero.
    pub fn normalize(self) -> (r: Vec3)
        requires
            v_ok(self@),
        ensures
            r@ == v_norm_s(self@),
            v_ok(r@),
    {
        let len = self.length();
        if len == 0 {
            Vec3 { x: 0, y: 0, z: 0 }
        } else {
            Vec3 {
                x: fx_div(self.x, len),
                y: fx_div(self.y, len),
                z: fx_div(self.z, len),
            }
        }
    }

    /// Componentwise division by a nonzero fixed-point scalar, used to
    /// average accumulated sample colors.
    pub fn div_by(self, s: i64) -> (r: Vec3)
        requires
            s != 0,
        ensures
            r@ == v_divn_s(self@, s as int),
            v_ok(r@),
    {
        Vec3 { x: fx_div(self.x, s), y: fx_div(self.y, s), z: fx_div(self.z, s) }
    }

    /// Componentwise clamp into the unit cube, used for final colors.
    pub fn clamp01(self) -> (r: Vec3)
        ensures
            r@ == v_clamp01_s(self@),
            v_ok(r@),
    {
        Vec3 { x: fx_clamp01(self.x), y: fx_clamp01(self.y), z: fx_clamp01(self.z) }
    }
}

/// Saturating sum of the components, the scalar core of `Ray::solve`.
pub fn vec3_sum(v: Vec3) -> (r: i64)
    ensures
        r as int == v_sum_s(v@),
        fx_ok(r as int),
{
    fx_add(fx_add(v.x, v.y), v.z)
}

/// Products of in-range components fit comfortably inside `i128`.
proof fn lemma_prod_bounds(a: (int, int, int), b: (int, int, int))
    requires
        v_ok(a),
        v_ok(b),
    ensures
        -0x400_0000_0000_0000_0000_0000_0000_0000 <= a.0 * b.0 <= 0x400_0000_0000_0000_0000_0000_0000_0000,
        -0x400_0000_0000_0000_0000_0000_0000_0000 <= a.1 * b.1 <= 0x400_0000_0000_0000_0000_0000_0000_0000,
        -0x400_0000_0000_0000_0000_0000_0000_0000 <= a.2 * b.2 <= 0x400_0000_0000_0000_0000_0000_0000_0000,
        -0x400_0000_0000_0000_0000_0000_0000_0000 <= a.1 * b.2 <= 0x400_0000_0000_0000_0000_0000_0000_0000,
        -0x400_0000_0000_0000_0000_0000_0000_0000 <= a.2 * b.1 <= 0x400_0000_0000_0000_0000_0000_0000_0000,
        -0x400_0000_0000_0000_0000_0000_0000_0000 <= a.2 * b.0 <= 0x400_0000_0000_0000_0000_0000_0000_0000,
        -0x400_0000_0000_0000_0000_0000_0000_0000 <= a.0 * b.2 <= 0x400_0000_0000_0000_0000_0000_0000_0000,
        -0x400_0000_0000_0000_0000_0000_0000_0000 <= a.0 * b.1 <= 0x400_0000_0000_0000_0000_0000_0000_0000,
        -0x400_0000_0000_0000_0000_0000_0000_0000 <= a.1 * b.0 <= 0x400_0000_0000_0000_0000_0000_0000_0000,
{
    assert forall|p: int, q: int|
        -0x2000_0000_0000_0000 <= p <= 0x2000_0000_0000_0000 && -0x2000_0000_0000_0000 <= q
            <= 0x2000_0000_0000_0000 implies -0x400_0000_0000_0000_0000_0000_0000_0000 <= #[trigger] (p * q)
        <= 0x400_0000_0000_0000_0000_0000_0000_0000 by {
        assert(-0x400_0000_0000_0000_0000_0000_0000_0000 <= p * q
            <= 0x400_0000_0000_0000_0000_0000_0000_0000) by (nonlinear_arith)
            requires
                -0x2000_0000_0000_0000 <= p <= 0x2000_0000_0000_0000,
                -0x2000_0000_0000_0000 <= q <= 0x2000_0000_0000_0000,
        ;
    }
}

/// Squares of in-range components are nonnegative and bounded.
proof fn lemma_square_bounds(a: (int, int, int))
    requires
        v_ok(a),
    ensures
        0 <= a.0 * a.0 <= 0x400_0000_0000_0000_0000_0000_0000_0000,
        0 <= a.1 * a.1 <= 0x400_0000_0000_0000_0000_0000_0000_0000,
        0 <= a.2 * a.2 <= 0x400_0000_0000_0000_0000_0000_0000_0000,
{
    lemma_prod_bounds(a, a);
    assert(0 <= a.0 * a.0 && 0 <= a.1 * a.1 && 0 <= a.2 * a.2) by (nonlinear_arith);
}

} // verus!
