//! Q16.16 fixed-point scalar arithmetic.
//!
//! A raw `i64` value `v` stands for the real number `v / 65536`. Every
//! operation widens to `i128`, computes exactly, and saturates the result
//! into `[-FX_LIM, FX_LIM]`, so all operations are total over in-range
//! operands and their results are stated exactly over `int`.

use vstd::prelude::*;
use vstd::arithmetic::div_mod::{lemma_div_nonincreasing, lemma_div_by_multiple};

verus! {

/// Raw representation of 1.0: the Q16.16 scale factor.
pub const FX_ONE: i64 = 65536;

/// Saturation bound for every fixed-point result (2^61 raw, about 3.5e13
/// in real units). Keeping all values inside this range lets sums of a few
/// products stay inside `i128` without further preconditions.
pub const FX_LIM: i64 = 0x2000_0000_0000_0000;

/// A raw scalar is in range when saturation keeps it fixed.
pub open spec fn fx_ok(v: int) -> bool {
    -(FX_LIM as int) <= v <= FX_LIM as int
}

/// Saturate a mathematical integer into the representable range.
pub open spec fn fx_sat(v: int) -> int {
    if v > FX_LIM as int {
        FX_LIM as int
    } else if v < -(FX_LIM as int) {
        -(FX_LIM as int)
    } else {
        v
    }
}

/// Integer division truncated toward zero, the rounding used throughout.
pub open spec fn div_trunc(x: int, d: int) -> int
    recommends
        d != 0,
{
    if x == 0 {
        0
    } else if x > 0 && d > 0 {
        x / d
    } else if x < 0 && d < 0 {
        (x * -1) / (d * -1)
    } else if x < 0 {
        ((x * -1) / d) * -1
    } else {
        (x / (d * -1)) * -1
    }
}

/// Product of two fixed-point scalars: exact product rescaled by 65536,
/// truncated toward zero, then saturated.
pub open spec fn fx_mul_s(a: int, b: int) -> int {
    fx_sat(div_trunc(a * b, FX_ONE as int))
}

/// Quotient of two fixed-point scalars: `a` rescaled by 65536, divided by
/// `b` truncating toward zero, then saturated.
pub open spec fn fx_div_s(a: int, b: int) -> int
    recommends
        b != 0,
{
    fx_sat(div_trunc(a * (FX_ONE as int), b))
}

/// The magnitude of a truncated quotient never exceeds the dividend's.
proof fn lemma_div_trunc_bound(x: int, d: int)
    requires
        d != 0,
    ensures
        x >= 0 ==> -x <= div_trunc(x, d) <= x,
        x < 0 ==> x <= div_trunc(x, d) <= -x,
{
    let xa = if x >= 0 { x } else { x * -1 };
    let da = if d > 0 { d } else { d * -1 };
    if x != 0 {
        lemma_div_nonincreasing(xa, da);
        assert(xa / da >= 0) by (nonlinear_arith)
            requires
                xa > 0,
                da > 0,
        ;
    }
}

/// Saturate an exact `i128` intermediate down to a raw `i64` scalar.
pub fn fx_clamp(v: i128) -> (r: i64)
    ensures
        r as int == fx_sat(v as int),
        fx_ok(r as int),
{
    if v > FX_LIM as i128 {
        FX_LIM
    } else if v < -(FX_LIM as i128) {
        -FX_LIM
    } else {
        v as i64
    }
}

/// Saturating fixed-point addition.
pub fn fx_add(a: i64, b: i64) -> (r: i64)
    ensures
        r as int == fx_sat(a + b),
        fx_ok(r as int),
{
    fx_clamp(a as i128 + b as i128)
}

/// Saturating fixed-point subtraction.
pub fn fx_sub(a: i64, b: i64) -> (r: i64)
    ensures
        r as int == fx_sat(a - b),
        fx_ok(r as int),
{
    fx_clamp(a as i128 - b as i128)
}

/// Saturating negation.
pub fn fx_neg(a: i64) -> (r: i64)
    ensures
        r as int == fx_sat(-a),
        fx_ok(r as int),
{
    fx_clamp(-(a as i128))
}

/// Truncated `i128` division, the shared exec core of `fx_mul` and `fx_div`.
pub(crate) fn div_trunc_i128(x: i128, d: i128) -> (r: i128)
    requires
        d != 0,
        x > i128::MIN,
    ensures
        r as int == div_trunc(x as int, d as int),
{
    proof {
        lemma_div_trunc_bound(x as int, d as int);
    }
    match x.checked_div(d) {
        Some(q) => q,
        None => {
            // unreachable: the quotient's magnitude is at most |x| < i128::MAX
            proof {
                assert(false);
            }
            0
        },
    }
}

/// Fixed-point multiplication: exact in `i128`, rescaled, saturated.
pub fn fx_mul(a: i64, b: i64) -> (r: i64)
    ensures
        r as int == fx_mul_s(a as int, b as int),
        fx_ok(r as int),
{
    proof {
        lemma_i64_mul_fits(a as int, b as int);
    }
    let p: i128 = (a as i128) * (b as i128);
    fx_clamp(div_trunc_i128(p, FX_ONE as i128))
}

/// The product of two `i64` values stays strictly inside `i128`.
proof fn lemma_i64_mul_fits(a: int, b: int)
    requires
        i64::MIN <= a <= i64::MAX,
        i64::MIN <= b <= i64::MAX,
    ensures
        i128::MIN < a * b < i128::MAX,
{
    assert(i128::MIN < a * b < i128::MAX) by (nonlinear_arith)
        requires
            -0x8000_0000_0000_0000 <= a <= 0x7FFF_FFFF_FFFF_FFFF,
            -0x8000_0000_0000_0000 <= b <= 0x7FFF_FFFF_FFFF_FFFF;
}

/// Fixed-point division; the caller must rule out a zero divisor.
pub fn fx_div(a: i64, b: i64) -> (r: i64)
    requires
        b != 0,
    ensures
        r as int == fx_div_s(a as int, b as int),
        fx_ok(r as int),
{
    proof {
        lemma_i64_mul_fits(a as int, FX_ONE as int);
    }
    let n: i128 = (a as i128) * (FX_ONE as i128);
    fx_clamp(div_trunc_i128(n, b as i128))
}

/// Absolute value of a mathematical integer.
pub open spec fn abs_s(v: int) -> int {
    if v < 0 {
        -v
    } else {
        v
    }
}

/// Absolute value of an in-range scalar.
pub fn fx_abs(v: i64) -> (r: i64)
    requires
        fx_ok(v as int),
    ensures
        r as int == abs_s(v as int),
        fx_ok(r as int),
{
    if v < 0 {
        -v
    } else {
        v
    }
}

/// Clamp a scalar into the unit interval `[0, 1]`.
pub open spec fn clamp01_s(v: int) -> int {
    if v < 0 {
        0
    } else if v > FX_ONE as int {
        FX_ONE as int
    } else {
        v
    }
}

/// Clamp a color channel or coefficient into `[0, 1]`.
pub fn fx_clamp01(v: i64) -> (r: i64)
    ensures
        r as int == clamp01_s(v as int),
{
    if v < 0 {
        0
    } else if v > FX_ONE {
        FX_ONE
    } else {
        v
    }
}

/// Fixed-point power with a natural exponent, by repeated `fx_mul_s`.
pub open spec fn fx_powi_s(b: int, e: nat) -> int
    decreases e,
{
    if e == 0 {
        FX_ONE as int
    } else {
        fx_mul_s(b, fx_powi_s(b, (e - 1) as nat))
    }
}

/// Fixed-point integer power, used for the specular exponent.
pub fn fx_powi(b: i64, e: u32) -> (r: i64)
    ensures
        r as int == fx_powi_s(b as int, e as nat),
        fx_ok(r as int),
{
    let mut acc: i64 = FX_ONE;
    let mut i: u32 = 0;
    while i < e
        invariant
            i <= e,
            acc as int == fx_powi_s(b as int, i as nat),
            fx_ok(acc as int),
        decreases e - i,
    {
        acc = fx_mul(b, acc);
        i = i + 1;
    }
    acc
}

/// Widen a signed integer count into fixed point.
pub fn fx_from_i32(v: i32) -> (r: i64)
    ensures
        r as int == v * (FX_ONE as int),
        fx_ok(r as int),
{
    proof {
        assert(-(FX_LIM as int) <= (v as int) * (FX_ONE as int) <= FX_LIM as int)
            by (nonlinear_arith)
            requires
                -0x8000_0000 <= v as int <= 0x7FFF_FFFF,
                FX_ONE == 65536,
                FX_LIM == 0x2000_0000_0000_0000,
        ;
    }
    (v as i64) * (FX_ONE as i64)
}

/// Widen an unsigned count into fixed point.
pub fn fx_from_u32(v: u32) -> (r: i64)
    ensures
        r as int == v * (FX_ONE as int),
        fx_ok(r as int),
{
    proof {
        assert(0 <= (v as int) * (FX_ONE as int) <= FX_LIM as int) by (nonlinear_arith)
            requires
                0 <= v as int <= 0xFFFF_FFFF,
                FX_ONE == 65536,
                FX_LIM == 0x2000_0000_0000_0000,
        ;
    }
    (v as i64) * (FX_ONE as i64)
}

/// Truncated integer part of a fixed-point scalar.
pub fn fx_trunc(v: i64) -> (r: i64)
    ensures
        r as int == div_trunc(v as int, FX_ONE as int),
{
    proof {
        lemma_div_trunc_bound(v as int, FX_ONE as int);
    }
    div_trunc_i128(v as i128, FX_ONE as i128)  as i64
}

/// Floor of the square root of a natural number, defined by counting up.
pub open spec fn sqrt_floor(n: nat) -> nat
    decreases n,
{
    if n == 0 {
        0
    } else {
        let p = sqrt_floor((n - 1) as nat);
        if (p + 1) * (p + 1) <= n {
            p + 1
        } else {
            p
        }
    }
}

/// `sqrt_floor` indeed brackets its argument between consecutive squares.
pub proof fn lemma_sqrt_floor(n: nat)
    ensures
        sqrt_floor(n) * sqrt_floor(n) <= n,
        n < (sqrt_floor(n) + 1) * (sqrt_floor(n) + 1),
    decreases n,
{
    if n == 0 {
        assert(sqrt_floor(0) == 0);
        assert(0 * 0 == 0) by (nonlinear_arith);
        assert((0 + 1) * (0 + 1) == 1) by (nonlinear_arith);
    } else {
        lemma_sqrt_floor((n - 1) as nat);
        let p = sqrt_floor((n - 1) as nat);
        let s = sqrt_floor(n);
        if (p + 1) * (p + 1) <= n {
            assert(s == p + 1);
            assert(n <= (p + 1) * (p + 1));
            assert(n < ((p + 1) + 1) * ((p + 1) + 1)) by (nonlinear_arith)
                requires
                    n <= (p + 1) * (p + 1),
                    0 <= p,
            ;
            assert(s * s <= n);
            assert(n < (s + 1) * (s + 1));
        } else {
            assert(s == p);
            assert(s * s <= n);
            assert(n < (s + 1) * (s + 1));
        }
    }
}

/// Between consecutive squares there is only one integer root.
pub proof fn lemma_sqrt_unique(n: nat, r: nat)
    requires
        r * r <= n,
        n < (r + 1) * (r + 1),
    ensures
        r == sqrt_floor(n),
{
    lemma_sqrt_floor(n);
    let s = sqrt_floor(n);
    if r < s {
        assert((r + 1) * (r + 1) <= s * s) by (nonlinear_arith)
            requires r + 1 <= s;
        assert(false);
    }
    if s < r {
        assert((s + 1) * (s + 1) <= r * r) by (nonlinear_arith)
            requires s + 1 <= r;
        assert(false);
    }
}

/// Integer square root by bisection.
pub fn isqrt(n: u128) -> (r: u128)
    ensures
        r as nat == sqrt_floor(n as nat),
{
    if n == 0 {
        proof {
            assert(sqrt_floor(0) == 0);
        }
        return 0;
    }
    let mut lo: u128 = 0;
    let mut hi: u128 = 0x1_0000_0000_0000_0000;
    while lo + 1 < hi
        invariant
            lo < hi,
            hi <= 0x1_0000_0000_0000_0000,
            (lo as nat) * (lo as nat) <= n as nat,
            (n as nat) < (hi as nat) * (hi as nat),
        decreases hi - lo,
    {
        let mid: u128 = lo + (hi - lo) / 2;
        proof {
            assert(mid * mid <= u128::MAX) by (nonlinear_arith)
                requires mid < 0x1_0000_0000_0000_0000;
        }
        if mid * mid <= n {
            lo = mid;
        } else {
            hi = mid;
        }
    }
    proof {
        lemma_sqrt_unique(n as nat, lo as nat);
    }
    lo
}

/// Square root of a nonnegative fixed-point scalar, in fixed point:
/// `sqrt(a / 65536)` in raw units is `sqrt_floor(a * 65536)`.
pub open spec fn fx_sqrt_s(a: int) -> int
    recommends
        a >= 0,
{
    sqrt_floor((a * (FX_ONE as int)) as nat) as int
}

/// Fixed-point square root.
pub fn fx_sqrt(a: i64) -> (r: i64)
    requires
        0 <= a,
    ensures
        r as int == fx_sqrt_s(a as int),
        0 <= r,
        fx_ok(r as int),
{
    proof {
        assert((a as int) * (FX_ONE as int) < 0x8000_0000_0000_0000_0000) by (nonlinear_arith)
            requires
                0 <= a as int <= 0x7FFF_FFFF_FFFF_FFFF,
                FX_ONE == 65536,
        ;
    }
    let m: u128 = (a as u128) * (FX_ONE as u128);
    let r = isqrt(m);
    proof {
        lemma_sqrt_floor(m as nat);
        assert(sqrt_floor(m as nat) < 0x100_0000_0000) by (nonlinear_arith)
            requires
                sqrt_floor(m as nat) * sqrt_floor(m as nat) <= m as nat,
                (m as nat) < 0x8000_0000_0000_0000_0000,
        ;
    }
    r as i64
}

/// Rotation angles `atan(2^-i)` of the circular CORDIC recurrence, in
/// Q16.16; seventeen steps reach the resolution of the representation.
pub open spec fn cordic_atan_s(i: nat) -> int {
    if i == 0 {
        51472
    } else if i == 1 {
        30386
    } else if i == 2 {
        16055
    } else if i == 3 {
        8150
    } else if i == 4 {
        4091
    } else if i == 5 {
        2047
    } else if i == 6 {
        1024
    } else if i == 7 {
        512
    } else if i == 8 {
        256
    } else if i == 9 {
        128
    } else if i == 10 {
        64
    } else if i == 11 {
        32
    } else if i == 12 {
        16
    } else if i == 13 {
        8
    } else if i == 14 {
        4
    } else if i == 15 {
        2
    } else {
        1
    }
}

/// The power of two scaling step `i` of the CORDIC recurrence.
pub open spec fn cordic_pow_s(i: nat) -> int {
    if i == 0 {
        1
    } else if i == 1 {
        2
    } else if i == 2 {
        4
    } else if i == 3 {
        8
    } else if i == 4 {
        16
    } else if i == 5 {
        32
    } else if i == 6 {
        64
    } else if i == 7 {
        128
    } else if i == 8 {
        256
    } else if i == 9 {
        512
    } else if i == 10 {
        1024
    } else if i == 11 {
        2048
    } else if i == 12 {
        4096
    } else if i == 13 {
        8192
    } else if i == 14 {
        16384
    } else if i == 15 {
        32768
    } else {
        65536
    }
}

/// One circular CORDIC rotation of the state `(x, y, z)`.
pub open spec fn cordic_step_s(st: (int, int, int), i: nat) -> (int, int, int) {
    let p = cordic_pow_s(i);
    if st.2 >= 0 {
        (
            fx_sat(st.0 - div_trunc(st.1, p)),
            fx_sat(st.1 + div_trunc(st.0, p)),
            fx_sat(st.2 - cordic_atan_s(i)),
        )
    } else {
        (
            fx_sat(st.0 + div_trunc(st.1, p)),
            fx_sat(st.1 - div_trunc(st.0, p)),
            fx_sat(st.2 + cordic_atan_s(i)),
        )
    }
}

/// The CORDIC state after `n` rotations, started at the gain-corrected
/// constant 0.60725 so that the state converges to `(cos, sin, 0)`.
pub open spec fn cordic_iter_s(angle: int, n: nat) -> (int, int, int)
    decreases n,
{
    if n == 0 {
        (39797, 0, angle)
    } else {
        cordic_step_s(cordic_iter_s(angle, (n - 1) as nat), (n - 1) as nat)
    }
}

/// Cosine and sine of an angle in Q16.16 radians, as the seventeen-step
/// CORDIC recurrence computes them; the recurrence converges on
/// `|angle| <= 1.74` radians, which covers every camera half-angle.
pub open spec fn cos_sin_s(angle: int) -> (int, int) {
    let st = cordic_iter_s(angle, 17);
    (st.0, st.1)
}

/// One exec CORDIC rotation.
fn cordic_step(x: i64, y: i64, z: i64, i: u32) -> (r: (i64, i64, i64))
    ensures
        (r.0 as int, r.1 as int, r.2 as int) == cordic_step_s(
            (x as int, y as int, z as int),
            i as nat,
        ),
{
    let p: i64 = if i == 0 {
        1
    } else if i == 1 {
        2
    } else if i == 2 {
        4
    } else if i == 3 {
        8
    } else if i == 4 {
        16
    } else if i == 5 {
        32
    } else if i == 6 {
        64
    } else if i == 7 {
        128
    } else if i == 8 {
        256
    } else if i == 9 {
        512
    } else if i == 10 {
        1024
    } else if i == 11 {
        2048
    } else if i == 12 {
        4096
    } else if i == 13 {
        8192
    } else if i == 14 {
        16384
    } else if i == 15 {
        32768
    } else {
        65536
    };
    let a: i64 = if i == 0 {
        51472
    } else if i == 1 {
        30386
    } else if i == 2 {
        16055
    } else if i == 3 {
        8150
    } else if i == 4 {
        4091
    } else if i == 5 {
        2047
    } else if i == 6 {
        1024
    } else if i == 7 {
        512
    } else if i == 8 {
        256
    } else if i == 9 {
        128
    } else if i == 10 {
        64
    } else if i == 11 {
        32
    } else if i == 12 {
        16
    } else if i == 13 {
        8
    } else if i == 14 {
        4
    } else if i == 15 {
        2
    } else {
        1
    };
    let qy = div_trunc_i128(y as i128, p as i128);
    let qx = div_trunc_i128(x as i128, p as i128);
    if z >= 0 {
        (
            fx_clamp(x as i128 - qy),
            fx_clamp(y as i128 + qx),
            fx_clamp(z as i128 - a as i128),
        )
    } else {
        (
            fx_clamp(x as i128 + qy),
            fx_clamp(y as i128 - qx),
            fx_clamp(z as i128 + a as i128),
        )
    }
}

/// Cosine and sine of an angle in Q16.16 radians.
pub fn fx_cos_sin(angle: i64) -> (r: (i64, i64))
    ensures
        (r.0 as int, r.1 as int) == cos_sin_s(angle as int),
{
    let mut x: i64 = 39797;
    let mut y: i64 = 0;
    let mut z: i64 = angle;
    let mut i: u32 = 0;
    while i < 17
        invariant
            i <= 17,
            (x as int, y as int, z as int) == cordic_iter_s(angle as int, i as nat),
        decreases 17 - i,
    {
        let st = cordic_step(x, y, z, i);
        x = st.0;
        y = st.1;
        z = st.2;
        i = i + 1;
    }
    (x, y)
}

/// Tangent of an angle in Q16.16 radians, from the CORDIC pair; a
/// vanishing cosine saturates instead of dividing by zero.
pub open spec fn tan_s(angle: int) -> int {
    let cs = cos_sin_s(angle);
    if cs.0 == 0 {
        FX_LIM as int
    } else {
        fx_div_s(cs.1, cs.0)
    }
}

/// Tangent of an angle in Q16.16 radians.
pub fn fx_tan(angle: i64) -> (r: i64)
    ensures
        r as int == tan_s(angle as int),
        fx_ok(r as int),
{
    let cs = fx_cos_sin(angle);
    if cs.0 == 0 {
        FX_LIM
    } else {
        fx_div(cs.1, cs.0)
    }
}


/// Rescaling by the fixed-point unit is exact: `(x * 65536) / 65536 == x`
/// under truncation toward zero.
pub proof fn lemma_mul_div_one(x: int)
    ensures
        div_trunc(x * (FX_ONE as int), FX_ONE as int) == x,
{
    if x > 0 {
        lemma_div_by_multiple(x, FX_ONE as int);
    } else if x < 0 {
        assert((x * (FX_ONE as int)) * -1 == (-x) * (FX_ONE as int));
        lemma_div_by_multiple(-x, FX_ONE as int);
    }
}

/// Multiplying an in-range scalar by one is the identity.
pub proof fn lemma_fx_mul_one(a: int)
    requires
        fx_ok(a),
    ensures
        fx_mul_s(a, FX_ONE as int) == a,
{
    lemma_mul_div_one(a);
}

/// Multiplying any scalar by zero gives zero.
pub proof fn lemma_fx_mul_zero(a: int)
    ensures
        fx_mul_s(a, 0) == 0,
{
    assert(a * 0 == 0);
}

/// The square root of a perfect square is its root.
pub proof fn lemma_sqrt_perfect(r: int)
    requires
        0 <= r,
    ensures
        sqrt_floor((r * r) as nat) == r,
{
    assert(r * r < (r + 1) * (r + 1)) by (nonlinear_arith)
        requires
            0 <= r,
    ;
    lemma_sqrt_unique((r * r) as nat, r as nat);
}

} // verus!
