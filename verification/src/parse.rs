//! The scene-description parser.
//!
//! The format is line-oriented: each line starts with a one-letter tag
//! (`E` eye, `V` view and up, `F` field of view, `R` resolution, `M`
//! material, `L` light, `S` sphere, `T` triangle); unrecognized tags and
//! blank lines are ignored; object identities are assigned in declaration
//! order; a malformed or missing field is a parse error. Numbers are plain
//! signed decimals (an optional sign, an integer part, an optional
//! fraction), read exactly into Q16.16 with truncation toward zero; an
//! integer part beyond ten digits or `2^31 - 1`, or a fraction beyond
//! eighteen digits, is rejected as out of range, as is a resolution
//! outside `[1, 32768]` or a reflectivity outside `[0, 1]`.
//!
//! Every step is characterized exactly by a spec function over the byte
//! sequence, so the parsed scene is pinned down byte for byte.

use vstd::prelude::*;
use crate::fixed::{FX_ONE, fx_ok, div_trunc};
use crate::vec3::{Vec3, v_ok};
use crate::geometry::{Sphere, Triangle, Geometry};
use crate::scene::{Material, InputData, objects_wf};
use vstd::slice::{slice_subrange, slice_index_get};
use vstd::string::StringSliceAdditionalSpecFns;
use vstd::arithmetic::div_mod::{lemma_div_pos_is_pos, lemma_div_is_ordered};

verus! {

/// In-line whitespace: space, tab, form feed, carriage return. The line
/// feed separates lines and never reaches the field splitter.
pub open spec fn is_sp(b: u8) -> bool {
    b == 32 || b == 9 || b == 12 || b == 13
}

/// An ASCII decimal digit.
pub open spec fn is_digit(b: u8) -> bool {
    48 <= b <= 57
}

/// Index of the first non-whitespace byte at or after `i`, or the length.
pub open spec fn skip_sp_s(s: Seq<u8>, i: int) -> int
    decreases s.len() - i,
{
    if i < 0 || i >= s.len() {
        i
    } else if is_sp(s[i]) {
        skip_sp_s(s, i + 1)
    } else {
        i
    }
}

/// Index of the first whitespace byte at or after `i`, or the length.
pub open spec fn tok_end_s(s: Seq<u8>, i: int) -> int
    decreases s.len() - i,
{
    if i < 0 || i >= s.len() {
        i
    } else if is_sp(s[i]) {
        i
    } else {
        tok_end_s(s, i + 1)
    }
}

/// Index of the first line feed at or after `i`, or the length.
pub open spec fn line_end_s(s: Seq<u8>, i: int) -> int
    decreases s.len() - i,
{
    if i < 0 || i >= s.len() {
        i
    } else if s[i] == 10 {
        i
    } else {
        line_end_s(s, i + 1)
    }
}

/// The three cursor functions stay between their argument and the length.
pub proof fn lemma_cursor_bounds(s: Seq<u8>, i: int)
    requires
        0 <= i <= s.len(),
    ensures
        i <= skip_sp_s(s, i) <= s.len(),
        i <= tok_end_s(s, i) <= s.len(),
        i <= line_end_s(s, i) <= s.len(),
    decreases s.len() - i,
{
    if i < s.len() {
        lemma_cursor_bounds(s, i + 1);
    }
}

/// Skipping whitespace lands on a non-whitespace byte or the end.
pub proof fn lemma_skip_sp_land(s: Seq<u8>, i: int)
    requires
        0 <= i <= s.len(),
    ensures
        skip_sp_s(s, i) < s.len() ==> !is_sp(s[skip_sp_s(s, i)]),
    decreases s.len() - i,
{
    if i < s.len() && is_sp(s[i]) {
        lemma_skip_sp_land(s, i + 1);
    }
}

/// A product with a sign factor is the value or its negation.
pub proof fn lemma_sign_mul(sgn: int, x: int)
    requires
        sgn == 1 || sgn == -1,
    ensures
        sgn * x == if sgn == 1 {
            x
        } else {
            -x
        },
{
    assert(sgn * x == if sgn == 1 {
        x
    } else {
        -x
    }) by (nonlinear_arith)
        requires
            sgn == 1 || sgn == -1,
    ;
}

/// The next whitespace-separated token at or after `i`: its bounds and
/// the cursor after it, or `None` at the end of the line.
pub open spec fn next_tok_s(s: Seq<u8>, i: int) -> Option<(int, int)> {
    let st = skip_sp_s(s, i);
    if st >= s.len() {
        None
    } else {
        Some((st, tok_end_s(s, st)))
    }
}

/// Scan past in-line whitespace.
fn skip_sp_exec(line: &[u8], i: usize) -> (r: usize)
    requires
        i <= line@.len(),
    ensures
        r as int == skip_sp_s(line@, i as int),
        i <= r <= line@.len(),
    decreases line@.len() - i,
{
    if i >= line.len() {
        i
    } else {
        let b = *slice_index_get(line, i);
        if b == 32 || b == 9 || b == 12 || b == 13 {
            skip_sp_exec(line, i + 1)
        } else {
            i
        }
    }
}

/// Scan to the end of the token starting at `i`.
fn tok_end_exec(line: &[u8], i: usize) -> (r: usize)
    requires
        i <= line@.len(),
    ensures
        r as int == tok_end_s(line@, i as int),
        i <= r <= line@.len(),
    decreases line@.len() - i,
{
    if i >= line.len() {
        i
    } else {
        let b = *slice_index_get(line, i);
        if b == 32 || b == 9 || b == 12 || b == 13 {
            i
        } else {
            tok_end_exec(line, i + 1)
        }
    }
}

/// Scan to the end of the current line.
pub fn line_end_exec(line: &[u8], i: usize) -> (r: usize)
    requires
        i <= line@.len(),
    ensures
        r as int == line_end_s(line@, i as int),
        i <= r <= line@.len(),
    decreases line@.len() - i,
{
    if i >= line.len() {
        i
    } else {
        let b = *slice_index_get(line, i);
        if b == 10 {
            i
        } else {
            line_end_exec(line, i + 1)
        }
    }
}

/// Scan to the first `.` of a token.
fn dot_from_exec(line: &[u8], i: usize) -> (r: usize)
    requires
        i <= line@.len(),
    ensures
        r as int == dot_from_s(line@, i as int),
        i <= r <= line@.len(),
    decreases line@.len() - i,
{
    if i >= line.len() {
        i
    } else {
        let b = *slice_index_get(line, i);
        if b == 46 {
            i
        } else {
            dot_from_exec(line, i + 1)
        }
    }
}

/// Find the next token of a line.
pub fn next_tok(line: &[u8], i: usize) -> (r: Option<(usize, usize)>)
    requires
        i <= line@.len(),
    ensures
        match r {
            None => next_tok_s(line@, i as int) is None,
            Some(p) => next_tok_s(line@, i as int) == Some((p.0 as int, p.1 as int)) && i <= p.0
                && p.0 < p.1 && p.1 <= line@.len(),
        },
{
    let st = skip_sp_exec(line, i);
    if st >= line.len() {
        return None;
    }
    let e = tok_end_exec(line, st);
    proof {
        lemma_skip_sp_land(line@, i as int);
        lemma_cursor_bounds(line@, st as int + 1);
        assert(tok_end_s(line@, st as int) == tok_end_s(line@, st as int + 1));
    }
    Some((st, e))
}

/// Value of a digit string, most significant first.
pub open spec fn digits_val_s(s: Seq<u8>) -> int
    decreases s.len(),
{
    if s.len() == 0 {
        0
    } else {
        digits_val_s(s.drop_last()) * 10 + (s.last() - 48)
    }
}

/// Every byte is a digit.
pub open spec fn all_digits(s: Seq<u8>) -> bool {
    forall|i: int| 0 <= i < s.len() ==> is_digit(#[trigger] s[i])
}

/// Powers of ten.
pub open spec fn pow10_s(k: nat) -> int
    decreases k,
{
    if k == 0 {
        1
    } else {
        10 * pow10_s((k - 1) as nat)
    }
}

/// A digit string's value is nonnegative and below ten to its length.
pub proof fn lemma_digits_range(s: Seq<u8>)
    requires
        all_digits(s),
    ensures
        0 <= digits_val_s(s) < pow10_s(s.len()),
    decreases s.len(),
{
    if s.len() > 0 {
        assert(all_digits(s.drop_last())) by {
            assert(forall|i: int|
                0 <= i < s.len() - 1 ==> s.drop_last()[i] == #[trigger] s[i]);
        }
        lemma_digits_range(s.drop_last());
        let p = pow10_s((s.len() - 1) as nat);
        assert(digits_val_s(s.drop_last()) * 10 <= (p - 1) * 10) by (nonlinear_arith)
            requires
                digits_val_s(s.drop_last()) <= p - 1,
        ;
        assert(digits_val_s(s.drop_last()) * 10 >= 0) by (nonlinear_arith)
            requires
                digits_val_s(s.drop_last()) >= 0,
        ;
    }
}

/// Index of the first `.` at or after `i`, or the length.
pub open spec fn dot_from_s(s: Seq<u8>, i: int) -> int
    decreases s.len() - i,
{
    if i < 0 || i >= s.len() {
        i
    } else if s[i] == 46 {
        i
    } else {
        dot_from_s(s, i + 1)
    }
}

pub proof fn lemma_dot_bounds(s: Seq<u8>, i: int)
    requires
        0 <= i <= s.len(),
    ensures
        i <= dot_from_s(s, i) <= s.len(),
    decreases s.len() - i,
{
    if i < s.len() {
        lemma_dot_bounds(s, i + 1);
    }
}

/// The Q16.16 value of a decimal token `[+-]? digits [. digits*]?`,
/// truncated toward zero, or `None` for any other shape or a magnitude
/// out of range.
pub open spec fn dec_of_s(t: Seq<u8>) -> Option<int> {
    let b0: int = if t.len() > 0 && (t[0] == 43 || t[0] == 45) {
        1
    } else {
        0
    };
    let sgn: int = if t.len() > 0 && t[0] == 45 {
        -1
    } else {
        1
    };
    let d = dot_from_s(t, b0);
    let ip = t.subrange(b0, d);
    let fp = if d < t.len() {
        t.subrange(d + 1, t.len() as int)
    } else {
        Seq::empty()
    };
    if ip.len() == 0 || ip.len() > 10 || !all_digits(ip) || fp.len() > 18 || !all_digits(fp)
        || digits_val_s(ip) > 0x7FFF_FFFF {
        None
    } else {
        Some(sgn * (digits_val_s(ip) * 65536 + (digits_val_s(fp) * 65536) / pow10_s(fp.len())))
    }
}

/// A parsed decimal stays well inside the representable range.
pub proof fn lemma_dec_range(t: Seq<u8>, v: int)
    requires
        dec_of_s(t) == Some(v),
    ensures
        -0x8000_0100_0000 <= v <= 0x8000_0100_0000,
        fx_ok(v),
{
    let b0: int = if t.len() > 0 && (t[0] == 43 || t[0] == 45) {
        1
    } else {
        0
    };
    lemma_dot_bounds(t, b0);
    let d = dot_from_s(t, b0);
    let ip = t.subrange(b0, d);
    let fp = if d < t.len() {
        t.subrange(d + 1, t.len() as int)
    } else {
        Seq::empty()
    };
    lemma_digits_range(fp);
    let q = (digits_val_s(fp) * 65536) / pow10_s(fp.len());
    assert(digits_val_s(fp) * 65536 <= (pow10_s(fp.len()) - 1) * 65536) by (nonlinear_arith)
        requires
            digits_val_s(fp) <= pow10_s(fp.len()) - 1,
    ;
    assert(pow10_s(fp.len()) >= 1) by {
        lemma_pow10_pos(fp.len());
    }
    lemma_div_pos_is_pos(digits_val_s(fp) * 65536, pow10_s(fp.len()));
    lemma_div_is_ordered(
        digits_val_s(fp) * 65536,
        pow10_s(fp.len()) * 65536,
        pow10_s(fp.len()),
    );
    assert((pow10_s(fp.len()) - 1) * 65536 <= pow10_s(fp.len()) * 65536) by (nonlinear_arith)
        requires
            pow10_s(fp.len()) >= 1,
    ;
    vstd::arithmetic::div_mod::lemma_div_multiples_vanish(65536, pow10_s(fp.len()));
    assert(0 <= q <= 65536);
    lemma_digits_range(ip);
    assert(0 <= digits_val_s(ip) * 65536 <= 0x7FFF_FFFF * 65536) by (nonlinear_arith)
        requires
            0 <= digits_val_s(ip) <= 0x7FFF_FFFF,
    ;
    let sgn: int = if t.len() > 0 && t[0] == 45 {
        -1
    } else {
        1
    };
    assert(-0x8000_0100_0000 <= sgn * (digits_val_s(ip) * 65536 + q) <= 0x8000_0100_0000)
        by (nonlinear_arith)
        requires
            sgn == 1 || sgn == -1,
            0 <= digits_val_s(ip) * 65536 <= 0x7FFF_FFFF * 65536,
            0 <= q <= 65536,
    ;
}

/// Powers of ten are positive.
pub proof fn lemma_pow10_pos(k: nat)
    ensures
        pow10_s(k) >= 1,
    decreases k,
{
    if k > 0 {
        lemma_pow10_pos((k - 1) as nat);
    }
}

/// Powers of ten grow with the exponent.
pub proof fn lemma_pow10_mono(i: nat, j: nat)
    requires
        i <= j,
    ensures
        pow10_s(i) <= pow10_s(j),
    decreases j,
{
    if i < j {
        lemma_pow10_mono(i, (j - 1) as nat);
        lemma_pow10_pos((j - 1) as nat);
    }
}

/// Powers of ten up to eighteen digits fit a machine word.
pub proof fn lemma_pow10_bound(k: nat)
    requires
        k <= 18,
    ensures
        1 <= pow10_s(k) <= 1_000_000_000_000_000_000,
{
    lemma_pow10_pos(k);
    lemma_pow10_mono(k, 18);
    assert(pow10_s(18) == 1_000_000_000_000_000_000) by {
        reveal_with_fuel(pow10_s, 20);
    }
}

/// Ten to the `k`, for fraction rescaling.
pub fn pow10(k: usize) -> (r: u64)
    requires
        k <= 18,
    ensures
        r as int == pow10_s(k as nat),
{
    proof {
        lemma_pow10_bound(k as nat);
    }
    let mut r: u64 = 1;
    let mut i: usize = 0;
    while i < k
        invariant
            i <= k <= 18,
            r as int == pow10_s(i as nat),
            1 <= r <= 1_000_000_000_000_000_000,
        decreases k - i,
    {
        proof {
            lemma_pow10_bound((i + 1) as nat);
        }
        r = r * 10;
        i = i + 1;
    }
    r
}

/// Accumulate the digits of `t[from..to]`; `None` on a non-digit or when
/// the count exceeds `max_len`.
fn digits_val(t: &[u8], from: usize, to: usize, max_len: usize) -> (r: Option<u64>)
    requires
        from <= to <= t@.len(),
        max_len <= 18,
    ensures
        match r {
            Some(v) => all_digits(t@.subrange(from as int, to as int)) && (to - from) <= max_len
                && v as int == digits_val_s(t@.subrange(from as int, to as int)),
            None => !all_digits(t@.subrange(from as int, to as int)) || (to - from) > max_len,
        },
{
    if to - from > max_len {
        return None;
    }
    let ghost s = t@.subrange(from as int, to as int);
    let mut v: u64 = 0;
    let mut k = from;
    while k < to
        invariant
            from <= k <= to <= t@.len(),
            to - from <= max_len <= 18,
            s == t@.subrange(from as int, to as int),
            all_digits(t@.subrange(from as int, k as int)),
            v as int == digits_val_s(t@.subrange(from as int, k as int)),
            (v as int) < pow10_s((k - from) as nat),
            v <= 1_000_000_000_000_000_000,
        decreases to - k,
    {
        let b = *slice_index_get(t, k);
        if !(48 <= b && b <= 57) {
            proof {
                assert(s[k - from] == t@[k as int]);
                assert(!all_digits(s));
            }
            return None;
        }
        proof {
            lemma_pow10_bound((k + 1 - from) as nat);
            assert(t@.subrange(from as int, k as int + 1).drop_last() =~= t@.subrange(
                from as int,
                k as int,
            ));
            assert(t@.subrange(from as int, k as int + 1).last() == t@[k as int]);
            assert((v as int) * 10 + (b - 48) < pow10_s((k + 1 - from) as nat))
                by (nonlinear_arith)
                requires
                    (v as int) < pow10_s((k - from) as nat),
                    pow10_s((k + 1 - from) as nat) == 10 * pow10_s((k - from) as nat),
                    0 <= b - 48 <= 9,
                    0 <= v,
            ;
            assert(forall|i: int|
                0 <= i < k + 1 - from ==> is_digit(
                    #[trigger] t@.subrange(from as int, k as int + 1)[i],
                ));
        }
        v = v * 10 + ((b - 48) as u64);
        k = k + 1;
    }
    proof {
        assert(t@.subrange(from as int, to as int) =~= t@.subrange(from as int, k as int));
    }
    Some(v)
}

/// Parse one decimal token into Q16.16; exactly `dec_of_s` of its bytes.
pub fn parse_fixed(t: &[u8]) -> (r: Option<i64>)
    ensures
        match r {
            None => dec_of_s(t@) is None,
            Some(v) => dec_of_s(t@) == Some(v as int) && fx_ok(v as int),
        },
{
    let n = t.len();
    let (neg, b0): (bool, usize) = if n > 0 && (*slice_index_get(t, 0) == 43 || *slice_index_get(
        t,
        0,
    ) == 45) {
        (*slice_index_get(t, 0) == 45, 1)
    } else {
        (false, 0)
    };
    let d = dot_from_exec(t, b0);
    if d == b0 {
        // empty integer part
        proof {
            assert(t@.subrange(b0 as int, d as int).len() == 0);
        }
        return None;
    }
    let iv = match digits_val(t, b0, d, 10) {
        Some(v) => v,
        None => {
            return None;
        },
    };
    if iv > 0x7FFF_FFFF {
        return None;
    }
    let (fv, fl): (u64, usize) = if d < n {
        match digits_val(t, d + 1, n, 18) {
            Some(v) => (v, n - (d + 1)),
            None => {
                return None;
            },
        }
    } else {
        (0, 0)
    };
    proof {
        if d >= n {
            assert(digits_val_s(Seq::<u8>::empty()) == 0);
            assert(all_digits(Seq::<u8>::empty()));
        }
        lemma_pow10_bound(fl as nat);
    }
    let p = pow10(fl);
    let q128: u128 = (fv as u128) * 65536 / (p as u128);
    proof {
        let fseq: Seq<u8> = if (d as int) < t@.len() {
            t@.subrange(d as int + 1, t@.len() as int)
        } else {
            Seq::empty()
        };
        lemma_digits_range(fseq);
        assert((fv as int) * 65536 == (fv as u128) * 65536);
        lemma_div_pos_is_pos((fv as int) * 65536, p as int);
        lemma_div_is_ordered((fv as int) * 65536, (p as int) * 65536, p as int);
        assert((fv as int) * 65536 <= (p as int) * 65536) by (nonlinear_arith)
            requires
                (fv as int) <= p as int,
                0 <= fv,
        ;
        vstd::arithmetic::div_mod::lemma_div_multiples_vanish(65536, p as int);
        assert(q128 <= 65536);
    }
    let q: i64 = q128 as i64;
    let magnitude: i64 = (iv as i64) * 65536 + q;
    proof {
        let sgn: int = if t@.len() > 0 && t@[0] == 45 {
            -1
        } else {
            1
        };
        lemma_sign_mul(sgn, magnitude as int);
    }
    if neg {
        Some(-magnitude)
    } else {
        Some(magnitude)
    }
}

/// The `i32` value of an integer token `[+-]? digits`, or `None` for any
/// other shape or a value beyond `2^31 - 1`.
pub open spec fn int_of_s(t: Seq<u8>) -> Option<int> {
    let b0: int = if t.len() > 0 && (t[0] == 43 || t[0] == 45) {
        1
    } else {
        0
    };
    let sgn: int = if t.len() > 0 && t[0] == 45 {
        -1
    } else {
        1
    };
    let ip = t.subrange(b0, t.len() as int);
    if ip.len() == 0 || ip.len() > 10 || !all_digits(ip) || digits_val_s(ip) > 0x7FFF_FFFF {
        None
    } else {
        Some(sgn * digits_val_s(ip))
    }
}

/// Parse one integer token; exactly `int_of_s` of its bytes.
pub fn parse_i32(t: &[u8]) -> (r: Option<i32>)
    ensures
        match r {
            None => int_of_s(t@) is None,
            Some(v) => int_of_s(t@) == Some(v as int),
        },
{
    let n = t.len();
    let (neg, b0): (bool, usize) = if n > 0 && (*slice_index_get(t, 0) == 43 || *slice_index_get(
        t,
        0,
    ) == 45) {
        (*slice_index_get(t, 0) == 45, 1)
    } else {
        (false, 0)
    };
    if n == b0 {
        proof {
            assert(t@.subrange(b0 as int, n as int).len() == 0);
        }
        return None;
    }
    let iv = match digits_val(t, b0, n, 10) {
        Some(v) => v,
        None => {
            return None;
        },
    };
    if iv > 0x7FFF_FFFF {
        return None;
    }
    proof {
        let sgn: int = if t@.len() > 0 && t@[0] == 45 {
            -1
        } else {
            1
        };
        lemma_sign_mul(sgn, iv as int);
    }
    if neg {
        Some(-(iv as i32))
    } else {
        Some(iv as i32)
    }
}


/// One parse error kind: the description was malformed.
#[derive(Clone, Copy, PartialEq, Eq, Structural, Debug)]
pub struct ParseError;

/// The running state of the parser, at the spec level: camera fields,
/// the current material, the objects seen so far and the next identity.
pub struct ParseState {
    pub eye: Vec3,
    pub view: Vec3,
    pub up: Vec3,
    pub fov: i64,
    pub res: (i32, i32),
    pub light: Vec3,
    pub cur: Material,
    pub objects: Seq<(Geometry, Material)>,
    pub next_id: u32,
}

/// The running state of the parser.
pub struct ParserState {
    pub eye: Vec3,
    pub view: Vec3,
    pub up: Vec3,
    pub fov: i64,
    pub res: (i32, i32),
    pub light: Vec3,
    pub cur: Material,
    pub objects: Vec<(Geometry, Material)>,
    pub next_id: u32,
}

impl View for ParserState {
    type V = ParseState;

    open spec fn view(&self) -> ParseState {
        ParseState {
            eye: self.eye,
            view: self.view,
            up: self.up,
            fov: self.fov,
            res: self.res,
            light: self.light,
            cur: self.cur,
            objects: self.objects@,
            next_id: self.next_id,
        }
    }
}

/// Everything a state holds stays in the representable range and every
/// collected object is well-formed.
pub open spec fn st_ok(st: ParseState) -> bool {
    v_ok(st.eye@) && v_ok(st.view@) && v_ok(st.up@) && fx_ok(st.fov as int) && v_ok(st.light@)
        && st.cur.wf() && objects_wf(st.objects)
}

/// The state every parse starts from: zero camera, a black default
/// material, no objects.
pub open spec fn init_state_s() -> ParseState {
    ParseState {
        eye: Vec3 { x: 0, y: 0, z: 0 },
        view: Vec3 { x: 0, y: 0, z: 0 },
        up: Vec3 { x: 0, y: 0, z: 0 },
        fov: 0,
        res: (0, 0),
        light: Vec3 { x: 0, y: 0, z: 0 },
        cur: Material {
            color: Vec3 { x: 0, y: 0, z: 0 },
            ka: 0,
            kd: 0,
            ks: 0,
            specular_exp: 0,
            reflect_rate: 0,
        },
        objects: Seq::empty(),
        next_id: 0,
    }
}

/// Take one decimal field: its value and the cursor after it.
pub open spec fn take_dec_s(s: Seq<u8>, i: int) -> Option<(int, int)> {
    match next_tok_s(s, i) {
        None => None,
        Some((st, en)) => match dec_of_s(s.subrange(st, en)) {
            None => None,
            Some(v) => Some((v, en)),
        },
    }
}

pub fn take_dec(line: &[u8], i: usize) -> (r: Option<(i64, usize)>)
    requires
        i <= line@.len(),
    ensures
        match take_dec_s(line@, i as int) {
            None => r is None,
            Some((v, j)) => r matches Some(p) && p.0 as int == v && p.1 as int == j && j
                <= line@.len() && fx_ok(v) && -0x8000_0100_0000 <= v <= 0x8000_0100_0000,
        },
{
    match next_tok(line, i) {
        None => None,
        Some((st, en)) => match parse_fixed(slice_subrange(line, st, en)) {
            None => None,
            Some(v) => {
                proof {
                    lemma_dec_range(line@.subrange(st as int, en as int), v as int);
                }
                Some((v, en))
            },
        },
    }
}

/// Take one integer field: its value and the cursor after it.
pub open spec fn take_i32_s(s: Seq<u8>, i: int) -> Option<(int, int)> {
    match next_tok_s(s, i) {
        None => None,
        Some((st, en)) => match int_of_s(s.subrange(st, en)) {
            None => None,
            Some(v) => Some((v, en)),
        },
    }
}

pub fn take_i32(line: &[u8], i: usize) -> (r: Option<(i32, usize)>)
    requires
        i <= line@.len(),
    ensures
        match take_i32_s(line@, i as int) {
            None => r is None,
            Some((v, j)) => r matches Some(p) && p.0 as int == v && p.1 as int == j && j
                <= line@.len(),
        },
{
    match next_tok(line, i) {
        None => None,
        Some((st, en)) => match parse_i32(slice_subrange(line, st, en)) {
            None => None,
            Some(v) => Some((v, en)),
        },
    }
}

/// Take three decimal fields as a vector.
pub open spec fn take3_s(s: Seq<u8>, i: int) -> Option<(Vec3, int)> {
    match take_dec_s(s, i) {
        None => None,
        Some((x, i1)) => match take_dec_s(s, i1) {
            None => None,
            Some((y, i2)) => match take_dec_s(s, i2) {
                None => None,
                Some((z, i3)) => Some((Vec3 { x: x as i64, y: y as i64, z: z as i64 }, i3)),
            },
        },
    }
}

pub fn take3(line: &[u8], i: usize) -> (r: Option<(Vec3, usize)>)
    requires
        i <= line@.len(),
    ensures
        match take3_s(line@, i as int) {
            None => r is None,
            Some((v, j)) => r matches Some(p) && p.0 == v && p.1 as int == j && j <= line@.len()
                && v_ok(v@),
        },
{
    match take_dec(line, i) {
        None => None,
        Some((x, i1)) => match take_dec(line, i1) {
            None => None,
            Some((y, i2)) => match take_dec(line, i2) {
                None => None,
                Some((z, i3)) => Some((Vec3 { x, y, z }, i3)),
            },
        },
    }
}

/// The specular exponent a material stores: the integer part of the
/// parsed value, floored at zero.
pub open spec fn exp_of_s(e: int) -> u32 {
    if e < 0 {
        0
    } else {
        div_trunc(e, FX_ONE as int) as u32
    }
}

/// One line's effect on the state: a tagged record updates its fields, a
/// malformed record fails, anything else is ignored.
pub open spec fn line_step_s(line: Seq<u8>, st: ParseState) -> Option<ParseState> {
    match next_tok_s(line, 0) {
        None => Some(st),
        Some((ts, te)) => {
            let tag = line.subrange(ts, te);
            if tag.len() == 1 && tag[0] == 69 {  // E
                match take3_s(line, te) {
                    None => None,
                    Some((v, _)) => Some(ParseState { eye: v, ..st }),
                }
            } else if tag.len() == 1 && tag[0] == 86 {  // V
                match take3_s(line, te) {
                    None => None,
                    Some((v, i1)) => match take3_s(line, i1) {
                        None => None,
                        Some((u, _)) => Some(ParseState { view: v, up: u, ..st }),
                    },
                }
            } else if tag.len() == 1 && tag[0] == 70 {  // F
                match take_dec_s(line, te) {
                    None => None,
                    Some((f, _)) => Some(ParseState { fov: f as i64, ..st }),
                }
            } else if tag.len() == 1 && tag[0] == 82 {  // R
                match take_i32_s(line, te) {
                    None => None,
                    Some((w, i1)) => match take_i32_s(line, i1) {
                        None => None,
                        Some((h, _)) => if 1 <= w <= 32768 && 1 <= h <= 32768 {
                            Some(ParseState { res: (w as i32, h as i32), ..st })
                        } else {
                            None
                        },
                    },
                }
            } else if tag.len() == 1 && tag[0] == 77 {  // M
                match take3_s(line, te) {
                    None => None,
                    Some((col, i1)) => match take_dec_s(line, i1) {
                        None => None,
                        Some((ka, i2)) => match take_dec_s(line, i2) {
                            None => None,
                            Some((kd, i3)) => match take_dec_s(line, i3) {
                                None => None,
                                Some((ks, i4)) => match take_dec_s(line, i4) {
                                    None => None,
                                    Some((ex, i5)) => match take_dec_s(line, i5) {
                                        None => None,
                                        Some((rr, _)) => if 0 <= rr <= FX_ONE as int {
                                            Some(
                                                ParseState {
                                                    cur: Material {
                                                        color: col,
                                                        ka: ka as i64,
                                                        kd: kd as i64,
                                                        ks: ks as i64,
                                                        specular_exp: exp_of_s(ex),
                                                        reflect_rate: rr as i64,
                                                    },
                                                    ..st
                                                },
                                            )
                                        } else {
                                            None
                                        },
                                    },
                                },
                            },
                        },
                    },
                }
            } else if tag.len() == 1 && tag[0] == 76 {  // L
                match take3_s(line, te) {
                    None => None,
                    Some((v, _)) => Some(ParseState { light: v, ..st }),
                }
            } else if tag.len() == 1 && tag[0] == 83 {  // S
                match take3_s(line, te) {
                    None => None,
                    Some((cen, i1)) => match take_dec_s(line, i1) {
                        None => None,
                        Some((rad, _)) => if st.next_id == u32::MAX {
                            None
                        } else {
                            Some(
                                ParseState {
                                    objects: st.objects.push(
                                        (
                                            Geometry::Sphere(
                                                Sphere {
                                                    id: st.next_id,
                                                    center: cen,
                                                    radius: rad as i64,
                                                },
                                            ),
                                            st.cur,
                                        ),
                                    ),
                                    next_id: (st.next_id + 1) as u32,
                                    ..st
                                },
                            )
                        },
                    },
                }
            } else if tag.len() == 1 && tag[0] == 84 {  // T
                match take3_s(line, te) {
                    None => None,
                    Some((p0, i1)) => match take3_s(line, i1) {
                        None => None,
                        Some((p1, i2)) => match take3_s(line, i2) {
                            None => None,
                            Some((p2, _)) => if st.next_id == u32::MAX {
                                None
                            } else {
                                Some(
                                    ParseState {
                                        objects: st.objects.push(
                                            (Geometry::Triangle(tri_of_s(st.next_id, p0, p1, p2)), st.cur),
                                        ),
                                        next_id: (st.next_id + 1) as u32,
                                        ..st
                                    },
                                )
                            },
                        },
                    },
                }
            } else {
                Some(st)
            }
        },
    }
}

/// The triangle a `T` record declares: the three vertices and the
/// precomputed edge cross product, exactly as `Triangle::new` builds it.
pub open spec fn tri_of_s(id: u32, p0: Vec3, p1: Vec3, p2: Vec3) -> Triangle {
    let n = crate::vec3::v_cross_s(crate::vec3::v_sub_s(p1@, p0@), crate::vec3::v_sub_s(p2@, p0@));
    Triangle {
        id,
        verticies: [p0, p1, p2],
        normal: Vec3 { x: n.0 as i64, y: n.1 as i64, z: n.2 as i64 },
    }
}

/// Apply one line to the state.
pub fn parse_line(line: &[u8], st: ParserState) -> (r: Option<ParserState>)
    ensures
        match r {
            None => line_step_s(line@, st@) is None,
            Some(ns) => line_step_s(line@, st@) == Some(ns@),
        },
        st_ok(st@) ==> (r matches Some(ns2) ==> st_ok(ns2@)),
{
    let tok = next_tok(line, 0);
    match tok {
        None => Some(st),
        Some((ts, te)) => {
            if te - ts != 1 {
                return Some(st);
            }
            let tag = *slice_index_get(line, ts);
            proof {
                assert(line@.subrange(ts as int, te as int).len() == 1);
                assert(line@.subrange(ts as int, te as int)[0] == line@[ts as int]);
            }
            if tag == 69 {
                match take3(line, te) {
                    None => None,
                    Some((v, _)) => Some(ParserState { eye: v, ..st }),
                }
            } else if tag == 86 {
                match take3(line, te) {
                    None => None,
                    Some((v, i1)) => match take3(line, i1) {
                        None => None,
                        Some((u, _)) => Some(ParserState { view: v, up: u, ..st }),
                    },
                }
            } else if tag == 70 {
                match take_dec(line, te) {
                    None => None,
                    Some((f, _)) => Some(ParserState { fov: f, ..st }),
                }
            } else if tag == 82 {
                match take_i32(line, te) {
                    None => None,
                    Some((w, i1)) => match take_i32(line, i1) {
                        None => None,
                        Some((h, _)) => {
                            if 1 <= w && w <= 32768 && 1 <= h && h <= 32768 {
                                Some(ParserState { res: (w, h), ..st })
                            } else {
                                None
                            }
                        },
                    },
                }
            } else if tag == 77 {
                match take3(line, te) {
                    None => None,
                    Some((col, i1)) => match take_dec(line, i1) {
                        None => None,
                        Some((ka, i2)) => match take_dec(line, i2) {
                            None => None,
                            Some((kd, i3)) => match take_dec(line, i3) {
                                None => None,
                                Some((ks, i4)) => match take_dec(line, i4) {
                                    None => None,
                                    Some((ex, i5)) => match take_dec(line, i5) {
                                        None => None,
                                        Some((rr, _)) => {
                                            if 0 <= rr && rr <= FX_ONE {
                                                proof {
                                                    if ex >= 0 {
                                                        lemma_div_pos_is_pos(ex as int, 65536);
                                                        lemma_div_is_ordered(
                                                            ex as int,
                                                            0x8000_0100_0000,
                                                            65536,
                                                        );
                                                    }
                                                }
                                                let exp: u32 = if ex < 0 {
                                                    0
                                                } else {
                                                    crate::fixed::fx_trunc(ex) as u32
                                                };
                                                Some(
                                                    ParserState {
                                                        cur: Material {
                                                            color: col,
                                                            ka,
                                                            kd,
                                                            ks,
                                                            specular_exp: exp,
                                                            reflect_rate: rr,
                                                        },
                                                        ..st
                                                    },
                                                )
                                            } else {
                                                None
                                            }
                                        },
                                    },
                                },
                            },
                        },
                    },
                }
            } else if tag == 76 {
                match take3(line, te) {
                    None => None,
                    Some((v, _)) => Some(ParserState { light: v, ..st }),
                }
            } else if tag == 83 {
                match take3(line, te) {
                    None => None,
                    Some((cen, i1)) => match take_dec(line, i1) {
                        None => None,
                        Some((rad, _)) => {
                            if st.next_id == u32::MAX {
                                None
                            } else {
                                let sp = Sphere::new(st.next_id, cen, rad);
                                let mut objects = st.objects;
                                let ghost oldobjs = objects@;
                                objects.push((Geometry::Sphere(sp), st.cur));
                                proof {
                                    assert(st_ok(st@) ==> objects_wf(objects@)) by {
                                        if st_ok(st@) {
                                            assert(forall|i: int|
                                                0 <= i < oldobjs.len() ==> objects@[i]
                                                    == #[trigger] oldobjs[i]);
                                        }
                                    }
                                }
                                Some(
                                    ParserState {
                                        objects,
                                        next_id: st.next_id + 1,
                                        eye: st.eye,
                                        view: st.view,
                                        up: st.up,
                                        fov: st.fov,
                                        res: st.res,
                                        light: st.light,
                                        cur: st.cur,
                                    },
                                )
                            }
                        },
                    },
                }
            } else if tag == 84 {
                match take3(line, te) {
                    None => None,
                    Some((p0, i1)) => match take3(line, i1) {
                        None => None,
                        Some((p1, i2)) => match take3(line, i2) {
                            None => None,
                            Some((p2, _)) => {
                                if st.next_id == u32::MAX {
                                    None
                                } else {
                                    let tr = Triangle::new(st.next_id, [p0, p1, p2]);
                                    proof {
                                        let n = crate::vec3::v_cross_s(
                                            crate::vec3::v_sub_s(p1@, p0@),
                                            crate::vec3::v_sub_s(p2@, p0@),
                                        );
                                        assert(tr.normal@ == n);
                                        assert(tr.normal == Vec3 {
                                            x: n.0 as i64,
                                            y: n.1 as i64,
                                            z: n.2 as i64,
                                        });
                                        assert(tr == tri_of_s(st.next_id, p0, p1, p2));
                                    }
                                    let mut objects = st.objects;
                                    let ghost oldobjs = objects@;
                                    objects.push((Geometry::Triangle(tr), st.cur));
                                    proof {
                                        assert(st_ok(st@) ==> objects_wf(objects@)) by {
                                            if st_ok(st@) {
                                                assert(forall|i: int|
                                                    0 <= i < oldobjs.len() ==> objects@[i]
                                                        == #[trigger] oldobjs[i]);
                                            }
                                        }
                                    }
                                    Some(
                                        ParserState {
                                            objects,
                                            next_id: st.next_id + 1,
                                            eye: st.eye,
                                            view: st.view,
                                            up: st.up,
                                            fov: st.fov,
                                            res: st.res,
                                            light: st.light,
                                            cur: st.cur,
                                        },
                                    )
                                }
                            },
                        },
                    },
                }
            } else {
                Some(st)
            }
        },
    }
}


/// The whole description's effect from cursor `i` on: one line at a time,
/// stopping at the first malformed record.
pub open spec fn parse_from_s(bytes: Seq<u8>, i: int, st: ParseState) -> Option<ParseState>
    decreases bytes.len() + 1 - i,
    when 0 <= i
    via parse_from_s_dec
{
    if i >= bytes.len() {
        Some(st)
    } else {
        let e = line_end_s(bytes, i);
        match line_step_s(bytes.subrange(i, e), st) {
            None => None,
            Some(st2) => parse_from_s(bytes, e + 1, st2),
        }
    }
}

#[via_fn]
proof fn parse_from_s_dec(bytes: Seq<u8>, i: int, st: ParseState) {
    if 0 <= i < bytes.len() {
        lemma_cursor_bounds(bytes, i);
    }
}

/// The parse of a whole description: the final state, or `None` at the
/// first malformed record.
pub open spec fn parse_text_s(bytes: Seq<u8>) -> Option<ParseState> {
    parse_from_s(bytes, 0, init_state_s())
}

impl InputData {
    /// Parse a scene description. On success the returned data is exactly
    /// the final state of `parse_text_s` over the text's bytes, every
    /// vector is in range and every object is well-formed; any malformed
    /// record yields a parse error, and then `parse_text_s` is `None`.
    #[verifier::rlimit(100)]
    pub fn parse(input_text: &str) -> (r: Result<InputData, ParseError>)
        ensures
            match r {
                Ok(d) => parse_text_s(input_text.spec_bytes()) matches Some(fin) && d.eye
                    == fin.eye && d.view_direction == fin.view && d.up_direction == fin.up
                    && d.fov == fin.fov && d.resolution == fin.res && d.light == fin.light
                    && d.objects@ == fin.objects && v_ok(d.eye@) && v_ok(d.view_direction@)
                    && v_ok(d.up_direction@) && v_ok(d.light@) && fx_ok(d.fov as int)
                    && objects_wf(d.objects@),
                Err(_) => parse_text_s(input_text.spec_bytes()) is None,
            },
    {
        let bytes = input_text.as_bytes();
        let n = bytes.len();
        let mut st = ParserState {
            eye: Vec3::zero(),
            view: Vec3::zero(),
            up: Vec3::zero(),
            fov: 0,
            res: (0, 0),
            light: Vec3::zero(),
            cur: Material {
                color: Vec3::zero(),
                ka: 0,
                kd: 0,
                ks: 0,
                specular_exp: 0,
                reflect_rate: 0,
            },
            objects: Vec::new(),
            next_id: 0,
        };
        proof {
            assert(st@ == init_state_s());
            assert(st_ok(st@));
        }
        let mut li: usize = 0;
        while li < n
            invariant
                li <= n,
                n == bytes@.len(),
                bytes@ == input_text.spec_bytes(),
                st_ok(st@),
                parse_text_s(bytes@) == parse_from_s(bytes@, li as int, st@),
            decreases n - li,
        {
            let e = line_end_exec(bytes, li);
            let line = slice_subrange(bytes, li, e);
            let stepped = parse_line(line, st);
            match stepped {
                None => {
                    proof {
                        assert(parse_from_s(bytes@, li as int, st@) is None);
                    }
                    return Err(ParseError);
                },
                Some(ns) => {
                    proof {
                        assert(parse_from_s(bytes@, li as int, st@) == parse_from_s(
                            bytes@,
                            e as int + 1,
                            ns@,
                        ));
                    }
                    st = ns;
                },
            }
            li = if e >= n {
                n
            } else {
                e + 1
            };
        }
        Ok(
            InputData {
                eye: st.eye,
                view_direction: st.view,
                up_direction: st.up,
                fov: st.fov,
                resolution: st.res,
                objects: st.objects,
                light: st.light,
            },
        )
    }
}

} // verus!
