//! Binary pixel-map encoding of a rendered buffer.
//!
//! The output is the header `P6\n{width} {height}\n{maxval}\n` followed by
//! row-major triples: one byte per channel under `maxval` 255, or two
//! big-endian bytes per channel under `maxval` 65535. A channel is
//! quantized by clamping into `[0, 1]` and rounding `maxval` times the
//! value to the nearest integer.

use vstd::prelude::*;
use crate::fixed::{FX_ONE, clamp01_s, fx_clamp01};
use crate::vec3::Vec3;
use vstd::arithmetic::div_mod::{lemma_div_pos_is_pos, lemma_div_is_ordered};

verus! {

/// Decimal digit string of a nonnegative integer.
pub open spec fn dec_s(n: int) -> Seq<u8>
    recommends
        n >= 0,
    decreases n,
{
    if n < 10 {
        seq![(48 + if n >= 0 { n } else { 0 }) as u8]
    } else {
        dec_s(n / 10) + seq![(48 + n % 10) as u8]
    }
}

/// Append the decimal digits of `n`.
pub fn push_dec(out: &mut Vec<u8>, n: u32)
    ensures
        final(out)@ == old(out)@ + dec_s(n as int),
    decreases n,
{
    if n < 10 {
        out.push(48 + n as u8);
        proof {
            assert(final(out)@ =~= old(out)@ + dec_s(n as int));
        }
    } else {
        proof {
            lemma_div_pos_is_pos(n as int, 10);
        }
        push_dec(out, n / 10);
        out.push(48 + (n % 10) as u8);
        proof {
            assert(final(out)@ =~= old(out)@ + dec_s(n as int));
        }
    }
}

/// Quantize a channel to one byte: clamp into the unit interval and round
/// 255 times the value to the nearest integer.
pub open spec fn q8_s(c: int) -> int {
    (clamp01_s(c) * 255 + 32768) / (FX_ONE as int)
}

/// Quantize a channel to sixteen bits the same way.
pub open spec fn q16_s(c: int) -> int {
    (clamp01_s(c) * 65535 + 32768) / (FX_ONE as int)
}

/// One-byte quantization of a channel.
pub fn q8(c: i64) -> (r: u8)
    ensures
        r as int == q8_s(c as int),
{
    let v = fx_clamp01(c);
    let q: i64 = (v * 255 + 32768) / FX_ONE;
    proof {
        lemma_div_pos_is_pos(v * 255 + 32768, FX_ONE as int);
        lemma_div_is_ordered(v * 255 + 32768, 16744448, FX_ONE as int);
    }
    q as u8
}

/// Two-byte quantization of a channel.
pub fn q16(c: i64) -> (r: u16)
    ensures
        r as int == q16_s(c as int),
{
    let v = fx_clamp01(c);
    let q: i64 = (v * 65535 + 32768) / FX_ONE;
    proof {
        lemma_div_pos_is_pos(v * 65535 + 32768, FX_ONE as int);
        lemma_div_is_ordered(v * 65535 + 32768, 65535int * 65536 + 32768, FX_ONE as int);
    }
    q as u16
}

/// The three bytes of one pixel under `maxval` 255.
pub open spec fn pixel8_s(v: Vec3) -> Seq<u8> {
    seq![q8_s(v@.0) as u8, q8_s(v@.1) as u8, q8_s(v@.2) as u8]
}

/// The six big-endian bytes of one pixel under `maxval` 65535.
pub open spec fn pixel16_s(v: Vec3) -> Seq<u8> {
    seq![
        (q16_s(v@.0) / 256) as u8,
        (q16_s(v@.0) % 256) as u8,
        (q16_s(v@.1) / 256) as u8,
        (q16_s(v@.1) % 256) as u8,
        (q16_s(v@.2) / 256) as u8,
        (q16_s(v@.2) % 256) as u8,
    ]
}

/// The concatenated pixel bytes of a buffer.
pub open spec fn body_s(buf: Seq<Vec3>, sixteen_bit: bool) -> Seq<u8>
    decreases buf.len(),
{
    if buf.len() == 0 {
        Seq::empty()
    } else {
        body_s(buf.drop_last(), sixteen_bit) + (if sixteen_bit {
            pixel16_s(buf.last())
        } else {
            pixel8_s(buf.last())
        })
    }
}

/// The header `P6\n{width} {height}\n{maxval}\n`.
pub open spec fn header_s(width: int, height: int, maxval: int) -> Seq<u8> {
    seq![80u8, 54u8, 10u8] + dec_s(width) + seq![32u8] + dec_s(height) + seq![10u8] + dec_s(
        maxval,
    ) + seq![10u8]
}

/// Encode a pixel buffer as a binary pixel map: the header, then each
/// pixel's quantized channel bytes in buffer order.
pub fn encode_ppm(buf: &Vec<Vec3>, width: u32, height: u32, sixteen_bit: bool) -> (out: Vec<u8>)
    ensures
        out@ == header_s(width as int, height as int, if sixteen_bit { 65535int } else { 255int })
            + body_s(buf@, sixteen_bit),
{
    let mut out: Vec<u8> = Vec::new();
    out.push(80);
    out.push(54);
    out.push(10);
    push_dec(&mut out, width);
    out.push(32);
    push_dec(&mut out, height);
    out.push(10);
    if sixteen_bit {
        push_dec(&mut out, 65535);
    } else {
        push_dec(&mut out, 255);
    }
    out.push(10);
    proof {
        assert(out@ =~= header_s(
            width as int,
            height as int,
            if sixteen_bit {
                65535int
            } else {
                255int
            },
        ));
    }
    let ghost header = out@;
    let mut i: usize = 0;
    while i < buf.len()
        invariant
            i <= buf@.len(),
            out@ == header + body_s(buf@.take(i as int), sixteen_bit),
        decreases buf@.len() - i,
    {
        let v = buf[i];
        if sixteen_bit {
            let a = q16(v.x);
            let b = q16(v.y);
            let c = q16(v.z);
            out.push((a / 256) as u8);
            out.push((a % 256) as u8);
            out.push((b / 256) as u8);
            out.push((b % 256) as u8);
            out.push((c / 256) as u8);
            out.push((c % 256) as u8);
        } else {
            out.push(q8(v.x));
            out.push(q8(v.y));
            out.push(q8(v.z));
        }
        proof {
            assert(buf@.take(i as int + 1).drop_last() =~= buf@.take(i as int));
            assert(buf@.take(i as int + 1).last() == buf@[i as int]);
            assert(out@ =~= header + body_s(buf@.take(i as int + 1), sixteen_bit));
        }
        i = i + 1;
    }
    proof {
        assert(buf@.take(buf@.len() as int) =~= buf@);
    }
    out
}

/// The pixel bytes of a buffer are three (or six) per pixel.
pub proof fn lemma_body_len(buf: Seq<Vec3>, sixteen_bit: bool)
    ensures
        body_s(buf, sixteen_bit).len() == buf.len() * (if sixteen_bit { 6int } else { 3int }),
    decreases buf.len(),
{
    if buf.len() > 0 {
        lemma_body_len(buf.drop_last(), sixteen_bit);
    }
}

/// Round trip for a black image: encoding a buffer of all-zero colors
/// yields the header followed by exactly three zero bytes per pixel (six
/// under the sixteen-bit format).
pub proof fn lemma_zero_buffer_bytes(buf: Seq<Vec3>, sixteen_bit: bool)
    requires
        forall|j: int| 0 <= j < buf.len() ==> (#[trigger] buf[j])@ == (0int, 0int, 0int),
    ensures
        body_s(buf, sixteen_bit) =~= Seq::new(
            (buf.len() * (if sixteen_bit { 6int } else { 3int })) as nat,
            |k: int| 0u8,
        ),
    decreases buf.len(),
{
    lemma_body_len(buf, sixteen_bit);
    if buf.len() > 0 {
        lemma_zero_buffer_bytes(buf.drop_last(), sixteen_bit);
        assert(q8_s(0) == 0);
        assert(q16_s(0) == 0);
    }
}

} // verus!
