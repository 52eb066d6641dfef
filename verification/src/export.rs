//! Export of a screen buffer to the binary image format: an ASCII header
//! of three tokens — `"P6\n{width} {height}\n255\n"` — followed by exactly
//! `width·height` RGB triplets of raw bytes, row-major.  Each channel is
//! the fixed-point value times 255, rounded to the nearest integer and
//! clamped to `[0, 255]`; absent pixels take a caller-supplied default
//! color.

use vstd::prelude::*;
use crate::fx::{round_div, round_div_i128, Fx, SCALE};
use crate::render::{Color, PixelBuffer};

verus! {

/// Decimal digits of `n`, most significant first, as ASCII bytes.
pub open spec fn dec_digits(n: int) -> Seq<u8>
    decreases n,
{
    if n < 10 {
        seq![(48 + n) as u8]
    } else {
        dec_digits(n / 10).push((48 + n % 10) as u8)
    }
}

/// One color channel as a byte: the value times 255, rounded to the
/// nearest integer, clamped to `[0, 255]`.
pub open spec fn channel_byte(raw: int) -> u8 {
    let v = round_div(raw * 255, SCALE as int);
    if v < 0 {
        0u8
    } else if v > 255 {
        255u8
    } else {
        v as u8
    }
}

/// The three bytes of one pixel: its entry's color, or the default.
pub open spec fn pixel_bytes(e: Option<PixelBuffer>, def: Color) -> Seq<u8> {
    let c = match e {
        Option::Some(pb) => pb.color,
        Option::None => def,
    };
    seq![channel_byte(c.0.raw()), channel_byte(c.1.raw()), channel_byte(c.2.raw())]
}

/// The image body: every pixel's bytes, in buffer order.
pub open spec fn body_bytes(buf: Seq<Option<PixelBuffer>>, def: Color) -> Seq<u8>
    decreases buf.len(),
{
    if buf.len() == 0 {
        Seq::empty()
    } else {
        body_bytes(buf.drop_last(), def) + pixel_bytes(buf.last(), def)
    }
}

/// The fixed header: `"P6\n"`, the two dimensions in decimal separated by
/// a space, `"\n255\n"`.
pub open spec fn header_bytes(w: int, h: int) -> Seq<u8> {
    seq![80u8, 54u8, 10u8] + dec_digits(w) + seq![32u8] + dec_digits(h) + seq![
        10u8,
        50u8,
        53u8,
        53u8,
        10u8,
    ]
}

/// The whole image: header, then body.
pub open spec fn ppm_bytes(w: int, h: int, buf: Seq<Option<PixelBuffer>>, def: Color) -> Seq<u8> {
    header_bytes(w, h) + body_bytes(buf, def)
}

/// Appends the decimal digits of `n` to `out`.
fn push_decimal(out: &mut Vec<u8>, n: usize)
    ensures
        final(out)@ == old(out)@ + dec_digits(n as int),
    decreases n,
{
    if n < 10 {
        out.push(48 + n as u8);
        proof {
            assert(final(out)@ =~= old(out)@ + dec_digits(n as int));
        }
    } else {
        push_decimal(out, n / 10);
        out.push(48 + (n % 10) as u8);
        proof {
            assert(final(out)@ =~= old(out)@ + dec_digits(n as int));
        }
    }
}

/// One channel's exported byte.
fn channel_to_byte(c: Fx) -> (r: u8)
    ensures
        r == channel_byte(c.raw()),
{
    let n = c.0 as i128 * 255;
    let v = round_div_i128(n, SCALE as i128);
    if v < 0 {
        0
    } else if v > 255 {
        255
    } else {
        v as u8
    }
}

/// Encodes the screen buffer as a binary image: the fixed header, then one
/// rounded RGB byte triplet per pixel in row-major order, absent pixels
/// replaced by the default color.
#[verifier::loop_isolation(false)]
pub fn encode_ppm(
    width: usize,
    height: usize,
    buffer: &Vec<Option<PixelBuffer>>,
    default_color: &Color,
) -> (r: Vec<u8>)
    requires
        1 <= width,
        1 <= height,
        buffer@.len() == width * height,
    ensures
        r@ == ppm_bytes(width as int, height as int, buffer@, *default_color),
{
    let mut out: Vec<u8> = Vec::new();
    out.push(80u8);
    out.push(54u8);
    out.push(10u8);
    push_decimal(&mut out, width);
    out.push(32u8);
    push_decimal(&mut out, height);
    out.push(10u8);
    out.push(50u8);
    out.push(53u8);
    out.push(53u8);
    out.push(10u8);
    proof {
        assert(out@ =~= header_bytes(width as int, height as int));
    }
    let mut i: usize = 0;
    while i < buffer.len()
        invariant
            i <= buffer@.len(),
            out@ == header_bytes(width as int, height as int) + body_bytes(
                buffer@.take(i as int),
                *default_color,
            ),
        decreases buffer@.len() - i,
    {
        let color = match buffer[i] {
            Option::Some(pb) => pb.color,
            Option::None => *default_color,
        };
        out.push(channel_to_byte(color.0));
        out.push(channel_to_byte(color.1));
        out.push(channel_to_byte(color.2));
        proof {
            assert(buffer@.take(i + 1).drop_last() =~= buffer@.take(i as int));
            assert(buffer@.take(i + 1).last() == buffer@[i as int]);
            assert(out@ =~= header_bytes(width as int, height as int) + body_bytes(
                buffer@.take(i + 1),
                *default_color,
            ));
        }
        i = i + 1;
    }
    proof {
        assert(buffer@.take(buffer@.len() as int) =~= buffer@);
    }
    out
}

} // verus!
