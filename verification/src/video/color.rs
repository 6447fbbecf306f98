//! BT.601 limited-range colour arithmetic.
//!
//! The forward direction takes red, green and blue to luma and chroma, the
//! backward direction takes them back. Both work in 8-bit fixed point, so a
//! product is rounded by adding one half (128) and dividing by 256, where the
//! quotient is rounded towards minus infinity.
use vstd::prelude::*;

verus! {

/// `x` limited to what a byte can hold.
pub open spec fn clamp_byte(x: int) -> int {
    if x < 0 {
        0
    } else if x > 255 {
        255
    } else {
        x
    }
}

/// The luma (Y) of a colour.
pub open spec fn luma(r: int, g: int, b: int) -> int {
    clamp_byte((66 * r + 129 * g + 25 * b + 128) / 256 + 16)
}

/// The blue-difference chroma (U, also Cb) of a colour.
pub open spec fn chroma_blue(r: int, g: int, b: int) -> int {
    clamp_byte((112 * b - 38 * r - 74 * g + 128) / 256 + 128)
}

/// The red-difference chroma (V, also Cr) of a colour.
pub open spec fn chroma_red(r: int, g: int, b: int) -> int {
    clamp_byte((112 * r - 94 * g - 18 * b + 128) / 256 + 128)
}

/// The red of a luma and its chroma.
pub open spec fn red(y: int, u: int, v: int) -> int {
    clamp_byte((298 * (y - 16) + 409 * (v - 128) + 128) / 256)
}

/// The green of a luma and its chroma.
pub open spec fn green(y: int, u: int, v: int) -> int {
    clamp_byte((298 * (y - 16) - 100 * (u - 128) - 208 * (v - 128) + 128) / 256)
}

/// The blue of a luma and its chroma.
pub open spec fn blue(y: int, u: int, v: int) -> int {
    clamp_byte((298 * (y - 16) + 516 * (u - 128) + 128) / 256)
}

/// Whether `x` is a value of a byte.
pub open spec fn is_byte(x: int) -> bool {
    0 <= x <= 255
}

/// Divides by 256, rounding towards minus infinity.
fn shift_right_8(x: i32) -> (q: i32)
    ensures
        q == x as int / 256,
{
    let q: i32 = x >> 8;
    assert(q == x as int / 256) by {
        assert(x >> 8 == x / 256) by (bit_vector);
    }
    q
}

/// Limits `x` to a byte.
fn to_byte(x: i32) -> (b: u8)
    ensures
        b == clamp_byte(x as int),
{
    if x < 0 {
        0
    } else if x > 255 {
        255
    } else {
        x as u8
    }
}

/// The luma of a colour.
pub fn rgb_to_luma(r: u8, g: u8, b: u8) -> (y: u8)
    ensures
        y == luma(r as int, g as int, b as int),
{
    let sum: i32 = 66 * r as i32 + 129 * g as i32 + 25 * b as i32 + 128;
    to_byte(shift_right_8(sum) + 16)
}

/// The two chroma values of a colour, blue difference first.
pub fn rgb_to_chroma(r: u8, g: u8, b: u8) -> (uv: (u8, u8))
    ensures
        uv.0 == chroma_blue(r as int, g as int, b as int),
        uv.1 == chroma_red(r as int, g as int, b as int),
{
    let u_sum: i32 = 112 * b as i32 - 38 * r as i32 - 74 * g as i32 + 128;
    let v_sum: i32 = 112 * r as i32 - 94 * g as i32 - 18 * b as i32 + 128;
    (to_byte(shift_right_8(u_sum) + 128), to_byte(shift_right_8(v_sum) + 128))
}

/// The red, green and blue of a luma and its chroma.
pub fn yuv_to_rgb(y: u8, u: u8, v: u8) -> (rgb: (u8, u8, u8))
    ensures
        rgb.0 == red(y as int, u as int, v as int),
        rgb.1 == green(y as int, u as int, v as int),
        rgb.2 == blue(y as int, u as int, v as int),
{
    let c: i32 = y as i32 - 16;
    let d: i32 = u as i32 - 128;
    let e: i32 = v as i32 - 128;
    (
        to_byte(shift_right_8(298 * c + 409 * e + 128)),
        to_byte(shift_right_8(298 * c - 100 * d - 208 * e + 128)),
        to_byte(shift_right_8(298 * c + 516 * d + 128)),
    )
}

/// Every colour has a luma between 16 and 235 and chroma between 16 and 240:
/// the conversion stays inside the limited range, so its clamps never act.
pub proof fn law_limited_range(r: int, g: int, b: int)
    requires
        is_byte(r),
        is_byte(g),
        is_byte(b),
    ensures
        16 <= luma(r, g, b) <= 235,
        16 <= chroma_blue(r, g, b) <= 240,
        16 <= chroma_red(r, g, b) <= 240,
        luma(r, g, b) == (66 * r + 129 * g + 25 * b + 128) / 256 + 16,
        chroma_blue(r, g, b) == (112 * b - 38 * r - 74 * g + 128) / 256 + 128,
        chroma_red(r, g, b) == (112 * r - 94 * g - 18 * b + 128) / 256 + 128,
{
}

/// Taking a colour to luma and chroma and back changes red and green by at
/// most 2 and blue by at most 3.
pub proof fn law_colour_survives(r: int, g: int, b: int)
    requires
        is_byte(r),
        is_byte(g),
        is_byte(b),
    ensures
        ({
            let y = luma(r, g, b);
            let u = chroma_blue(r, g, b);
            let v = chroma_red(r, g, b);
            &&& -2 <= red(y, u, v) - r <= 2
            &&& -2 <= green(y, u, v) - g <= 2
            &&& -3 <= blue(y, u, v) - b <= 3
        }),
{
    law_limited_range(r, g, b);
}

/// A grey has neutral chroma, and taking it to luma and back changes it by at
/// most 1 and leaves it grey.
pub proof fn law_grey_survives(k: int)
    requires
        is_byte(k),
    ensures
        chroma_blue(k, k, k) == 128,
        chroma_red(k, k, k) == 128,
        red(luma(k, k, k), 128, 128) == green(luma(k, k, k), 128, 128),
        red(luma(k, k, k), 128, 128) == blue(luma(k, k, k), 128, 128),
        -1 <= red(luma(k, k, k), 128, 128) - k <= 1,
{
    law_limited_range(k, k, k);
}

/// The backward direction, channel by channel: a scaled luma plus its share of the
/// chroma, rounded and limited to a byte. Red does not depend on the blue
/// difference, nor blue on the red difference.
pub proof fn law_backward_channels(y: int, u: int, v: int)
    ensures
        ({
            let limited = |x: int|
                if x < 0 {
                    0int
                } else if x > 255 {
                    255
                } else {
                    x
                };
            &&& red(y, u, v) == limited((298 * (y - 16) + 409 * (v - 128) + 128) / 256)
            &&& green(y, u, v) == limited(
                (298 * (y - 16) - 100 * (u - 128) - 208 * (v - 128) + 128) / 256,
            )
            &&& blue(y, u, v) == limited((298 * (y - 16) + 516 * (u - 128) + 128) / 256)
        }),
{
}

} // verus!
