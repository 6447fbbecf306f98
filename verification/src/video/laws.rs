//! What the two conversions promise together: the picture that comes back is
//! the picture that went in, up to the rounding of the colour arithmetic.
use vstd::arithmetic::div_mod::lemma_fundamental_div_mod_converse;
use vstd::prelude::*;

use crate::video::capture::{
    block_mean, i420_of_rgb, lemma_block_inside, luma_plane, luma_sample, rgb_channel, u_plane,
    u_sample, v_plane, v_sample,
};
use crate::display::view::frame_pixel;
use crate::display::window::VideoWindow;
use crate::video::color::{law_backward_channels, law_colour_survives, law_limited_range};
use crate::video::render::{
    lemma_pixel_inside, packed_pixel, rgba_byte, rgba_channel, rgba_of_i420, u_at, v_at, y_at,
};
use crate::video::{black_i420, chroma_len, i420_len, lemma_even_size, luma_len, VideoFrame};

verus! {

/// Whether one channel is the same in the four pixels of block `br`, `bc`.
pub open spec fn block_uniform(rgb: Seq<u8>, w: nat, br: int, bc: int, channel: int) -> bool {
    &&& rgb_channel(rgb, w, 2 * br, 2 * bc + 1, channel) == rgb_channel(
        rgb,
        w,
        2 * br,
        2 * bc,
        channel,
    )
    &&& rgb_channel(rgb, w, 2 * br + 1, 2 * bc, channel) == rgb_channel(
        rgb,
        w,
        2 * br,
        2 * bc,
        channel,
    )
    &&& rgb_channel(rgb, w, 2 * br + 1, 2 * bc + 1, channel) == rgb_channel(
        rgb,
        w,
        2 * br,
        2 * bc,
        channel,
    )
}

/// A picture with even dimensions takes `width * height * 3 / 2` bytes as I420,
/// whatever it shows.
pub proof fn law_i420_size(rgb: Seq<u8>, w: nat, h: nat)
    requires
        w % 2 == 0,
        h % 2 == 0,
    ensures
        i420_of_rgb(rgb, w, h).len() == w * h * 3 / 2,
        i420_of_rgb(rgb, w, h).len() == i420_len(w, h),
{
    lemma_even_size(w, h);
}

/// A black picture converts to exactly the planes of a black frame.
pub proof fn law_black_picture(rgb: Seq<u8>, w: nat, h: nat)
    requires
        rgb.len() >= 3 * (w * h),
        forall|i: int| 0 <= i < rgb.len() ==> rgb[i] == 0,
    ensures
        i420_of_rgb(rgb, w, h) == black_i420(w, h),
{
    let n = chroma_len(w, h);
    assert forall|k: int| 0 <= k < n implies u_plane(rgb, w, h)[k] == 128 && v_plane(
        rgb,
        w,
        h,
    )[k] == 128 by {
        lemma_block_of_sample(w, h, k);
    }
    assert(luma_plane(rgb, w, h) =~= Seq::new(luma_len(w, h), |i: int| 16u8));
    assert(i420_of_rgb(rgb, w, h) =~= black_i420(w, h));
}

/// The block behind chroma sample `k` lies inside the picture.
proof fn lemma_block_of_sample(w: nat, h: nat, k: int)
    requires
        0 <= k < chroma_len(w, h),
    ensures
        w / 2 > 0,
        0 <= k / (w / 2) as int,
        (k / (w / 2) as int) < h / 2,
        0 <= k % (w / 2) as int,
        (k % (w / 2) as int) < w / 2,
        ({
            let br = k / (w / 2) as int;
            let bc = k % (w / 2) as int;
            &&& 0 <= (2 * br) * w + 2 * bc
            &&& (2 * br + 1) * w + 2 * bc + 1 < w * h
            &&& (2 * br + 1) * w == (2 * br) * w + w
        }),
{
    let m = (w / 2) as int;
    let n = (h / 2) as int;
    assert(m > 0) by (nonlinear_arith)
        requires
            0 <= m,
            m * n > 0,
    ;
    let br = k / m;
    let bc = k % m;
    assert(0 <= bc < m && 0 <= br < n) by (nonlinear_arith)
        requires
            m > 0,
            0 <= k < m * n,
            br == k / m,
            bc == k % m,
    ;
    lemma_block_inside(w, h, br, bc);
}

/// Every pixel of the packed picture is fully opaque.
pub proof fn law_alpha_opaque(data: Seq<u8>, w: nat, h: nat, pixel: int)
    requires
        0 <= pixel < w * h,
    ensures
        rgba_of_i420(data, w, h)[4 * pixel + 3] == 255,
{
}

/// A black frame shows as opaque black in every pixel.
pub proof fn law_black_frame(w: nat, h: nat, row: int, col: int)
    requires
        0 <= row < h,
        0 <= col < w,
    ensures
        ({
            let rgba = rgba_of_i420(black_i420(w, h), w, h);
            let base = 4 * (row * w + col);
            &&& rgba[base] == 0
            &&& rgba[base + 1] == 0
            &&& rgba[base + 2] == 0
            &&& rgba[base + 3] == 255
        }),
{
    lemma_pixel_inside(w, h, row, col);
    lemma_rgba_of_pixel(black_i420(w, h), w, h, row, col);
}

/// A pixel whose two by two block has one colour comes back from I420 with red
/// and green changed by at most 2, blue by at most 3, and fully opaque. For a
/// picture of a single colour and even dimensions this is every pixel.
pub proof fn law_pixel_survives(rgb: Seq<u8>, w: nat, h: nat, row: int, col: int)
    requires
        rgb.len() >= 3 * (w * h),
        0 <= row < 2 * (h / 2),
        0 <= col < 2 * (w / 2),
        block_uniform(rgb, w, row / 2, col / 2, 0),
        block_uniform(rgb, w, row / 2, col / 2, 1),
        block_uniform(rgb, w, row / 2, col / 2, 2),
    ensures
        ({
            let rgba = rgba_of_i420(i420_of_rgb(rgb, w, h), w, h);
            let base = 4 * (row * w + col);
            &&& -2 <= rgba[base] - rgb_channel(rgb, w, row, col, 0) <= 2
            &&& -2 <= rgba[base + 1] - rgb_channel(rgb, w, row, col, 1) <= 2
            &&& -3 <= rgba[base + 2] - rgb_channel(rgb, w, row, col, 2) <= 3
            &&& rgba[base + 3] == 255
        }),
{
    let data = i420_of_rgb(rgb, w, h);
    let r = rgb_channel(rgb, w, row, col, 0);
    let g = rgb_channel(rgb, w, row, col, 1);
    let b = rgb_channel(rgb, w, row, col, 2);
    lemma_samples_of_pixel(rgb, w, h, row, col);
    lemma_uniform_mean(rgb, w, row, col, 0);
    lemma_uniform_mean(rgb, w, row, col, 1);
    lemma_uniform_mean(rgb, w, row, col, 2);
    lemma_rgba_of_pixel(data, w, h, row, col);
    law_colour_survives(r, g, b);
}

/// The mean over a block of one colour is that colour.
proof fn lemma_uniform_mean(rgb: Seq<u8>, w: nat, row: int, col: int, channel: int)
    requires
        0 <= row,
        0 <= col,
        block_uniform(rgb, w, row / 2, col / 2, channel),
    ensures
        block_mean(rgb, w, row / 2, col / 2, channel) == rgb_channel(rgb, w, row, col, channel),
{
    assert(row == 2 * (row / 2) || row == 2 * (row / 2) + 1);
    assert(col == 2 * (col / 2) || col == 2 * (col / 2) + 1);
}

/// The three samples that describe one pixel of a converted picture.
proof fn lemma_samples_of_pixel(rgb: Seq<u8>, w: nat, h: nat, row: int, col: int)
    requires
        rgb.len() >= 3 * (w * h),
        0 <= row < 2 * (h / 2),
        0 <= col < 2 * (w / 2),
    ensures
        ({
            let data = i420_of_rgb(rgb, w, h);
            &&& y_at(data, w, row, col) == luma_sample(rgb, row * w + col)
            &&& u_at(data, w, h, row, col) == u_sample(rgb, w, row / 2, col / 2)
            &&& v_at(data, w, h, row, col) == v_sample(rgb, w, row / 2, col / 2)
        }),
{
    let data = i420_of_rgb(rgb, w, h);
    let k = (row / 2) * (w / 2) + col / 2;
    lemma_pixel_inside(w, h, row, col);
    lemma_fundamental_div_mod_converse(k, (w / 2) as int, row / 2, col / 2);
    assert(data[row * w + col] == luma_plane(rgb, w, h)[row * w + col]);
    assert(data[luma_len(w, h) + k] == u_plane(rgb, w, h)[k]);
    assert(data[luma_len(w, h) + chroma_len(w, h) + k] == v_plane(rgb, w, h)[k]);
}

/// The four bytes of one pixel of the packed picture.
proof fn lemma_rgba_of_pixel(data: Seq<u8>, w: nat, h: nat, row: int, col: int)
    requires
        0 <= row < h,
        0 <= col < w,
    ensures
        ({
            let rgba = rgba_of_i420(data, w, h);
            let base = 4 * (row * w + col);
            &&& rgba[base] == rgba_channel(data, w, h, row, col, 0)
            &&& rgba[base + 1] == rgba_channel(data, w, h, row, col, 1)
            &&& rgba[base + 2] == rgba_channel(data, w, h, row, col, 2)
            &&& rgba[base + 3] == 255
        }),
{
    lemma_pixel_inside(w, h, row, col);
    lemma_fundamental_div_mod_converse(row * w + col, w as int, row, col);
    let base = 4 * (row * w + col);
    assert(rgba_byte(data, w, h, base) == rgba_channel(data, w, h, row, col, 0));
    assert(rgba_byte(data, w, h, base + 1) == rgba_channel(data, w, h, row, col, 1));
    assert(rgba_byte(data, w, h, base + 2) == rgba_channel(data, w, h, row, col, 2));
}

/// The layout of a frame: a luma sample for each pixel, then twice a chroma sample
/// for each whole block of two by two.
pub proof fn law_layout(frame: VideoFrame)
    ensures
        frame.well_formed() <==> frame.data@.len() == frame.width * frame.height + 2 * ((frame.width
            / 2) * (frame.height / 2)),
        frame.showable() <==> {
            &&& frame.data@.len() >= frame.width * frame.height + 2 * ((frame.width / 2) * (
            frame.height / 2))
            &&& 4 * (frame.width * frame.height) <= usize::MAX
        },
{
}

/// Byte by byte, a black frame is a plane of 16 and then 128 to its end.
pub proof fn law_black_bytes(w: nat, h: nat, i: int)
    ensures
        black_i420(w, h).len() == w * h + 2 * ((w / 2) * (h / 2)),
        0 <= i < w * h ==> black_i420(w, h)[i] == 16,
        w * h <= i < black_i420(w, h).len() ==> black_i420(w, h)[i] == 128,
{
}

/// The luma sample of a pixel comes from the red, green and blue of that pixel
/// alone, whatever its neighbours are, and stands at the place of the pixel.
pub proof fn law_luma_of_own_pixel(rgb: Seq<u8>, w: nat, h: nat, i: int)
    requires
        rgb.len() >= 3 * (w * h),
        0 <= i < w * h,
    ensures
        i420_of_rgb(rgb, w, h)[i] == (66 * rgb[3 * i] + 129 * rgb[3 * i + 1] + 25 * rgb[3 * i + 2]
            + 128) / 256 + 16,
{
    law_limited_range(rgb[3 * i] as int, rgb[3 * i + 1] as int, rgb[3 * i + 2] as int);
}

/// The chroma samples of a block come from the mean colour of its four pixels,
/// whether they are alike or not. The U samples follow the luma plane, the V
/// samples follow the U samples, both in reading order of the blocks.
pub proof fn law_chroma_of_own_block(rgb: Seq<u8>, w: nat, h: nat, br: int, bc: int)
    requires
        rgb.len() >= 3 * (w * h),
        0 <= br < h / 2,
        0 <= bc < w / 2,
    ensures
        ({
            let planes = i420_of_rgb(rgb, w, h);
            let top = 3 * ((2 * br) * w + 2 * bc);
            let bottom = 3 * ((2 * br + 1) * w + 2 * bc);
            let r = (rgb[top] + rgb[top + 3] + rgb[bottom] + rgb[bottom + 3]) / 4;
            let g = (rgb[top + 1] + rgb[top + 4] + rgb[bottom + 1] + rgb[bottom + 4]) / 4;
            let b = (rgb[top + 2] + rgb[top + 5] + rgb[bottom + 2] + rgb[bottom + 5]) / 4;
            let place = br * (w / 2) + bc;
            &&& planes.len() == w * h + 2 * ((w / 2) * (h / 2))
            &&& 0 <= place < (w / 2) * (h / 2)
            &&& planes[w * h + place] == (112 * b - 38 * r - 74 * g + 128) / 256 + 128
            &&& planes[w * h + (w / 2) * (h / 2) + place] == (112 * r - 94 * g - 18 * b + 128)
                / 256 + 128
        }),
{
    let top = 3 * ((2 * br) * w + 2 * bc);
    let bottom = 3 * ((2 * br + 1) * w + 2 * bc);
    let r = (rgb[top] + rgb[top + 3] + rgb[bottom] + rgb[bottom + 3]) / 4;
    let g = (rgb[top + 1] + rgb[top + 4] + rgb[bottom + 1] + rgb[bottom + 4]) / 4;
    let b = (rgb[top + 2] + rgb[top + 5] + rgb[bottom + 2] + rgb[bottom + 5]) / 4;
    let place = br * (w / 2) + bc;
    lemma_block_inside(w, h, br, bc);
    lemma_fundamental_div_mod_converse(place, (w / 2) as int, br, bc);
    assert(block_mean(rgb, w, br, bc, 0) == r);
    assert(block_mean(rgb, w, br, bc, 1) == g);
    assert(block_mean(rgb, w, br, bc, 2) == b);
    law_limited_range(r, g, b);
    let planes = i420_of_rgb(rgb, w, h);
    assert(planes[w * h + place] == u_plane(rgb, w, h)[place]);
    assert(planes[w * h + (w / 2) * (h / 2) + place] == v_plane(rgb, w, h)[place]);
}

/// A pixel on the screen comes from its own luma sample and the two chroma samples
/// of its block alone, whatever its neighbours are. U is read from the plane behind
/// the luma, V from the one behind U. An odd last row or column takes the chroma of
/// the one before it.
pub proof fn law_pixel_of_own_samples(data: Seq<u8>, w: nat, h: nat, row: int, col: int)
    requires
        w >= 2,
        h >= 2,
        data.len() >= w * h + 2 * ((w / 2) * (h / 2)),
        0 <= row < h,
        0 <= col < w,
    ensures
        ({
            let rgba = rgba_of_i420(data, w, h);
            let br = if row / 2 < h / 2 {
                row / 2
            } else {
                row / 2 - 1
            };
            let bc = if col / 2 < w / 2 {
                col / 2
            } else {
                col / 2 - 1
            };
            let y = data[row * w + col] as int;
            let u = data[w * h + br * (w / 2) + bc] as int;
            let v = data[w * h + (w / 2) * (h / 2) + br * (w / 2) + bc] as int;
            let limited = |x: int|
                if x < 0 {
                    0int
                } else if x > 255 {
                    255
                } else {
                    x
                };
            let base = 4 * (row * w + col);
            &&& rgba.len() == 4 * (w * h)
            &&& 0 <= base
            &&& base + 3 < rgba.len()
            &&& rgba[base] == limited((298 * (y - 16) + 409 * (v - 128) + 128) / 256)
            &&& rgba[base + 1] == limited(
                (298 * (y - 16) - 100 * (u - 128) - 208 * (v - 128) + 128) / 256,
            )
            &&& rgba[base + 2] == limited((298 * (y - 16) + 516 * (u - 128) + 128) / 256)
            &&& rgba[base + 3] == 255
        }),
{
    lemma_pixel_inside(w, h, row, col);
    lemma_rgba_of_pixel(data, w, h, row, col);
    law_backward_channels(
        y_at(data, w, row, col),
        u_at(data, w, h, row, col),
        v_at(data, w, h, row, col),
    );
}

/// A frame less than two pixels wide or high has no chroma: each pixel is the grey
/// of its own luma.
pub proof fn law_thin_frame_is_grey(data: Seq<u8>, w: nat, h: nat, row: int, col: int)
    requires
        w < 2 || h < 2,
        data.len() >= w * h,
        0 <= row < h,
        0 <= col < w,
    ensures
        ({
            let rgba = rgba_of_i420(data, w, h);
            let y = data[row * w + col] as int;
            let base = 4 * (row * w + col);
            let grey = (298 * (y - 16) + 128) / 256;
            &&& rgba.len() == 4 * (w * h)
            &&& rgba[base] == rgba[base + 1] == rgba[base + 2]
            &&& rgba[base] == if grey < 0 {
                0
            } else if grey > 255 {
                255
            } else {
                grey
            }
            &&& rgba[base + 3] == 255
        }),
{
    lemma_pixel_inside(w, h, row, col);
    lemma_rgba_of_pixel(data, w, h, row, col);
}

/// A window's pixel holds the red, green and blue of the packed picture, red in the
/// highest of its three low bytes, and nothing above them.
pub proof fn law_word_of_channels(r: u8, g: u8, b: u8)
    ensures
        packed_pixel(r, g, b) / 65536 == r,
        (packed_pixel(r, g, b) / 256) % 256 == g as int,
        packed_pixel(r, g, b) % 256 == b as int,
        0 <= packed_pixel(r, g, b) < 16777216,
{
}

/// A window that pictures a frame has its size and, for each pixel in reading order,
/// the channels of the frame's packed picture.
pub proof fn law_window_pictures(window: VideoWindow, frame: VideoFrame, p: int)
    requires
        window.pictures(frame),
        0 <= p < frame.width * frame.height,
    ensures
        ({
            let rgba = rgba_of_i420(frame.data@, frame.width as nat, frame.height as nat);
            &&& window.width == frame.width
            &&& window.height == frame.height
            &&& window.pixels@.len() == frame.width * frame.height
            &&& window.pixels@[p] == rgba[4 * p] * 65536 + rgba[4 * p + 1] * 256 + rgba[4 * p + 2]
        }),
{
    assert(window.pixels@[p] == window.pixels@[p]);
}

/// A pixel of a texture's image is that of the frame's packed picture, opaque.
pub proof fn law_image_pixel(frame: VideoFrame, p: int)
    ensures
        ({
            let rgba = rgba_of_i420(frame.data@, frame.width as nat, frame.height as nat);
            frame_pixel(frame, p) == (rgba[4 * p], rgba[4 * p + 1], rgba[4 * p + 2], 255u8)
        }),
{
}

} // verus!
