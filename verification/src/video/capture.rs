//! Capture from a camera: configuration, conversion of its pictures to I420
//! and the loops that move frames to the registered sinks.
use nokhwa::pixel_format::RgbFormat;
use nokhwa::utils::{FrameFormat, Resolution};
use nokhwa::NokhwaError;
use vstd::arithmetic::div_mod::lemma_fundamental_div_mod_converse;
use vstd::prelude::*;

use crate::video::color::{
    blue, chroma_blue, chroma_red, green, luma, red, rgb_to_chroma, rgb_to_luma,
};
use crate::video::{chroma_len, i420_len, lemma_even_size, luma_len, VideoFrame};

verus! {

/// Number of frames that a capture's encoded track holds for a slow reader.
pub const TRACK_CAPACITY: usize = 16;

/// Configuration for opening a camera device.
#[derive(Debug, Clone, Copy, PartialEq, Eq, Structural)]
pub struct CameraConfig {
    /// Platform camera index (0 = first camera).
    pub index: u32,
    pub width: u32,
    pub height: u32,
    pub fps: u32,
}

impl Default for CameraConfig {
    /// The first camera, at 640 by 480 pixels and 30 frames per second.
    fn default() -> (config: Self)
        ensures
            config == (CameraConfig { index: 0, width: 640, height: 480, fps: 30 }),
    {
        CameraConfig { index: 0, width: 640, height: 480, fps: 30 }
    }
}

/// One channel (0 red, 1 green, 2 blue) of the pixel at `row` and `col` of a
/// packed RGB picture that is `w` pixels wide.
pub open spec fn rgb_channel(rgb: Seq<u8>, w: nat, row: int, col: int, channel: int) -> int {
    rgb[(row * w + col) * 3 + channel] as int
}

/// Mean of one channel over the two by two pixels of block `br`, `bc`, rounded down.
pub open spec fn block_mean(rgb: Seq<u8>, w: nat, br: int, bc: int, channel: int) -> int {
    (rgb_channel(rgb, w, 2 * br, 2 * bc, channel)
        + rgb_channel(rgb, w, 2 * br, 2 * bc + 1, channel)
        + rgb_channel(rgb, w, 2 * br + 1, 2 * bc, channel)
        + rgb_channel(rgb, w, 2 * br + 1, 2 * bc + 1, channel)) / 4
}

/// The luma sample of pixel number `i` in reading order.
pub open spec fn luma_sample(rgb: Seq<u8>, i: int) -> u8 {
    luma(rgb[3 * i] as int, rgb[3 * i + 1] as int, rgb[3 * i + 2] as int) as u8
}

/// The U sample of block `br`, `bc`.
pub open spec fn u_sample(rgb: Seq<u8>, w: nat, br: int, bc: int) -> u8 {
    chroma_blue(
        block_mean(rgb, w, br, bc, 0),
        block_mean(rgb, w, br, bc, 1),
        block_mean(rgb, w, br, bc, 2),
    ) as u8
}

/// The V sample of block `br`, `bc`.
pub open spec fn v_sample(rgb: Seq<u8>, w: nat, br: int, bc: int) -> u8 {
    chroma_red(
        block_mean(rgb, w, br, bc, 0),
        block_mean(rgb, w, br, bc, 1),
        block_mean(rgb, w, br, bc, 2),
    ) as u8
}

/// The Y plane of a packed RGB picture.
pub open spec fn luma_plane(rgb: Seq<u8>, w: nat, h: nat) -> Seq<u8> {
    Seq::new(luma_len(w, h), |i: int| luma_sample(rgb, i))
}

/// The U plane of a packed RGB picture: one sample per block, in reading order.
pub open spec fn u_plane(rgb: Seq<u8>, w: nat, h: nat) -> Seq<u8> {
    Seq::new(chroma_len(w, h), |k: int| u_sample(rgb, w, k / (w / 2) as int, k % (w / 2) as int))
}

/// The V plane of a packed RGB picture: one sample per block, in reading order.
pub open spec fn v_plane(rgb: Seq<u8>, w: nat, h: nat) -> Seq<u8> {
    Seq::new(chroma_len(w, h), |k: int| v_sample(rgb, w, k / (w / 2) as int, k % (w / 2) as int))
}

/// The I420 planes of a packed RGB picture: Y, then U, then V.
pub open spec fn i420_of_rgb(rgb: Seq<u8>, w: nat, h: nat) -> Seq<u8> {
    luma_plane(rgb, w, h) + u_plane(rgb, w, h) + v_plane(rgb, w, h)
}

/// The four pixels of a block lie inside the picture.
pub proof fn lemma_block_inside(w: nat, h: nat, br: int, bc: int)
    requires
        0 <= br < h / 2,
        0 <= bc < w / 2,
    ensures
        0 <= (2 * br) * w + 2 * bc,
        (2 * br + 1) * w + 2 * bc + 1 < w * h,
        (2 * br + 1) * w == (2 * br) * w + w,
        0 <= br * (w / 2) + bc < chroma_len(w, h),
{
    assert((2 * br + 1) * w == (2 * br) * w + w) by (nonlinear_arith);
    assert(0 <= (2 * br) * w) by (nonlinear_arith)
        requires
            0 <= br,
            0 <= w,
    ;
    assert((2 * br + 2) * w <= h * w) by (nonlinear_arith)
        requires
            2 * br + 2 <= h,
            0 <= w,
    ;
    assert((2 * br + 2) * w == (2 * br) * w + w + w) by (nonlinear_arith);
    assert(h * w == w * h) by (nonlinear_arith);
    let m = (w / 2) as int;
    let n = (h / 2) as int;
    assert(br * m + m <= n * m) by (nonlinear_arith)
        requires
            br + 1 <= n,
            0 <= m,
    ;
    assert(0 <= br * m) by (nonlinear_arith)
        requires
            0 <= br,
            0 <= m,
    ;
    assert(n * m == m * n) by (nonlinear_arith);
}

/// The four chroma samples of a block fit the four luma samples beside it.
pub proof fn lemma_chroma_quarter(w: nat, h: nat)
    ensures
        4 * chroma_len(w, h) <= w * h,
{
    let m = (w / 2) as int;
    let n = (h / 2) as int;
    assert((2 * m) * (2 * n) <= w * h) by (nonlinear_arith)
        requires
            0 <= 2 * m <= w,
            0 <= 2 * n <= h,
    ;
    assert((2 * m) * (2 * n) == 4 * (m * n)) by (nonlinear_arith);
}

/// The chroma of one block: the mean of its four pixels, converted.
fn block_chroma(rgb: &[u8], w: usize, h: usize, br: usize, bc: usize) -> (uv: (u8, u8))
    requires
        rgb@.len() >= 3 * (w * h),
        br < h / 2,
        bc < w / 2,
    ensures
        uv.0 == u_sample(rgb@, w as nat, br as int, bc as int),
        uv.1 == v_sample(rgb@, w as nat, br as int, bc as int),
{
    proof {
        lemma_block_inside(w as nat, h as nat, br as int, bc as int);
        assert(rgb.len() == rgb@.len());
    }
    let top: usize = ((2 * br) * w + 2 * bc) * 3;
    let bottom: usize = top + w * 3;
    let r: u32 = (rgb[top] as u32 + rgb[top + 3] as u32 + rgb[bottom] as u32
        + rgb[bottom + 3] as u32) / 4;
    let g: u32 = (rgb[top + 1] as u32 + rgb[top + 4] as u32 + rgb[bottom + 1] as u32
        + rgb[bottom + 4] as u32) / 4;
    let b: u32 = (rgb[top + 2] as u32 + rgb[top + 5] as u32 + rgb[bottom + 2] as u32
        + rgb[bottom + 5] as u32) / 4;
    rgb_to_chroma(r as u8, g as u8, b as u8)
}

/// Convert packed RGB24 to planar I420 (YCbCr 4:2:0, limited range BT.601).
///
/// Input: `rgb` is `width * height * 3` bytes, RGB interleaved; what follows
/// them is ignored.
/// Output: the Y plane, then the U plane, then the V plane. For even
/// dimensions these are `width * height * 3 / 2` bytes.
pub fn rgb_to_i420(rgb: &[u8], width: u32, height: u32) -> (out: Vec<u8>)
    requires
        rgb@.len() >= width * height * 3,
    ensures
        out@ == i420_of_rgb(rgb@, width as nat, height as nat),
        out@.len() == i420_len(width as nat, height as nat),
        width % 2 == 0 && height % 2 == 0 ==> out@.len() == width * height * 3 / 2,
{
    let w: usize = width as usize;
    let h: usize = height as usize;
    let ghost wn = w as nat;
    let ghost hn = h as nat;
    proof {
        lemma_chroma_quarter(wn, hn);
        assert(rgb.len() == rgb@.len());
    }
    let y_size: usize = w * h;
    let uv_rows: usize = h / 2;
    let uv_cols: usize = w / 2;
    let mut out: Vec<u8> = Vec::new();

    // Y plane: one luma sample per pixel.
    for i in 0..y_size
        invariant
            y_size == wn * hn,
            usize::MAX >= rgb@.len() >= 3 * y_size,
            out@ == Seq::new(i as nat, |j: int| luma_sample(rgb@, j)),
    {
        let base: usize = i * 3;
        out.push(rgb_to_luma(rgb[base], rgb[base + 1], rgb[base + 2]));
    }
    assert(out@ == luma_plane(rgb@, wn, hn));

    // UV planes: average each 2x2 pixel block before converting to chroma.
    // Averaging reduces colour fringing on edges compared to top-left-only sampling.
    let mut v_out: Vec<u8> = Vec::new();
    assert(0 * uv_cols == 0) by (nonlinear_arith);
    for br in 0..uv_rows
        invariant
            wn == w,
            hn == h,
            uv_rows == h / 2,
            uv_cols == w / 2,
            rgb@.len() >= 3 * (w * h),
            out@ == luma_plane(rgb@, wn, hn) + Seq::new(
                (br * uv_cols) as nat,
                |k: int| u_sample(rgb@, wn, k / uv_cols as int, k % uv_cols as int),
            ),
            v_out@ == Seq::new(
                (br * uv_cols) as nat,
                |k: int| v_sample(rgb@, wn, k / uv_cols as int, k % uv_cols as int),
            ),
    {
        for bc in 0..uv_cols
            invariant
                wn == w,
                hn == h,
                br < uv_rows,
                uv_rows == h / 2,
                uv_cols == w / 2,
                rgb@.len() >= 3 * (w * h),
                out@ == luma_plane(rgb@, wn, hn) + Seq::new(
                    (br * uv_cols + bc) as nat,
                    |k: int| u_sample(rgb@, wn, k / uv_cols as int, k % uv_cols as int),
                ),
                v_out@ == Seq::new(
                    (br * uv_cols + bc) as nat,
                    |k: int| v_sample(rgb@, wn, k / uv_cols as int, k % uv_cols as int),
                ),
        {
            let (u, v) = block_chroma(rgb, w, h, br, bc);
            proof {
                assert(br * uv_cols >= 0) by (nonlinear_arith);
                lemma_fundamental_div_mod_converse(
                    br * uv_cols + bc,
                    uv_cols as int,
                    br as int,
                    bc as int,
                );
            }
            out.push(u);
            v_out.push(v);
        }
        assert((br + 1) * uv_cols == br * uv_cols + uv_cols) by (nonlinear_arith);
    }
    assert(uv_rows * uv_cols == uv_cols * uv_rows) by (nonlinear_arith);
    out.append(&mut v_out);
    proof {
        if width % 2 == 0 && height % 2 == 0 {
            lemma_even_size(wn, hn);
        }
    }
    out
}

/// The failure of a camera operation.
#[verifier::external_type_specification]
#[verifier::external_body]
pub struct ExNokhwaError(nokhwa::NokhwaError);

/// The uncompressed formats in which a camera can deliver its pictures.
#[derive(Debug, Clone, Copy, PartialEq, Eq, Structural)]
pub enum PixelFormat {
    /// Pairs of pixels as Y, U, Y, V.
    Yuyv,
    /// A Y plane, then a plane of U, V pairs, one for each two by two pixels.
    Nv12,
    /// One grey value per pixel.
    Gray,
    /// Red, green, blue.
    RawRgb,
    /// Blue, green, red.
    RawBgr,
}

/// One channel (0 red, 1 green, 2 blue) of a luma and its chroma.
pub open spec fn yuv_channel(y: u8, u: u8, v: u8, channel: int) -> u8 {
    if channel == 0 {
        red(y as int, u as int, v as int) as u8
    } else if channel == 1 {
        green(y as int, u as int, v as int) as u8
    } else {
        blue(y as int, u as int, v as int) as u8
    }
}

/// Byte number `i` of the packed RGB that Y, U, Y, V groups hold: group `p / 2`
/// describes the pixels `p` of a pair, which share its U and V.
pub open spec fn yuyv_byte(data: Seq<u8>, i: int) -> u8 {
    let p = i / 3;
    let group = 4 * (p / 2);
    yuv_channel(data[group + 2 * (p % 2)], data[group + 1], data[group + 3], i % 3)
}

/// Byte number `i` of the packed RGB of an NV12 picture.
pub open spec fn nv12_byte(data: Seq<u8>, w: nat, h: nat, i: int) -> u8 {
    let row = (i / 3) / w as int;
    let col = (i / 3) % w as int;
    let chroma = w * h + (row / 2) * w + 2 * (col / 2);
    yuv_channel(data[row * w + col], data[chroma], data[chroma + 1], i % 3)
}

/// The packed RGB bytes of a picture, if its data has the format's size.
pub open spec fn unpacked(format: PixelFormat, w: nat, h: nat, data: Seq<u8>) -> Option<Seq<u8>> {
    match format {
        PixelFormat::Yuyv => if data.len() % 4 == 0 {
            Some(Seq::new(6 * (data.len() / 4), |i: int| yuyv_byte(data, i)))
        } else {
            None
        },
        PixelFormat::Nv12 => if w % 2 == 0 && h % 2 == 0 && data.len() == w * h * 3 / 2 {
            Some(Seq::new(3 * (w * h), |i: int| nv12_byte(data, w, h, i)))
        } else {
            None
        },
        PixelFormat::Gray => Some(Seq::new(3 * data.len(), |i: int| data[i / 3])),
        PixelFormat::RawRgb => Some(data),
        PixelFormat::RawBgr => Some(
            Seq::new(
                data.len(),
                |i: int|
                    if i < 3 * (data.len() as int / 3) {
                        data[3 * (i / 3) + 2 - i % 3]
                    } else {
                        0
                    },
            ),
        ),
    }
}

/// The packed RGB bytes of a picture, if there are enough of them for its size.
pub open spec fn decoded_rgb(format: PixelFormat, w: nat, h: nat, data: Seq<u8>) -> Option<
    Seq<u8>,
> {
    match unpacked(format, w, h, data) {
        Some(rgb) => if rgb.len() >= w * h * 3 {
            Some(rgb)
        } else {
            None
        },
        None => None,
    }
}

/// Whether the bytes of an NV12 picture can be counted: `3 * width` and three times
/// the number of pixels fit 32 bits, and a picture without columns has data.
pub open spec fn nv12_counts(width: u32, height: u32, data: Seq<u8>) -> bool {
    &&& width > 0 || data.len() > 0
    &&& 3 * width <= u32::MAX
    &&& 3 * (width * height) <= u32::MAX
}

/// `Buffer::decode_image::<RgbFormat>` on a buffer made of the arguments: the
/// packed RGB bytes, or a failure if the data does not have the size that the
/// format asks for or gives too few bytes for the picture. An empty NV12 picture
/// without columns makes it panic, and so does one whose byte count, or three
/// times its width, overflows 32 bits.
#[verifier::external_body]
fn decode_buffer(format: PixelFormat, width: u32, height: u32, data: &[u8]) -> (decoded: Result<
    Vec<u8>,
    NokhwaError,
>)
    requires
        3 * data@.len() <= isize::MAX,
        format == PixelFormat::Nv12 ==> nv12_counts(width, height, data@),
    ensures
        match decoded {
            Ok(rgb) => decoded_rgb(format, width as nat, height as nat, data@) == Some(rgb@),
            Err(_) => decoded_rgb(format, width as nat, height as nat, data@) is None,
        },
{
    let source = match format {
        PixelFormat::Yuyv => FrameFormat::YUYV,
        PixelFormat::Nv12 => FrameFormat::NV12,
        PixelFormat::Gray => FrameFormat::GRAY,
        PixelFormat::RawRgb => FrameFormat::RAWRGB,
        PixelFormat::RawBgr => FrameFormat::RAWBGR,
    };
    let buffer = nokhwa::Buffer::new(Resolution::new(width, height), data, source);
    Ok(buffer.decode_image::<RgbFormat>()?.into_raw())
}

/// What happened to the camera loop.
#[derive(Debug)]
pub enum CameraEvent {
    /// The camera delivered no picture.
    Failed,
    /// The camera delivered a picture that could not be decoded.
    Undecodable,
    /// The camera delivered a picture: packed RGB bytes and their dimensions.
    Picture { rgb: Vec<u8>, width: u32, height: u32 },
    /// A frame was sent to the dispatch loop; the flag tells whether it was taken.
    Sent(bool),
}

/// What the camera loop does next.
#[derive(Debug)]
pub enum CameraStep {
    /// Wait for the next picture.
    Poll,
    /// Send this frame to the dispatch loop.
    Send(VideoFrame),
    /// End the loop.
    Stop,
}

impl CameraEvent {
    /// Whether a picture has the bytes that its dimensions ask for.
    pub open spec fn well_formed(self) -> bool {
        self matches CameraEvent::Picture { rgb, width, height } ==> rgb@.len() >= width * height
            * 3
    }

    /// Decode an uncompressed picture as the camera delivered it.
    pub fn decode(format: PixelFormat, width: u32, height: u32, data: &[u8]) -> (event: Self)
        requires
            3 * data@.len() <= isize::MAX,
            format == PixelFormat::Nv12 ==> nv12_counts(width, height, data@),
        ensures
            event.well_formed(),
            match decoded_rgb(format, width as nat, height as nat, data@) {
                None => event == CameraEvent::Undecodable,
                Some(rgb) => event matches CameraEvent::Picture { rgb: bytes, width: w, height: h }
                    && bytes@ == rgb && w == width && h == height,
            },
    {
        match decode_buffer(format, width, height, data) {
            Ok(rgb) => CameraEvent::Picture { rgb, width, height },
            Err(_) => CameraEvent::Undecodable,
        }
    }
}

/// What the camera loop does after `event`: a picture is converted and sent, an
/// undecodable one is skipped, and the loop ends when the camera fails or
/// nobody takes its frames any more.
pub fn camera_step(event: CameraEvent) -> (step: CameraStep)
    requires
        event.well_formed(),
    ensures
        match event {
            CameraEvent::Failed => step == CameraStep::Stop,
            CameraEvent::Undecodable => step == CameraStep::Poll,
            CameraEvent::Picture { rgb, width, height } => {
                &&& step matches CameraStep::Send(frame)
                &&& frame.width == width
                &&& frame.height == height
                &&& frame.data@ == i420_of_rgb(rgb@, width as nat, height as nat)
                &&& frame.well_formed()
            },
            CameraEvent::Sent(taken) => step == if taken {
                CameraStep::Poll
            } else {
                CameraStep::Stop
            },
        },
{
    match event {
        CameraEvent::Failed => CameraStep::Stop,
        CameraEvent::Undecodable => CameraStep::Poll,
        CameraEvent::Picture { rgb, width, height } => {
            let data: Vec<u8> = rgb_to_i420(rgb.as_slice(), width, height);
            CameraStep::Send(VideoFrame { width, height, data })
        },
        CameraEvent::Sent(taken) => if taken {
            CameraStep::Poll
        } else {
            CameraStep::Stop
        },
    }
}

} // verus!
