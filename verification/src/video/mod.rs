//! Raw video frames and what produces, consumes and converts them.
use std::ops::ControlFlow;

use vstd::prelude::*;

use crate::error::VideoError;

pub mod capture;
pub mod color;
pub mod dispatch;
pub mod file_capture;
pub mod laws;
pub mod render;
pub mod vp8;

verus! {

/// A raw video frame in I420 (planar YUV 4:2:0) format.
///
/// Layout of `data`:
/// - Y plane: `width * height` bytes
/// - U plane: `(width/2) * (height/2)` bytes
/// - V plane: `(width/2) * (height/2)` bytes
#[derive(Debug, Clone)]
pub struct VideoFrame {
    pub width: u32,
    pub height: u32,
    pub data: Vec<u8>,
}

/// Number of bytes in the luma plane of a `w` by `h` frame.
pub open spec fn luma_len(w: nat, h: nat) -> nat {
    w * h
}

/// Number of bytes in each of the two chroma planes of a `w` by `h` frame.
pub open spec fn chroma_len(w: nat, h: nat) -> nat {
    (w / 2) * (h / 2)
}

/// Number of bytes in the three planes of a `w` by `h` frame.
pub open spec fn i420_len(w: nat, h: nat) -> nat {
    luma_len(w, h) + 2 * chroma_len(w, h)
}

/// With even dimensions, a chroma plane has a quarter of the samples of the luma
/// plane, and the three planes together `w * h * 3 / 2`.
pub proof fn lemma_even_size(w: nat, h: nat)
    requires
        w % 2 == 0,
        h % 2 == 0,
    ensures
        4 * chroma_len(w, h) == w * h,
        i420_len(w, h) == w * h * 3 / 2,
{
    let m = (w / 2) as int;
    let n = (h / 2) as int;
    assert((2 * m) * (2 * n) == 4 * (m * n)) by (nonlinear_arith);
}

/// The three planes of a black `w` by `h` frame.
pub open spec fn black_i420(w: nat, h: nat) -> Seq<u8> {
    Seq::new(luma_len(w, h), |i: int| 16u8) + Seq::new(2 * chroma_len(w, h), |i: int| 128u8)
}

impl VideoFrame {
    /// Whether `data` holds the three planes and nothing else.
    pub open spec fn well_formed(&self) -> bool {
        self.data@.len() == i420_len(self.width as nat, self.height as nat)
    }

    /// Create a black I420 frame (Y=16, U=V=128).
    pub fn new_black(width: u32, height: u32) -> (frame: Self)
        requires
            i420_len(width as nat, height as nat) <= usize::MAX,
        ensures
            frame.width == width,
            frame.height == height,
            frame.data@ == black_i420(width as nat, height as nat),
            frame.well_formed(),
    {
        let y_size: usize = width as usize * height as usize;
        let uv_size: usize = (width as usize / 2) * (height as usize / 2);
        let mut data: Vec<u8> = Vec::new();
        push_repeated(&mut data, 16, y_size);
        push_repeated(&mut data, 128, 2 * uv_size);
        VideoFrame { width, height, data }
    }
}

/// Appends `count` copies of `byte`.
fn push_repeated(out: &mut Vec<u8>, byte: u8, count: usize)
    ensures
        final(out)@ == old(out)@ + Seq::new(count as nat, |i: int| byte),
{
    for n in 0..count
        invariant
            out@ == old(out)@ + Seq::new(n as nat, |i: int| byte),
    {
        out.push(byte);
    }
}

/// Consumes video frames for encoding or rendering.
pub trait VideoSink: Send + 'static {
    /// Takes one frame. `Continue` asks for more, `Break` and an error ask for
    /// the sink to be dropped.
    fn push_frame(&mut self, frame: &VideoFrame) -> Result<ControlFlow<(), ()>, VideoError>;
}

/// Produces decoded video frames.
pub trait VideoSource: Send + 'static {
    /// Yields a frame if one is ready, nothing if none is, and `Break` once
    /// there will be no more.
    fn next_frame(&mut self) -> Result<ControlFlow<(), Option<VideoFrame>>, VideoError>;
}

} // verus!
