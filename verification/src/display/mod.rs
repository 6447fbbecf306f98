//! Displays for received video: a pixel window, a terminal and a widget.
use vstd::prelude::*;

use crate::video::VideoFrame;

pub mod ascii;
pub mod view;
pub mod window;

verus! {

/// How long a display waits for its first frame, in seconds.
pub const FIRST_FRAME_SECONDS: u64 = 30;

/// How long a display shows a frame before it looks for a newer one, in milliseconds.
pub const REFRESH_MILLIS: u64 = 33;

/// What waiting for the first frame gave.
#[derive(Debug)]
pub enum FirstFrame {
    /// The first frame arrived.
    Frame(VideoFrame),
    /// None arrived in time.
    Timeout,
    /// None will arrive: the sending side is gone.
    Disconnected,
}

/// What looking for a waiting frame gave.
#[derive(Debug)]
pub enum FramePoll {
    /// A frame was waiting.
    Frame(VideoFrame),
    /// No frame is waiting.
    Empty,
    /// No frame will arrive any more: the sending side is gone.
    Disconnected,
}

} // verus!
