//! The pixel window: what it shows and when it closes.
use vstd::prelude::*;

use crate::display::{FirstFrame, FramePoll};
use crate::video::render::{i420_to_minifb, packed_pixel, rgba_of_i420};
use crate::video::VideoFrame;

verus! {

/// Whether `pixels` are the pixels of `frame`, in reading order.
pub open spec fn shows(pixels: Seq<u32>, frame: VideoFrame) -> bool {
    let rgba = rgba_of_i420(frame.data@, frame.width as nat, frame.height as nat);
    &&& pixels.len() == frame.width * frame.height
    &&& forall|p: int|
        #![trigger pixels[p]]
        0 <= p < pixels.len() ==> pixels[p] == packed_pixel(
            rgba[4 * p],
            rgba[4 * p + 1],
            rgba[4 * p + 2],
        )
}

/// What the window loop does next.
#[derive(Debug, Clone, Copy, PartialEq, Eq, Structural)]
pub enum WindowStep {
    /// Ask whether the window is still open.
    Check,
    /// Look for a waiting frame.
    Poll,
    /// Draw the pixels into the window.
    Draw,
    /// Close the window.
    Close,
}

/// The state of the window loop: the picture in the window, the newest frame
/// that is not drawn yet, and whether the sending side is gone.
pub struct VideoWindow {
    pub width: usize,
    pub height: usize,
    pub pixels: Vec<u32>,
    pub latest: Option<VideoFrame>,
    pub disconnected: bool,
}

impl VideoWindow {
    /// Whether the window's buffer has a pixel for each place, and the newest
    /// frame can be drawn.
    pub open spec fn well_formed(&self) -> bool {
        &&& self.pixels@.len() == self.width * self.height
        &&& self.latest matches Some(frame) ==> frame.showable()
    }

    /// Whether the window shows `frame`.
    pub open spec fn pictures(&self, frame: VideoFrame) -> bool {
        &&& self.width == frame.width
        &&& self.height == frame.height
        &&& shows(self.pixels@, frame)
    }

    /// Whether the picture is the same as in `other`.
    pub open spec fn same_picture(&self, other: Self) -> bool {
        &&& self.width == other.width
        &&& self.height == other.height
        &&& self.pixels@ == other.pixels@
    }

    /// Prepare the window once the first frame arrived, so that its size is
    /// known; without a first frame there is no window. The loop starts by asking
    /// whether the window is open.
    pub fn open(first: FirstFrame) -> (window: Option<(Self, WindowStep)>)
        requires
            first matches FirstFrame::Frame(frame) ==> frame.showable(),
        ensures
            match first {
                FirstFrame::Frame(frame) => {
                    &&& window matches Some((opened, step))
                    &&& step == WindowStep::Check
                    &&& opened.well_formed()
                    &&& opened.pictures(frame)
                    &&& opened.latest is None
                    &&& !opened.disconnected
                },
                FirstFrame::Timeout => window is None,
                FirstFrame::Disconnected => window is None,
            },
    {
        match first {
            FirstFrame::Frame(frame) => {
                let pixels: Vec<u32> = i420_to_minifb(&frame);
                let window = VideoWindow {
                    width: frame.width as usize,
                    height: frame.height as usize,
                    pixels,
                    latest: None,
                    disconnected: false,
                };
                Some((window, WindowStep::Check))
            },
            FirstFrame::Timeout => None,
            FirstFrame::Disconnected => None,
        }
    }

    /// Go on while the window is open and frames can still arrive.
    pub fn on_check(&mut self, is_open: bool) -> (step: WindowStep)
        requires
            old(self).well_formed(),
        ensures
            final(self).well_formed(),
            final(self).same_picture(*old(self)),
            final(self).disconnected == old(self).disconnected,
            final(self).latest is None,
            step == if is_open && !old(self).disconnected {
                WindowStep::Poll
            } else {
                WindowStep::Close
            },
    {
        self.latest = None;
        if is_open && !self.disconnected {
            WindowStep::Poll
        } else {
            WindowStep::Close
        }
    }

    /// Collect the waiting frames; only the newest is drawn, once no more are waiting.
    pub fn on_poll(&mut self, polled: FramePoll) -> (step: WindowStep)
        requires
            old(self).well_formed(),
            polled matches FramePoll::Frame(frame) ==> frame.showable(),
        ensures
            final(self).well_formed(),
            match polled {
                FramePoll::Frame(frame) => {
                    &&& step == WindowStep::Poll
                    &&& final(self).latest == Some(frame)
                    &&& final(self).same_picture(*old(self))
                    &&& final(self).disconnected == old(self).disconnected
                },
                _ => {
                    &&& step == WindowStep::Draw
                    &&& final(self).latest is None
                    &&& match old(self).latest {
                        Some(frame) => final(self).pictures(frame),
                        None => final(self).same_picture(*old(self)),
                    }
                    &&& final(self).disconnected == (old(self).disconnected
                        || polled is Disconnected)
                },
            },
    {
        match polled {
            FramePoll::Frame(frame) => {
                self.latest = Some(frame);
                WindowStep::Poll
            },
            FramePoll::Empty => {
                self.show_latest();
                WindowStep::Draw
            },
            FramePoll::Disconnected => {
                self.disconnected = true;
                self.show_latest();
                WindowStep::Draw
            },
        }
    }

    /// Puts the newest frame into the window's buffer.
    fn show_latest(&mut self)
        requires
            old(self).well_formed(),
        ensures
            final(self).well_formed(),
            final(self).latest is None,
            final(self).disconnected == old(self).disconnected,
            match old(self).latest {
                Some(frame) => final(self).pictures(frame),
                None => final(self).same_picture(*old(self)),
            },
    {
        match self.latest.take() {
            Some(frame) => {
                self.width = frame.width as usize;
                self.height = frame.height as usize;
                self.pixels = i420_to_minifb(&frame);
            },
            None => {},
        }
    }

    /// Go on after the pixels were drawn, or close the window if they could not be.
    pub fn on_drawn(drawn: bool) -> (step: WindowStep)
        ensures
            step == if drawn {
                WindowStep::Check
            } else {
                WindowStep::Close
            },
    {
        if drawn {
            WindowStep::Check
        } else {
            WindowStep::Close
        }
    }
}

/// The same picture has the same size and the same pixel at every place.
pub proof fn law_same_picture(a: VideoWindow, b: VideoWindow)
    ensures
        a.same_picture(b) <==> {
            &&& a.width == b.width
            &&& a.height == b.height
            &&& a.pixels@.len() == b.pixels@.len()
            &&& forall|p: int|
                #![trigger a.pixels@[p]]
                0 <= p < a.pixels@.len() ==> a.pixels@[p] == b.pixels@[p]
        },
{
    if a.pixels@.len() == b.pixels@.len() && forall|p: int|
        #![trigger a.pixels@[p]]
        0 <= p < a.pixels@.len() ==> a.pixels@[p] == b.pixels@[p] {
        assert(a.pixels@ =~= b.pixels@);
    }
}

} // verus!
