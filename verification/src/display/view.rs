//! The video widget: what it uploads as a texture and what it says instead.
use std::ops::ControlFlow;

use egui::ColorImage;
use vstd::prelude::*;

use crate::error::VideoError;
use crate::rtc::{found_closed, MediaTrack};
use crate::video::render::{i420_to_rgba, rgba_of_i420, MediaTrackVp8Decoder, NextStep};
use crate::video::VideoFrame;

verus! {

/// An image in memory, ready to become a texture.
#[verifier::external_type_specification]
#[verifier::external_body]
pub struct ExColorImage(egui::ColorImage);

/// The pixels of an image, row by row, each as red, green, blue and alpha.
pub uninterp spec fn image_pixels(image: ColorImage) -> Seq<(u8, u8, u8, u8)>;

/// The width and the height of an image.
pub uninterp spec fn image_size(image: ColorImage) -> (int, int);

/// `ColorImage::from_rgba_unmultiplied` on opaque pixels: an image of the given
/// size with exactly those pixels. It panics if there is not one pixel for each
/// place. Pixels that are not opaque would be multiplied with their alpha.
#[verifier::external_body]
fn image_of_rgba(width: usize, height: usize, rgba: &[u8]) -> (image: ColorImage)
    requires
        rgba@.len() == 4 * (width * height),
        forall|p: int| 0 <= p < width * height ==> #[trigger] rgba@[4 * p + 3] == 255,
    ensures
        image_size(image) == (width as int, height as int),
        image_pixels(image) == Seq::new(
            (width * height) as nat,
            |p: int| (rgba@[4 * p], rgba@[4 * p + 1], rgba@[4 * p + 2], 255u8),
        ),
{
    ColorImage::from_rgba_unmultiplied([width, height], rgba)
}

/// Pixel number `p` of the packed picture of a frame.
pub open spec fn frame_pixel(frame: VideoFrame, p: int) -> (u8, u8, u8, u8) {
    let rgba = rgba_of_i420(frame.data@, frame.width as nat, frame.height as nat);
    (rgba[4 * p], rgba[4 * p + 1], rgba[4 * p + 2], 255u8)
}

/// The image of a frame.
pub fn frame_image(frame: &VideoFrame) -> (image: ColorImage)
    requires
        frame.showable(),
    ensures
        image_size(image) == (frame.width as int, frame.height as int),
        image_pixels(image) == Seq::new(
            (frame.width * frame.height) as nat,
            |p: int| frame_pixel(*frame, p),
        ),
{
    let rgba: Vec<u8> = i420_to_rgba(frame);
    let image = image_of_rgba(frame.width as usize, frame.height as usize, rgba.as_slice());
    assert(image_pixels(image) =~= Seq::new(
        (frame.width * frame.height) as nat,
        |p: int| frame_pixel(*frame, p),
    ));
    image
}

/// What the widget draws.
#[derive(Debug, Clone, Copy, PartialEq, Eq, Structural)]
pub enum Shown {
    /// The texture.
    Texture,
    /// That the stream ended.
    Ended,
    /// That no frame has arrived yet.
    Waiting,
}

/// What a source answers when it is asked for a frame.
pub type Answer = Result<ControlFlow<(), Option<VideoFrame>>, VideoError>;

/// A widget that decodes a VP8 [`MediaTrack`] and displays each frame
/// as an updating texture.
pub struct VideoView {
    decoder: MediaTrackVp8Decoder,
    latest: Option<VideoFrame>,
    closed: bool,
}

impl VideoView {
    /// The decoder of the track.
    pub closed spec fn spec_decoder(&self) -> MediaTrackVp8Decoder {
        self.decoder
    }

    /// The newest frame that was not uploaded yet.
    pub closed spec fn spec_latest(&self) -> Option<VideoFrame> {
        self.latest
    }

    /// Whether the view takes the track for closed.
    pub closed spec fn spec_closed(&self) -> bool {
        self.closed
    }

    /// Whether the view takes the track for what the last look at it found.
    pub open spec fn well_formed(&self) -> bool {
        self.spec_closed() == found_closed(self.spec_decoder().spec_track().looks())
    }

    /// A widget for `track`, which must carry VP8. The track is taken for open
    /// until a look at it finds it closed.
    pub fn new(track: MediaTrack) -> (created: Result<Self, VideoError>)
        ensures
            match created {
                Ok(view) => {
                    &&& view.spec_decoder().well_formed()
                    &&& view.spec_decoder().spec_track() == track
                    &&& view.spec_latest() is None
                    &&& !view.spec_closed()
                    &&& !found_closed(track.looks()) ==> view.well_formed()
                },
                Err(error) => track.spec_codec() != crate::codec::Codec::Vp8 && error
                    == VideoError::NotVp8(track.spec_codec()),
            },
    {
        match MediaTrackVp8Decoder::new(track) {
            Ok(decoder) => Ok(VideoView { decoder, latest: None, closed: false }),
            Err(error) => Err(error),
        }
    }

    /// Returns `true` as long as the track is still open.
    pub fn is_open(&self) -> (open: bool)
        ensures
            open == !self.spec_closed(),
            self.well_formed() ==> open == !found_closed(
                self.spec_decoder().spec_track().looks(),
            ),
    {
        !self.closed
    }

    /// Look at the track for a waiting frame, unless it is closed.
    ///
    /// Whether a frame is waiting depends on the sending side.
    pub fn next_step(&mut self) -> (step: Option<NextStep>)
        ensures
            step is None <==> old(self).spec_closed(),
            step is None ==> *final(self) == *old(self),
            step matches Some(taken) ==> {
                &&& MediaTrackVp8Decoder::stepped(
                    old(self).spec_decoder().spec_track(),
                    final(self).spec_decoder().spec_track(),
                    taken,
                )
                &&& final(self).well_formed()
            },
            final(self).spec_decoder().spec_track().spec_codec()
                == old(self).spec_decoder().spec_track().spec_codec(),
            old(self).spec_decoder().well_formed() ==> final(self).spec_decoder().well_formed(),
            final(self).spec_latest() == old(self).spec_latest(),
    {
        if self.closed {
            return None;
        }
        let step = self.decoder.next_step();
        if let NextStep::Answer(ControlFlow::Break(_)) = &step {
            self.closed = true;
        }
        Some(step)
    }

    /// Take the source's answer; returns whether to ask again. Only the newest of
    /// the waiting frames is kept. A frame that cannot be decoded ends this round
    /// and nothing else.
    pub fn on_answer(&mut self, answer: Answer) -> (again: bool)
        ensures
            final(self).spec_decoder() == old(self).spec_decoder(),
            final(self).spec_closed() == old(self).spec_closed(),
            match answer {
                Ok(ControlFlow::Continue(Some(frame))) => again && final(self).spec_latest()
                    == Some(frame),
                _ => !again && final(self).spec_latest() == old(self).spec_latest(),
            },
    {
        match answer {
            Ok(ControlFlow::Continue(Some(frame))) => {
                self.latest = Some(frame);
                true
            },
            Ok(ControlFlow::Continue(None)) => false,
            Ok(ControlFlow::Break(_)) => false,
            Err(_) => false,
        }
    }

    /// The newest frame, to be uploaded as the texture's new image.
    pub fn take_latest(&mut self) -> (frame: Option<VideoFrame>)
        ensures
            frame == old(self).spec_latest(),
            final(self).spec_latest() is None,
            final(self).spec_closed() == old(self).spec_closed(),
            final(self).spec_decoder() == old(self).spec_decoder(),
    {
        self.latest.take()
    }

    /// What to draw, given whether there is a texture, and whether to draw again
    /// soon: the last picture stays after the track was closed.
    pub fn shown(&self, has_texture: bool) -> (what: (Shown, bool))
        ensures
            what.0 == if has_texture {
                Shown::Texture
            } else if self.spec_closed() {
                Shown::Ended
            } else {
                Shown::Waiting
            },
            what.1 == !self.spec_closed(),
    {
        let what = if has_texture {
            Shown::Texture
        } else if self.closed {
            Shown::Ended
        } else {
            Shown::Waiting
        };
        (what, !self.closed)
    }
}

} // verus!
