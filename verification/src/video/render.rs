//! Rendering: decoding of a received track and conversion of I420 frames to
//! packed pixels.
use std::ops::ControlFlow;

use vstd::arithmetic::div_mod::lemma_fundamental_div_mod_converse;
use vstd::prelude::*;

use crate::codec::Codec;
use crate::error::VideoError;
use crate::rtc::{found_closed, look_of, FrameView, Look, MediaFrame, MediaTrack, RecvError};
use crate::video::color::{blue, green, red, yuv_to_rgb};
use crate::video::vp8::Vp8Encoder;
use crate::video::{chroma_len, i420_len, luma_len, VideoFrame};

verus! {

/// The luma of the pixel at `row` and `col` of a `w` by `h` frame.
pub open spec fn y_at(data: Seq<u8>, w: nat, row: int, col: int) -> int {
    data[row * w + col] as int
}

/// The chroma row or column, out of `count`, that belongs to luma row or column
/// `i`: each covers two, and the last one also covers an odd one after them.
pub open spec fn chroma_index(i: int, count: int) -> int {
    if i / 2 < count {
        i / 2
    } else {
        count - 1
    }
}

/// Where the chroma sample of the pixel at `row` and `col` stands in its plane.
pub open spec fn chroma_place(w: nat, h: nat, row: int, col: int) -> int {
    chroma_index(row, (h / 2) as int) * (w / 2) + chroma_index(col, (w / 2) as int)
}

/// The U value that the pixel at `row` and `col` shares with its block. A frame
/// that is less than two pixels wide or high has no chroma and shows as grey.
pub open spec fn u_at(data: Seq<u8>, w: nat, h: nat, row: int, col: int) -> int {
    if w < 2 || h < 2 {
        128
    } else {
        data[luma_len(w, h) + chroma_place(w, h, row, col)] as int
    }
}

/// The V value that the pixel at `row` and `col` shares with its block.
pub open spec fn v_at(data: Seq<u8>, w: nat, h: nat, row: int, col: int) -> int {
    if w < 2 || h < 2 {
        128
    } else {
        data[luma_len(w, h) + chroma_len(w, h) + chroma_place(w, h, row, col)] as int
    }
}

/// One channel (0 red, 1 green, 2 blue, 3 alpha) of the pixel at `row` and `col`.
pub open spec fn rgba_channel(
    data: Seq<u8>,
    w: nat,
    h: nat,
    row: int,
    col: int,
    channel: int,
) -> u8 {
    let y = y_at(data, w, row, col);
    let u = u_at(data, w, h, row, col);
    let v = v_at(data, w, h, row, col);
    if channel == 0 {
        red(y, u, v) as u8
    } else if channel == 1 {
        green(y, u, v) as u8
    } else if channel == 2 {
        blue(y, u, v) as u8
    } else {
        255
    }
}

/// Byte number `i` of the packed picture: pixels in reading order, four bytes each.
pub open spec fn rgba_byte(data: Seq<u8>, w: nat, h: nat, i: int) -> u8 {
    rgba_channel(data, w, h, (i / 4) / w as int, (i / 4) % w as int, i % 4)
}

/// The packed RGBA picture of a frame's planes.
pub open spec fn rgba_of_i420(data: Seq<u8>, w: nat, h: nat) -> Seq<u8> {
    Seq::new(4 * (w * h), |i: int| rgba_byte(data, w, h, i))
}

impl VideoFrame {
    /// Whether the frame can be shown: its planes are there, and the packed
    /// picture can be addressed.
    pub open spec fn showable(&self) -> bool {
        &&& self.data@.len() >= i420_len(self.width as nat, self.height as nat)
        &&& 4 * (self.width * self.height) <= usize::MAX
    }

    /// Tells whether the frame can be converted for display.
    pub fn is_showable(&self) -> (ok: bool)
        ensures
            ok == self.showable(),
    {
        let w: u128 = self.width as u128;
        let h: u128 = self.height as u128;
        let ghost m = (self.width / 2) as int;
        let ghost n = (self.height / 2) as int;
        proof {
            let ww = self.width as int;
            let hh = self.height as int;
            assert(0 <= ww * hh <= 0xffff_ffff * 0xffff_ffff) by (nonlinear_arith)
                requires
                    0 <= ww <= 0xffff_ffff,
                    0 <= hh <= 0xffff_ffff,
            ;
            assert(0 <= m * n <= 0xffff_ffff * 0xffff_ffff) by (nonlinear_arith)
                requires
                    0 <= m <= 0xffff_ffff,
                    0 <= n <= 0xffff_ffff,
            ;
        }
        let needed: u128 = w * h + 2 * ((w / 2) * (h / 2));
        self.data.len() as u128 >= needed && 4 * (w * h) <= usize::MAX as u128
    }
}

/// A pixel and its chroma samples lie inside their planes.
pub proof fn lemma_pixel_inside(w: nat, h: nat, row: int, col: int)
    requires
        0 <= row < h,
        0 <= col < w,
    ensures
        0 <= row * w + col < w * h,
        w >= 2 && h >= 2 ==> 0 <= chroma_place(w, h, row, col) < chroma_len(w, h),
        w >= 2 && h >= 2 ==> 0 <= chroma_index(row, (h / 2) as int) * (w / 2),
        (row + 1) * w == row * w + w,
{
    assert((row + 1) * w == row * w + w) by (nonlinear_arith);
    assert(0 <= row * w) by (nonlinear_arith)
        requires
            0 <= row,
            0 <= w,
    ;
    assert((row + 1) * w <= w * h) by (nonlinear_arith)
        requires
            row + 1 <= h,
            0 <= w,
    ;
    if w >= 2 && h >= 2 {
        let m = (w / 2) as int;
        let n = (h / 2) as int;
        let br = chroma_index(row, n);
        assert(br * m + m <= m * n) by (nonlinear_arith)
            requires
                br + 1 <= n,
                0 <= m,
        ;
        assert(0 <= br * m) by (nonlinear_arith)
            requires
                0 <= br,
                0 <= m,
        ;
    }
}

/// Computes [`chroma_index`].
fn chroma_of(i: usize, count: usize) -> (index: usize)
    requires
        count > 0,
    ensures
        index == chroma_index(i as int, count as int),
{
    if i / 2 < count {
        i / 2
    } else {
        count - 1
    }
}

/// Convert a planar I420 [`VideoFrame`] to packed RGBA bytes.
///
/// Output length is `frame.width * frame.height * 4`. An odd last row or column
/// takes the chroma of the one before it.
/// Uses BT.601 limited-range coefficients, the inverse of
/// [`rgb_to_i420`](crate::video::capture::rgb_to_i420).
pub fn i420_to_rgba(frame: &VideoFrame) -> (rgba: Vec<u8>)
    requires
        frame.showable(),
    ensures
        rgba@ == rgba_of_i420(frame.data@, frame.width as nat, frame.height as nat),
        rgba@.len() == 4 * (frame.width * frame.height),
{
    let w: usize = frame.width as usize;
    let h: usize = frame.height as usize;
    let ghost wn = w as nat;
    let ghost hn = h as nat;
    let ghost data = frame.data@;
    assert(frame.data.len() == frame.data@.len());
    let y_size: usize = w * h;
    let uv_size: usize = (w / 2) * (h / 2);

    let mut rgba: Vec<u8> = Vec::new();
    assert(0 * w == 0) by (nonlinear_arith);
    for row in 0..h
        invariant
            wn == w,
            hn == h,
            data == frame.data@,
            y_size == luma_len(wn, hn),
            uv_size == chroma_len(wn, hn),
            usize::MAX >= data.len() >= y_size + 2 * uv_size,
            rgba@ == Seq::new((4 * (row * w)) as nat, |i: int| rgba_byte(data, wn, hn, i)),
    {
        for col in 0..w
            invariant
                row < h,
                wn == w,
                hn == h,
                data == frame.data@,
                    y_size == luma_len(wn, hn),
                uv_size == chroma_len(wn, hn),
                usize::MAX >= data.len() >= y_size + 2 * uv_size,
                rgba@ == Seq::new(
                    (4 * (row * w + col)) as nat,
                    |i: int| rgba_byte(data, wn, hn, i),
                ),
        {
            proof {
                lemma_pixel_inside(wn, hn, row as int, col as int);
            }
            let y: u8 = frame.data[row * w + col];
            let mut u: u8 = 128;
            let mut v: u8 = 128;
            if w >= 2 && h >= 2 {
                let chroma: usize = chroma_of(row, h / 2) * (w / 2) + chroma_of(col, w / 2);
                u = frame.data[y_size + chroma];
                v = frame.data[y_size + uv_size + chroma];
            }
            let (r, g, b) = yuv_to_rgb(y, u, v);
            proof {
                lemma_fundamental_div_mod_converse(
                    row * w + col,
                    w as int,
                    row as int,
                    col as int,
                );
                let base = 4 * (row * w + col);
                assert(rgba_byte(data, wn, hn, base) == r);
                assert(rgba_byte(data, wn, hn, base + 1) == g);
                assert(rgba_byte(data, wn, hn, base + 2) == b);
                assert(rgba_byte(data, wn, hn, base + 3) == 255);
            }
            rgba.push(r);
            rgba.push(g);
            rgba.push(b);
            rgba.push(255);
        }
        assert((row + 1) * w == row * w + w) by (nonlinear_arith);
    }
    assert(h * w == w * h) by (nonlinear_arith);
    rgba
}

/// The pixel value that holds red, green and blue in its three low bytes.
pub open spec fn packed_pixel(r: u8, g: u8, b: u8) -> int {
    r * 0x1_0000 + g * 0x100 + b
}

/// Convert a frame to one `0RGB` word per pixel, in reading order.
pub fn i420_to_minifb(frame: &VideoFrame) -> (pixels: Vec<u32>)
    requires
        frame.showable(),
    ensures
        pixels@.len() == frame.width * frame.height,
        forall|p: int|
            #![trigger pixels@[p]]
            0 <= p < pixels@.len() ==> ({
                let rgba = rgba_of_i420(frame.data@, frame.width as nat, frame.height as nat);
                pixels@[p] == packed_pixel(rgba[4 * p], rgba[4 * p + 1], rgba[4 * p + 2])
            }),
{
    let rgba: Vec<u8> = i420_to_rgba(frame);
    let count: usize = rgba.len() / 4;
    let mut pixels: Vec<u32> = Vec::new();
    for p in 0..count
        invariant
            rgba@.len() == 4 * count,
            pixels@.len() == p,
            forall|q: int|
                #![trigger pixels@[q]]
                0 <= q < p ==> pixels@[q] == packed_pixel(
                    rgba@[4 * q],
                    rgba@[4 * q + 1],
                    rgba@[4 * q + 2],
                ),
    {
        assert(rgba.len() == rgba@.len());
        let r: u32 = rgba[4 * p] as u32;
        let g: u32 = rgba[4 * p + 1] as u32;
        let b: u32 = rgba[4 * p + 2] as u32;
        let pixel: u32 = (r << 16) | (g << 8) | b;
        assert(pixel == r * 0x1_0000 + g * 0x100 + b) by (bit_vector)
            requires
                r < 256,
                g < 256,
                b < 256,
                pixel == (r << 16) | (g << 8) | b,
        ;
        pixels.push(pixel);
    }
    pixels
}

/// What comes next when a frame is wanted from a track.
#[derive(Debug)]
pub enum NextStep {
    /// Decode this payload; the frame is what
    /// [`next_frame`](MediaTrackVp8Decoder::next_frame) makes of the result.
    Decode(Vec<u8>),
    /// No decoding is needed, this is the answer.
    Answer(ControlFlow<(), Option<VideoFrame>>),
}

/// Whether `step` follows from a look at the track: a frame is to be decoded; if
/// none is waiting there is none for now, and if the track is closed there will
/// be no more.
pub open spec fn follows_from(step: NextStep, look: Look) -> bool {
    match look {
        Ok(frame) => step matches NextStep::Decode(payload) && payload@ == frame.0,
        Err(RecvError::Empty) => step == NextStep::Answer(
            ControlFlow::<(), Option<VideoFrame>>::Continue(None),
        ),
        Err(RecvError::Closed) => step == NextStep::Answer(
            ControlFlow::<(), Option<VideoFrame>>::Break(()),
        ),
        Err(RecvError::Lagged(_)) => false,
    }
}

/// The step that follows from what came from the track. Nothing follows from a
/// lag but another look: the frames that were not overwritten are still waiting.
pub fn step_of(received: Result<MediaFrame, RecvError>) -> (step: Option<NextStep>)
    ensures
        match step {
            Some(taken) => follows_from(taken, look_of(received)),
            None => look_of(received) matches Err(RecvError::Lagged(_)),
        },
{
    match received {
        Ok(frame) => Some(NextStep::Decode(frame.payload_bytes())),
        Err(RecvError::Empty) => Some(NextStep::Answer(ControlFlow::Continue(None))),
        Err(RecvError::Lagged(_)) => None,
        Err(RecvError::Closed) => Some(NextStep::Answer(ControlFlow::Break(()))),
    }
}

/// Decodes a VP8-encoded [`MediaTrack`] into raw I420 [`VideoFrame`]s.
///
/// A frame is fetched in two steps: [`next_step`](Self::next_step) looks at the
/// track, and [`next_frame`](Self::next_frame) answers once the payload was decoded.
pub struct MediaTrackVp8Decoder {
    track: MediaTrack,
}

impl MediaTrackVp8Decoder {
    /// The track that is decoded.
    pub closed spec fn spec_track(&self) -> MediaTrack {
        self.track
    }

    /// Whether the track carries VP8.
    pub open spec fn well_formed(&self) -> bool {
        self.spec_track().spec_codec() == Codec::Vp8
    }

    /// Whether fetching from a track takes it from `before` to `after` and leads to
    /// `step`: the track is looked at once, and again after each lag, and the step
    /// follows from the last look. There is a lag only if more was unread than the
    /// track keeps.
    pub open spec fn stepped(before: MediaTrack, after: MediaTrack, step: NextStep) -> bool {
        let looks = after.looks();
        let start = before.looks().len() as int;
        &&& after.stream() == before.stream()
        &&& after.capacity() == before.capacity()
        &&& start < looks.len()
        &&& looks.take(start) == before.looks()
        &&& forall|i: int|
            start <= i < looks.len() - 1 ==> (#[trigger] looks[i] matches Err(
                RecvError::Lagged(_),
            ))
        &&& follows_from(step, looks.last())
        &&& found_closed(before.looks()) ==> step == NextStep::Answer(
            ControlFlow::<(), Option<VideoFrame>>::Break(()),
        )
        &&& match step {
            NextStep::Decode(payload) => {
                &&& before.passed() < after.passed() <= before.stream().len()
                &&& payload@ == before.stream()[after.passed() - 1].0
                &&& looks.len() == start + 1 ==> after.passed() == before.passed() + 1
            },
            NextStep::Answer(ControlFlow::Continue(_)) => {
                &&& before.passed() <= after.passed()
                &&& looks.len() == start + 1 ==> after.passed() == before.passed()
            },
            NextStep::Answer(ControlFlow::Break(_)) => {
                &&& before.passed() <= after.passed()
                &&& after.passed() == before.stream().len()
                &&& looks.len() == start + 1 ==> after.passed() == before.passed()
            },
        }
        &&& looks.len() > start + 1 ==> before.passed() + before.capacity() < before.stream().len()
    }

    /// A decoder for `track`, which must carry VP8.
    pub fn new(track: MediaTrack) -> (created: Result<Self, VideoError>)
        ensures
            match created {
                Ok(decoder) => decoder.well_formed() && decoder.spec_track() == track,
                Err(error) => track.spec_codec() != Codec::Vp8 && error == VideoError::NotVp8(
                    track.spec_codec(),
                ),
            },
    {
        match track.codec() {
            Codec::Vp8 => Ok(MediaTrackVp8Decoder { track }),
            other => Err(VideoError::NotVp8(other)),
        }
    }

    /// Look at the track for a waiting frame, without blocking.
    ///
    /// Whether a frame is waiting depends on the sending side; [`step_of`] says
    /// what follows from each case. If frames were overwritten before they could
    /// be read, the oldest one that is left is taken.
    pub fn next_step(&mut self) -> (step: NextStep)
        ensures
            Self::stepped(old(self).spec_track(), final(self).spec_track(), step),
            old(self).well_formed() ==> final(self).well_formed(),
            final(self).spec_track().spec_codec() == old(self).spec_track().spec_codec(),
            final(self).spec_track().spec_kind() == old(self).spec_track().spec_kind(),
    {
        let ghost before = self.track;
        let ghost start = before.looks().len() as int;
        assert(before.looks().take(start) =~= before.looks());
        loop
            invariant
                before == old(self).track,
                start == before.looks().len(),
                self.track.stream() == before.stream(),
                self.track.capacity() == before.capacity(),
                self.track.spec_codec() == before.spec_codec(),
                self.track.spec_kind() == before.spec_kind(),
                start <= self.track.looks().len(),
                self.track.looks().take(start) == before.looks(),
                forall|i: int|
                    start <= i < self.track.looks().len() ==> (#[trigger] self.track.looks()[i]
                        matches Err(RecvError::Lagged(_))),
                self.track.looks().len() == start ==> self.track == before,
                self.track.looks().len() > start ==> {
                    &&& before.passed() < self.track.passed() < before.stream().len()
                    &&& before.passed() + before.capacity() < before.stream().len()
                    &&& !found_closed(before.looks())
                },
            decreases before.stream().len() - self.track.passed(),
        {
            let ghost here = self.track;
            let received = self.track.try_recv();
            let ghost look = look_of(received);
            assert(self.track.looks().take(start) =~= before.looks());
            assert(self.track.looks().last() == look);
            assert forall|i: int| start <= i < here.looks().len() implies (
            #[trigger] self.track.looks()[i] matches Err(RecvError::Lagged(_))) by {
                assert(here.looks()[i] == self.track.looks()[i]);
            }
            if let Some(step) = step_of(received) {
                return step;
            }
        }
    }

    /// The answer once a payload was decoded.
    ///
    /// - `Continue(Some(frame))`: a decoded frame is ready.
    /// - `Continue(None)`: the decoder is still buffering.
    pub fn next_frame(decoded: Result<Option<VideoFrame>, VideoError>) -> (answer: Result<
        ControlFlow<(), Option<VideoFrame>>,
        VideoError,
    >)
        ensures
            match decoded {
                Ok(frame) => answer == Ok::<ControlFlow<(), Option<VideoFrame>>, VideoError>(
                    ControlFlow::Continue(frame),
                ),
                Err(error) => answer == Err::<ControlFlow<(), Option<VideoFrame>>, VideoError>(
                    error,
                ),
            },
    {
        match decoded {
            Ok(Some(frame)) => Ok(ControlFlow::Continue(Some(frame))),
            Ok(None) => Ok(ControlFlow::Continue(None)),
            Err(error) => Err(error),
        }
    }
}

/// A packet that the encoder's side put on a track is the payload that comes up
/// for decoding when the track passes it.
pub proof fn law_payload_survives(
    encoder: Vp8Encoder,
    before: MediaTrack,
    after: MediaTrack,
    payload: Vec<u8>,
)
    requires
        encoder.well_formed(),
        before.stream() == encoder.stream(),
        after.passed() <= encoder.taken().len(),
        MediaTrackVp8Decoder::stepped(before, after, NextStep::Decode(payload)),
    ensures
        payload@ == encoder.taken()[after.passed() - 1].0,
{
    encoder.lemma_taken_so_far(after.passed() - 1);
}

/// The payloads that a run of steps asks to decode, in order.
pub open spec fn payloads(steps: Seq<NextStep>) -> Seq<Seq<u8>>
    decreases steps.len(),
{
    if steps.len() == 0 {
        Seq::empty()
    } else {
        let before = payloads(steps.drop_last());
        match steps.last() {
            NextStep::Decode(payload) => before.push(payload@),
            NextStep::Answer(_) => before,
        }
    }
}

/// The payloads of some frames.
pub open spec fn payloads_of(frames: Seq<FrameView>) -> Seq<Seq<u8>> {
    Seq::new(frames.len(), |i: int| frames[i].0)
}

/// Whether `steps` are what a run of fetches led to, and `tracks` the track before
/// each of them and after the last.
pub open spec fn is_fetched(tracks: Seq<MediaTrack>, steps: Seq<NextStep>) -> bool {
    &&& tracks.len() == steps.len() + 1
    &&& forall|i: int|
        0 <= i < steps.len() ==> MediaTrackVp8Decoder::stepped(
            #[trigger] tracks[i],
            tracks[i + 1],
            #[trigger] steps[i],
        )
}

/// If a track keeps all frames that are unread, a run of fetches asks to decode
/// every payload that it passes, in order, and has asked for all of them when the
/// track turns out to be closed.
pub proof fn law_decoder_takes_all(tracks: Seq<MediaTrack>, steps: Seq<NextStep>)
    requires
        is_fetched(tracks, steps),
        tracks[0].passed() <= tracks[0].stream().len(),
        tracks[0].stream().len() <= tracks[0].passed() + tracks[0].capacity(),
    ensures
        ({
            let first = tracks[0];
            let last = tracks[steps.len() as int];
            let stream = first.stream();
            &&& last.stream() == stream
            &&& last.capacity() == first.capacity()
            &&& first.passed() <= last.passed() <= stream.len()
            &&& payloads(steps) == payloads_of(
                stream.subrange(first.passed() as int, last.passed() as int),
            )
            &&& steps.len() > 0 && steps.last() == NextStep::Answer(
                ControlFlow::<(), Option<VideoFrame>>::Break(()),
            ) ==> payloads(steps) == payloads_of(stream.skip(first.passed() as int))
        }),
    decreases steps.len(),
{
    let n = steps.len() as int;
    let stream = tracks[0].stream();
    let start = tracks[0].passed() as int;
    if n == 0 {
        assert(payloads(steps) =~= payloads_of(stream.subrange(start, start)));
    } else {
        let t = tracks.drop_last();
        let s = steps.drop_last();
        assert forall|i: int| 0 <= i < s.len() implies MediaTrackVp8Decoder::stepped(
            #[trigger] t[i],
            t[i + 1],
            #[trigger] s[i],
        ) by {
            assert(MediaTrackVp8Decoder::stepped(tracks[i], tracks[i + 1], steps[i]));
        }
        law_decoder_takes_all(t, s);
        assert(MediaTrackVp8Decoder::stepped(tracks[n - 1], tracks[n - 1 + 1], steps[n - 1]));
        let end = tracks[n].passed() as int;
        assert(payloads(steps) =~= payloads_of(stream.subrange(start, end)));
        assert(stream.subrange(start, stream.len() as int) =~= stream.skip(start));
    }
}

/// Once a fetch ended with the track closed, every later one does.
pub proof fn law_break_for_good(
    tracks: Seq<MediaTrack>,
    steps: Seq<NextStep>,
    i: int,
    j: int,
)
    requires
        is_fetched(tracks, steps),
        0 <= i <= j < steps.len(),
        steps[i] == NextStep::Answer(ControlFlow::<(), Option<VideoFrame>>::Break(())),
    ensures
        steps[j] == NextStep::Answer(ControlFlow::<(), Option<VideoFrame>>::Break(())),
    decreases j,
{
    if i < j {
        law_break_for_good(tracks, steps, i, j - 1);
        assert(MediaTrackVp8Decoder::stepped(tracks[j - 1], tracks[j - 1 + 1], steps[j - 1]));
        assert(MediaTrackVp8Decoder::stepped(tracks[j], tracks[j + 1], steps[j]));
    }
}

/// The end comes as soon as nothing is left: if a track keeps all frames that are
/// unread, and no fetch finds it merely empty, as is so once the sending side is
/// gone, then each fetch asks to decode the next payload while there is one, and
/// every fetch after that finds the track closed.
pub proof fn law_break_once_drained(tracks: Seq<MediaTrack>, steps: Seq<NextStep>, j: int)
    requires
        is_fetched(tracks, steps),
        tracks[0].passed() <= tracks[0].stream().len(),
        tracks[0].stream().len() <= tracks[0].passed() + tracks[0].capacity(),
        forall|i: int|
            0 <= i < steps.len() ==> !(#[trigger] steps[i] matches NextStep::Answer(
                ControlFlow::Continue(_),
            )),
        0 <= j < steps.len(),
    ensures
        ({
            let stream = tracks[0].stream();
            let next = tracks[0].passed() + j;
            if next < stream.len() {
                steps[j] matches NextStep::Decode(payload) && payload@ == stream[next].0
            } else {
                steps[j] == NextStep::Answer(ControlFlow::<(), Option<VideoFrame>>::Break(()))
            }
        }),
        tracks[j + 1].stream() == tracks[0].stream(),
        tracks[j + 1].capacity() == tracks[0].capacity(),
        tracks[j + 1].passed() == if tracks[0].passed() + j < tracks[0].stream().len() {
            tracks[0].passed() + j + 1
        } else {
            tracks[0].stream().len() as int
        },
    decreases j,
{
    if j > 0 {
        law_break_once_drained(tracks, steps, j - 1);
    }
    assert(MediaTrackVp8Decoder::stepped(tracks[j], tracks[j + 1], steps[j]));
    assert(!(steps[j] matches NextStep::Answer(ControlFlow::Continue(_))));
}

/// What follows from a look at the track: a frame's payload, whole, is to be
/// decoded; an empty track has no frame for now; a closed one has no more.
pub proof fn law_step_follows_look(step: NextStep, look: Look)
    requires
        follows_from(step, look),
    ensures
        match look {
            Ok(frame) => {
                &&& step matches NextStep::Decode(payload)
                &&& payload@.len() == frame.0.len()
                &&& forall|j: int| 0 <= j < frame.0.len() ==> payload@[j] == frame.0[j]
            },
            Err(RecvError::Empty) => step matches NextStep::Answer(ControlFlow::Continue(frame))
                && frame is None,
            Err(RecvError::Closed) => step matches NextStep::Answer(ControlFlow::Break(_)),
            Err(RecvError::Lagged(_)) => false,
        },
{
}

/// A fetch looks at the track at least once and hands out at most one frame: every
/// look but the last found a lag, and what it hands out is the frame that it passed
/// last.
pub proof fn law_one_frame_per_fetch(before: MediaTrack, after: MediaTrack, step: NextStep)
    requires
        MediaTrackVp8Decoder::stepped(before, after, step),
    ensures
        after.looks().len() > before.looks().len(),
        forall|i: int|
            0 <= i < before.looks().len() ==> #[trigger] after.looks()[i] == before.looks()[i],
        forall|i: int|
            before.looks().len() <= i < after.looks().len() - 1 ==> (#[trigger] after.looks()[i]
                matches Err(RecvError::Lagged(_))),
        !(after.looks().last() matches Err(RecvError::Lagged(_))),
        step is Decode <==> after.looks().last() is Ok,
        step matches NextStep::Decode(payload) ==> {
            &&& before.passed() < after.passed() <= before.stream().len()
            &&& payload@ == before.stream()[after.passed() - 1].0
            &&& payload@ == after.looks().last()->Ok_0.0
        },
{
    assert forall|i: int| 0 <= i < before.looks().len() implies #[trigger] after.looks()[i]
        == before.looks()[i] by {
        assert(after.looks().take(before.looks().len() as int)[i] == before.looks()[i]);
    }
}

} // verus!
