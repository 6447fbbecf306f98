//! The VP8 codec: what goes into the encoder, what happens to its packets, and
//! how a decoded image becomes a frame.
use std::ops::ControlFlow;

use tokio::sync::broadcast;
use vstd::arithmetic::div_mod::{lemma_fundamental_div_mod, lemma_fundamental_div_mod_converse};
use vstd::prelude::*;

use crate::codec::{Codec, VP8_RTP_CLOCK_RATE};
use crate::error::VideoError;
use crate::rtc::{
    found_closed, frames_offered, frames_read, frames_taken, is_only_sender, is_run,
    law_capacity_suffices, law_read_in_order, open_channel, send, sender_stream, FrameView, Look,
    MediaFrame, MediaTrack, RecvError, TrackKind,
};
use crate::video::{i420_len, lemma_even_size, VideoFrame};

verus! {

/// Settings with which a VP8 encoder is opened.
#[derive(Debug, Clone, Copy, PartialEq, Eq)]
pub struct Vp8Config {
    pub width: u32,
    pub height: u32,
    /// Length of a clock tick in seconds, as numerator and denominator.
    pub timebase: (i32, i32),
    /// Target bitrate in kilobits per second.
    pub bitrate_kbps: u32,
}

/// The frames that a list of encoded packets becomes, each lasting `duration` ticks.
pub open spec fn packet_frames(packets: Seq<Vec<u8>>, duration: u32) -> Seq<FrameView> {
    Seq::new(packets.len(), |i: int| (packets[i]@, Some(duration), None, None))
}

/// How many of `len` packets are handed to a track that takes the first `count`
/// of them: all up to the first refused one, which is handed over too.
pub open spec fn packets_offered(count: int, len: int) -> int {
    if count < len {
        count + 1
    } else {
        len
    }
}

/// The sending side of a VP8 track: numbers the frames that are encoded and
/// broadcasts the encoded packets over the [`MediaTrack`] obtained at
/// construction time.
pub struct Vp8Encoder {
    pts: i64,
    rtp_duration: u32,
    sender: broadcast::Sender<MediaFrame>,
}

impl Vp8Encoder {
    /// The timestamp of the next frame.
    pub closed spec fn spec_pts(&self) -> int {
        self.pts as int
    }

    /// How many clock ticks a frame lasts.
    pub closed spec fn spec_rtp_duration(&self) -> u32 {
        self.rtp_duration
    }

    /// The frames that the track has taken so far.
    pub closed spec fn taken(&self) -> Seq<FrameView> {
        frames_taken(self.sender)
    }

    /// The frames that were handed to the track so far, taken or not.
    pub closed spec fn offered(&self) -> Seq<FrameView> {
        frames_offered(self.sender)
    }

    /// The frames that the track takes in its whole life.
    pub closed spec fn stream(&self) -> Seq<FrameView> {
        sender_stream(self.sender)
    }

    /// Whether nobody else puts frames on the track, so that what it has taken is
    /// the beginning of what it takes in its life.
    pub closed spec fn well_formed(&self) -> bool {
        &&& is_only_sender(self.sender)
        &&& self.taken().is_prefix_of(self.stream())
    }

    /// Whether pushing `packets` took the sender from `before` to `after` with
    /// the given outcome, when the track took the first `count` of them: taking
    /// them all means to go on one duration later, taking fewer means to stop
    /// after the first one that it was offered and did not take.
    pub open spec fn pushed(
        before: Self,
        after: Self,
        packets: Seq<Vec<u8>>,
        outcome: Result<ControlFlow<(), ()>, VideoError>,
        count: int,
    ) -> bool {
        let frames = packet_frames(packets, before.spec_rtp_duration());
        &&& 0 <= count <= packets.len()
        &&& after.spec_rtp_duration() == before.spec_rtp_duration()
        &&& after.stream() == before.stream()
        &&& after.taken() == before.taken() + frames.take(count)
        &&& after.offered() == before.offered() + frames.take(
            packets_offered(count, packets.len() as int),
        )
        &&& if count == packets.len() {
            &&& outcome == Ok::<ControlFlow<(), ()>, VideoError>(ControlFlow::Continue(()))
            &&& after.spec_pts() == before.spec_pts() + before.spec_rtp_duration()
        } else {
            &&& outcome == Ok::<ControlFlow<(), ()>, VideoError>(ControlFlow::Break(()))
            &&& after.spec_pts() == before.spec_pts()
        }
    }

    /// A frame that the track has taken keeps its place in the track's stream.
    pub proof fn lemma_taken_so_far(self, i: int)
        requires
            self.well_formed(),
            0 <= i < self.taken().len(),
        ensures
            i < self.stream().len(),
            self.stream()[i] == self.taken()[i],
    {
    }

    /// The settings for an encoder whose timestamps count RTP clock ticks.
    pub fn config(width: u32, height: u32, bitrate_kbps: u32) -> (config: Vp8Config)
        ensures
            config == (Vp8Config {
                width,
                height,
                timebase: (1i32, VP8_RTP_CLOCK_RATE as i32),
                bitrate_kbps,
            }),
    {
        Vp8Config { width, height, timebase: (1, VP8_RTP_CLOCK_RATE as i32), bitrate_kbps }
    }

    /// Create the sending side once the encoder itself was opened or refused.
    ///
    /// - `fps`: target frame rate (used to compute RTP timestamp increments)
    /// - `track_cap`: capacity of the broadcast channel backing the [`MediaTrack`]
    pub fn new(opened: Result<(), String>, fps: u32, track_cap: usize) -> (created: Result<
        (Self, MediaTrack),
        VideoError,
    >)
        requires
            opened is Ok ==> fps > 0 && 0 < track_cap <= usize::MAX / 4096,
        ensures
            match opened {
                Err(reason) => created == Err::<(Self, MediaTrack), VideoError>(
                    VideoError::EncoderInit(reason),
                ),
                Ok(_) => {
                    &&& created matches Ok((encoder, track))
                    &&& encoder.well_formed()
                    &&& track.stream() == encoder.stream()
                    &&& track.passed() == 0
                    &&& track.capacity() >= track_cap
                    &&& track.looks() == Seq::<Look>::empty()
                    &&& encoder.spec_pts() == 0
                    &&& encoder.spec_rtp_duration() == VP8_RTP_CLOCK_RATE / fps
                    &&& encoder.taken() == Seq::<FrameView>::empty()
                    &&& encoder.offered() == Seq::<FrameView>::empty()
                    &&& track.spec_codec() == Codec::Vp8
                    &&& track.spec_kind() == TrackKind::Video
                },
            },
    {
        match opened {
            Err(reason) => Err(VideoError::EncoderInit(reason)),
            Ok(_) => {
                let (sender, receiver) = open_channel(track_cap);
                let track = MediaTrack::new(receiver, Codec::Vp8, TrackKind::Video);
                assert(track.looks() =~= Seq::<Look>::empty());
                let rtp_duration: u32 = VP8_RTP_CLOCK_RATE / fps;
                assert(frames_taken(sender) =~= Seq::<FrameView>::empty());
                assert(frames_offered(sender) =~= Seq::<FrameView>::empty());
                Ok((Vp8Encoder { pts: 0, rtp_duration, sender }, track))
            },
        }
    }

    /// The timestamp with which the next frame is to be encoded.
    pub fn pts(&self) -> (pts: i64)
        ensures
            pts == self.spec_pts(),
    {
        self.pts
    }

    /// How many clock ticks a frame lasts.
    pub fn rtp_duration(&self) -> (duration: u32)
        ensures
            duration == self.spec_rtp_duration(),
    {
        self.rtp_duration
    }

    /// Hand over what the encoder made of one I420 frame, encoded at
    /// [`pts`](Self::pts): its packets go to the track one by one, until the
    /// track has no receiver left.
    pub fn push_frame(&mut self, encoded: Result<Vec<Vec<u8>>, String>) -> (pushed: Result<
        ControlFlow<(), ()>,
        VideoError,
    >)
        requires
            old(self).well_formed(),
            old(self).spec_pts() + old(self).spec_rtp_duration() <= i64::MAX,
        ensures
            final(self).well_formed(),
            final(self).stream() == old(self).stream(),
            final(self).spec_rtp_duration() == old(self).spec_rtp_duration(),
            encoded matches Err(reason) ==> {
                &&& pushed == Err::<ControlFlow<(), ()>, VideoError>(
                    VideoError::EncodeFailed(reason),
                )
                &&& final(self).spec_pts() == old(self).spec_pts()
                &&& final(self).taken() == old(self).taken()
                &&& final(self).offered() == old(self).offered()
            },
            encoded matches Ok(packets) ==> exists|count: int|
                #[trigger] Self::pushed(*old(self), *final(self), packets@, pushed, count),
            encoded matches Ok(packets) ==> pushed matches Ok(ControlFlow::Continue(_)) ==> {
                &&& final(self).taken().len() == old(self).taken().len() + packets@.len()
                &&& forall|i: int|
                    #![trigger packets@[i]]
                    0 <= i < packets@.len() ==> final(self).taken()[old(self).taken().len() + i]
                        == (packets@[i]@, Some(old(self).spec_rtp_duration()), None::<u32>, None::<
                        u32,
                    >)
            },
    {
        match encoded {
            Err(reason) => Err(VideoError::EncodeFailed(reason)),
            Ok(packets) => {
                let count: usize = self.send_packets(&packets);
                let flow = self.settle(count < packets.len());
                assert(Self::pushed(*old(self), *self, packets@, Ok(flow), count as int));
                proof {
                    if count == packets@.len() {
                        assert forall|i: int|
                            #![trigger packets@[i]]
                            0 <= i < packets@.len() implies self.taken()[old(self).taken().len()
                            + i] == (packets@[i]@, Some(old(self).spec_rtp_duration()), None::<
                            u32,
                        >, None::<u32>) by {
                            law_packets_arrive_whole(
                                *old(self),
                                *self,
                                packets@,
                                Ok(flow),
                                count as int,
                                i,
                            );
                            assert(self.taken()[old(self).taken().len() + i].0 =~= packets@[i]@);
                        }
                    }
                }
                Ok(flow)
            },
        }
    }

    /// Sends packets to the track until one is refused; returns how many it took.
    /// Whether one is refused depends on who holds the track.
    fn send_packets(&mut self, packets: &Vec<Vec<u8>>) -> (count: usize)
        requires
            old(self).well_formed(),
        ensures
            final(self).well_formed(),
            final(self).stream() == old(self).stream(),
            count <= packets@.len(),
            final(self).spec_pts() == old(self).spec_pts(),
            final(self).spec_rtp_duration() == old(self).spec_rtp_duration(),
            final(self).taken() == old(self).taken() + packet_frames(
                packets@,
                old(self).spec_rtp_duration(),
            ).take(count as int),
            final(self).offered() == old(self).offered() + packet_frames(
                packets@,
                old(self).spec_rtp_duration(),
            ).take(packets_offered(count as int, packets@.len() as int)),
    {
        let ghost frames = packet_frames(packets@, self.rtp_duration);
        let ghost before = self.taken();
        let ghost offered = self.offered();
        assert(before + frames.take(0) =~= before);
        assert(offered + frames.take(0) =~= offered);
        for i in 0..packets.len()
            invariant
                self.well_formed(),
                self.stream() == old(self).stream(),
                self.pts == old(self).pts,
                self.rtp_duration == old(self).rtp_duration,
                frames == packet_frames(packets@, self.rtp_duration),
                before == old(self).taken(),
                self.taken() == before + frames.take(i as int),
                offered == old(self).offered(),
                self.offered() == offered + frames.take(i as int),
        {
            assert((offered + frames.take(i as int)).push(frames[i as int]) =~= offered
                + frames.take(i + 1));
            let frame = MediaFrame::of_packet(packets[i].as_slice(), self.rtp_duration);
            if send(&mut self.sender, frame).is_err() {
                return i;
            }
            assert((before + frames.take(i as int)).push(frames[i as int]) =~= before + frames.take(
                i + 1,
            ));
        }
        packets.len()
    }

    /// Conclude a frame: if the track refused one of its packets there is
    /// nobody left to encode for, otherwise the next frame is one duration later.
    pub fn settle(&mut self, refused: bool) -> (flow: ControlFlow<(), ()>)
        requires
            old(self).spec_pts() + old(self).spec_rtp_duration() <= i64::MAX,
        ensures
            final(self).spec_rtp_duration() == old(self).spec_rtp_duration(),
            final(self).taken() == old(self).taken(),
            final(self).offered() == old(self).offered(),
            final(self).stream() == old(self).stream(),
            final(self).well_formed() == old(self).well_formed(),
            refused ==> flow == ControlFlow::<(), ()>::Break(()) && final(self).spec_pts() == old(
                self,
            ).spec_pts(),
            !refused ==> flow == ControlFlow::<(), ()>::Continue(()) && final(self).spec_pts()
                == old(self).spec_pts() + old(self).spec_rtp_duration(),
    {
        if refused {
            ControlFlow::Break(())
        } else {
            self.pts = self.pts + self.rtp_duration as i64;
            ControlFlow::Continue(())
        }
    }
}

/// One plane of a decoded image: rows of samples, `stride` bytes apart.
#[derive(Debug)]
pub struct DecodedPlane {
    pub bytes: Vec<u8>,
    pub stride: usize,
}

/// An image as the decoder hands it out.
#[derive(Debug)]
pub struct DecodedImage {
    pub width: u32,
    pub height: u32,
    pub y: DecodedPlane,
    pub u: DecodedPlane,
    pub v: DecodedPlane,
}

/// The first `cols` samples of each of the first `rows` rows, without the
/// padding between them.
pub open spec fn plane_samples(bytes: Seq<u8>, stride: nat, rows: nat, cols: nat) -> Seq<u8> {
    Seq::new(rows * cols, |i: int| bytes[(i / cols as int) * stride + i % cols as int])
}

/// Whether `len` bytes hold `cols` samples in each of `rows` rows.
pub open spec fn holds_plane(len: nat, stride: nat, rows: nat, cols: nat) -> bool {
    rows > 0 && cols > 0 ==> (rows - 1) * stride + cols <= len
}

impl DecodedPlane {
    /// Whether the plane has `cols` samples in each of `rows` rows.
    pub open spec fn holds(&self, rows: nat, cols: nat) -> bool {
        holds_plane(self.bytes@.len(), self.stride as nat, rows, cols)
    }

    /// The plane's samples without padding.
    pub open spec fn samples(&self, rows: nat, cols: nat) -> Seq<u8> {
        plane_samples(self.bytes@, self.stride as nat, rows, cols)
    }
}

impl DecodedImage {
    /// Whether the three planes cover the image and its frame can be addressed.
    pub open spec fn well_formed(&self) -> bool {
        let w = self.width as nat;
        let h = self.height as nat;
        &&& self.y.holds(h, w)
        &&& self.u.holds(h / 2, w / 2)
        &&& self.v.holds(h / 2, w / 2)
        &&& i420_len(w, h) <= usize::MAX
    }

    /// The image's planes, one after the other and without padding.
    pub open spec fn i420(&self) -> Seq<u8> {
        let w = self.width as nat;
        let h = self.height as nat;
        self.y.samples(h, w) + self.u.samples(h / 2, w / 2) + self.v.samples(h / 2, w / 2)
    }
}

/// Appends the samples of a plane, row by row, leaving out the padding.
pub(crate) fn append_plane(
    out: &mut Vec<u8>,
    plane: &[u8],
    stride: usize,
    rows: usize,
    cols: usize,
)
    requires
        holds_plane(plane@.len(), stride as nat, rows as nat, cols as nat),
    ensures
        final(out)@ == old(out)@ + plane_samples(plane@, stride as nat, rows as nat, cols as nat),
{
    let ghost bytes = plane@;
    let ghost step = stride as nat;
    let ghost before = out@;
    assert(0 * cols == 0) by (nonlinear_arith);
    assert(out@ =~= before + plane_samples(bytes, step, 0, cols as nat));
    for row in 0..rows
        invariant
            holds_plane(bytes.len(), step, rows as nat, cols as nat),
            bytes == plane@,
            step == stride,
            out@ == before + plane_samples(bytes, step, row as nat, cols as nat),
    {
        for col in 0..cols
            invariant
                row < rows,
                holds_plane(bytes.len(), step, rows as nat, cols as nat),
                bytes == plane@,
                step == stride,
                out@ == before + Seq::new(
                    (row * cols + col) as nat,
                    |i: int| bytes[(i / cols as int) * step + i % cols as int],
                ),
        {
            proof {
                assert(plane.len() == bytes.len());
                assert(row * step <= (rows - 1) * step) by (nonlinear_arith)
                    requires
                        row <= rows - 1,
                        0 <= step,
                ;
                assert(0 <= row * step) by (nonlinear_arith)
                    requires
                        0 <= step,
                ;
                assert(0 <= row * cols) by (nonlinear_arith);
                lemma_fundamental_div_mod_converse(
                    row * cols + col,
                    cols as int,
                    row as int,
                    col as int,
                );
            }
            out.push(plane[row * stride + col]);
        }
        assert((row + 1) * cols == row * cols + cols) by (nonlinear_arith);
    }
}

/// The receiving side of the codec: turns what a VP8 decoder reports into frames.
#[derive(Debug)]
pub struct Vp8Decoder {}

/// The code with which the decoder reports success.
pub const VPX_CODEC_OK: i32 = 0;

impl Vp8Decoder {
    /// Create the receiving side from the code with which the decoder was opened.
    pub fn new(status: i32) -> (created: Result<Self, VideoError>)
        ensures
            created == if status == VPX_CODEC_OK {
                Ok::<Self, VideoError>(Vp8Decoder {  })
            } else {
                Err(VideoError::DecoderInit(status))
            },
    {
        if status != VPX_CODEC_OK {
            return Err(VideoError::DecoderInit(status));
        }
        Ok(Vp8Decoder {  })
    }

    /// The frame that decoding one payload gave: `status` is the code that the
    /// decoder reported, `image` what it had ready afterwards. There is no frame
    /// if the decoder is still buffering (rare with VP8 realtime mode).
    pub fn decode(&self, status: i32, image: Option<DecodedImage>) -> (decoded: Result<
        Option<VideoFrame>,
        VideoError,
    >)
        requires
            status == VPX_CODEC_OK && image is Some ==> image->0.well_formed(),
        ensures
            if status != VPX_CODEC_OK {
                decoded == Err::<Option<VideoFrame>, VideoError>(VideoError::DecodeFailed(status))
            } else {
                match image {
                    None => decoded == Ok::<Option<VideoFrame>, VideoError>(None),
                    Some(img) => {
                        &&& decoded matches Ok(Some(frame))
                        &&& frame.width == img.width
                        &&& frame.height == img.height
                        &&& frame.data@ == img.i420()
                        &&& frame.well_formed()
                        &&& forall|row: int, col: int|
                            #![trigger img.y.bytes@[row * img.y.stride + col]]
                            0 <= row < img.height && 0 <= col < img.width ==> frame.data@[row
                                * img.width + col] == img.y.bytes@[row * img.y.stride + col]
                        &&& forall|row: int, col: int|
                            #![trigger img.u.bytes@[row * img.u.stride + col]]
                            0 <= row < img.height / 2 && 0 <= col < img.width / 2
                                ==> frame.data@[img.width * img.height + row * (img.width / 2)
                                + col] == img.u.bytes@[row * img.u.stride + col]
                        &&& forall|row: int, col: int|
                            #![trigger img.v.bytes@[row * img.v.stride + col]]
                            0 <= row < img.height / 2 && 0 <= col < img.width / 2
                                ==> frame.data@[img.width * img.height + (img.width / 2) * (
                            img.height / 2) + row * (img.width / 2) + col]
                                == img.v.bytes@[row * img.v.stride + col]
                        &&& img.width % 2 == 0 && img.height % 2 == 0 ==> frame.data@.len()
                            == img.width * img.height * 3 / 2
                    },
                }
            },
    {
        if status != VPX_CODEC_OK {
            return Err(VideoError::DecodeFailed(status));
        }
        match image {
            None => Ok(None),
            Some(img) => {
                let w: usize = img.width as usize;
                let h: usize = img.height as usize;
                let mut data: Vec<u8> = Vec::new();
                append_plane(&mut data, img.y.bytes.as_slice(), img.y.stride, h, w);
                append_plane(&mut data, img.u.bytes.as_slice(), img.u.stride, h / 2, w / 2);
                append_plane(&mut data, img.v.bytes.as_slice(), img.v.stride, h / 2, w / 2);
                proof {
                    assert(w * h == h * w) by (nonlinear_arith);
                    let m = (w / 2) as int;
                    let n = (h / 2) as int;
                    assert(m * n == n * m) by (nonlinear_arith);
                    if w % 2 == 0 && h % 2 == 0 {
                        lemma_even_size(w as nat, h as nat);
                    }
                    assert(data@ =~= img.i420());
                    lemma_decoded_planes(img);
                }
                Ok(Some(VideoFrame { width: img.width, height: img.height, data }))
            },
        }
    }
}

/// The sample at `row` and `col` of a copied plane is the one that stands there
/// in the decoder's plane, however wide the padding is.
pub proof fn law_plane_sample(
    bytes: Seq<u8>,
    stride: nat,
    rows: nat,
    cols: nat,
    row: int,
    col: int,
)
    requires
        0 <= row < rows,
        0 <= col < cols,
    ensures
        0 <= row * cols + col < rows * cols,
        plane_samples(bytes, stride, rows, cols).len() == rows * cols,
        plane_samples(bytes, stride, rows, cols)[row * cols + col] == bytes[row * stride + col],
{
    assert(0 <= row * cols) by (nonlinear_arith)
        requires
            0 <= row,
            0 <= cols,
    ;
    assert(row * cols + cols <= rows * cols) by (nonlinear_arith)
        requires
            row + 1 <= rows,
            0 <= cols,
    ;
    lemma_fundamental_div_mod_converse(row * cols + col, cols as int, row, col);
}

/// A plane without padding is copied as it is.
pub proof fn law_tight_plane(bytes: Seq<u8>, rows: nat, cols: nat)
    requires
        rows * cols <= bytes.len(),
    ensures
        plane_samples(bytes, cols, rows, cols) == bytes.take((rows * cols) as int),
{
    let copied = plane_samples(bytes, cols, rows, cols);
    assert forall|i: int| 0 <= i < rows * cols implies copied[i] == bytes[i] by {
        assert(cols > 0) by (nonlinear_arith)
            requires
                0 <= i < rows * cols,
                0 <= cols,
        ;
        lemma_fundamental_div_mod(i, cols as int);
        assert((i / cols as int) * cols == cols * (i / cols as int)) by (nonlinear_arith);
    }
    assert(copied =~= bytes.take((rows * cols) as int));
}

/// The frames of one second last one second of clock ticks, short by less than
/// one tick per frame.
pub proof fn law_second_of_frames(fps: u32)
    requires
        fps > 0,
    ensures
        VP8_RTP_CLOCK_RATE - fps < (VP8_RTP_CLOCK_RATE / fps) * fps <= VP8_RTP_CLOCK_RATE,
{
    lemma_fundamental_div_mod(VP8_RTP_CLOCK_RATE as int, fps as int);
    assert((VP8_RTP_CLOCK_RATE as int / fps as int) * fps == fps * (VP8_RTP_CLOCK_RATE as int
        / fps as int)) by (nonlinear_arith);
}

/// The frames that a run of packet lists becomes.
pub open spec fn all_frames(batches: Seq<Seq<Vec<u8>>>, duration: u32) -> Seq<FrameView>
    decreases batches.len(),
{
    if batches.len() == 0 {
        Seq::empty()
    } else {
        all_frames(batches.drop_last(), duration) + packet_frames(batches.last(), duration)
    }
}

/// While the track takes everything, the timestamp of frame `n` is `n` durations
/// after that of the first, and the track has taken all packets in order.
pub proof fn law_frames_advance(states: Seq<Vp8Encoder>, batches: Seq<Seq<Vec<u8>>>)
    requires
        states.len() == batches.len() + 1,
        forall|i: int|
            0 <= i < batches.len() ==> Vp8Encoder::pushed(
                #[trigger] states[i],
                states[i + 1],
                #[trigger] batches[i],
                Ok(ControlFlow::Continue(())),
                batches[i].len() as int,
            ),
    ensures
        ({
            let first = states[0];
            let last = states[batches.len() as int];
            let duration = first.spec_rtp_duration();
            &&& last.spec_rtp_duration() == duration
            &&& last.stream() == first.stream()
            &&& last.spec_pts() == first.spec_pts() + batches.len() * duration
            &&& last.taken() == first.taken() + all_frames(batches, duration)
        }),
    decreases batches.len(),
{
    let n = batches.len() as int;
    let duration = states[0].spec_rtp_duration();
    if n == 0 {
        assert(0 * duration == 0) by (nonlinear_arith);
        assert(states[0].taken() + all_frames(batches, duration) =~= states[0].taken());
    } else {
        let s = states.drop_last();
        let b = batches.drop_last();
        assert forall|i: int| 0 <= i < b.len() implies Vp8Encoder::pushed(
            #[trigger] s[i],
            s[i + 1],
            #[trigger] b[i],
            Ok(ControlFlow::Continue(())),
            b[i].len() as int,
        ) by {
            assert(s[i] == states[i] && s[i + 1] == states[i + 1] && b[i] == batches[i]);
        }
        law_frames_advance(s, b);
        let before = states[n - 1];
        let last = states[n];
        assert(Vp8Encoder::pushed(
            before,
            last,
            batches[n - 1],
            Ok(ControlFlow::Continue(())),
            batches[n - 1].len() as int,
        ));
        assert(s[n - 1] == before);
        let frames = packet_frames(batches[n - 1], duration);
        assert(frames.take(batches[n - 1].len() as int) =~= frames);
        assert(n * duration == (n - 1) * duration + duration) by (nonlinear_arith);
        assert(last.taken() =~= states[0].taken() + all_frames(batches, duration));
    }
}

/// What was put on a track comes out of it: a run of looks at a track from its
/// beginning gives back, in order, the frames that the encoder's side put on it,
/// and all of them once the track is closed. This holds of a run that missed no
/// frame, as every run does if the track keeps all frames that it takes.
pub proof fn law_track_gives_back(
    encoder: Vp8Encoder,
    tracks: Seq<MediaTrack>,
    looks: Seq<Look>,
)
    requires
        encoder.well_formed(),
        is_run(tracks, looks),
        tracks[0].stream() == encoder.stream(),
        tracks[0].passed() == 0,
        encoder.stream().len() <= tracks[0].capacity() || forall|i: int|
            0 <= i < looks.len() ==> !(#[trigger] looks[i] matches Err(RecvError::Lagged(_))),
    ensures
        ({
            let count = tracks[looks.len() as int].passed() as int;
            &&& frames_read(looks).len() == count
            &&& count <= encoder.taken().len() ==> frames_read(looks) == encoder.taken().take(
                count,
            )
            &&& found_closed(looks) ==> frames_read(looks) == encoder.stream()
            &&& found_closed(looks) ==> encoder.taken().is_prefix_of(frames_read(looks))
        }),
{
    let n = looks.len() as int;
    let stream = encoder.stream();
    if stream.len() <= tracks[0].capacity() {
        law_capacity_suffices(tracks, looks);
    }
    law_read_in_order(tracks, looks);
    let count = tracks[n].passed() as int;
    assert(frames_read(looks) =~= stream.take(count));
    if count <= encoder.taken().len() {
        assert(stream.take(count) =~= encoder.taken().take(count));
    }
    if n > 0 {
        assert(MediaTrack::looked(tracks[n - 1], tracks[n - 1 + 1], looks[n - 1]));
        if found_closed(looks) {
            assert(stream.take(count) =~= stream);
        }
    }
}

/// A pushed packet arrives whole: once the track took all packets of a frame, it
/// has taken one more frame for each of them, in their order and behind those it
/// had. The payload of each is as long as its packet and has the same byte at every
/// place, it lasts one frame, and nothing was skipped before it.
pub proof fn law_packets_arrive_whole(
    before: Vp8Encoder,
    after: Vp8Encoder,
    packets: Seq<Vec<u8>>,
    outcome: Result<ControlFlow<(), ()>, VideoError>,
    count: int,
    i: int,
)
    requires
        Vp8Encoder::pushed(before, after, packets, outcome, count),
        outcome matches Ok(ControlFlow::Continue(_)),
        0 <= i < packets.len(),
    ensures
        after.taken().len() == before.taken().len() + packets.len(),
        ({
            let frame = after.taken()[before.taken().len() + i];
            &&& frame.0.len() == packets[i]@.len()
            &&& forall|j: int| 0 <= j < packets[i]@.len() ==> frame.0[j] == packets[i]@[j]
            &&& frame.1 == Some(before.spec_rtp_duration())
            &&& frame.2 is None
            &&& frame.3 is None
        }),
        forall|k: int|
            0 <= k < before.taken().len() ==> #[trigger] after.taken()[k] == before.taken()[k],
        after.offered().len() == before.offered().len() + packets.len(),
        after.offered()[before.offered().len() + i] == after.taken()[before.taken().len() + i],
{
}

/// A refused packet ends the frame: the packets before it arrived whole, it was the
/// last one that was offered, whole too, and the time did not advance.
pub proof fn law_refused_packet_is_last(
    before: Vp8Encoder,
    after: Vp8Encoder,
    packets: Seq<Vec<u8>>,
    outcome: Result<ControlFlow<(), ()>, VideoError>,
    count: int,
)
    requires
        Vp8Encoder::pushed(before, after, packets, outcome, count),
        outcome matches Ok(ControlFlow::Break(_)),
    ensures
        0 <= count < packets.len(),
        after.taken().len() == before.taken().len() + count,
        forall|i: int|
            #![trigger packets[i]]
            0 <= i < count ==> after.taken()[before.taken().len() + i].0 == packets[i]@,
        after.offered().len() == before.offered().len() + count + 1,
        after.offered().last().0 == packets[count]@,
        after.spec_pts() == before.spec_pts(),
{
}

/// A decoded picture keeps its planes: each sample of luma stands at its pixel,
/// the U samples follow the luma, and the V samples follow the U samples.
pub proof fn law_planes_in_order(img: DecodedImage, row: int, col: int)
    requires
        0 <= row < img.height,
        0 <= col < img.width,
    ensures
        ({
            let w = img.width as int;
            let h = img.height as int;
            let data = img.i420();
            let chroma = row * (w / 2) + col;
            &&& data.len() == w * h + 2 * ((w / 2) * (h / 2))
            &&& data[row * w + col] == img.y.bytes@[row * img.y.stride + col]
            &&& row < h / 2 && col < w / 2 ==> data[w * h + chroma] == img.u.bytes@[row
                * img.u.stride + col]
            &&& row < h / 2 && col < w / 2 ==> data[w * h + (w / 2) * (h / 2) + chroma]
                == img.v.bytes@[row * img.v.stride + col]
        }),
{
    let w = img.width as nat;
    let h = img.height as nat;
    assert(w * h == h * w) by (nonlinear_arith);
    let m = (w / 2) as int;
    let n = (h / 2) as int;
    assert(m * n == n * m) by (nonlinear_arith);
    law_plane_sample(img.y.bytes@, img.y.stride as nat, h, w, row, col);
    if row < h / 2 && col < w / 2 {
        law_plane_sample(img.u.bytes@, img.u.stride as nat, h / 2, w / 2, row, col);
        law_plane_sample(img.v.bytes@, img.v.stride as nat, h / 2, w / 2, row, col);
    }
}

/// The same for all samples at once.
proof fn lemma_decoded_planes(img: DecodedImage)
    ensures
        forall|row: int, col: int|
            #![trigger img.y.bytes@[row * img.y.stride + col]]
            0 <= row < img.height && 0 <= col < img.width ==> img.i420()[row * img.width + col]
                == img.y.bytes@[row * img.y.stride + col],
        forall|row: int, col: int|
            #![trigger img.u.bytes@[row * img.u.stride + col]]
            0 <= row < img.height / 2 && 0 <= col < img.width / 2 ==> img.i420()[img.width
                * img.height + row * (img.width / 2) + col] == img.u.bytes@[row * img.u.stride
                + col],
        forall|row: int, col: int|
            #![trigger img.v.bytes@[row * img.v.stride + col]]
            0 <= row < img.height / 2 && 0 <= col < img.width / 2 ==> img.i420()[img.width
                * img.height + (img.width / 2) * (img.height / 2) + row * (img.width / 2) + col]
                == img.v.bytes@[row * img.v.stride + col],
{
    assert forall|row: int, col: int|
        #![trigger img.y.bytes@[row * img.y.stride + col]]
        0 <= row < img.height && 0 <= col < img.width implies img.i420()[row * img.width + col]
        == img.y.bytes@[row * img.y.stride + col] by {
        law_planes_in_order(img, row, col);
    }
    assert forall|row: int, col: int|
        #![trigger img.u.bytes@[row * img.u.stride + col]]
        0 <= row < img.height / 2 && 0 <= col < img.width / 2 implies img.i420()[img.width
        * img.height + row * (img.width / 2) + col] == img.u.bytes@[row * img.u.stride + col] by {
        law_planes_in_order(img, row, col);
    }
    assert forall|row: int, col: int|
        #![trigger img.v.bytes@[row * img.v.stride + col]]
        0 <= row < img.height / 2 && 0 <= col < img.width / 2 implies img.i420()[img.width
        * img.height + (img.width / 2) * (img.height / 2) + row * (img.width / 2) + col]
        == img.v.bytes@[row * img.v.stride + col] by {
        law_planes_in_order(img, row, col);
    }
}

} // verus!
