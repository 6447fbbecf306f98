//! Media tracks: encoded frames on their way from an encoder to a decoder.
use bytes::Bytes;
use tokio::sync::broadcast;
use tokio::sync::broadcast::error::TryRecvError;
use vstd::prelude::*;

use crate::codec::Codec;

verus! {

/// A cheaply cloned, immutable run of bytes.
#[verifier::external_type_specification]
#[verifier::external_body]
pub struct ExBytes(bytes::Bytes);

/// The sending half of a broadcast channel.
#[verifier::external_type_specification]
#[verifier::external_body]
#[verifier::reject_recursive_types(T)]
pub struct ExSender<T>(tokio::sync::broadcast::Sender<T>);

/// The receiving half of a broadcast channel.
#[verifier::external_type_specification]
#[verifier::external_body]
#[verifier::reject_recursive_types(T)]
pub struct ExReceiver<T>(tokio::sync::broadcast::Receiver<T>);

/// The bytes that a [`Bytes`] holds.
pub uninterp spec fn bytes_content(b: Bytes) -> Seq<u8>;

/// The frames that a channel has taken so far from its only sending half, oldest
/// first: each as payload, sample count, skipped frames and skipped samples.
pub uninterp spec fn frames_taken(sender: broadcast::Sender<MediaFrame>) -> Seq<
    (Seq<u8>, Option<u32>, Option<u32>, Option<u32>),
>;

/// The frames that were handed to a sending half so far, oldest first, whether
/// the channel took them or not.
pub uninterp spec fn frames_offered(sender: broadcast::Sender<MediaFrame>) -> Seq<
    (Seq<u8>, Option<u32>, Option<u32>, Option<u32>),
>;

/// Whether a sending half is the only one of its channel.
pub uninterp spec fn is_only_sender(sender: broadcast::Sender<MediaFrame>) -> bool;

/// The frames that the channel of a sending half takes in its whole life, oldest first.
pub uninterp spec fn sender_stream(sender: broadcast::Sender<MediaFrame>) -> Seq<
    (Seq<u8>, Option<u32>, Option<u32>, Option<u32>),
>;

/// The frames that the channel of a receiving half takes in its whole life, oldest first.
pub uninterp spec fn receiver_stream(receiver: broadcast::Receiver<MediaFrame>) -> Seq<
    (Seq<u8>, Option<u32>, Option<u32>, Option<u32>),
>;

/// How many frames of its channel a receiving half has passed: those that it
/// handed out, and those that were overwritten before.
pub uninterp spec fn frames_passed(receiver: broadcast::Receiver<MediaFrame>) -> nat;

/// How many frames the channel of a receiving half keeps for it at least, before
/// the oldest are overwritten.
pub uninterp spec fn channel_capacity(receiver: broadcast::Receiver<MediaFrame>) -> nat;

/// What each look at a receiving half gave so far, oldest first: a frame, or why
/// there was none.
pub uninterp spec fn looks_made(receiver: broadcast::Receiver<MediaFrame>) -> Seq<
    Result<(Seq<u8>, Option<u32>, Option<u32>, Option<u32>), RecvError>,
>;

/// What kind of media a track carries.
#[derive(Debug, Clone, Copy, PartialEq, Eq, Structural)]
pub enum TrackKind {
    Audio,
    Video,
}

/// One encoded frame of a track.
#[derive(Debug)]
pub struct MediaFrame {
    pub payload: Bytes,
    pub sample_count: Option<u32>,
    pub skipped_frames: Option<u32>,
    pub skipped_samples: Option<u32>,
}

impl View for MediaFrame {
    type V = (Seq<u8>, Option<u32>, Option<u32>, Option<u32>);

    open spec fn view(&self) -> (Seq<u8>, Option<u32>, Option<u32>, Option<u32>) {
        (
            bytes_content(self.payload),
            self.sample_count,
            self.skipped_frames,
            self.skipped_samples,
        )
    }
}

/// Why no frame could be taken from a track.
#[derive(Debug, Clone, Copy, PartialEq, Eq, Structural)]
pub enum RecvError {
    /// No frame is waiting; more may come.
    Empty,
    /// This many frames were overwritten before they could be read.
    Lagged(u64),
    /// The sender is gone and every frame was read.
    Closed,
}

/// A frame as a track carries it: payload, sample count, skipped frames and
/// skipped samples.
pub type FrameView = (Seq<u8>, Option<u32>, Option<u32>, Option<u32>);

/// What a look at a track gave: a frame, or why there was none.
pub type Look = Result<FrameView, RecvError>;

/// The look that gave `received`.
pub open spec fn look_of(received: Result<MediaFrame, RecvError>) -> Look {
    match received {
        Ok(frame) => Ok(frame@),
        Err(error) => Err(error),
    }
}

/// Whether a look can give `look` at a channel that takes the frames `stream` and
/// keeps `capacity` of them, and takes a receiver from `before` frames passed to
/// `after`.
pub open spec fn handed_over(
    stream: Seq<FrameView>,
    capacity: nat,
    before: nat,
    after: nat,
    look: Look,
) -> bool {
    match look {
        Ok(frame) => before < stream.len() && frame == stream[before as int] && after == before
            + 1,
        Err(RecvError::Empty) => after == before,
        Err(RecvError::Lagged(missed)) => missed > 0 && after == before + missed && after
            < stream.len() && after + capacity <= stream.len(),
        Err(RecvError::Closed) => after == before && before == stream.len(),
    }
}

/// Whether the last of some looks found the channel closed.
pub open spec fn found_closed(looks: Seq<Look>) -> bool {
    looks.len() > 0 && looks.last() == Err::<FrameView, RecvError>(RecvError::Closed)
}

/// `Bytes::copy_from_slice`: a [`Bytes`] that holds a copy of the slice.
#[verifier::external_body]
pub(crate) fn copy_to_bytes(data: &[u8]) -> (b: Bytes)
    ensures
        bytes_content(b) == data@,
{
    Bytes::copy_from_slice(data)
}

/// `[u8]::to_vec` on a [`Bytes`], which derefs to the slice it holds: a vector
/// with the same bytes.
#[verifier::external_body]
pub(crate) fn bytes_to_vec(b: &Bytes) -> (data: Vec<u8>)
    ensures
        data@ == bytes_content(*b),
{
    b.to_vec()
}

/// `broadcast::channel`: the two halves of a channel that was handed nothing and
/// has taken nothing yet, and that keeps at least `capacity` frames. It panics on
/// capacity zero and on one above half of `usize::MAX`; it also allocates a slot
/// for each frame at once, which the bound here keeps addressable.
#[verifier::external_body]
pub(crate) fn open_channel(capacity: usize) -> (halves: (
    broadcast::Sender<MediaFrame>,
    broadcast::Receiver<MediaFrame>,
))
    requires
        0 < capacity <= usize::MAX / 4096,
    ensures
        is_only_sender(halves.0),
        frames_offered(halves.0).len() == 0,
        frames_taken(halves.0).len() == 0,
        receiver_stream(halves.1) == sender_stream(halves.0),
        frames_passed(halves.1) == 0,
        channel_capacity(halves.1) >= capacity,
        looks_made(halves.1).len() == 0,
{
    broadcast::channel(capacity)
}

/// `broadcast::Sender::send`: one more frame is handed to the sending half. Either
/// the channel takes it, and the number of receivers it goes to is returned, or
/// there is no receiver and the frame is handed back. What the channel has taken
/// is the beginning of what it takes in its life. Whether a receiver is left
/// depends on who holds the other half, so which of the two happens is not stated.
#[verifier::external_body]
pub(crate) fn send(sender: &mut broadcast::Sender<MediaFrame>, frame: MediaFrame) -> (sent: Result<
    usize,
    MediaFrame,
>)
    requires
        is_only_sender(*old(sender)),
    ensures
        is_only_sender(*final(sender)),
        sender_stream(*final(sender)) == sender_stream(*old(sender)),
        frames_offered(*final(sender)) == frames_offered(*old(sender)).push(frame@),
        frames_taken(*final(sender)).is_prefix_of(sender_stream(*final(sender))),
        match sent {
            Ok(receivers) => receivers > 0 && frames_taken(*final(sender)) == frames_taken(
                *old(sender),
            ).push(frame@),
            Err(back) => back == frame && frames_taken(*final(sender)) == frames_taken(
                *old(sender),
            ),
        },
{
    sender.send(frame).map_err(|e| e.0)
}

/// `broadcast::Receiver::try_recv`: one more look at the channel. It gives the next
/// frame after those that were passed, or why there is none. A lag tells how many
/// frames, at least one, are passed without being handed out; the channel keeps
/// as many after them as it can. A closed channel has no frame left and stays
/// closed. Which of these happens depends on the sender, which runs elsewhere, so
/// it is not stated.
#[verifier::external_body]
pub(crate) fn try_receive(receiver: &mut broadcast::Receiver<MediaFrame>) -> (received: Result<
    MediaFrame,
    RecvError,
>)
    ensures
        receiver_stream(*final(receiver)) == receiver_stream(*old(receiver)),
        channel_capacity(*final(receiver)) == channel_capacity(*old(receiver)),
        looks_made(*final(receiver)) == looks_made(*old(receiver)).push(look_of(received)),
        handed_over(
            receiver_stream(*old(receiver)),
            channel_capacity(*old(receiver)),
            frames_passed(*old(receiver)),
            frames_passed(*final(receiver)),
            look_of(received),
        ),
        found_closed(looks_made(*old(receiver))) ==> found_closed(looks_made(*final(receiver))),
{
    match receiver.try_recv() {
        Ok(frame) => Ok(frame),
        Err(TryRecvError::Empty) => Err(RecvError::Empty),
        Err(TryRecvError::Lagged(missed)) => Err(RecvError::Lagged(missed)),
        Err(TryRecvError::Closed) => Err(RecvError::Closed),
    }
}

/// `Bytes::clone`: another handle to the same bytes.
pub assume_specification[ <Bytes as Clone>::clone ](b: &Bytes) -> (copy: Bytes)
    ensures
        bytes_content(copy) == bytes_content(*b),
;

impl Clone for MediaFrame {
    fn clone(&self) -> (copy: Self)
        ensures
            copy@ == self@,
    {
        MediaFrame {
            payload: self.payload.clone(),
            sample_count: self.sample_count,
            skipped_frames: self.skipped_frames,
            skipped_samples: self.skipped_samples,
        }
    }
}

impl MediaFrame {
    /// A frame that carries a copy of `payload` and lasts `duration` clock ticks.
    pub fn of_packet(payload: &[u8], duration: u32) -> (frame: Self)
        ensures
            frame@ == (payload@, Some(duration), None::<u32>, None::<u32>),
    {
        MediaFrame {
            payload: copy_to_bytes(payload),
            sample_count: Some(duration),
            skipped_frames: None,
            skipped_samples: None,
        }
    }

    /// A copy of the encoded bytes.
    pub fn payload_bytes(&self) -> (data: Vec<u8>)
        ensures
            data@ == self@.0,
    {
        bytes_to_vec(&self.payload)
    }
}

/// The receiving end of a stream of encoded frames.
pub struct MediaTrack {
    receiver: broadcast::Receiver<MediaFrame>,
    codec: Codec,
    kind: TrackKind,
}

impl MediaTrack {
    /// The codec of the track's frames.
    pub closed spec fn spec_codec(&self) -> Codec {
        self.codec
    }

    /// Whether the track is audio or video.
    pub closed spec fn spec_kind(&self) -> TrackKind {
        self.kind
    }

    /// The frames that are put on the track in its whole life.
    pub closed spec fn stream(&self) -> Seq<FrameView> {
        receiver_stream(self.receiver)
    }

    /// How many of its frames the track has passed.
    pub closed spec fn passed(&self) -> nat {
        frames_passed(self.receiver)
    }

    /// How many frames the track keeps at least, before the oldest are overwritten.
    pub closed spec fn capacity(&self) -> nat {
        channel_capacity(self.receiver)
    }

    /// What each look at the track gave so far.
    pub closed spec fn looks(&self) -> Seq<Look> {
        looks_made(self.receiver)
    }

    /// Whether one more look takes a track from `before` to `after` and gives `look`.
    /// Once the track is closed, it stays so.
    pub open spec fn looked(before: Self, after: Self, look: Look) -> bool {
        &&& after.stream() == before.stream()
        &&& after.capacity() == before.capacity()
        &&& after.looks() == before.looks().push(look)
        &&& handed_over(before.stream(), before.capacity(), before.passed(), after.passed(), look)
        &&& found_closed(before.looks()) ==> found_closed(after.looks())
    }

    /// A track that reads from `receiver`.
    pub fn new(receiver: broadcast::Receiver<MediaFrame>, codec: Codec, kind: TrackKind) -> (track:
        Self)
        ensures
            track.stream() == receiver_stream(receiver),
            track.passed() == frames_passed(receiver),
            track.capacity() == channel_capacity(receiver),
            track.looks() == looks_made(receiver),
            track.spec_codec() == codec,
            track.spec_kind() == kind,
    {
        MediaTrack { receiver, codec, kind }
    }

    /// The codec of the track's frames.
    pub fn codec(&self) -> (codec: Codec)
        ensures
            codec == self.spec_codec(),
    {
        self.codec
    }

    /// Whether the track is audio or video.
    pub fn kind(&self) -> (kind: TrackKind)
        ensures
            kind == self.spec_kind(),
    {
        self.kind
    }

    /// Take the next waiting frame, without blocking.
    pub fn try_recv(&mut self) -> (received: Result<MediaFrame, RecvError>)
        ensures
            MediaTrack::looked(*old(self), *final(self), look_of(received)),
            final(self).spec_codec() == old(self).spec_codec(),
            final(self).spec_kind() == old(self).spec_kind(),
    {
        try_receive(&mut self.receiver)
    }
}

/// The frames among a run of looks at a track.
pub open spec fn frames_read(looks: Seq<Look>) -> Seq<FrameView>
    decreases looks.len(),
{
    if looks.len() == 0 {
        Seq::empty()
    } else {
        let before = frames_read(looks.drop_last());
        match looks.last() {
            Ok(frame) => before.push(frame),
            Err(_) => before,
        }
    }
}

/// Whether `looks` are what a run of looks gave, and `tracks` the track before
/// each of them and after the last.
pub open spec fn is_run(tracks: Seq<MediaTrack>, looks: Seq<Look>) -> bool {
    &&& tracks.len() == looks.len() + 1
    &&& forall|i: int|
        0 <= i < looks.len() ==> MediaTrack::looked(
            #[trigger] tracks[i],
            tracks[i + 1],
            #[trigger] looks[i],
        )
}

/// A part of a run, from its beginning, is a run.
proof fn lemma_shorter_run(tracks: Seq<MediaTrack>, looks: Seq<Look>)
    requires
        is_run(tracks, looks),
        looks.len() > 0,
    ensures
        is_run(tracks.drop_last(), looks.drop_last()),
        MediaTrack::looked(
            tracks[looks.len() - 1],
            tracks[looks.len() as int],
            looks[looks.len() - 1],
        ),
{
    let t = tracks.drop_last();
    let l = looks.drop_last();
    let n = looks.len() as int;
    assert forall|i: int| 0 <= i < l.len() implies MediaTrack::looked(
        #[trigger] t[i],
        t[i + 1],
        #[trigger] l[i],
    ) by {
        assert(MediaTrack::looked(tracks[i], tracks[i + 1], looks[i]));
    }
    assert(MediaTrack::looked(tracks[n - 1], tracks[n - 1 + 1], looks[n - 1]));
}

/// A run of looks at a track that missed no frame hands out, in order, each
/// frame that it passed.
pub proof fn law_read_in_order(tracks: Seq<MediaTrack>, looks: Seq<Look>)
    requires
        is_run(tracks, looks),
        tracks[0].passed() <= tracks[0].stream().len(),
        forall|i: int|
            0 <= i < looks.len() ==> !(#[trigger] looks[i] matches Err(RecvError::Lagged(_))),
    ensures
        ({
            let first = tracks[0];
            let last = tracks[looks.len() as int];
            &&& last.stream() == first.stream()
            &&& last.capacity() == first.capacity()
            &&& first.passed() <= last.passed() <= first.stream().len()
            &&& frames_read(looks) == first.stream().subrange(
                first.passed() as int,
                last.passed() as int,
            )
        }),
    decreases looks.len(),
{
    let n = looks.len() as int;
    let stream = tracks[0].stream();
    let start = tracks[0].passed() as int;
    if n == 0 {
        assert(frames_read(looks) =~= stream.subrange(start, start));
    } else {
        lemma_shorter_run(tracks, looks);
        let l = looks.drop_last();
        assert forall|i: int| 0 <= i < l.len() implies !(#[trigger] l[i] matches Err(
            RecvError::Lagged(_),
        )) by {
            assert(l[i] == looks[i]);
        }
        law_read_in_order(tracks.drop_last(), l);
        assert(frames_read(looks) =~= stream.subrange(start, tracks[n].passed() as int));
    }
}

/// A track with at most its capacity unread misses no frame.
pub proof fn law_capacity_suffices(tracks: Seq<MediaTrack>, looks: Seq<Look>)
    requires
        is_run(tracks, looks),
        tracks[0].passed() <= tracks[0].stream().len(),
        tracks[0].stream().len() <= tracks[0].passed() + tracks[0].capacity(),
    ensures
        forall|i: int|
            0 <= i < looks.len() ==> !(#[trigger] looks[i] matches Err(RecvError::Lagged(_))),
    decreases looks.len(),
{
    if looks.len() > 0 {
        let n = looks.len() as int;
        lemma_shorter_run(tracks, looks);
        let l = looks.drop_last();
        law_capacity_suffices(tracks.drop_last(), l);
        law_read_in_order(tracks.drop_last(), l);
        assert forall|i: int| 0 <= i < n implies !(#[trigger] looks[i] matches Err(
            RecvError::Lagged(_),
        )) by {
            if i < n - 1 {
                assert(l[i] == looks[i]);
            }
        }
    }
}

/// Once a look found the track closed, every later one does.
pub proof fn law_closed_for_good(tracks: Seq<MediaTrack>, looks: Seq<Look>, i: int, j: int)
    requires
        is_run(tracks, looks),
        0 <= i <= j < looks.len(),
        looks[i] == Err::<FrameView, RecvError>(RecvError::Closed),
    ensures
        looks[j] == Err::<FrameView, RecvError>(RecvError::Closed),
    decreases j,
{
    if i < j {
        law_closed_for_good(tracks, looks, i, j - 1);
        assert(MediaTrack::looked(tracks[j - 1], tracks[j - 1 + 1], looks[j - 1]));
        assert(MediaTrack::looked(tracks[j], tracks[j + 1], looks[j]));
    }
}

/// A frame counts with all it holds: the bytes of its payload and its three counts.
pub proof fn law_frame_contents(frame: MediaFrame)
    ensures
        frame@.0 == bytes_content(frame.payload),
        frame@.1 == frame.sample_count,
        frame@.2 == frame.skipped_frames,
        frame@.3 == frame.skipped_samples,
{
}

/// One look changes one thing: it passes the frame that it hands out, or the frames
/// that it reports as missed, or none, and it is remembered.
pub proof fn law_one_look(before: MediaTrack, after: MediaTrack, look: Look)
    requires
        MediaTrack::looked(before, after, look),
    ensures
        after.stream() == before.stream(),
        after.capacity() == before.capacity(),
        after.looks().len() == before.looks().len() + 1,
        after.looks().last() == look,
        match look {
            Ok(frame) => {
                &&& before.passed() < before.stream().len()
                &&& frame == before.stream()[before.passed() as int]
                &&& after.passed() == before.passed() + 1
            },
            Err(RecvError::Lagged(missed)) => missed > 0 && after.passed() == before.passed()
                + missed,
            Err(RecvError::Empty) => after.passed() == before.passed(),
            Err(RecvError::Closed) => after.passed() == before.passed() && before.passed()
                == before.stream().len(),
        },
{
}

} // verus!
