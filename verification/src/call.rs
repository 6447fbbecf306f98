//! Calls: what the command line asks for, and the course of a call with video.
use std::ops::ControlFlow;

use vstd::prelude::*;

use crate::error::VideoError;
use crate::rtc::TrackKind;
use crate::video::capture::CameraConfig;
use crate::video::VideoFrame;

verus! {

/// Whether video is enabled, the camera index, the bitrate in kilobits per
/// second, and whether remote video is shown as ASCII art.
pub type VideoCfg = (bool, u32, u32, bool);

/// The options of the command line.
#[derive(Debug)]
pub struct Args {
    /// The audio input device to use.
    pub input_device: Option<String>,
    /// The audio output device to use.
    pub output_device: Option<String>,
    /// If set, audio processing and echo cancellation will be disabled.
    pub disable_processing: bool,
    /// Enable video: capture local camera and display remote video.
    pub video: bool,
    /// Camera device index.
    pub camera: u32,
    /// VP8 encode bitrate in kbps for the outgoing video track.
    pub video_bitrate: u32,
    /// Render remote video as ASCII art in the terminal instead of opening a pixel window.
    pub ascii: bool,
}

impl Args {
    /// The options that concern video.
    pub fn video_cfg(&self) -> (cfg: VideoCfg)
        ensures
            cfg == (self.video, self.camera, self.video_bitrate, self.ascii),
    {
        (self.video, self.camera, self.video_bitrate, self.ascii)
    }

    /// Whether audio is processed.
    pub fn processing_enabled(&self) -> (enabled: bool)
        ensures
            enabled == !self.disable_processing,
    {
        !self.disable_processing
    }
}

/// How a connection is handled.
#[derive(Debug, Clone, Copy, PartialEq, Eq, Structural)]
pub enum CallMode {
    /// With audio alone.
    Audio,
    /// With audio and video.
    Video { camera: u32, bitrate_kbps: u32, ascii: bool },
}

/// How a connection is handled under the given options.
pub fn call_mode(cfg: VideoCfg) -> (mode: CallMode)
    ensures
        mode == if cfg.0 {
            CallMode::Video { camera: cfg.1, bitrate_kbps: cfg.2, ascii: cfg.3 }
        } else {
            CallMode::Audio
        },
{
    if cfg.0 {
        CallMode::Video { camera: cfg.1, bitrate_kbps: cfg.2, ascii: cfg.3 }
    } else {
        CallMode::Audio
    }
}

/// What is done with an incoming call.
#[derive(Debug, Clone, Copy, PartialEq, Eq, Structural)]
pub enum Incoming {
    /// Handle it, and accept no other call.
    HandleOnly,
    /// Handle it beside others.
    Handle,
    /// Ask whether to accept it.
    Ask,
    /// Reject it.
    Reject,
}

/// What is done with an incoming call: the only one is handled without asking,
/// one of many after the user agreed, unless calls are accepted automatically.
/// `answer` is what the user said, if they were asked already.
pub fn incoming_call(many: bool, auto: bool, answer: Option<bool>) -> (what: Incoming)
    ensures
        what == if !many {
            Incoming::HandleOnly
        } else if auto || answer == Some(true) {
            Incoming::Handle
        } else if answer == Some(false) {
            Incoming::Reject
        } else {
            Incoming::Ask
        },
{
    if !many {
        return Incoming::HandleOnly;
    }
    if auto {
        return Incoming::Handle;
    }
    match answer {
        Some(accepted) => if accepted {
            Incoming::Handle
        } else {
            Incoming::Reject
        },
        None => Incoming::Ask,
    }
}

/// What happened to a call with video. A flag tells whether the step succeeded.
#[derive(Debug, Clone, Copy, PartialEq, Eq, Structural)]
pub enum CallEvent {
    /// The call begins.
    Begin,
    /// The camera was opened.
    CameraOpened(bool),
    /// The VP8 track was created.
    TrackCreated(bool),
    /// The video track was sent.
    VideoSent(bool),
    /// The audio track was captured.
    AudioCaptured(bool),
    /// The audio track was sent.
    AudioSent(bool),
    /// The display runs.
    DisplayStarted,
    /// The peer sent a track of this kind.
    Received(TrackKind),
    /// The peer sends no more tracks.
    NoMoreTracks,
    /// Receiving a track failed.
    ReceiveFailed,
    /// The received audio track is played.
    Played(bool),
    /// The received video track is decoded.
    Decoding,
    /// The display ended.
    DisplayEnded,
}

/// What a call with video does next.
#[derive(Debug, Clone, Copy, PartialEq, Eq, Structural)]
pub enum CallStep {
    /// Open the camera.
    OpenCamera(CameraConfig),
    /// Create a VP8 track of this bitrate from the camera.
    CreateTrack { bitrate_kbps: u32 },
    /// Send the VP8 track to the peer.
    SendVideo,
    /// Capture audio.
    CaptureAudio,
    /// Send the audio track to the peer.
    SendAudio,
    /// Start the display, in the terminal or in a window.
    StartDisplay { ascii: bool },
    /// Wait for a track of the peer, or for the display to end.
    Receive,
    /// Play the received audio track.
    Play,
    /// Decode the received video track for the display.
    Decode,
    /// End the call in order.
    Finish,
    /// End the call with the error at hand.
    Fail,
}

/// How far a call with video has come: what it waits for.
#[derive(Debug, Clone, Copy, PartialEq, Eq, Structural)]
pub enum CallState {
    Idle,
    OpeningCamera,
    CreatingTrack,
    SendingVideo,
    CapturingAudio,
    SendingAudio,
    StartingDisplay,
    Receiving,
    Playing,
    SettingUpDecoder,
    Over,
}

/// A call with audio and video.
#[derive(Debug, Clone, Copy, PartialEq, Eq, Structural)]
pub struct VideoCall {
    pub camera: u32,
    pub bitrate_kbps: u32,
    pub ascii: bool,
    pub state: CallState,
}

impl VideoCall {
    /// Whether the call waits for `event`.
    pub open spec fn awaits(self, event: CallEvent) -> bool {
        match self.state {
            CallState::Idle => event is Begin,
            CallState::OpeningCamera => event is CameraOpened,
            CallState::CreatingTrack => event is TrackCreated,
            CallState::SendingVideo => event is VideoSent,
            CallState::CapturingAudio => event is AudioCaptured,
            CallState::SendingAudio => event is AudioSent,
            CallState::StartingDisplay => event is DisplayStarted,
            CallState::Receiving => event is Received || event is NoMoreTracks
                || event is ReceiveFailed || event is DisplayEnded,
            CallState::Playing => event is Played || event is DisplayEnded,
            CallState::SettingUpDecoder => event is Decoding,
            CallState::Over => false,
        }
    }

    /// What follows `event`.
    pub open spec fn follows(self, event: CallEvent) -> CallStep {
        match event {
            CallEvent::Begin => CallStep::OpenCamera(
                CameraConfig { index: self.camera, width: 640, height: 480, fps: 30 },
            ),
            CallEvent::CameraOpened(true) => CallStep::CreateTrack {
                bitrate_kbps: self.bitrate_kbps,
            },
            CallEvent::CameraOpened(false) => CallStep::CaptureAudio,
            CallEvent::TrackCreated(true) => CallStep::SendVideo,
            CallEvent::TrackCreated(false) => CallStep::CaptureAudio,
            CallEvent::VideoSent(true) => CallStep::CaptureAudio,
            CallEvent::AudioCaptured(true) => CallStep::SendAudio,
            CallEvent::AudioSent(true) => CallStep::StartDisplay { ascii: self.ascii },
            CallEvent::DisplayStarted => CallStep::Receive,
            CallEvent::Received(TrackKind::Audio) => CallStep::Play,
            CallEvent::Received(TrackKind::Video) => CallStep::Decode,
            CallEvent::Played(true) => CallStep::Receive,
            CallEvent::Decoding => CallStep::Receive,
            CallEvent::NoMoreTracks => CallStep::Finish,
            CallEvent::DisplayEnded => CallStep::Finish,
            CallEvent::VideoSent(false) => CallStep::Fail,
            CallEvent::AudioCaptured(false) => CallStep::Fail,
            CallEvent::AudioSent(false) => CallStep::Fail,
            CallEvent::Played(false) => CallStep::Fail,
            CallEvent::ReceiveFailed => CallStep::Fail,
        }
    }

    /// What a call waits for while it does `step`.
    pub open spec fn waiting_for(step: CallStep) -> CallState {
        match step {
            CallStep::OpenCamera(_) => CallState::OpeningCamera,
            CallStep::CreateTrack { .. } => CallState::CreatingTrack,
            CallStep::SendVideo => CallState::SendingVideo,
            CallStep::CaptureAudio => CallState::CapturingAudio,
            CallStep::SendAudio => CallState::SendingAudio,
            CallStep::StartDisplay { .. } => CallState::StartingDisplay,
            CallStep::Receive => CallState::Receiving,
            CallStep::Play => CallState::Playing,
            CallStep::Decode => CallState::SettingUpDecoder,
            CallStep::Finish => CallState::Over,
            CallStep::Fail => CallState::Over,
        }
    }

    /// The call after `event`.
    pub open spec fn after(self, event: CallEvent) -> VideoCall {
        VideoCall { state: Self::waiting_for(self.follows(event)), ..self }
    }

    /// A call that has not begun.
    pub fn new(camera: u32, bitrate_kbps: u32, ascii: bool) -> (call: Self)
        ensures
            call == (VideoCall { camera, bitrate_kbps, ascii, state: CallState::Idle }),
    {
        VideoCall { camera, bitrate_kbps, ascii, state: CallState::Idle }
    }

    /// Handle one event.
    ///
    /// The call first offers its own tracks: video, if the camera works, and
    /// audio. Then it starts the display and takes the peer's tracks until there
    /// are no more or the display ends.
    pub fn step(&mut self, event: CallEvent) -> (step: CallStep)
        requires
            old(self).awaits(event),
        ensures
            step == old(self).follows(event),
            *final(self) == old(self).after(event),
    {
        let step = match event {
            CallEvent::Begin => {
                let mut config = CameraConfig::default();
                config.index = self.camera;
                CallStep::OpenCamera(config)
            },
            CallEvent::CameraOpened(opened) => if opened {
                CallStep::CreateTrack { bitrate_kbps: self.bitrate_kbps }
            } else {
                CallStep::CaptureAudio
            },
            CallEvent::TrackCreated(created) => if created {
                CallStep::SendVideo
            } else {
                CallStep::CaptureAudio
            },
            CallEvent::VideoSent(sent) => if sent {
                CallStep::CaptureAudio
            } else {
                CallStep::Fail
            },
            CallEvent::AudioCaptured(captured) => if captured {
                CallStep::SendAudio
            } else {
                CallStep::Fail
            },
            CallEvent::AudioSent(sent) => if sent {
                CallStep::StartDisplay { ascii: self.ascii }
            } else {
                CallStep::Fail
            },
            CallEvent::DisplayStarted => CallStep::Receive,
            CallEvent::Received(kind) => match kind {
                TrackKind::Audio => CallStep::Play,
                TrackKind::Video => CallStep::Decode,
            },
            CallEvent::NoMoreTracks => CallStep::Finish,
            CallEvent::ReceiveFailed => CallStep::Fail,
            CallEvent::Played(played) => if played {
                CallStep::Receive
            } else {
                CallStep::Fail
            },
            CallEvent::Decoding => CallStep::Receive,
            CallEvent::DisplayEnded => CallStep::Finish,
        };
        self.state = match step {
            CallStep::OpenCamera(_) => CallState::OpeningCamera,
            CallStep::CreateTrack { .. } => CallState::CreatingTrack,
            CallStep::SendVideo => CallState::SendingVideo,
            CallStep::CaptureAudio => CallState::CapturingAudio,
            CallStep::SendAudio => CallState::SendingAudio,
            CallStep::StartDisplay { .. } => CallState::StartingDisplay,
            CallStep::Receive => CallState::Receiving,
            CallStep::Play => CallState::Playing,
            CallStep::Decode => CallState::SettingUpDecoder,
            CallStep::Finish => CallState::Over,
            CallStep::Fail => CallState::Over,
        };
        step
    }
}

/// A call goes on without local video: if the camera or its track cannot be
/// had, the next thing is to capture audio, as it is after a video track was sent.
pub proof fn law_camera_is_optional(call: VideoCall, event: CallEvent)
    requires
        event is CameraOpened || event is TrackCreated,
    ensures
        call.follows(event) != CallStep::Fail,
        event == CallEvent::CameraOpened(false) || event == CallEvent::TrackCreated(false)
            ==> call.follows(event) == call.follows(CallEvent::VideoSent(true)),
{
}

/// The call after a run of events.
pub open spec fn after_events(call: VideoCall, events: Seq<CallEvent>) -> VideoCall
    decreases events.len(),
{
    if events.len() == 0 {
        call
    } else {
        after_events(call, events.drop_last()).after(events.last())
    }
}

/// Whether each event of a run comes when the call waits for it.
pub open spec fn in_course(call: VideoCall, events: Seq<CallEvent>) -> bool
    decreases events.len(),
{
    events.len() > 0 ==> in_course(call, events.drop_last()) && after_events(
        call,
        events.drop_last(),
    ).awaits(events.last())
}

/// Whether a call in this state has sent its audio track.
pub open spec fn audio_is_out(state: CallState) -> bool {
    ||| state == CallState::StartingDisplay
    ||| state == CallState::Receiving
    ||| state == CallState::Playing
    ||| state == CallState::SettingUpDecoder
}

/// No call reaches its display or a track of the peer before its own audio
/// track was sent.
pub proof fn law_audio_first(call: VideoCall, events: Seq<CallEvent>)
    requires
        call.state == CallState::Idle,
        in_course(call, events),
        audio_is_out(after_events(call, events).state),
    ensures
        events.contains(CallEvent::AudioSent(true)),
    decreases events.len(),
{
    if events.len() > 0 {
        let before = events.drop_last();
        let mid = after_events(call, before);
        if events.last() == CallEvent::AudioSent(true) {
            assert(events[events.len() - 1] == CallEvent::AudioSent(true));
        } else {
            law_audio_first(call, before);
            let i = choose|i: int|
                0 <= i < before.len() && before[i] == CallEvent::AudioSent(true);
            assert(events[i] == CallEvent::AudioSent(true));
        }
    }
}

/// What the task that decodes a received track does next.
#[derive(Debug)]
pub enum DecoderStep {
    /// Pass the frame to the display; it is dropped if the display is falling behind.
    Forward(VideoFrame),
    /// Wait this many milliseconds before asking again.
    Wait { millis: u64 },
    /// End the task.
    Stop,
}

/// What the decoding task does after the source's answer: frames are passed on,
/// and the task ends when the track ended or failed.
pub fn decoder_step(answer: Result<ControlFlow<(), Option<VideoFrame>>, VideoError>) -> (step:
    DecoderStep)
    ensures
        step == match answer {
            Ok(ControlFlow::Continue(Some(frame))) => DecoderStep::Forward(frame),
            Ok(ControlFlow::Continue(None)) => DecoderStep::Wait { millis: 1 },
            _ => DecoderStep::Stop,
        },
{
    match answer {
        Ok(ControlFlow::Continue(Some(frame))) => DecoderStep::Forward(frame),
        Ok(ControlFlow::Continue(None)) => DecoderStep::Wait { millis: 1 },
        Ok(ControlFlow::Break(_)) => DecoderStep::Stop,
        Err(_) => DecoderStep::Stop,
    }
}

/// A call opens the camera that it was told to, at 640 by 480 pixels and 30 frames
/// per second, makes a track of the wanted bitrate of it and sends that track, then
/// captures audio and sends that, and then starts the wanted display.
pub proof fn law_own_tracks_first(call: VideoCall)
    ensures
        call.follows(CallEvent::Begin) matches CallStep::OpenCamera(config) && config.index
            == call.camera && config.width == 640 && config.height == 480 && config.fps == 30,
        call.follows(CallEvent::CameraOpened(true)) == (CallStep::CreateTrack {
            bitrate_kbps: call.bitrate_kbps,
        }),
        call.follows(CallEvent::TrackCreated(true)) == CallStep::SendVideo,
        call.follows(CallEvent::VideoSent(true)) == CallStep::CaptureAudio,
        call.follows(CallEvent::CameraOpened(false)) == CallStep::CaptureAudio,
        call.follows(CallEvent::TrackCreated(false)) == CallStep::CaptureAudio,
        call.follows(CallEvent::AudioCaptured(true)) == CallStep::SendAudio,
        call.follows(CallEvent::AudioSent(true)) == (CallStep::StartDisplay { ascii: call.ascii }),
        call.follows(CallEvent::DisplayStarted) == CallStep::Receive,
{
}

/// The peer's audio is played and its video decoded; after either, the call waits
/// for the next track.
pub proof fn law_peer_tracks(call: VideoCall)
    ensures
        call.follows(CallEvent::Received(TrackKind::Audio)) == CallStep::Play,
        call.follows(CallEvent::Received(TrackKind::Video)) == CallStep::Decode,
        call.follows(CallEvent::Played(true)) == CallStep::Receive,
        call.follows(CallEvent::Decoding) == CallStep::Receive,
{
}

/// A call ends in order exactly if the peer sends no more tracks or the display
/// ends, and with an error exactly if sending, capturing, receiving or playing
/// failed. Then, and only then, it waits for nothing more.
pub proof fn law_how_calls_end(call: VideoCall, event: CallEvent)
    ensures
        call.follows(event) == CallStep::Finish <==> event == CallEvent::NoMoreTracks || event
            == CallEvent::DisplayEnded,
        call.follows(event) == CallStep::Fail <==> {
            ||| event == CallEvent::VideoSent(false)
            ||| event == CallEvent::AudioCaptured(false)
            ||| event == CallEvent::AudioSent(false)
            ||| event == CallEvent::Played(false)
            ||| event == CallEvent::ReceiveFailed
        },
        call.after(event).state == CallState::Over <==> call.follows(event) == CallStep::Finish
            || call.follows(event) == CallStep::Fail,
        call.state == CallState::Over ==> !call.awaits(event),
{
}

/// A call waits for the outcome of what it does, and keeps its options.
pub proof fn law_waits_for_its_step(call: VideoCall, event: CallEvent, next: CallEvent)
    ensures
        ({
            let after = call.after(event);
            &&& after.camera == call.camera
            &&& after.bitrate_kbps == call.bitrate_kbps
            &&& after.ascii == call.ascii
            &&& match call.follows(event) {
                CallStep::OpenCamera(_) => after.awaits(next) <==> next is CameraOpened,
                CallStep::CreateTrack { .. } => after.awaits(next) <==> next is TrackCreated,
                CallStep::SendVideo => after.awaits(next) <==> next is VideoSent,
                CallStep::CaptureAudio => after.awaits(next) <==> next is AudioCaptured,
                CallStep::SendAudio => after.awaits(next) <==> next is AudioSent,
                CallStep::StartDisplay { .. } => after.awaits(next) <==> next is DisplayStarted,
                CallStep::Receive => after.awaits(next) <==> next is Received || next
                    is NoMoreTracks || next is ReceiveFailed || next is DisplayEnded,
                CallStep::Play => after.awaits(next) <==> next is Played || next is DisplayEnded,
                CallStep::Decode => after.awaits(next) <==> next is Decoding,
                CallStep::Finish => !after.awaits(next),
                CallStep::Fail => !after.awaits(next),
            }
        }),
{
}

} // verus!
