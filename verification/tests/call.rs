//! Calls: options, incoming calls and the course of a call with video.
use std::ops::ControlFlow;

use callme::call::{
    call_mode, decoder_step, incoming_call, Args, CallEvent, CallMode, CallState, CallStep,
    DecoderStep, Incoming, VideoCall,
};
use callme::error::VideoError;
use callme::rtc::TrackKind;
use callme::video::capture::CameraConfig;
use callme::video::VideoFrame;

#[test]
fn options_decide_the_mode() {
    let mut args = Args {
        input_device: None,
        output_device: None,
        disable_processing: false,
        video: true,
        camera: 2,
        video_bitrate: 700,
        ascii: true,
    };
    assert_eq!(args.video_cfg(), (true, 2, 700, true));
    assert!(args.processing_enabled());
    assert_eq!(
        call_mode(args.video_cfg()),
        CallMode::Video { camera: 2, bitrate_kbps: 700, ascii: true }
    );
    args.video = false;
    args.disable_processing = true;
    assert_eq!(call_mode(args.video_cfg()), CallMode::Audio);
    assert!(!args.processing_enabled());
}

#[test]
fn the_only_call_is_handled_without_asking() {
    for auto in [false, true] {
        for answer in [None, Some(false), Some(true)] {
            assert_eq!(incoming_call(false, auto, answer), Incoming::HandleOnly);
        }
    }
}

#[test]
fn one_of_many_calls_needs_consent() {
    assert_eq!(incoming_call(true, true, None), Incoming::Handle);
    assert_eq!(incoming_call(true, false, None), Incoming::Ask);
    assert_eq!(incoming_call(true, false, Some(true)), Incoming::Handle);
    assert_eq!(incoming_call(true, false, Some(false)), Incoming::Reject);
}

#[test]
fn a_call_with_everything_runs_to_its_end() {
    let mut call = VideoCall::new(1, 500, false);
    let course = [
        (
            CallEvent::Begin,
            CallStep::OpenCamera(CameraConfig { index: 1, width: 640, height: 480, fps: 30 }),
        ),
        (CallEvent::CameraOpened(true), CallStep::CreateTrack { bitrate_kbps: 500 }),
        (CallEvent::TrackCreated(true), CallStep::SendVideo),
        (CallEvent::VideoSent(true), CallStep::CaptureAudio),
        (CallEvent::AudioCaptured(true), CallStep::SendAudio),
        (CallEvent::AudioSent(true), CallStep::StartDisplay { ascii: false }),
        (CallEvent::DisplayStarted, CallStep::Receive),
        (CallEvent::Received(TrackKind::Audio), CallStep::Play),
        (CallEvent::Played(true), CallStep::Receive),
        (CallEvent::Received(TrackKind::Video), CallStep::Decode),
        (CallEvent::Decoding, CallStep::Receive),
        (CallEvent::NoMoreTracks, CallStep::Finish),
    ];
    for (event, step) in course {
        assert_eq!(call.step(event), step);
    }
    assert_eq!(call.state, CallState::Over);
}

#[test]
fn a_call_goes_on_without_its_camera() {
    let mut call = VideoCall::new(0, 500, true);
    call.step(CallEvent::Begin);
    assert_eq!(call.step(CallEvent::CameraOpened(false)), CallStep::CaptureAudio);
    let mut call = VideoCall::new(0, 500, true);
    call.step(CallEvent::Begin);
    call.step(CallEvent::CameraOpened(true));
    assert_eq!(call.step(CallEvent::TrackCreated(false)), CallStep::CaptureAudio);
    assert_eq!(call.step(CallEvent::AudioCaptured(true)), CallStep::SendAudio);
    assert_eq!(call.step(CallEvent::AudioSent(true)), CallStep::StartDisplay { ascii: true });
}

/// A call that has come to `state`.
fn call_in(state: CallState) -> VideoCall {
    VideoCall { camera: 0, bitrate_kbps: 500, ascii: false, state }
}

#[test]
fn failures_end_the_call() {
    let failures = [
        (CallState::SendingVideo, CallEvent::VideoSent(false)),
        (CallState::CapturingAudio, CallEvent::AudioCaptured(false)),
        (CallState::SendingAudio, CallEvent::AudioSent(false)),
        (CallState::Playing, CallEvent::Played(false)),
        (CallState::Receiving, CallEvent::ReceiveFailed),
    ];
    for (state, event) in failures {
        let mut call = call_in(state);
        assert_eq!(call.step(event), CallStep::Fail);
        assert_eq!(call.state, CallState::Over);
    }
}

#[test]
fn the_end_of_the_display_ends_the_call() {
    for state in [CallState::Receiving, CallState::Playing] {
        let mut call = call_in(state);
        assert_eq!(call.step(CallEvent::DisplayEnded), CallStep::Finish);
        assert_eq!(call.state, CallState::Over);
    }
}

#[test]
fn decoding_task_forwards_waits_and_stops() {
    match decoder_step(Ok(ControlFlow::Continue(Some(VideoFrame::new_black(2, 2))))) {
        DecoderStep::Forward(frame) => assert_eq!(frame.data.len(), 6),
        other => panic!("unexpected step {other:?}"),
    }
    assert!(matches!(
        decoder_step(Ok(ControlFlow::Continue(None))),
        DecoderStep::Wait { millis: 1 }
    ));
    assert!(matches!(decoder_step(Ok(ControlFlow::Break(()))), DecoderStep::Stop));
    assert!(matches!(
        decoder_step(Err(VideoError::DecodeFailed(1))),
        DecoderStep::Stop
    ));
}
