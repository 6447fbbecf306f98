//! The VP8 codec and the tracks that carry its packets.
use std::ops::ControlFlow;

use callme::codec::{Codec, OpusChannels, VP8_RTP_CLOCK_RATE};
use callme::error::VideoError;
use callme::rtc::{MediaFrame, MediaTrack, RecvError, TrackKind};
use callme::video::render::{step_of, MediaTrackVp8Decoder, NextStep};
use callme::video::vp8::{
    DecodedImage, DecodedPlane, Vp8Config, Vp8Decoder, Vp8Encoder, VPX_CODEC_OK,
};
use callme::video::{VideoFrame, VideoSink, VideoSource};
use tokio::sync::broadcast;

/// An encoder whose packets are the luma of the frame's first two pixels.
struct TinyEncoder {
    inner: Vp8Encoder,
}

impl VideoSink for TinyEncoder {
    fn push_frame(&mut self, frame: &VideoFrame) -> Result<ControlFlow<(), ()>, VideoError> {
        self.inner.push_frame(Ok(vec![frame.data[..2].to_vec()]))
    }
}

fn tiny_encoder(fps: u32, track_cap: usize) -> (TinyEncoder, MediaTrack) {
    let (inner, track) = Vp8Encoder::new(Ok(()), fps, track_cap).unwrap();
    (TinyEncoder { inner }, track)
}

/// A decoder that turns a payload into a frame one pixel high.
struct TinyDecoder {
    inner: MediaTrackVp8Decoder,
}

impl VideoSource for TinyDecoder {
    fn next_frame(&mut self) -> Result<ControlFlow<(), Option<VideoFrame>>, VideoError> {
        match self.inner.next_step() {
            NextStep::Answer(answer) => Ok(answer),
            NextStep::Decode(payload) => {
                let frame = VideoFrame { width: payload.len() as u32, height: 1, data: payload };
                MediaTrackVp8Decoder::next_frame(Ok(Some(frame)))
            }
        }
    }
}

#[test]
fn vp8_encoder_via_video_sink_trait() {
    let width = 64u32;
    let height = 64u32;
    let fps = 30u32;
    let (mut encoder, mut track) = tiny_encoder(fps, 16);
    let frame = VideoFrame::new_black(width, height);
    let sink: &mut dyn VideoSink = &mut encoder;
    for _ in 0..5 {
        assert!(matches!(sink.push_frame(&frame).unwrap(), ControlFlow::Continue(())));
    }
    let mut received = 0;
    while track.try_recv().is_ok() {
        received += 1;
    }
    assert!(received > 0, "encoder must produce encoded frames");
    assert_eq!(received, 5);
}

#[test]
fn vp8_encoder_sink_break_on_track_close() {
    let (mut encoder, track) = tiny_encoder(30, 16);
    drop(track);
    let frame = VideoFrame::new_black(64, 64);
    let sink: &mut dyn VideoSink = &mut encoder;
    let mut got_break = false;
    for _ in 0..10 {
        match sink.push_frame(&frame).unwrap() {
            ControlFlow::Break(()) => {
                got_break = true;
                break;
            }
            ControlFlow::Continue(()) => {}
        }
    }
    assert!(got_break, "encoder should return Break when track receiver is dropped");
}

#[test]
fn video_source_trait_object() {
    let (_encoder, track) = tiny_encoder(30, 8);
    let mut decoder: Box<dyn VideoSource> =
        Box::new(TinyDecoder { inner: MediaTrackVp8Decoder::new(track).unwrap() });
    assert!(matches!(decoder.next_frame().unwrap(), ControlFlow::Continue(None)));
}

#[test]
fn rejects_non_vp8_track() {
    let (_, rx) = broadcast::channel(4);
    let track =
        MediaTrack::new(rx, Codec::Opus { channels: OpusChannels::Stereo }, TrackKind::Audio);
    assert!(MediaTrackVp8Decoder::new(track).is_err());
}

#[test]
fn rejected_track_names_its_codec() {
    let codec = Codec::Opus { channels: OpusChannels::Mono };
    let (_, rx) = broadcast::channel(4);
    let track = MediaTrack::new(rx, codec, TrackKind::Audio);
    match MediaTrackVp8Decoder::new(track) {
        Err(VideoError::NotVp8(found)) => assert_eq!(found, codec),
        _ => panic!("expected the codec to be rejected"),
    }
}

#[test]
fn create_vp8_track_codec_is_vp8() {
    let (_encoder, track) = tiny_encoder(30, 16);
    assert_eq!(track.codec(), Codec::Vp8);
    assert_eq!(track.kind(), TrackKind::Video);
}

#[test]
fn decoder_breaks_when_track_closed() {
    let (mut encoder, track) = tiny_encoder(30, 32);
    let mut decoder = TinyDecoder { inner: MediaTrackVp8Decoder::new(track).unwrap() };
    let frame = VideoFrame::new_black(32, 32);
    for _ in 0..3 {
        assert!(encoder.push_frame(&frame).is_ok());
    }
    drop(encoder);
    let mut frames = 0;
    let mut saw_break = false;
    for _ in 0..100 {
        match decoder.next_frame().unwrap() {
            ControlFlow::Break(()) => {
                saw_break = true;
                break;
            }
            ControlFlow::Continue(Some(_)) => frames += 1,
            ControlFlow::Continue(None) => {}
        }
    }
    assert!(saw_break, "decoder must signal Break after track closes");
    assert_eq!(frames, 3);
}

#[test]
fn encoder_settings_count_clock_ticks() {
    let expected =
        Vp8Config { width: 128, height: 96, timebase: (1, 90_000), bitrate_kbps: 500 };
    assert_eq!(Vp8Encoder::config(128, 96, 500), expected);
    assert_eq!(VP8_RTP_CLOCK_RATE, 90_000);
}

#[test]
fn timestamps_advance_by_one_duration() {
    let (mut encoder, mut track) = Vp8Encoder::new(Ok(()), 30, 16).unwrap();
    assert_eq!(encoder.rtp_duration(), 3000);
    assert_eq!(encoder.pts(), 0);
    for n in 1..=30 {
        let pushed = encoder.push_frame(Ok(vec![vec![n as u8], vec![]])).unwrap();
        assert!(matches!(pushed, ControlFlow::Continue(())));
        assert_eq!(encoder.pts(), 3000 * n);
        let first = track.try_recv().unwrap();
        assert_eq!(first.payload_bytes(), vec![n as u8]);
        assert_eq!(first.sample_count, Some(3000));
        assert_eq!(first.skipped_frames, None);
        assert_eq!(first.skipped_samples, None);
        assert!(track.try_recv().unwrap().payload_bytes().is_empty());
    }
    assert_eq!(encoder.pts(), VP8_RTP_CLOCK_RATE as i64);
}

#[test]
fn a_frame_without_packets_still_takes_its_time() {
    let (mut encoder, mut track) = Vp8Encoder::new(Ok(()), 7, 4).unwrap();
    assert_eq!(encoder.rtp_duration(), 12857);
    assert_eq!(7 * encoder.rtp_duration(), VP8_RTP_CLOCK_RATE - 1);
    assert!(matches!(encoder.push_frame(Ok(vec![])), Ok(ControlFlow::Continue(()))));
    assert_eq!(encoder.pts(), 12857);
    assert_eq!(track.try_recv().err(), Some(RecvError::Empty));
}

#[test]
fn encoder_errors_are_handed_on() {
    match Vp8Encoder::new(Err(String::from("no such codec")), 30, 16) {
        Err(VideoError::EncoderInit(reason)) => assert_eq!(reason, "no such codec"),
        _ => panic!("expected the encoder to be refused"),
    }
    let (mut encoder, mut track) = Vp8Encoder::new(Ok(()), 30, 16).unwrap();
    match encoder.push_frame(Err(String::from("bad frame"))) {
        Err(VideoError::EncodeFailed(reason)) => assert_eq!(reason, "bad frame"),
        other => panic!("unexpected answer {other:?}"),
    }
    assert_eq!(encoder.pts(), 0);
    assert_eq!(track.try_recv().err(), Some(RecvError::Empty));
}

#[test]
fn a_refused_frame_does_not_advance_the_time() {
    let (mut encoder, track) = Vp8Encoder::new(Ok(()), 30, 16).unwrap();
    drop(track);
    assert!(matches!(encoder.push_frame(Ok(vec![vec![1]])), Ok(ControlFlow::Break(()))));
    assert_eq!(encoder.pts(), 0);
    assert!(matches!(encoder.settle(false), ControlFlow::Continue(())));
    assert_eq!(encoder.pts(), 3000);
    assert!(matches!(encoder.settle(true), ControlFlow::Break(())));
    assert_eq!(encoder.pts(), 3000);
}

#[test]
fn tracks_report_lag_and_closing() {
    let (mut encoder, mut track) = Vp8Encoder::new(Ok(()), 30, 2).unwrap();
    for n in 0..5u8 {
        assert!(encoder.push_frame(Ok(vec![vec![n]])).is_ok());
    }
    assert_eq!(track.try_recv().err(), Some(RecvError::Lagged(3)));
    assert_eq!(track.try_recv().unwrap().payload_bytes(), vec![3]);
    assert_eq!(track.try_recv().unwrap().payload_bytes(), vec![4]);
    assert_eq!(track.try_recv().err(), Some(RecvError::Empty));
    drop(encoder);
    assert_eq!(track.try_recv().err(), Some(RecvError::Closed));
}

#[test]
fn tracks_give_back_what_was_put_on_them() {
    let (mut encoder, mut track) = Vp8Encoder::new(Ok(()), 30, 8).unwrap();
    assert!(encoder.push_frame(Ok(vec![vec![1], vec![2, 3]])).is_ok());
    assert_eq!(track.try_recv().unwrap().payload_bytes(), vec![1]);
    assert!(encoder.push_frame(Ok(vec![vec![4]])).is_ok());
    drop(encoder);
    assert_eq!(track.try_recv().unwrap().payload_bytes(), vec![2, 3]);
    assert_eq!(track.try_recv().unwrap().payload_bytes(), vec![4]);
    assert_eq!(track.try_recv().err(), Some(RecvError::Closed));
}

#[test]
fn cloned_frames_carry_the_same_bytes() {
    let frame = MediaFrame::of_packet(&[1, 2, 3], 3000);
    let copy = frame.clone();
    assert_eq!(copy.payload_bytes(), vec![1, 2, 3]);
    assert_eq!(copy.sample_count, Some(3000));
    assert_eq!(copy.skipped_frames, None);
    assert_eq!(copy.skipped_samples, None);
}

#[test]
fn each_reception_has_its_step() {
    match step_of(Ok(MediaFrame::of_packet(&[9, 8], 1))) {
        Some(NextStep::Decode(payload)) => assert_eq!(payload, vec![9, 8]),
        other => panic!("unexpected step {other:?}"),
    }
    assert!(matches!(
        step_of(Err(RecvError::Empty)),
        Some(NextStep::Answer(ControlFlow::Continue(None)))
    ));
    assert!(step_of(Err(RecvError::Lagged(4))).is_none());
    assert!(matches!(
        step_of(Err(RecvError::Closed)),
        Some(NextStep::Answer(ControlFlow::Break(())))
    ));
}

#[test]
fn a_lag_does_not_hide_the_frames_that_are_left() {
    let (mut encoder, track) = Vp8Encoder::new(Ok(()), 30, 2).unwrap();
    let mut decoder = TinyDecoder { inner: MediaTrackVp8Decoder::new(track).unwrap() };
    for n in 0..5u8 {
        assert!(encoder.push_frame(Ok(vec![vec![n]])).is_ok());
    }
    for n in 3..5u8 {
        match decoder.next_frame().unwrap() {
            ControlFlow::Continue(Some(frame)) => assert_eq!(frame.data, vec![n]),
            other => panic!("unexpected answer {other:?}"),
        }
    }
    assert!(matches!(decoder.next_frame().unwrap(), ControlFlow::Continue(None)));
}

#[test]
fn a_track_keeps_its_capacity_and_stays_closed() {
    for capacity in [1, 3, 16] {
        let (mut encoder, track) = Vp8Encoder::new(Ok(()), 30, capacity).unwrap();
        let mut decoder = TinyDecoder { inner: MediaTrackVp8Decoder::new(track).unwrap() };
        for n in 0..capacity {
            assert!(encoder.push_frame(Ok(vec![vec![n as u8]])).is_ok());
        }
        drop(encoder);
        for n in 0..capacity {
            match decoder.next_frame().unwrap() {
                ControlFlow::Continue(Some(frame)) => assert_eq!(frame.data, vec![n as u8]),
                other => panic!("unexpected answer {other:?}"),
            }
        }
        for _ in 0..3 {
            assert!(matches!(decoder.next_frame().unwrap(), ControlFlow::Break(())));
        }
    }
}

#[test]
fn decoding_answers_are_handed_on() {
    let frame = VideoFrame::new_black(2, 2);
    match MediaTrackVp8Decoder::next_frame(Ok(Some(frame))) {
        Ok(ControlFlow::Continue(Some(f))) => assert_eq!(f.data, vec![16, 16, 16, 16, 128, 128]),
        other => panic!("unexpected answer {other:?}"),
    }
    assert!(matches!(
        MediaTrackVp8Decoder::next_frame(Ok(None)),
        Ok(ControlFlow::Continue(None))
    ));
    assert!(matches!(
        MediaTrackVp8Decoder::next_frame(Err(VideoError::DecodeFailed(7))),
        Err(VideoError::DecodeFailed(7))
    ));
}

#[test]
fn decoder_codes_decide() {
    assert!(matches!(Vp8Decoder::new(4), Err(VideoError::DecoderInit(4))));
    let decoder = Vp8Decoder::new(VPX_CODEC_OK).unwrap();
    assert!(matches!(decoder.decode(5, None), Err(VideoError::DecodeFailed(5))));
    assert!(matches!(decoder.decode(VPX_CODEC_OK, None), Ok(None)));
}

#[test]
fn padding_between_rows_is_left_out() {
    let image = DecodedImage {
        width: 4,
        height: 2,
        y: DecodedPlane { bytes: vec![1, 2, 3, 4, 0, 0, 5, 6, 7, 8], stride: 6 },
        u: DecodedPlane { bytes: vec![9, 10, 0, 0], stride: 4 },
        v: DecodedPlane { bytes: vec![11, 12], stride: 2 },
    };
    let decoder = Vp8Decoder::new(VPX_CODEC_OK).unwrap();
    let frame = decoder.decode(VPX_CODEC_OK, Some(image)).unwrap().unwrap();
    assert_eq!((frame.width, frame.height), (4, 2));
    assert_eq!(frame.data, vec![1, 2, 3, 4, 5, 6, 7, 8, 9, 10, 11, 12]);
}

#[test]
fn odd_images_drop_the_last_chroma() {
    let image = DecodedImage {
        width: 3,
        height: 3,
        y: DecodedPlane { bytes: (1..=9).collect(), stride: 3 },
        u: DecodedPlane { bytes: vec![20, 21, 22, 23], stride: 2 },
        v: DecodedPlane { bytes: vec![30, 31, 32, 33], stride: 2 },
    };
    let decoder = Vp8Decoder::new(VPX_CODEC_OK).unwrap();
    let frame = decoder.decode(VPX_CODEC_OK, Some(image)).unwrap().unwrap();
    assert_eq!(frame.data, vec![1, 2, 3, 4, 5, 6, 7, 8, 9, 20, 30]);
}
