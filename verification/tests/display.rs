//! The displays: terminal, window and widget.
use std::ops::ControlFlow;

use callme::codec::{Codec, OpusChannels};
use callme::display::ascii::{frame_to_ascii, AsciiStep, AsciiVideo};
use callme::display::view::{frame_image, Shown, VideoView};
use callme::display::window::{VideoWindow, WindowStep};
use callme::display::{FirstFrame, FramePoll, FIRST_FRAME_SECONDS, REFRESH_MILLIS};
use callme::error::VideoError;
use callme::rtc::{MediaFrame, MediaTrack, TrackKind};
use callme::video::render::NextStep;
use callme::video::VideoFrame;
use tokio::sync::broadcast;

/// A frame with the given luma and no colour.
fn grey(width: u32, height: u32, luma: Vec<u8>) -> VideoFrame {
    assert_eq!(luma.len(), (width * height) as usize);
    let mut frame = VideoFrame::new_black(width, height);
    frame.data[..luma.len()].copy_from_slice(&luma);
    frame
}

#[test]
fn waiting_times() {
    assert_eq!(FIRST_FRAME_SECONDS, 30);
    assert_eq!(REFRESH_MILLIS, 33);
}

#[test]
fn ascii_covers_the_whole_gradient() {
    let luma = vec![0, 16, 38, 60, 82, 104, 126, 148, 170, 192, 214, 235, 255];
    let frame = VideoFrame { width: 13, height: 1, data: luma };
    assert_eq!(frame_to_ascii(&frame, 13, 2, (13, 1)), "  .,:;+*?%#@@\n");
}

#[test]
fn ascii_is_centred_and_leaves_the_bottom_row() {
    let frame = grey(2, 2, vec![16, 235, 235, 16]);
    assert_eq!(frame_to_ascii(&frame, 6, 3, (2, 2)), "   @\n  @ \n");
    assert_eq!(frame_to_ascii(&frame, 7, 3, (2, 2)), "   @\n  @ \n");
    assert_eq!(frame_to_ascii(&frame, 2, 2, (2, 2)), "@ \n");
    assert_eq!(frame_to_ascii(&frame, 2, 3, (9, 9)), " @\n@ \n");
}

#[test]
fn ascii_samples_the_nearest_pixel() {
    let frame = grey(4, 2, vec![16, 235, 16, 16, 16, 16, 16, 235]);
    // Columns 0 and 1 of two sample the pixels 1 and 3.
    assert_eq!(frame_to_ascii(&frame, 2, 3, (2, 2)), "@ \n @\n");
    let row = grey(2, 2, vec![16, 235, 16, 235]);
    assert_eq!(frame_to_ascii(&row, 4, 2, (4, 1)), "  @@\n");
}

#[test]
fn ascii_without_room_is_empty() {
    let frame = grey(2, 2, vec![235; 4]);
    assert_eq!(frame_to_ascii(&frame, 10, 0, (2, 2)), "");
    assert_eq!(frame_to_ascii(&frame, 10, 1, (2, 2)), "");
    assert_eq!(frame_to_ascii(&frame, 0, 3, (2, 2)), "\n\n");
    let empty = VideoFrame { width: 0, height: 0, data: vec![] };
    assert_eq!(frame_to_ascii(&empty, 10, 5, (0, 0)), "");
}

#[test]
fn terminal_renders_the_newest_frame() {
    let (mut video, step) =
        AsciiVideo::start(FirstFrame::Frame(VideoFrame::new_black(2, 2))).unwrap();
    assert_eq!(step, AsciiStep::Render);
    assert_eq!(video.current.width, 2);
    assert_eq!(AsciiVideo::on_rendered(), AsciiStep::Poll);
    assert_eq!(
        video.on_poll(FramePoll::Frame(VideoFrame::new_black(4, 4))),
        AsciiStep::Poll
    );
    assert_eq!(
        video.on_poll(FramePoll::Frame(VideoFrame::new_black(6, 6))),
        AsciiStep::Poll
    );
    assert_eq!(video.on_poll(FramePoll::Empty), AsciiStep::Render);
    assert_eq!(video.current.width, 6);
    assert_eq!(video.on_poll(FramePoll::Disconnected), AsciiStep::Stop);
    assert_eq!(video.current.width, 6);
}

#[test]
fn terminal_renders_the_first_frame_once_if_the_end_follows() {
    let (mut video, mut step) =
        AsciiVideo::start(FirstFrame::Frame(VideoFrame::new_black(2, 2))).unwrap();
    let mut polls = vec![
        FramePoll::Frame(VideoFrame::new_black(4, 4)),
        FramePoll::Frame(VideoFrame::new_black(6, 6)),
        FramePoll::Disconnected,
    ]
    .into_iter();
    let mut rendered = Vec::new();
    while step != AsciiStep::Stop {
        step = match step {
            AsciiStep::Render => {
                rendered.push(video.current.width);
                AsciiVideo::on_rendered()
            }
            _ => video.on_poll(polls.next().unwrap()),
        };
    }
    assert_eq!(rendered, vec![2]);
}

#[test]
fn no_display_without_a_first_frame() {
    assert!(AsciiVideo::start(FirstFrame::Timeout).is_none());
    assert!(AsciiVideo::start(FirstFrame::Disconnected).is_none());
    assert!(VideoWindow::open(FirstFrame::Timeout).is_none());
    assert!(VideoWindow::open(FirstFrame::Disconnected).is_none());
}

#[test]
fn window_draws_the_newest_frame() {
    let (mut window, step) =
        VideoWindow::open(FirstFrame::Frame(VideoFrame::new_black(2, 2))).unwrap();
    assert_eq!(step, WindowStep::Check);
    assert_eq!((window.width, window.height), (2, 2));
    assert_eq!(window.pixels, vec![0; 4]);
    assert_eq!(window.on_check(true), WindowStep::Poll);
    assert_eq!(window.on_poll(FramePoll::Empty), WindowStep::Draw);
    assert_eq!(window.pixels, vec![0; 4]);
    assert_eq!(VideoWindow::on_drawn(true), WindowStep::Check);

    assert_eq!(window.on_check(true), WindowStep::Poll);
    let old = VideoFrame::new_black(8, 8);
    let new = grey(2, 4, vec![235; 8]);
    assert_eq!(window.on_poll(FramePoll::Frame(old)), WindowStep::Poll);
    assert_eq!(window.on_poll(FramePoll::Frame(new)), WindowStep::Poll);
    assert_eq!(window.on_poll(FramePoll::Empty), WindowStep::Draw);
    assert_eq!((window.width, window.height), (2, 4));
    assert_eq!(window.pixels, vec![0xff_ffff; 8]);
}

#[test]
fn window_closes_after_the_last_frame() {
    let (mut window, step) =
        VideoWindow::open(FirstFrame::Frame(VideoFrame::new_black(2, 2))).unwrap();
    assert_eq!(step, WindowStep::Check);
    assert_eq!(window.on_check(true), WindowStep::Poll);
    let last = grey(2, 2, vec![235; 4]);
    assert_eq!(window.on_poll(FramePoll::Frame(last)), WindowStep::Poll);
    assert_eq!(window.on_poll(FramePoll::Disconnected), WindowStep::Draw);
    assert_eq!(window.pixels, vec![0xff_ffff; 4]);
    assert_eq!(window.on_check(true), WindowStep::Close);
}

#[test]
fn window_closes_when_asked_or_when_drawing_fails() {
    let (mut window, step) =
        VideoWindow::open(FirstFrame::Frame(VideoFrame::new_black(2, 2))).unwrap();
    assert_eq!(step, WindowStep::Check);
    assert_eq!(window.on_check(false), WindowStep::Close);
    assert_eq!(VideoWindow::on_drawn(false), WindowStep::Close);
}

#[test]
fn frame_image_has_the_frame_pixels() {
    let mut frame = grey(2, 2, vec![81, 81, 81, 81]);
    frame.data[4] = 90;
    frame.data[5] = 240;
    let image = frame_image(&frame);
    assert_eq!(image.size, [2, 2]);
    assert_eq!(image.pixels, vec![egui::Color32::from_rgb(255, 0, 0); 4]);

    let mixed = grey(4, 2, vec![16, 235, 126, 16, 16, 16, 16, 235]);
    let image = frame_image(&mixed);
    assert_eq!(image.size, [4, 2]);
    assert_eq!(image.pixels[0], egui::Color32::from_rgb(0, 0, 0));
    assert_eq!(image.pixels[1], egui::Color32::from_rgb(255, 255, 255));
    // (298 * 110 + 128) >> 8 = 128
    assert_eq!(image.pixels[2], egui::Color32::from_rgb(128, 128, 128));
    assert_eq!(image.pixels[7], egui::Color32::from_rgb(255, 255, 255));
}

fn open_view() -> (broadcast::Sender<MediaFrame>, VideoView) {
    let (tx, rx) = broadcast::channel(4);
    let track = MediaTrack::new(rx, Codec::Vp8, TrackKind::Video);
    (tx, VideoView::new(track).unwrap())
}

#[test]
fn widget_needs_vp8() {
    let (_, rx) = broadcast::channel(4);
    let codec = Codec::Opus { channels: OpusChannels::Stereo };
    match VideoView::new(MediaTrack::new(rx, codec, TrackKind::Audio)) {
        Err(VideoError::NotVp8(found)) => assert_eq!(found, codec),
        _ => panic!("expected the codec to be rejected"),
    }
}

#[test]
fn widget_keeps_the_newest_frame() {
    let (tx, mut view) = open_view();
    assert!(view.is_open());
    assert_eq!(view.shown(false), (Shown::Waiting, true));
    assert!(tx.send(MediaFrame::of_packet(&[5], 1)).is_ok());
    match view.next_step() {
        Some(NextStep::Decode(payload)) => assert_eq!(payload, vec![5]),
        other => panic!("unexpected step {other:?}"),
    }
    assert!(view.on_answer(Ok(ControlFlow::Continue(Some(VideoFrame::new_black(2, 2))))));
    assert!(view.on_answer(Ok(ControlFlow::Continue(Some(VideoFrame::new_black(4, 2))))));
    assert!(matches!(
        view.next_step(),
        Some(NextStep::Answer(ControlFlow::Continue(None)))
    ));
    assert!(!view.on_answer(Ok(ControlFlow::Continue(None))));
    assert_eq!(view.take_latest().unwrap().width, 4);
    assert!(view.take_latest().is_none());
    assert_eq!(view.shown(true), (Shown::Texture, true));
}

#[test]
fn widget_closes_with_its_track() {
    let (tx, mut view) = open_view();
    drop(tx);
    assert!(view.is_open());
    assert!(matches!(view.next_step(), Some(NextStep::Answer(ControlFlow::Break(())))));
    assert!(!view.on_answer(Ok(ControlFlow::Break(()))));
    assert!(!view.is_open());
    assert!(view.next_step().is_none());
    assert_eq!(view.shown(false), (Shown::Ended, false));
    assert_eq!(view.shown(true), (Shown::Texture, false));
}

#[test]
fn widget_stays_open_after_a_failure() {
    let (tx, mut view) = open_view();
    assert!(view.on_answer(Ok(ControlFlow::Continue(Some(VideoFrame::new_black(2, 2))))));
    assert!(!view.on_answer(Err(VideoError::DecodeFailed(5))));
    assert!(view.is_open());
    assert_eq!(view.shown(false), (Shown::Waiting, true));
    assert_eq!(view.take_latest().unwrap().width, 2);
    assert!(tx.send(MediaFrame::of_packet(&[6], 1)).is_ok());
    assert!(matches!(view.next_step(), Some(NextStep::Decode(payload)) if payload == vec![6]));
}
