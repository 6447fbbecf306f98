//! Capture from a camera: configuration, decoding of its pictures, the camera loop.
use callme::video::capture::{
    camera_step, CameraConfig, CameraEvent, CameraStep, PixelFormat, TRACK_CAPACITY,
};
use callme::video::VideoFrame;

#[test]
fn camera_config_default() {
    let cfg = CameraConfig::default();
    assert_eq!(cfg.index, 0);
    assert!(cfg.width > 0 && cfg.height > 0 && cfg.fps > 0);
}

#[test]
fn camera_config_default_values() {
    let cfg = CameraConfig::default();
    assert_eq!(cfg, CameraConfig { index: 0, width: 640, height: 480, fps: 30 });
    assert_eq!(TRACK_CAPACITY, 16);
}

/// The packed RGB bytes of a picture, if it can be decoded.
fn decoded(format: PixelFormat, width: u32, height: u32, data: &[u8]) -> Option<Vec<u8>> {
    match CameraEvent::decode(format, width, height, data) {
        CameraEvent::Picture { rgb, width: w, height: h } => {
            assert_eq!((w, h), (width, height));
            Some(rgb)
        }
        CameraEvent::Undecodable => None,
        other => panic!("unexpected event {other:?}"),
    }
}

#[test]
fn yuyv_pairs_share_their_chroma() {
    let data = [16, 128, 235, 128, 81, 90, 81, 240];
    let expected = vec![0, 0, 0, 255, 255, 255, 255, 0, 0, 255, 0, 0];
    assert_eq!(decoded(PixelFormat::Yuyv, 4, 1, &data), Some(expected.clone()));
    assert_eq!(decoded(PixelFormat::Yuyv, 2, 2, &data), Some(expected));
}

#[test]
fn yuyv_needs_whole_groups() {
    assert_eq!(decoded(PixelFormat::Yuyv, 1, 1, &[16, 128, 235]), None);
    assert_eq!(decoded(PixelFormat::Yuyv, 1, 1, &[16, 128, 235, 128, 16]), None);
}

#[test]
fn nv12_blocks_share_their_chroma() {
    let data = [
        16, 235, 81, 81, // first row of luma
        235, 16, 81, 81, // second row of luma
        128, 128, 90, 240, // one pair of chroma for each block
    ];
    let black = [0, 0, 0];
    let white = [255, 255, 255];
    let red = [255, 0, 0];
    let expected: Vec<u8> =
        [black, white, red, red, white, black, red, red].iter().flatten().copied().collect();
    assert_eq!(decoded(PixelFormat::Nv12, 4, 2, &data), Some(expected));
}

#[test]
fn nv12_chroma_rows_follow_the_luma() {
    let mut data = vec![81u8; 2 * 4];
    data.extend_from_slice(&[128, 128, 90, 240]);
    let rgb = decoded(PixelFormat::Nv12, 2, 4, &data).unwrap();
    // (298 * 65 + 128) >> 8 = 76
    assert_eq!(&rgb[..12], &[76; 12]);
    assert_eq!(&rgb[12..], &[255, 0, 0, 255, 0, 0, 255, 0, 0, 255, 0, 0]);
}

#[test]
fn nv12_needs_even_dimensions_and_all_planes() {
    assert_eq!(decoded(PixelFormat::Nv12, 3, 2, &[0; 9]), None);
    assert_eq!(decoded(PixelFormat::Nv12, 2, 3, &[0; 9]), None);
    assert_eq!(decoded(PixelFormat::Nv12, 2, 2, &[0; 5]), None);
    assert_eq!(decoded(PixelFormat::Nv12, 2, 2, &[0; 7]), None);
    assert_eq!(decoded(PixelFormat::Nv12, 0, 2, &[0; 3]), None);
}

#[test]
fn grey_values_fill_all_channels() {
    assert_eq!(
        decoded(PixelFormat::Gray, 2, 1, &[7, 200]),
        Some(vec![7, 7, 7, 200, 200, 200])
    );
    assert_eq!(decoded(PixelFormat::Gray, 2, 2, &[7, 200]), None);
}

#[test]
fn raw_rgb_is_taken_as_it_is() {
    assert_eq!(
        decoded(PixelFormat::RawRgb, 2, 1, &[1, 2, 3, 4, 5, 6]),
        Some(vec![1, 2, 3, 4, 5, 6])
    );
    assert_eq!(decoded(PixelFormat::RawRgb, 2, 1, &[1, 2, 3]), None);
}

#[test]
fn raw_bgr_is_turned_round() {
    assert_eq!(
        decoded(PixelFormat::RawBgr, 2, 1, &[1, 2, 3, 4, 5, 6]),
        Some(vec![3, 2, 1, 6, 5, 4])
    );
    assert_eq!(
        decoded(PixelFormat::RawBgr, 1, 1, &[1, 2, 3, 4, 5]),
        Some(vec![3, 2, 1, 0, 0])
    );
    assert_eq!(decoded(PixelFormat::RawBgr, 2, 1, &[1, 2, 3]), None);
}

#[test]
fn camera_loop_sends_pictures_as_i420() {
    let event = CameraEvent::decode(PixelFormat::RawRgb, 2, 2, &[0; 12]);
    match camera_step(event) {
        CameraStep::Send(frame) => {
            let black = VideoFrame::new_black(2, 2);
            assert_eq!((frame.width, frame.height), (2, 2));
            assert_eq!(frame.data, black.data);
        }
        other => panic!("unexpected step {other:?}"),
    }
}

#[test]
fn camera_loop_skips_what_it_cannot_decode() {
    let event = CameraEvent::decode(PixelFormat::RawRgb, 2, 2, &[0; 3]);
    assert!(matches!(camera_step(event), CameraStep::Poll));
}

#[test]
fn camera_loop_ends_with_the_camera_or_its_listeners() {
    assert!(matches!(camera_step(CameraEvent::Failed), CameraStep::Stop));
    assert!(matches!(camera_step(CameraEvent::Sent(false)), CameraStep::Stop));
    assert!(matches!(camera_step(CameraEvent::Sent(true)), CameraStep::Poll));
}
