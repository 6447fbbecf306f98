//! Conversion between packed RGB, I420 and RGBA.
use callme::video::capture::rgb_to_i420;
use callme::video::color::{rgb_to_chroma, rgb_to_luma, yuv_to_rgb};
use callme::video::render::{i420_to_minifb, i420_to_rgba};
use callme::video::VideoFrame;

#[test]
fn i420_output_size() {
    let out = rgb_to_i420(&vec![0u8; 8 * 6 * 3], 8, 6);
    // I420 = Y(8*6) + U(4*3) + V(4*3) = 48 + 12 + 12 = 72 = 8*6*3/2
    assert_eq!(out.len(), 8 * 6 * 3 / 2);
}

#[test]
fn i420_minimum_2x2_frame() {
    // Smallest valid I420 block: 2x2 pixels.
    let rgb = vec![128u8; 2 * 2 * 3];
    let out = rgb_to_i420(&rgb, 2, 2);
    assert_eq!(out.len(), 2 * 2 * 3 / 2, "output size");
    // All values should be within I420 range.
    for &b in &out {
        assert!(b <= 240, "I420 value {b} out of range");
    }
}

#[test]
fn i420_black() {
    // R=G=B=0  ->  Y=16, U=128, V=128  (BT.601 limited range)
    let out = rgb_to_i420(&vec![0u8; 4 * 4 * 3], 4, 4);
    let y_size = 16usize;
    let uv_size = 4usize;
    for &y in &out[..y_size] {
        assert_eq!(y, 16, "Y for black");
    }
    for &u in &out[y_size..y_size + uv_size] {
        assert_eq!(u, 128, "U for black");
    }
    for &v in &out[y_size + uv_size..] {
        assert_eq!(v, 128, "V for black");
    }
}

#[test]
fn i420_white() {
    // R=G=B=255  ->  Y=235, U=128, V=128
    let out = rgb_to_i420(&vec![255u8; 4 * 4 * 3], 4, 4);
    let y_size = 16usize;
    let uv_size = 4usize;
    for &y in &out[..y_size] {
        assert_eq!(y, 235, "Y for white");
    }
    for &u in &out[y_size..y_size + uv_size] {
        assert_eq!(u, 128, "U for white");
    }
    for &v in &out[y_size + uv_size..] {
        assert_eq!(v, 128, "V for white");
    }
}

#[test]
fn i420_pure_red() {
    // R=255, G=0, B=0 uniform image: all 4 pixels in each 2x2 block are the
    // same colour, so averaging doesn't change the chroma result.
    // BT.601: Y=82, Cb=90, Cr=240
    let mut rgb = vec![0u8; 4 * 4 * 3];
    for p in rgb.chunks_exact_mut(3) {
        p[0] = 255;
    }
    let out = rgb_to_i420(&rgb, 4, 4);
    let y_size = 16usize;
    let uv_size = 4usize;
    // ((66*255 + 128) >> 8) + 16 = (16958 >> 8) + 16 = 66 + 16 = 82
    for &y in &out[..y_size] {
        assert_eq!(y, 82, "Y for red");
    }
    for &u in &out[y_size..y_size + uv_size] {
        assert_eq!(u, 90, "U (Cb) for red");
    }
    for &v in &out[y_size + uv_size..] {
        assert_eq!(v, 240, "V (Cr) for red");
    }
}

#[test]
fn public_rgb_to_i420_output_size() {
    let width = 16u32;
    let height = 8u32;
    let rgb = vec![0u8; (width * height * 3) as usize];
    let out = rgb_to_i420(&rgb, width, height);
    assert_eq!(out.len(), (width * height * 3 / 2) as usize);
}

#[test]
fn public_rgb_to_i420_matches_new_black() {
    // rgb_to_i420 of a black image should produce the same Y plane as
    // VideoFrame::new_black, which uses Y=16.
    let width = 8u32;
    let height = 8u32;
    let rgb = vec![0u8; (width * height * 3) as usize];
    let i420 = rgb_to_i420(&rgb, width, height);

    let y_size = (width * height) as usize;
    for &y in &i420[..y_size] {
        assert_eq!(y, 16, "Y plane mismatch for black");
    }
}

#[test]
fn black_picture_is_the_black_frame() {
    for (w, h) in [(0u32, 0u32), (1, 1), (2, 2), (3, 5), (6, 4)] {
        let rgb = vec![0u8; (w * h * 3) as usize];
        assert_eq!(rgb_to_i420(&rgb, w, h), VideoFrame::new_black(w, h).data);
    }
}

#[test]
fn i420_averages_each_block() {
    // One 2x2 block: red channel 10, 20, 30, 43 (mean 25), green and blue 0.
    let mut rgb = vec![0u8; 12];
    rgb[0] = 10;
    rgb[3] = 20;
    rgb[6] = 30;
    rgb[9] = 43;
    let out = rgb_to_i420(&rgb, 2, 2);
    // Y = ((66*r + 128) >> 8) + 16; U = ((-38*25 + 128) >> 8) + 128; V = ((112*25 + 128) >> 8) + 128
    assert_eq!(out, vec![19, 21, 24, 27, 124, 139]);
}

#[test]
fn i420_odd_dimensions_round_the_chroma_down() {
    // 3x3 pixels have a single complete block, the top-left one.
    let mut rgb = vec![255u8; 27];
    for p in [0usize, 1, 3, 4] {
        rgb[3 * p] = 0;
        rgb[3 * p + 1] = 0;
        rgb[3 * p + 2] = 0;
    }
    let out = rgb_to_i420(&rgb, 3, 3);
    assert_eq!(out, vec![16, 16, 235, 16, 16, 235, 235, 235, 235, 128, 128]);
}

#[test]
fn colour_formulas() {
    assert_eq!(rgb_to_luma(255, 0, 0), 82);
    assert_eq!(rgb_to_luma(0, 255, 0), 144);
    assert_eq!(rgb_to_luma(0, 0, 255), 41);
    assert_eq!(rgb_to_chroma(0, 0, 255), (240, 110));
    assert_eq!(rgb_to_chroma(0, 255, 0), (54, 34));
    assert_eq!(yuv_to_rgb(16, 128, 128), (0, 0, 0));
    assert_eq!(yuv_to_rgb(235, 128, 128), (255, 255, 255));
    assert_eq!(yuv_to_rgb(82, 90, 240), (255, 1, 0));
    assert_eq!(yuv_to_rgb(0, 0, 0), (0, 135, 0));
    assert_eq!(yuv_to_rgb(255, 255, 255), (255, 125, 255));
}

#[test]
fn new_black_layout() {
    let frame = VideoFrame::new_black(5, 3);
    assert_eq!((frame.width, frame.height), (5, 3));
    let mut expected = vec![16u8; 15];
    expected.extend([128u8; 4]);
    assert_eq!(frame.data, expected);
}

#[test]
fn rgba_output_size() {
    let frame = VideoFrame::new_black(8, 6);
    assert_eq!(i420_to_rgba(&frame).len(), 8 * 6 * 4);
}

#[test]
fn rgba_black() {
    // new_black sets Y=16, U=V=128 -> RGB should be (0,0,0)
    let frame = VideoFrame::new_black(4, 4);
    let rgba = i420_to_rgba(&frame);
    for chunk in rgba.chunks_exact(4) {
        assert_eq!(chunk[0], 0, "R for black");
        assert_eq!(chunk[1], 0, "G for black");
        assert_eq!(chunk[2], 0, "B for black");
        assert_eq!(chunk[3], 255, "A must be 255");
    }
}

#[test]
fn rgba_white() {
    // Build a white I420 frame: Y=235, U=V=128
    let w = 4u32;
    let h = 4u32;
    let y_size = (w * h) as usize;
    let uv_size = ((w / 2) * (h / 2)) as usize;
    let mut data = vec![0u8; y_size + 2 * uv_size];
    data[..y_size].fill(235);
    data[y_size..].fill(128);
    let frame = VideoFrame { width: w, height: h, data };

    let rgba = i420_to_rgba(&frame);
    for chunk in rgba.chunks_exact(4) {
        assert_eq!(chunk[0], 255, "R for white");
        assert_eq!(chunk[1], 255, "G for white");
        assert_eq!(chunk[2], 255, "B for white");
        assert_eq!(chunk[3], 255, "A must be 255");
    }
}

#[test]
fn rgb_i420_rgba_roundtrip_grey() {
    // A mid-grey image should survive the rgb->i420->rgba roundtrip approximately.
    let w = 8u32;
    let h = 8u32;
    let grey: u8 = 128;
    let rgb = vec![grey; (w * h * 3) as usize];
    let i420 = rgb_to_i420(&rgb, w, h);
    let frame = VideoFrame { width: w, height: h, data: i420 };
    let rgba = i420_to_rgba(&frame);

    for chunk in rgba.chunks_exact(4) {
        let r = chunk[0] as i32;
        let g = chunk[1] as i32;
        let b = chunk[2] as i32;
        // Allow +-8 for rounding losses in the BT.601 integer approximation.
        assert!((r - grey as i32).abs() <= 8, "R off by {}", (r - grey as i32).abs());
        assert!((g - grey as i32).abs() <= 8, "G off by {}", (g - grey as i32).abs());
        assert!((b - grey as i32).abs() <= 8, "B off by {}", (b - grey as i32).abs());
    }
}

#[test]
fn public_i420_to_rgba_size() {
    let frame = VideoFrame::new_black(16, 8);
    assert_eq!(i420_to_rgba(&frame).len(), 16 * 8 * 4);
}

#[test]
fn public_i420_to_rgba_alpha_always_255() {
    let frame = VideoFrame::new_black(4, 4);
    let rgba = i420_to_rgba(&frame);
    for chunk in rgba.chunks_exact(4) {
        assert_eq!(chunk[3], 255, "alpha must be fully opaque");
    }
}

/// RGB -> I420 -> RGBA should approximately reproduce the original colour
/// within the rounding error of BT.601 integer arithmetic.
#[test]
fn rgb_i420_rgba_roundtrip_colours() {
    let cases: &[(u8, u8, u8)] = &[
        (255, 0, 0),     // red
        (0, 255, 0),     // green
        (0, 0, 255),     // blue
        (255, 255, 0),   // yellow
        (0, 0, 0),       // black
        (255, 255, 255), // white
    ];

    for &(r_in, g_in, b_in) in cases {
        let w = 4u32;
        let h = 4u32;
        let rgb: Vec<u8> = (0..w * h).flat_map(|_| [r_in, g_in, b_in]).collect();
        let i420 = rgb_to_i420(&rgb, w, h);
        let frame = VideoFrame { width: w, height: h, data: i420 };
        let rgba = i420_to_rgba(&frame);

        let r_out = rgba[0] as i32;
        let g_out = rgba[1] as i32;
        let b_out = rgba[2] as i32;
        let tol = 4i32; // +-4 for BT.601 rounding
        assert!(
            (r_out - r_in as i32).abs() <= tol,
            "R mismatch for ({r_in},{g_in},{b_in}): got {r_out}"
        );
        assert!(
            (g_out - g_in as i32).abs() <= tol,
            "G mismatch for ({r_in},{g_in},{b_in}): got {g_out}"
        );
        assert!(
            (b_out - b_in as i32).abs() <= tol,
            "B mismatch for ({r_in},{g_in},{b_in}): got {b_out}"
        );
    }
}

#[test]
fn every_grey_comes_back_within_one() {
    for k in 0..=255u8 {
        let y = rgb_to_luma(k, k, k);
        assert_eq!(rgb_to_chroma(k, k, k), (128, 128));
        let (r, g, b) = yuv_to_rgb(y, 128, 128);
        assert_eq!((g, b), (r, r));
        assert!((r as i32 - k as i32).abs() <= 1);
    }
}

#[test]
fn minifb_pixels_pack_red_green_blue() {
    let mut frame = VideoFrame::new_black(2, 2);
    frame.data = vec![82, 82, 16, 235, 90, 240];
    let rgba = i420_to_rgba(&frame);
    let pixels = i420_to_minifb(&frame);
    assert_eq!(pixels.len(), 4);
    assert_eq!(pixels[0], 0x00ff_0100);
    for (p, chunk) in pixels.iter().zip(rgba.chunks_exact(4)) {
        let expected = (chunk[0] as u32) * 65536 + (chunk[1] as u32) * 256 + chunk[2] as u32;
        assert_eq!(*p, expected);
    }
}

#[test]
fn showable_needs_all_planes() {
    assert!(VideoFrame::new_black(4, 2).is_showable());
    assert!(VideoFrame::new_black(3, 2).is_showable());
    assert!(VideoFrame::new_black(0, 3).is_showable());
    let short = VideoFrame { width: 2, height: 2, data: vec![0u8; 5] };
    assert!(!short.is_showable());
    let long = VideoFrame { width: 2, height: 2, data: vec![16, 16, 16, 16, 128, 128, 7] };
    assert!(long.is_showable());
    assert_eq!(i420_to_rgba(&long).len(), 16);
}

#[test]
fn odd_frames_share_the_last_chroma() {
    let black = VideoFrame::new_black(3, 3);
    let rgba = i420_to_rgba(&black);
    assert_eq!(rgba.len(), 36);
    for pixel in rgba.chunks_exact(4) {
        assert_eq!(pixel, &[0, 0, 0, 255]);
    }
    // One chroma sample covers all nine pixels.
    let red = VideoFrame { width: 3, height: 3, data: vec![81, 81, 81, 81, 81, 81, 81, 81, 81, 90, 240] };
    for pixel in i420_to_rgba(&red).chunks_exact(4) {
        assert_eq!(pixel, &[255, 0, 0, 255]);
    }
    // Without chroma there are only greys.
    let line = VideoFrame { width: 1, height: 3, data: vec![16, 126, 235] };
    assert_eq!(
        i420_to_rgba(&line),
        vec![0, 0, 0, 255, 128, 128, 128, 255, 255, 255, 255, 255]
    );
}
