//! Video for peer-to-peer calls: raw I420 frames, colour conversion, capture
//! from cameras and files, VP8 tracks and the displays that show them.

pub mod call;
pub mod codec;
pub mod display;
pub mod error;
pub mod rtc;
pub mod text;
pub mod video;
