//! The codecs a media track can carry.
use vstd::prelude::*;

verus! {

/// RTP clock rate of VP8 video, in ticks per second.
pub const VP8_RTP_CLOCK_RATE: u32 = 90_000;

/// Channel layout of an Opus stream.
#[derive(Debug, Clone, Copy, PartialEq, Eq, Structural)]
pub enum OpusChannels {
    Mono,
    Stereo,
}

/// The codec of a media track.
#[derive(Debug, Clone, Copy, PartialEq, Eq, Structural)]
pub enum Codec {
    Opus { channels: OpusChannels },
    Vp8,
}

} // verus!
