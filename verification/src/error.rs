//! What can go wrong while frames move through the library.
use vstd::prelude::*;

use crate::codec::Codec;

verus! {

/// A failure of a video component.
#[derive(Debug)]
pub enum VideoError {
    /// The track carries another codec than VP8.
    NotVp8(Codec),
    /// The VP8 encoder could not be opened; the text is the encoder's own.
    EncoderInit(String),
    /// The VP8 encoder rejected a frame; the text is the encoder's own.
    EncodeFailed(String),
    /// The VP8 decoder could not be opened; the number is its error code.
    DecoderInit(i32),
    /// The VP8 decoder rejected a payload; the number is its error code.
    DecodeFailed(i32),
    /// A sink or a source failed for a reason of its own.
    Failed(String),
}

} // verus!
