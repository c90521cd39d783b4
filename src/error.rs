//! What can go wrong in an encode or a decode.

use vstd::prelude::*;

verus! {

#[derive(Debug, Clone, Copy, PartialEq, Eq, Structural)]
pub enum CodecError {
    /// Width or height is zero.
    ZeroDimension,
    /// A component count lies outside `1..=9`.
    ComponentsOutOfRange,
    /// The pixel buffer does not hold `width * height * channels` bytes.
    PixelLengthMismatch,
    /// The channel count is neither 3 (RGB) nor 4 (RGBA).
    UnsupportedChannels,
    /// The hash is empty, or its length does not match its header.
    InvalidLength,
    /// The hash holds a character outside the base-83 alphabet.
    InvalidCharacter,
    /// The header asks for more than nine components along an axis.
    UnsupportedMode,
}

} // verus!
