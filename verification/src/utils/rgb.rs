//! The colour type.

use vstd::prelude::*;

verus! {

/// An 8-bit-per-channel colour.
#[derive(Clone, Copy, Debug, PartialEq, Eq, Structural)]
pub struct RGB {
    pub r: u8,
    pub g: u8,
    pub b: u8,
}

/// The byte a channel value saturates to: 0 below the range, 255 above it,
/// the value itself inside.
pub open spec fn clamp_channel(v: int) -> u8 {
    if v < 0 {
        0u8
    } else if v > 255 {
        255u8
    } else {
        v as u8
    }
}

/// Saturates one channel value to a byte.
pub(crate) fn limit_channel(v: i64) -> (byte: u8)
    ensures
        byte == clamp_channel(v as int),
{
    if v < 0 {
        0
    } else if v > 255 {
        255
    } else {
        v as u8
    }
}

impl RGB {
    /// Builds a colour from its three channels.
    pub fn new(r: u8, g: u8, b: u8) -> (color: Self)
        ensures
            color == (RGB { r, g, b }),
    {
        Self { r, g, b }
    }

    /// Builds a colour from three channel values of any magnitude, each
    /// saturated to a byte on its own.
    pub fn from_vector(x: i64, y: i64, z: i64) -> (color: Self)
        ensures
            color == (RGB {
                r: clamp_channel(x as int),
                g: clamp_channel(y as int),
                b: clamp_channel(z as int),
            }),
    {
        Self { r: limit_channel(x), g: limit_channel(y), b: limit_channel(z) }
    }

    /// The channels in the order red, green, blue.
    pub fn as_array(&self) -> (channels: [u8; 3])
        ensures
            channels@ == seq![self.r, self.g, self.b],
    {
        [self.r, self.g, self.b]
    }

    /// A copy of this colour.
    pub fn clone(&self) -> (copy: Self)
        ensures
            copy == *self,
    {
        Self { r: self.r, g: self.g, b: self.b }
    }
}

} // verus!
