//! Colours and their conversion from channel sums.

use vstd::prelude::*;
use crate::utils::rgb::{clamp_channel, limit_channel};

pub mod rgb;

verus! {

/// Saturates three channel values of any magnitude to bytes, each on its
/// own: a channel above 255 does not dim the other two.
pub fn limit_color(x: i64, y: i64, z: i64) -> (channels: (u8, u8, u8))
    ensures
        channels == (clamp_channel(x as int), clamp_channel(y as int), clamp_channel(z as int)),
{
    (limit_channel(x), limit_channel(y), limit_channel(z))
}

} // verus!
