//! Frame and save timing.

use vstd::prelude::*;

verus! {

/// Time per frame in milliseconds (120 frames per second).
pub const FRAME_TIME_MS: u128 = 8;

/// Delay before an automatic save, in milliseconds.
pub const SAVE_INTERVAL_MS: u128 = 2000;

} // verus!
