//! The sample-rate context that every source is made in.

use vstd::prelude::*;

verus! {

/// How many frequency steps make one hertz: frequencies are given in
/// thousandths of a hertz.
pub const FREQ_SCALE: u64 = 1000;

/// The format of an output stream.
#[derive(Clone, Copy, Debug)]
pub struct StreamConfig {
    /// Channels per frame.
    pub channels: u16,
    /// Samples per second.
    pub sample_rate: u32,
}

} // verus!
