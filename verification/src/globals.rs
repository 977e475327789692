use vstd::prelude::*;

verus! {

/// Samples per second of every wave.
pub const SAMPLE_RATE: usize = 44100;

} // verus!
