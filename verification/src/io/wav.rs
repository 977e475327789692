use vstd::prelude::*;

use crate::globals::SAMPLE_RATE;
use crate::Error;

verus! {

/// How the samples of a WAV file are stored.
#[derive(Debug, Clone, Copy, PartialEq, Eq, Structural)]
pub enum SampleKind {
    Float,
    Int,
}

/// The formats whose reading is not written yet: stereo at the sample rate, but
/// floats of up to 64 bits, or integers of up to 8 or of 17 to 64 bits.
pub open spec fn wav_unwritten(channels: u16, sample_rate: u32, bits_per_sample: u16, kind: SampleKind) -> bool {
    &&& channels == 2
    &&& sample_rate == SAMPLE_RATE
    &&& match kind {
        SampleKind::Float => bits_per_sample <= 64,
        SampleKind::Int => bits_per_sample <= 8 || 17 <= bits_per_sample <= 64,
    }
}

/// The formats that are read: stereo at the sample rate, integers of 9 to 16 bits.
pub open spec fn wav_readable(channels: u16, sample_rate: u32, bits_per_sample: u16, kind: SampleKind) -> bool {
    &&& channels == 2
    &&& sample_rate == SAMPLE_RATE
    &&& kind == SampleKind::Int
    &&& 9 <= bits_per_sample <= 16
}

/// Tells whether reading a WAV file of this format is not written yet.
pub fn wav_format_unwritten(channels: u16, sample_rate: u32, bits_per_sample: u16, kind: SampleKind) -> (res: bool)
    ensures
        res == wav_unwritten(channels, sample_rate, bits_per_sample, kind),
{
    if channels != 2 || sample_rate as usize != SAMPLE_RATE {
        return false;
    }
    match kind {
        SampleKind::Float => bits_per_sample <= 64,
        SampleKind::Int => bits_per_sample <= 8 || (17 <= bits_per_sample && bits_per_sample <= 64),
    }
}

/// Accepts a WAV file of this format for reading; any other format that is not
/// left unwritten is refused with `Error::WavRead`.
pub fn check_wav_format(channels: u16, sample_rate: u32, bits_per_sample: u16, kind: SampleKind) -> (res: Result<(), Error>)
    requires
        !wav_unwritten(channels, sample_rate, bits_per_sample, kind),
    ensures
        wav_readable(channels, sample_rate, bits_per_sample, kind) ==> res is Ok,
        !wav_readable(channels, sample_rate, bits_per_sample, kind) ==> res == Err::<(), Error>(
            Error::WavRead,
        ),
{
    if channels != 2 {
        return Err(Error::WavRead);
    }
    if sample_rate as usize != SAMPLE_RATE {
        return Err(Error::WavRead);
    }
    match kind {
        SampleKind::Float => Err(Error::WavRead),
        SampleKind::Int => {
            if 9 <= bits_per_sample && bits_per_sample <= 16 {
                Ok(())
            } else {
                Err(Error::WavRead)
            }
        },
    }
}

/// Splits interleaved stereo samples into the left channel (the samples at even
/// places) and the right channel (those at odd places).
pub fn split_channels(samples: &[i16]) -> (res: (Vec<i16>, Vec<i16>))
    requires
        samples@.len() % 2 == 0,
    ensures
        res.0@.len() == samples@.len() / 2,
        res.1@.len() == samples@.len() / 2,
        forall|i: int| 0 <= i < res.0@.len() ==> #[trigger] res.0@[i] == samples@[2 * i],
        forall|i: int| 0 <= i < res.1@.len() ==> #[trigger] res.1@[i] == samples@[2 * i + 1],
{
    let mut left: Vec<i16> = Vec::new();
    let mut right: Vec<i16> = Vec::new();
    let mut i: usize = 0;
    while i < samples.len()
        invariant
            samples@.len() % 2 == 0,
            i % 2 == 0,
            0 <= i <= samples@.len(),
            left@.len() == i / 2,
            right@.len() == i / 2,
            forall|j: int| 0 <= j < left@.len() ==> #[trigger] left@[j] == samples@[2 * j],
            forall|j: int| 0 <= j < right@.len() ==> #[trigger] right@[j] == samples@[2 * j + 1],
        decreases samples@.len() - i,
    {
        left.push(samples[i]);
        right.push(samples[i + 1]);
        i = i + 2;
    }
    (left, right)
}

} // verus!
