use vstd::prelude::*;

use crate::utils::Key;

verus! {

/// A point in time, counted in MIDI clock ticks.
#[derive(Debug, Clone, Copy, PartialEq, Eq, PartialOrd, Ord, Hash, Structural)]
pub struct ClockTick(u32);

impl ClockTick {
    /// The number of ticks.
    pub closed spec fn spec_ticks(&self) -> u32 {
        self.0
    }

    /// The tick `tick`.
    pub closed spec fn from_ticks(tick: u32) -> Self {
        ClockTick(tick)
    }

    /// The tick `tick`.
    pub fn new(tick: u32) -> (res: Self)
        ensures
            res == Self::from_ticks(tick),
            res.spec_ticks() == tick,
    {
        Self(tick)
    }

    /// The number of ticks.
    pub fn ticks(&self) -> (res: u32)
        ensures
            res == self.spec_ticks(),
    {
        self.0
    }

    /// The first tick.
    pub fn abs_zero() -> (res: Self)
        ensures
            res.spec_ticks() == 0,
    {
        Self(0)
    }

    /// The sum of two ticks.
    pub fn plus(self, other: Self) -> (res: Self)
        requires
            self.spec_ticks() + other.spec_ticks() <= u32::MAX,
        ensures
            res.spec_ticks() == self.spec_ticks() + other.spec_ticks(),
    {
        Self(self.0 + other.0)
    }

    /// The difference of two ticks.
    pub fn minus(self, other: Self) -> (res: Self)
        requires
            self.spec_ticks() >= other.spec_ticks(),
        ensures
            res.spec_ticks() == self.spec_ticks() - other.spec_ticks(),
    {
        Self(self.0 - other.0)
    }
}

/// A tick made from a count holds that count.
pub broadcast proof fn lemma_from_ticks(tick: u32)
    ensures
        #[trigger] ClockTick::from_ticks(tick).spec_ticks() == tick,
{
}

impl Key for ClockTick {
    open spec fn key_view(&self) -> u64 {
        self.spec_ticks() as u64
    }

    fn key(&self) -> (k: u64) {
        self.0 as u64
    }

    proof fn lemma_key_injective(a: Self, b: Self) {
    }
}

/// A musical time signature.
#[derive(Debug, Copy, Clone)]
pub struct Signature {
    ticks_per_beat: u32,
    beats_per_bar: u8,
    beat_value: u8,
    subdivision: Option<SubDiv>,
}

/// How a bar is subdivided.
#[derive(Debug, Copy, Clone)]
struct SubDiv {
    arr: [u8; 20],
}

} // verus!
