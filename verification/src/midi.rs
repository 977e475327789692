use vstd::prelude::*;

verus! {

/// Largest value a MIDI data byte can hold, plus one.
pub const MIDI_DATA_LIMIT: u8 = 0x80;

/// A MIDI velocity, a data byte below `0x80`.
#[derive(Clone, Copy)]
pub struct Velocity {
    value: u8,
}

impl Velocity {
    /// The raw value held.
    pub closed spec fn spec_value(&self) -> u8 {
        self.value
    }

    /// A velocity of `value`, or `None` when `value` is not a MIDI data byte.
    pub fn new(value: u8) -> (res: Option<Self>)
        ensures
            value < MIDI_DATA_LIMIT <==> res is Some,
            res matches Some(v) ==> v.spec_value() == value,
    {
        if value < MIDI_DATA_LIMIT {
            Some(Self { value })
        } else {
            None
        }
    }

    /// The value held.
    pub fn get(&self) -> (res: u8)
        ensures
            res == self.spec_value(),
    {
        self.value
    }

    /// A velocity of `value`, without checking its range.
    pub fn new_unchecked(value: u8) -> (res: Self)
        ensures
            res.spec_value() == value,
    {
        Self { value }
    }
}

/// A MIDI pitch, a data byte below `0x80`.
#[derive(Clone, Copy)]
pub struct Pitch {
    value: u8,
}

impl Pitch {
    /// The raw value held.
    pub closed spec fn spec_value(&self) -> u8 {
        self.value
    }

    /// A pitch of `value`, or `None` when `value` is not a MIDI data byte.
    pub fn new(value: u8) -> (res: Option<Self>)
        ensures
            value < MIDI_DATA_LIMIT <==> res is Some,
            res matches Some(p) ==> p.spec_value() == value,
    {
        if value < MIDI_DATA_LIMIT {
            Some(Self { value })
        } else {
            None
        }
    }

    /// The value held.
    pub fn get(&self) -> (res: u8)
        ensures
            res == self.spec_value(),
    {
        self.value
    }

    /// A pitch of `value`, without checking its range.
    pub fn new_unchecked(value: u8) -> (res: Self)
        ensures
            res.spec_value() == value,
    {
        Self { value }
    }
}

} // verus!
