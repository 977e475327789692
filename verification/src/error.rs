use vstd::prelude::*;

verus! {

/// Errors reported by the song library.
#[derive(Debug, Clone, PartialEq, Eq)]
pub enum Error {
    /// A slot that is already taken would be overwritten.
    Overwrite,
    /// An identifier is not bound to a track.
    Unbound,
    /// The requested element does not exist.
    Existence,
    /// The element exists but has the wrong kind.
    Type,
    /// No free key is left.
    Overflow,
    /// A receiver would be connected to itself.
    Loop,
    /// A receiver value is out of its range.
    Receiver,
    /// Two receivers do not have the same range and transform.
    ReceiverMisMatch,
    /// Input data could not be decoded.
    Parse,
    /// A wav file has a layout that is not supported.
    WavRead,
    /// The element was used before it was initialised.
    Unintialised,
    /// Samples that could not be loaded, with their paths.
    Sample(Vec<(u32, String)>),
}

} // verus!
