use vstd::prelude::*;

use crate::Error;

verus! {

/// An instrument that plays nothing.
#[derive(Debug)]
pub struct EmptyInstrument;

impl EmptyInstrument {
    /// The instrument.
    pub fn new() -> (res: Self) {
        EmptyInstrument
    }

    /// Its name, `"empty"`.
    pub fn name(&self) -> (res: &str)
        ensures
            res@ == "empty"@,
    {
        "empty"
    }

    /// Putting it in a song needs nothing: always succeeds.
    pub fn put_in_song(&mut self, _id: u8) -> (res: Result<(), Error>)
        ensures
            res is Ok,
    {
        Ok(())
    }
}

impl Default for EmptyInstrument {
    fn default() -> (res: Self) {
        Self::new()
    }
}

} // verus!
