use vstd::prelude::*;

use crate::control::ControlError;

verus! {

/// A stand-in for a control function that has not been assigned yet.
#[derive(Debug)]
pub struct PhantomF();

impl PhantomF {
    /// There is nothing to reconnect: always succeeds.
    pub fn heal_sources<M>(&mut self, _id_map: &M) -> (res: Result<(), ControlError>)
        ensures
            res is Ok,
    {
        Ok(())
    }

    /// A stand-in has no function behind it: always fails with the phantom error.
    pub fn test_sources(&self) -> (res: Result<(), ControlError>)
        ensures
            res matches Err(e) && e.is_phantom_f(),
    {
        Err(ControlError::new_phantom_f_err())
    }
}

} // verus!
