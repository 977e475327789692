use vstd::prelude::*;

verus! {

/// The local control functions of a synthesizer; it holds nothing yet.
#[derive(Debug)]
pub struct LocalFManager {}

} // verus!
