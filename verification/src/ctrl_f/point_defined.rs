use vstd::prelude::*;

verus! {

/// How the value between two automation points is drawn.
#[derive(Clone, Copy, Debug, PartialEq, Eq, Structural)]
pub enum Interpolation {
    Linear,
    Smooth,
}

impl Default for Interpolation {
    /// Along a straight line.
    fn default() -> (res: Self)
        ensures
            res == Interpolation::Linear,
    {
        Interpolation::Linear
    }
}

} // verus!
