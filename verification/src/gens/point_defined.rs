use vstd::prelude::*;

verus! {

/// How the value between two points of a point-defined generator is drawn: held
/// from the earlier point, along a straight line, or along a smooth curve.
#[derive(Clone, Copy, Debug, PartialEq, Eq, Structural)]
pub enum Interpolation {
    Step,
    Linear,
    Smooth,
}

impl Default for Interpolation {
    /// Held from the earlier point.
    fn default() -> (res: Self)
        ensures
            res == Interpolation::Step,
    {
        Interpolation::Step
    }
}

} // verus!
