use vstd::prelude::*;

verus! {

/// An invalid parameter detected at construction time.
///
/// Construction either fails immediately with one of these values or yields a
/// fully usable object; no partially constructed state is ever handed out.
#[derive(Clone, Copy, Debug, PartialEq, Eq, Structural)]
pub enum ConfigurationError {
    /// A coordinate sequence's length does not match the requested dimension.
    DimensionMismatch,
    /// A goal-bias fraction does not lie in the closed interval [0, 1].
    GoalBiasOutOfRange,
}

} // verus!
