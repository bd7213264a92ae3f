use vstd::prelude::*;

verus! {

/// The ways in which a caller can hand the engine malformed data.
#[derive(Clone, Copy, Debug, PartialEq, Eq, Structural)]
pub enum PerceptionError {
    /// A sample or a signature has a different dimension than the one fixed
    /// before it.
    DimensionMismatch,
    /// The sample sequence and the timestamp sequence differ in length.
    LengthMismatch,
    /// A lateral link points at a unit that the swarm does not hold.
    BrokenTopology,
}

} // verus!
