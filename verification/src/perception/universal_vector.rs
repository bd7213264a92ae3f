use vstd::prelude::*;

verus! {

/// Where a vector's samples came from.
#[derive(Clone, Copy, Debug, PartialEq, Eq, Structural)]
pub enum Modality {
    Sensor,
    Vision,
    Audio,
    Memory,
}

} // verus!
