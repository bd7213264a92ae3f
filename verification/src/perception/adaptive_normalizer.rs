use vstd::prelude::*;
use crate::error::PerceptionError;

verus! {

/// The discrete state of a streaming normalizer: how many samples it has
/// taken in, and the dimension that the first of them fixed.
///
/// The running mean and the sum of squared deviations live beside this state
/// with the caller, one entry per dimension.
#[derive(Clone, Copy, Debug)]
pub struct NormalizerState {
    count: u64,
    dimension: Option<usize>,
}

impl NormalizerState {
    /// The number of samples taken in so far.
    pub closed spec fn samples(&self) -> nat {
        self.count as nat
    }

    /// The dimension of the stream, once a first sample has fixed it.
    pub closed spec fn stream_dimension(&self) -> Option<usize> {
        self.dimension
    }

    /// A sample of `len` coordinates fits the stream: it is the first, or it
    /// has the dimension of the first.
    pub open spec fn accepts(&self, len: usize) -> bool {
        self.stream_dimension() matches Some(d) ==> d == len
    }

    /// The state before any sample.
    pub fn new() -> (state: Self)
        ensures
            state.samples() == 0,
            state.stream_dimension() is None,
    {
        NormalizerState { count: 0, dimension: None }
    }

    /// Checks a sample of `len` coordinates against the stream's dimension,
    /// without taking it in.
    pub fn check_dimension(&self, len: usize) -> (r: Result<(), PerceptionError>)
        ensures
            self.accepts(len) ==> r == Ok::<(), PerceptionError>(()),
            !self.accepts(len) ==> r == Err::<(), PerceptionError>(
                PerceptionError::DimensionMismatch,
            ),
    {
        match self.dimension {
            Some(d) => {
                if d != len {
                    return Err(PerceptionError::DimensionMismatch);
                }
                Ok(())
            },
            None => Ok(()),
        }
    }

    /// Takes in a sample of `len` coordinates. The first sample fixes the
    /// dimension; a later one of another dimension is refused and leaves the
    /// state as it was.
    pub fn update(&mut self, len: usize) -> (r: Result<(), PerceptionError>)
        requires
            old(self).samples() < u64::MAX,
        ensures
            old(self).accepts(len) ==> {
                &&& r == Ok::<(), PerceptionError>(())
                &&& final(self).samples() == old(self).samples() + 1
                &&& final(self).stream_dimension() == Some(len)
            },
            !old(self).accepts(len) ==> {
                &&& r == Err::<(), PerceptionError>(PerceptionError::DimensionMismatch)
                &&& *final(self) == *old(self)
            },
    {
        match self.dimension {
            Some(d) => {
                if d != len {
                    return Err(PerceptionError::DimensionMismatch);
                }
            },
            None => {
                self.dimension = Some(len);
            },
        }
        self.count = self.count + 1;
        Ok(())
    }

    /// The number of samples taken in so far.
    pub fn count(&self) -> (n: u64)
        ensures
            n == self.samples(),
    {
        self.count
    }

    /// The dimension of the stream, `None` before the first sample.
    pub fn dimension(&self) -> (d: Option<usize>)
        ensures
            d == self.stream_dimension(),
    {
        self.dimension
    }

    /// Whether a first sample has fixed the dimension.
    pub fn is_initialized(&self) -> (b: bool)
        ensures
            b == self.stream_dimension() is Some,
    {
        self.dimension.is_some()
    }

    /// Whether the stream has a variance to normalize by: that takes two
    /// samples. Before that a sample passes through unchanged.
    pub fn has_variance(&self) -> (b: bool)
        ensures
            b == (self.samples() >= 2),
    {
        self.count >= 2
    }
}

} // verus!
