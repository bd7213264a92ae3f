//! Decision core of a path-signature perception engine and of the swarm
//! topology that consumes its output.
//!
//! Every numeric quantity of the engine is a real number that the caller
//! computes in floating point. This crate holds the discrete part: which
//! samples form a segment, which candidate links survive sparsification,
//! and when a stream or a topology is malformed. All of it is integer logic
//! and all of it is verified.

pub mod error;
pub mod neural_swarm;
pub mod perception;

pub use error::PerceptionError;
pub use neural_swarm::lateral_topology::{select_neighbors, validate_links, wire_swarm_topology};
pub use perception::adaptive_normalizer::NormalizerState;
pub use perception::universal_transducer::{Run, Span, Trend, UniversalTransducer};
pub use perception::universal_vector::Modality;
