//! From a raw sample stream to segments.

pub mod adaptive_normalizer;
pub mod segment_laws;
pub mod universal_transducer;
pub mod universal_vector;
