//! Wiring of the prototype swarm.

pub mod lateral_topology;
