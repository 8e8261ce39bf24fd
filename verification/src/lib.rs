//! Deterministic, verified core of the robot bench estate: the seeded PRNG
//! streams, the net-reachability engine behind run mode, the energization
//! model of a wired circuit, content hashing, and the small rule functions
//! that the benches and tools share.

pub mod checks;
pub mod circuit;
pub mod cli;
pub mod clock;
pub mod components;
pub mod digest;
pub mod episode;
pub mod graph;
pub mod rng;
pub mod schema;
pub mod versions;
pub mod voltage;
