//! Effects: deterministic pseudo-randomness.

pub mod rng;
