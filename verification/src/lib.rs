//! Random-number plumbing with machine-checked contracts: a source-of-randomness
//! capability, a reseeding wrapper for block generators, and a weighted sampling tree.

pub mod bernoulli;
pub mod block;
pub mod chacha;
pub mod error;
pub mod impls;
pub mod mock;
pub mod reseeding;
pub mod rng;
pub mod thread_rng;
pub mod tree_spec;
pub mod weight;
pub mod weighted_tree;
