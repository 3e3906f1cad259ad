//! The prover of the point addition protocol under a shorter path.

pub use crate::e2f::prover::Prover;
