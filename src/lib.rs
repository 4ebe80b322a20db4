//! The arithmetic core of a folding scheme: a prime field, sparse matrices,
//! rank-1 constraint systems in their exact and relaxed forms, sampling of
//! satisfying relaxed instances, the folding of a running instance with an
//! incoming one, and the inputs of the decider that checks the last fold.

pub mod cubic;
pub mod decider;
pub mod error;
pub mod field;
pub mod folding;
pub mod r1cs;
pub mod relaxed;
pub mod rng;
pub mod schemes;
pub mod vector;
