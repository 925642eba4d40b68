//! A non-interactive argument of knowledge (NARK) for R1CS satisfiability,
//! built from Pedersen-style vector commitments over a fixed prime field and a
//! Fiat-Shamir transform, together with a bounded-depth accumulation scheme
//! that folds many NARK proofs into one accumulator.

use vstd::prelude::*;

pub mod accumulation;
pub mod codec;
pub mod commitment;
pub mod data_structures;
pub mod field;
pub mod group;
pub mod hashing;
pub mod laws;
pub mod matrix;
pub mod nark;

verus! {

/// Errors of the argument system. Verification failure is never an error:
/// `verify` returns a boolean.
#[derive(Debug, Clone, Copy, PartialEq, Eq, Structural)]
pub enum NarkError {
    /// The constraint-system description could not produce consistent matrices.
    ConstraintGenerationError,
    /// The sizes of a synthesized instance disagree with the index key.
    /// Carries (expected variables, actual instance variables, actual witness
    /// variables, expected constraints).
    DimensionMismatchError(usize, usize, usize, usize),
    /// More input instances were handed to accumulation than the depth bound
    /// fixed at indexing time. Carries (bound, actual count).
    BoundExceededError(usize, usize),
    /// An input instance does not belong to the indexed predicate.
    RelationMismatchError,
}

} // verus!
