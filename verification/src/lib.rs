//! A verified core for building rank-1 constraint systems (R1CS).
//!
//! The crate provides variable allocation with a public/witness partition,
//! linear combinations over the BLS12-381 scalar field, a gadget library
//! (equality, inequality, booleanity, range, conditional select,
//! exponentiation, pairwise distinctness), a deterministic compiler to
//! sparse R1CS matrices, and a local satisfiability check that runs before
//! any proof is attempted. Field arithmetic and the pairing-based proof
//! backend are external collaborators reached through trusted wrappers.

pub mod circuits;
pub mod compile;
pub mod field;
pub mod gadgets;
pub mod lc;
pub mod system;

use vstd::prelude::*;

verus! {

/// Errors surfaced by the constraint-system core. All failures are typed
/// results; nothing falls back silently.
#[derive(Clone, Copy, PartialEq, Eq, Structural, Debug)]
pub enum Error {
    /// An invalid index or inconsistent shape was used during synthesis.
    AllocationError,
    /// A variable allocation was attempted after the system was compiled.
    AllocationAfterFinalize,
    /// A required concrete value was absent.
    MissingAssignment,
    /// The local satisfiability pass found a violated constraint.
    ConstraintUnsatisfied,
    /// An inverse-based gadget hit a zero divisor.
    DivisionByZero,
    /// The external proof backend failed; propagated opaquely.
    BackendError,
}

} // verus!
