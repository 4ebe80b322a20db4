use vstd::prelude::*;

verus! {

/// Errors reported by the relation and folding operations.
#[derive(Clone, Copy, Debug, PartialEq, Eq, Structural)]
pub enum Error {
    /// An operand's length differs from the dimension it must match:
    /// `(actual, expected)`.
    NotSameLength(usize, usize),
    /// The relation has a non-zero residual where zero was required.
    NotSatisfied,
    /// The tight (exact) relation was checked on a relaxed instance.
    R1CSUnrelaxedFail,
}

} // verus!
