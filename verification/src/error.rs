use vstd::prelude::*;

verus! {

/// Why the external solving capability gave no usable answer.
#[derive(Debug, Clone, Copy, PartialEq, Eq, Structural)]
pub enum SolverFailure {
    /// No variable assignment satisfies every constraint.
    Infeasible,
    /// The objective can be driven arbitrarily low.
    Unbounded,
    /// Any other failure of the solving backend.
    Other,
}

/// Every way a calculation can fail.
#[derive(Debug, Clone, Copy, PartialEq, Eq, Structural)]
pub enum DspCalError {
    /// The weight list does not match the recipe list: `(recipes, weights)` lengths.
    MismatchedRecipeWeights(usize, usize),
    /// The external linear-program solver failed.
    LpSolverError(SolverFailure),
    /// A decoded solution referenced a variable slot outside the table.
    UnknownLpVarId(usize),
}

} // verus!
