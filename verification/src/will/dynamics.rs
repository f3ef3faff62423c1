//! Search modes of the will.
use vstd::prelude::*;

verus! {

/// How the will moves on the algebraic manifold.
#[derive(Debug, Clone, Copy, PartialEq, Eq, Structural)]
pub enum OptimizationMode {
    /// Greedy descent, for flat or positively curved regions.
    GradientFlow,
    /// Beam search that keeps several candidates, for negatively curved regions.
    HyperbolicBeam,
}

} // verus!
