//! The criteria that the will minimizes.
use vstd::prelude::*;

verus! {

/// Fast surrogate: the modular energy of a state on the upper half plane.
pub struct GeometricEvaluator;

/// Rigorous check: the semi-tensor-product verification of the projected logic.
pub struct StpEvaluator;

} // verus!
