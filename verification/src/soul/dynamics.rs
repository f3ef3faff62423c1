//! How the soul evolves over time: the dynamics that step a state forward.
use vstd::prelude::*;
use crate::soul::algebra::IdealClass;
use crate::soul::forms::{Form, disc, is_positive_definite};
use crate::body::projection::square_iterate;

verus! {

/// A law of motion for states: a deterministic step on the class group.
pub trait TimeEvolution {
    /// The state that one step reaches from `f`.
    spec fn evolved(&self, f: Form) -> Form;

    /// One step of time.
    fn next(&self, state: &IdealClass) -> (r: IdealClass)
        requires
            is_positive_definite(state@),
        ensures
            r@ == self.evolved(state@),
            is_positive_definite(r@),
            disc(r@) == disc(state@);
}

/// The state does not move on its own; the optimizer alone steers it.
pub struct IdentityDynamics;

impl TimeEvolution for IdentityDynamics {
    open spec fn evolved(&self, f: Form) -> Form {
        f
    }

    fn next(&self, state: &IdealClass) -> (r: IdealClass) {
        state.dup()
    }
}

/// An element of the quaternion algebra `B_{p, inf}`, `a + b i + c j + d k`.
pub struct Quaternion {
    pub a: i64,
    pub b: i64,
    pub c: i64,
    pub d: i64,
}

impl Quaternion {
    pub fn new(a: i64, b: i64, c: i64, d: i64) -> (r: Self)
        ensures
            r.a == a && r.b == b && r.c == c && r.d == d,
    {
        Quaternion { a, b, c, d }
    }
}

/// Causal time flow by a fixed Hecke operator applied from the right.
pub struct HeckeDynamics {
    pub flow_operator: Quaternion,
}

impl HeckeDynamics {
    /// The time operator `difficulty + i`.
    pub fn new(difficulty: usize) -> (r: Self)
        ensures
            r.flow_operator.a == difficulty as i64,
            r.flow_operator.b == 1,
            r.flow_operator.c == 0,
            r.flow_operator.d == 0,
    {
        let seed = difficulty as i64;
        Self { flow_operator: Quaternion::new(seed, 1, 0, 0) }
    }
}

/// The delay function: each step squares the state `iterations` times.
pub struct VDFDynamics {
    pub iterations: usize,
}

impl VDFDynamics {
    pub fn new(iterations: usize) -> (r: Self)
        ensures
            r.iterations == iterations,
    {
        Self { iterations }
    }
}

impl TimeEvolution for VDFDynamics {
    open spec fn evolved(&self, f: Form) -> Form {
        square_iterate(f, self.iterations as nat)
    }

    fn next(&self, state: &IdealClass) -> (r: IdealClass) {
        let mut current = state.dup();
        let mut i: usize = 0;
        while i < self.iterations
            invariant
                i <= self.iterations,
                current@ == square_iterate(state@, i as nat),
                is_positive_definite(current@),
                disc(current@) == disc(state@),
            decreases self.iterations - i,
        {
            current = current.square();
            i = i + 1;
        }
        current
    }
}

} // verus!
