//! Exact projection of an algebraic state to a digit.
use vstd::prelude::*;
use std::collections::hash_map::DefaultHasher;
use std::hash::{BuildHasher, BuildHasherDefault};
use num_bigint::BigInt;
use crate::soul::algebra::IdealClass;
use crate::soul::forms::{Form, compose_form, is_positive_definite};

verus! {

/// The 64-bit `DefaultHasher` value of a form's coefficients followed by a time step.
/// It is fixed for one build: the hasher's algorithm may change between Rust
/// releases and `BigInt`'s digit width differs between 32- and 64-bit targets, so
/// no contract compares it across builds or machines.
pub uninterp spec fn exact_state_hash(a: int, b: int, c: int, time: u64) -> u64;

/// `BuildHasher::hash_one` of `BuildHasherDefault<DefaultHasher>` (fixed keys)
/// on the three `BigInt` coefficients and the time, hashed in that order.
#[verifier::external_body]
fn hash_state(state: &IdealClass, time: u64) -> (h: u64)
    ensures
        h == exact_state_hash(state.a@, state.b@, state.c@, time),
{
    let a = BigInt::from_signed_bytes_le(&state.a.bytes);
    let b = BigInt::from_signed_bytes_le(&state.b.bytes);
    let c = BigInt::from_signed_bytes_le(&state.c.bytes);
    BuildHasherDefault::<DefaultHasher>::default().hash_one((&a, &b, &c, time))
}

/// The state after `i` squarings.
pub open spec fn square_iterate(f: Form, i: nat) -> Form
    decreases i,
{
    if i == 0 {
        f
    } else {
        let g = square_iterate(f, (i - 1) as nat);
        compose_form(g, g)
    }
}

/// Projects algebraic states (the soul) to digits in `Z / p_base` (the body).
pub struct Projector {
    pub p_base: u64,
}

impl Projector {
    pub fn new(p_base: u64) -> (r: Self)
        ensures
            r.p_base == p_base,
    {
        Self { p_base }
    }

    /// The digit that a state hash stands for: the hash reduced modulo `p_base`.
    pub fn digit_of_hash(&self, hash: u64) -> (r: u64)
        requires
            self.p_base > 0,
        ensures
            r == hash % self.p_base,
    {
        hash % self.p_base
    }

    /// Exact projection: hashes the canonical coefficients together with the
    /// time step, so any change of the algebraic state changes the digit.
    pub fn project_exact(&self, state: &IdealClass, time: u64) -> (r: u64)
        requires
            self.p_base > 0,
        ensures
            r == exact_state_hash(state.a@, state.b@, state.c@, time) % self.p_base,
    {
        let hash = hash_state(state, time);
        self.digit_of_hash(hash)
    }

    /// The exact digits of a seed and its successive squares, one per layer.
    pub fn project_sequence(&self, seed: &IdealClass, depth: usize) -> (r: Vec<u64>)
        requires
            self.p_base > 0,
            is_positive_definite(seed@),
        ensures
            r@.len() == depth,
            forall|i: int| 0 <= i < depth ==> {
                let f = #[trigger] square_iterate(seed@, i as nat);
                r@[i] == exact_state_hash(f.0, f.1, f.2, i as u64) % self.p_base
            },
    {
        let mut current_state = seed.dup();
        let mut path: Vec<u64> = Vec::new();
        let mut layer: usize = 0;
        while layer < depth
            invariant
                self.p_base > 0,
                layer <= depth,
                path@.len() == layer,
                current_state@ == square_iterate(seed@, layer as nat),
                is_positive_definite(current_state@),
                forall|i: int| 0 <= i < layer ==> {
                    let f = #[trigger] square_iterate(seed@, i as nat);
                    path@[i] == exact_state_hash(f.0, f.1, f.2, i as u64) % self.p_base
                },
            decreases depth - layer,
        {
            let digit = self.project_exact(&current_state, layer as u64);
            path.push(digit);
            current_state = current_state.square();
            layer = layer + 1;
        }
        path
    }
}

} // verus!
