//! Evolver: algebraic search over class groups of imaginary quadratic fields,
//! with the projection of states to logic and the checks that replay a search.
pub mod bigint;
pub mod soul;
pub mod body;
pub mod will;
pub mod control;
pub mod dsl;
pub mod engine;

use vstd::prelude::*;
use crate::soul::algebra::IdealClass;
use crate::soul::dynamics::TimeEvolution;
use crate::soul::forms::{Form, is_positive_definite};
use crate::body::projection::{Projector, exact_state_hash};
use crate::dsl::stp_bridge::str_equals;

verus! {

/// The law of time that a mode selects.
#[derive(Debug, Clone, Copy, PartialEq, Eq, Structural)]
pub enum DynamicsChoice {
    /// No implicit motion.
    Identity,
    /// The delay function: repeated squaring.
    Vdf,
}

/// The criterion that a mode selects for the search.
#[derive(Debug, Clone, Copy, PartialEq, Eq, Structural)]
pub enum EvaluatorChoice {
    /// The geometric heuristic.
    Geometric,
    /// The rigorous STP check.
    Stp,
}

/// The states that `t` steps of a dynamics reach from `f`.
pub open spec fn evolve_iterate<D: TimeEvolution>(d: D, f: Form, t: nat) -> Form
    decreases t,
{
    if t == 0 {
        f
    } else {
        d.evolved(evolve_iterate(d, f, (t - 1) as nat))
    }
}

/// The orchestrator: soul (algebra), will (search) and body (projection).
pub struct PyEvolver {
    /// Modulus of the projected digits.
    pub p: u64,
    pub k: u64,
    /// Squarings per step of the delay function.
    pub vdf_difficulty: usize,
    /// Steps of the search.
    pub search_steps: usize,
}

impl PyEvolver {
    /// Defaults: one squaring per step and a search of 100 steps.
    pub fn new(p: u64, k: u64, vdf_difficulty: Option<usize>, search_steps: Option<usize>) -> (r: Self)
        ensures
            r.p == p,
            r.k == k,
            r.vdf_difficulty == (match vdf_difficulty { Some(v) => v, None => 1 }),
            r.search_steps == (match search_steps { Some(v) => v, None => 100 }),
    {
        PyEvolver {
            p,
            k,
            vdf_difficulty: match vdf_difficulty { Some(v) => v, None => 1 },
            search_steps: match search_steps { Some(v) => v, None => 100 },
        }
    }

    /// The strategies of a mode: "fast" / "native" (identity time, geometric
    /// will), "prove" / "vdf" (delay function, STP will), "hybrid" (delay
    /// function, geometric will); any other mode is an error.
    pub fn select_strategy(mode: &str) -> (r: Result<(DynamicsChoice, EvaluatorChoice), String>)
        ensures
            (mode@ == "fast"@ || mode@ == "native"@) ==> r == Ok::<(DynamicsChoice, EvaluatorChoice), String>((DynamicsChoice::Identity, EvaluatorChoice::Geometric)),
            (mode@ == "prove"@ || mode@ == "vdf"@) ==> r == Ok::<(DynamicsChoice, EvaluatorChoice), String>((DynamicsChoice::Vdf, EvaluatorChoice::Stp)),
            mode@ == "hybrid"@ ==> r == Ok::<(DynamicsChoice, EvaluatorChoice), String>((DynamicsChoice::Vdf, EvaluatorChoice::Geometric)),
            !(mode@ == "fast"@ || mode@ == "native"@ || mode@ == "prove"@ || mode@ == "vdf"@ || mode@ == "hybrid"@)
                ==> (r matches Err(e) && e@ == "Unknown mode. Available modes: 'fast', 'prove', 'hybrid'"@),
    {
        proof {
            reveal_strlit("fast");
            reveal_strlit("native");
            reveal_strlit("prove");
            reveal_strlit("vdf");
            reveal_strlit("hybrid");
            assert("prove"@[0] != "fast"@[0] && "prove"@[0] != "native"@[0]);
            assert("vdf"@[0] != "fast"@[0] && "vdf"@[0] != "native"@[0]);
            assert("hybrid"@[0] != "fast"@[0] && "hybrid"@[0] != "native"@[0]);
            assert("hybrid"@[0] != "prove"@[0] && "hybrid"@[0] != "vdf"@[0]);
        }
        if str_equals(mode, "fast") || str_equals(mode, "native") {
            Ok((DynamicsChoice::Identity, EvaluatorChoice::Geometric))
        } else if str_equals(mode, "prove") || str_equals(mode, "vdf") {
            Ok((DynamicsChoice::Vdf, EvaluatorChoice::Stp))
        } else if str_equals(mode, "hybrid") {
            Ok((DynamicsChoice::Vdf, EvaluatorChoice::Geometric))
        } else {
            let mut e = String::new();
            e.append("Unknown mode. Available modes: 'fast', 'prove', 'hybrid'");
            Err(e)
        }
    }

    /// Spins a logic path out of an optimized state: the exact digit of the
    /// state at each step, then one step of the dynamics.
    pub fn materialize<D: TimeEvolution>(&self, state: &IdealClass, dynamics: &D, depth: usize) -> (r: Vec<u64>)
        requires
            depth > 0 ==> self.p > 0,
            is_positive_definite(state@),
        ensures
            r@.len() == depth,
            forall|t: int| 0 <= t < depth ==> {
                let f = #[trigger] evolve_iterate(*dynamics, state@, t as nat);
                r@[t] == exact_state_hash(f.0, f.1, f.2, t as u64) % self.p
            },
    {
        let mut logic_path: Vec<u64> = Vec::new();
        let mut current = state.dup();
        let projector = Projector::new(self.p);
        let mut t: usize = 0;
        while t < depth
            invariant
                t <= depth,
                projector.p_base == self.p,
                depth > 0 ==> self.p > 0,
                logic_path@.len() == t,
                current@ == evolve_iterate(*dynamics, state@, t as nat),
                is_positive_definite(current@),
                forall|j: int| 0 <= j < t ==> {
                    let f = #[trigger] evolve_iterate(*dynamics, state@, j as nat);
                    logic_path@[j] == exact_state_hash(f.0, f.1, f.2, j as u64) % self.p
                },
            decreases depth - t,
        {
            let digit = projector.project_exact(&current, t as u64);
            logic_path.push(digit);
            current = dynamics.next(&current);
            t = t + 1;
        }
        logic_path
    }
}

} // verus!
