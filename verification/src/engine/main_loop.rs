//! The decisions of the grand loop: when the search gives up, when the
//! spectral gap is checked, what a closed gap does to the search mode, and
//! what the guard's verdict does to the state.  The loop itself, which runs
//! the governor, the lifter, the optimizer and the guard, drives these
//! decisions from outside.
use vstd::prelude::*;
use crate::will::dynamics::OptimizationMode;

verus! {

/// Epochs after which the entropy is exhausted.
pub const MAX_EPOCHS: usize = 100_000;

/// The spectral gap is checked every this many epochs.
pub const SPECTRAL_CHECK_INTERVAL: usize = 50;

/// What an epoch does.
#[derive(Debug, Clone, Copy, PartialEq, Eq, Structural)]
pub enum EpochPlan {
    /// The epoch budget is spent: the loop ends in failure.
    Exhausted,
    /// Check the spectral gap of the local graph before anything else.
    CheckSpectrum,
    /// Sense the curvature and search among the neighbours.
    Search,
}

/// What becomes of the state after the optimizer's pick.
#[derive(Debug, Clone, Copy, PartialEq, Eq, Structural)]
pub enum StepOutcome {
    /// The guard let the pick through and it verifies exactly: the loop ends.
    Converged,
    /// The guard let the pick through: it becomes the state.
    Accepted,
    /// No pick, or the guard vetoed it: the state jumps at random.
    RandomJump,
}

/// The plan of epoch `epoch` (counted from 1).
pub open spec fn plan_of(epoch: int) -> EpochPlan {
    if epoch > MAX_EPOCHS {
        EpochPlan::Exhausted
    } else if epoch % (SPECTRAL_CHECK_INTERVAL as int) == 0 {
        EpochPlan::CheckSpectrum
    } else {
        EpochPlan::Search
    }
}

/// The grand loop's own state: the epoch counter and the search mode.
pub struct EvolverEngine {
    /// The prime parameter of the initial algebraic space.
    pub initial_p: u64,
    /// Epochs begun so far.
    pub epoch: usize,
    /// The current search mode.
    pub mode: OptimizationMode,
}

impl EvolverEngine {
    /// A loop that has not started, searching by gradient flow.
    pub fn new(initial_p: u64) -> (r: Self)
        ensures
            r.initial_p == initial_p,
            r.epoch == 0,
            r.mode == OptimizationMode::GradientFlow,
    {
        EvolverEngine { initial_p, epoch: 0, mode: OptimizationMode::GradientFlow }
    }

    /// The message of an exhausted search.
    pub fn exhausted_message() -> (r: String)
        ensures
            r@ == "Entropy Exhausted: Maximum epochs reached without convergence."@,
    {
        let mut r = String::new();
        r.append("Entropy Exhausted: Maximum epochs reached without convergence.");
        r
    }

    /// Begins the next epoch and says what it does: past `MAX_EPOCHS` the
    /// search is exhausted; every `SPECTRAL_CHECK_INTERVAL`-th epoch checks
    /// the spectral gap; any other epoch searches.
    pub fn begin_epoch(&mut self) -> (r: EpochPlan)
        requires
            old(self).epoch < usize::MAX,
        ensures
            final(self).epoch == old(self).epoch + 1,
            final(self).mode == old(self).mode,
            final(self).initial_p == old(self).initial_p,
            r == plan_of(final(self).epoch as int),
    {
        self.epoch = self.epoch + 1;
        if self.epoch > MAX_EPOCHS {
            EpochPlan::Exhausted
        } else if self.epoch % SPECTRAL_CHECK_INTERVAL == 0 {
            EpochPlan::CheckSpectrum
        } else {
            EpochPlan::Search
        }
    }

    /// Acts on a spectral check: when the gap has closed, the state is to be
    /// lifted into a fresh algebra and the search mode starts over as
    /// gradient flow, since the new space curves differently.  Returns
    /// whether to lift.
    pub fn spectral_verdict(&mut self, gap_open: bool) -> (lift: bool)
        ensures
            lift == !gap_open,
            !gap_open ==> final(self).mode == OptimizationMode::GradientFlow,
            gap_open ==> final(self).mode == old(self).mode,
            final(self).epoch == old(self).epoch,
            final(self).initial_p == old(self).initial_p,
    {
        if !gap_open {
            self.mode = OptimizationMode::GradientFlow;
        }
        !gap_open
    }

    /// What the guard's verdict does: with no pick, or a vetoed one, the
    /// state jumps at random; a pick let through converges when it also
    /// verifies exactly, and is accepted otherwise.
    pub fn step_outcome(has_pick: bool, vetoed: bool, verifies: bool) -> (r: StepOutcome)
        ensures
            (!has_pick || vetoed) ==> r == StepOutcome::RandomJump,
            (has_pick && !vetoed && verifies) ==> r == StepOutcome::Converged,
            (has_pick && !vetoed && !verifies) ==> r == StepOutcome::Accepted,
    {
        if !has_pick || vetoed {
            StepOutcome::RandomJump
        } else if verifies {
            StepOutcome::Converged
        } else {
            StepOutcome::Accepted
        }
    }
}

/// The loop ends within `MAX_EPOCHS + 1` epochs: the epoch after the last
/// allowed one is exhausted, and no earlier epoch is.
pub proof fn lemma_epochs_bounded(epoch: int)
    requires
        epoch >= 1,
    ensures
        (plan_of(epoch) == EpochPlan::Exhausted) <==> epoch > MAX_EPOCHS,
        plan_of(MAX_EPOCHS as int + 1) == EpochPlan::Exhausted,
{
}

} // verus!
