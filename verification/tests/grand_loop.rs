use evolver::engine::main_loop::{EpochPlan, EvolverEngine, StepOutcome, MAX_EPOCHS, SPECTRAL_CHECK_INTERVAL};
use evolver::will::dynamics::OptimizationMode;

#[test]
fn epochs_plan_spectral_checks_and_exhaustion() {
    let mut e = EvolverEngine::new(409);
    assert_eq!((e.initial_p, e.epoch, e.mode), (409, 0, OptimizationMode::GradientFlow));
    let mut checks = 0;
    let mut last = EpochPlan::Search;
    while e.epoch <= MAX_EPOCHS {
        last = e.begin_epoch();
        if last == EpochPlan::CheckSpectrum {
            checks += 1;
            assert_eq!(e.epoch % SPECTRAL_CHECK_INTERVAL, 0);
        }
        if e.epoch == 1 || e.epoch == 49 || e.epoch == 51 {
            assert_eq!(last, EpochPlan::Search);
        }
        if e.epoch == 50 || e.epoch == 100 {
            assert_eq!(last, EpochPlan::CheckSpectrum);
        }
        if e.epoch <= MAX_EPOCHS {
            assert_ne!(last, EpochPlan::Exhausted);
        }
    }
    assert_eq!(last, EpochPlan::Exhausted);
    assert_eq!(e.epoch, MAX_EPOCHS + 1);
    assert_eq!(checks, MAX_EPOCHS / SPECTRAL_CHECK_INTERVAL);
    assert_eq!(
        EvolverEngine::exhausted_message(),
        "Entropy Exhausted: Maximum epochs reached without convergence."
    );
}

#[test]
fn closed_gap_lifts_and_resets_the_mode() {
    let mut e = EvolverEngine::new(7);
    e.mode = OptimizationMode::HyperbolicBeam;
    assert!(!e.spectral_verdict(true));
    assert_eq!(e.mode, OptimizationMode::HyperbolicBeam);
    assert!(e.spectral_verdict(false));
    assert_eq!(e.mode, OptimizationMode::GradientFlow);
}

#[test]
fn guard_verdicts() {
    assert_eq!(EvolverEngine::step_outcome(false, false, true), StepOutcome::RandomJump);
    assert_eq!(EvolverEngine::step_outcome(true, true, true), StepOutcome::RandomJump);
    assert_eq!(EvolverEngine::step_outcome(true, false, true), StepOutcome::Converged);
    assert_eq!(EvolverEngine::step_outcome(true, false, false), StepOutcome::Accepted);
}
