use evolver::bigint::BigNum;
use evolver::soul::algebra::IdealClass;
use evolver::soul::entropy::sha256_hex;
use evolver::will::perturber::Perturber;
use evolver::will::tracer::{OptimizationTrace, ReplayVerdict, TraceVerifier};

// The prime search of this context succeeds at its second candidate.
const CONTEXT: &str = "genesis-1271";

#[test]
fn spawned_universe_and_seed() {
    let (seed, universe) = IdealClass::spawn_universe(CONTEXT).expect("a prime is found");
    assert_eq!(universe.context_hash, sha256_hex(CONTEXT.as_bytes()));
    assert!(seed.is_positive_definite());
    assert!(seed.discriminant().equals(&universe.discriminant));
    // D = -M with M = 3 (mod 4), so D = 1 (mod 4)
    let four = BigNum::from_i64(4);
    assert_eq!(universe.discriminant.rem_euclid(&four).to_i64(), Some(1));
    // the seed (entropy, 1) reduces to the principal class
    assert_eq!(seed.a.to_i64(), Some(1));
    assert_eq!(seed.b.to_i64(), Some(1));
}

fn seed_and_generators() -> (IdealClass, Vec<IdealClass>) {
    let seed = IdealClass::from_hash(CONTEXT, 409).expect("a prime is found");
    let perturber = Perturber::new(&seed.discriminant(), 2);
    let gens: Vec<IdealClass> = perturber.get_generators().iter().map(|g| g.dup()).collect();
    assert_eq!(gens.len(), 2);
    assert_eq!(gens[0].a.to_i64(), Some(2));
    assert_eq!(gens[1].a.to_i64(), Some(5));
    (seed, gens)
}

#[test]
fn honest_trace_replays() {
    let (seed, gens) = seed_and_generators();
    let mut trace = OptimizationTrace::new(seed.dup(), CONTEXT.to_string());
    trace.record_step(gens[0].dup());
    trace.record_step(gens[1].inverse());
    match TraceVerifier::verify(&trace, 2) {
        ReplayVerdict::Replayed { steps } => assert_eq!(steps, 2),
        _ => panic!("an honest trace must replay"),
    }
}

#[test]
fn forged_final_state_is_caught() {
    let (seed, gens) = seed_and_generators();
    let mut forged = OptimizationTrace::new(seed.dup(), CONTEXT.to_string());
    forged.record_step(gens[0].dup());
    forged.final_state = seed.dup();
    assert!(matches!(
        TraceVerifier::verify(&forged, 2),
        ReplayVerdict::FinalStateMismatch { .. }
    ));
}

#[test]
fn move_outside_the_generators_is_illegal() {
    let (seed, gens) = seed_and_generators();
    let mut illegal = OptimizationTrace::new(seed.dup(), CONTEXT.to_string());
    illegal.record_step(gens[0].dup());
    illegal.record_step(gens[1].dup());
    match TraceVerifier::verify(&illegal, 1) {
        ReplayVerdict::IllegalMove { step, generator } => {
            assert_eq!(step, 1);
            assert_eq!(generator, gens[1].to_text());
        }
        _ => panic!("the second move is not in P"),
    }
}

#[test]
fn seed_of_another_context_is_rejected() {
    let seed = IdealClass::new(BigNum::from_i64(1), BigNum::from_i64(1), BigNum::from_i64(6));
    let trace = OptimizationTrace::new(seed, CONTEXT.to_string());
    assert!(matches!(
        TraceVerifier::verify(&trace, 2),
        ReplayVerdict::ContextMismatch { .. }
    ));
}
