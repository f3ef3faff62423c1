use evolver::bigint::BigNum;
use evolver::body::projection::Projector;
use evolver::soul::algebra::IdealClass;
use evolver::soul::dynamics::{HeckeDynamics, IdentityDynamics, Quaternion, TimeEvolution, VDFDynamics};
use evolver::will::dynamics::OptimizationMode;
use evolver::will::evaluator::{GeometricEvaluator, StpEvaluator};
use evolver::will::tracer::OptimizationTrace;
use evolver::{DynamicsChoice, EvaluatorChoice, PyEvolver};

fn form(a: i64, b: i64, c: i64) -> IdealClass {
    IdealClass::new(BigNum::from_i64(a), BigNum::from_i64(b), BigNum::from_i64(c))
}

fn coeffs(f: &IdealClass) -> (i64, i64, i64) {
    (f.a.to_i64().unwrap(), f.b.to_i64().unwrap(), f.c.to_i64().unwrap())
}

#[test]
fn evolver_defaults() {
    let e = PyEvolver::new(409, 19, None, None);
    assert_eq!((e.p, e.k, e.vdf_difficulty, e.search_steps), (409, 19, 1, 100));
    let f = PyEvolver::new(2, 3, Some(5), Some(7));
    assert_eq!((f.vdf_difficulty, f.search_steps), (5, 7));
}

#[test]
fn strategies_of_each_mode() {
    assert_eq!(PyEvolver::select_strategy("fast"), Ok((DynamicsChoice::Identity, EvaluatorChoice::Geometric)));
    assert_eq!(PyEvolver::select_strategy("native"), Ok((DynamicsChoice::Identity, EvaluatorChoice::Geometric)));
    assert_eq!(PyEvolver::select_strategy("prove"), Ok((DynamicsChoice::Vdf, EvaluatorChoice::Stp)));
    assert_eq!(PyEvolver::select_strategy("vdf"), Ok((DynamicsChoice::Vdf, EvaluatorChoice::Stp)));
    assert_eq!(PyEvolver::select_strategy("hybrid"), Ok((DynamicsChoice::Vdf, EvaluatorChoice::Geometric)));
    assert_eq!(
        PyEvolver::select_strategy("slow"),
        Err("Unknown mode. Available modes: 'fast', 'prove', 'hybrid'".to_string())
    );
    assert!(PyEvolver::select_strategy("").is_err());
    assert!(PyEvolver::select_strategy("Fast").is_err());
}

#[test]
fn identity_dynamics_keeps_the_state() {
    let s = form(2, 1, 3);
    assert!(IdentityDynamics.next(&s) == s);
}

#[test]
fn vdf_dynamics_squares_repeatedly() {
    let s = form(2, 1, 3);
    assert_eq!(coeffs(&VDFDynamics::new(0).next(&s)), (2, 1, 3));
    assert_eq!(coeffs(&VDFDynamics::new(1).next(&s)), (2, -1, 3));
    // g^4 = g in a group of order 3
    assert_eq!(coeffs(&VDFDynamics::new(2).next(&s)), (2, 1, 3));
    assert_eq!(VDFDynamics::new(9).iterations, 9);
}

#[test]
fn hecke_operator_of_a_difficulty() {
    let h = HeckeDynamics::new(12);
    let q = h.flow_operator;
    assert_eq!((q.a, q.b, q.c, q.d), (12, 1, 0, 0));
    let r = Quaternion::new(1, -2, 3, -4);
    assert_eq!((r.a, r.b, r.c, r.d), (1, -2, 3, -4));
}

#[test]
fn materialize_with_identity_time_projects_one_state() {
    let e = PyEvolver::new(409, 19, None, None);
    let s = form(2, 1, 3);
    let path = e.materialize(&s, &IdentityDynamics, 5);
    assert_eq!(path.len(), 5);
    let p = Projector::new(409);
    for (t, d) in path.iter().enumerate() {
        assert_eq!(*d, p.project_exact(&s, t as u64));
    }
}

#[test]
fn materialize_with_vdf_time_follows_the_squares() {
    let e = PyEvolver::new(97, 19, Some(1), None);
    let s = form(2, 1, 6);
    let path = e.materialize(&s, &VDFDynamics::new(1), 3);
    let p = Projector::new(97);
    assert_eq!(path, vec![
        p.project_exact(&s, 0),
        p.project_exact(&s.square(), 1),
        p.project_exact(&s.square().square(), 2),
    ]);
    assert!(e.materialize(&s, &VDFDynamics::new(1), 0).is_empty());
}

#[test]
fn trace_records_moves() {
    let s = form(1, 1, 6);
    let mut t = OptimizationTrace::new(s.dup(), "ctx".to_string());
    assert!(t.initial_state == s && t.final_state == s);
    assert!(t.perturbations.is_empty());
    assert_eq!(t.context, "ctx");
    assert!(!t.id.is_empty());
    t.record_step(form(2, 1, 3));
    assert_eq!(coeffs(&t.final_state), (2, 1, 3));
    t.record_step(form(2, 1, 3));
    assert_eq!(coeffs(&t.final_state), (2, -1, 3));
    t.record_step(form(3, 1, 2));
    assert_eq!(coeffs(&t.final_state), (2, 1, 3));
    assert_eq!(t.perturbations.len(), 3);
    assert!(t.initial_state == s);
}

#[test]
fn mode_and_evaluator_markers() {
    assert!(OptimizationMode::GradientFlow != OptimizationMode::HyperbolicBeam);
    let _g = GeometricEvaluator;
    let _s = StpEvaluator;
}

#[test]
fn trace_from_parts_keeps_id_and_time() {
    let s = form(1, 1, 6);
    let mut t = OptimizationTrace::from_parts(s.dup(), "ctx".to_string(), "id-1".to_string(), 42);
    assert_eq!((t.id.as_str(), t.timestamp), ("id-1", 42));
    t.record_step(form(2, 1, 3));
    assert_eq!((t.id.as_str(), t.timestamp), ("id-1", 42));
    assert_eq!(OptimizationTrace::new(s, "ctx".to_string()).id.len(), 36);
}
