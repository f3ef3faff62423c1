use evolver::control::bias_channel::{BiasVector, BIAS_DIM, BIAS_RING_SIZE, u64_to_hex};

#[test]
fn test_bias_ring_homomorphism() {
    let mut b1 = BiasVector::new();
    b1.apply_perturbation(0, -1);
    assert_eq!(b1.data[0], BIAS_RING_SIZE - 1);

    let mut b2 = BiasVector::new();
    b2.apply_perturbation(0, 1);
    assert_eq!(b2.data[0], 1);

    let dist = b1.torus_distance(&b2);
    assert_eq!(dist, 2, "Torus distance failed!");
}

#[test]
fn new_bias_is_zero_of_full_dimension() {
    let b = BiasVector::new();
    assert_eq!(b.data.len(), BIAS_DIM);
    assert!(b.data.iter().all(|&x| x == 0));
    assert!(b.commitment.is_none());
}

#[test]
fn perturbation_wraps_around_the_ring() {
    let mut b = BiasVector::new();
    b.apply_perturbation(3, 300);
    assert_eq!(b.data[3], 300 - BIAS_RING_SIZE);
    b.apply_perturbation(3, -600);
    assert_eq!(b.data[3], (44 - 600i32).rem_euclid(BIAS_RING_SIZE));
    assert_eq!(b.data[3], 212);
}

#[test]
fn perturbation_past_the_end_changes_nothing() {
    let mut b = BiasVector::new();
    b.apply_perturbation(BIAS_DIM, 7);
    assert_eq!(b.data, vec![0; BIAS_DIM]);
}

#[test]
fn perturbations_compose_as_one_shift() {
    // applying d1 then d2 lands where d1 + d2 lands
    let mut x = BiasVector::new();
    x.apply_perturbation(5, 200);
    x.apply_perturbation(5, 100);
    let mut y = BiasVector::new();
    y.apply_perturbation(5, 300);
    assert_eq!(x.data, y.data);
}

#[test]
fn torus_distance_is_a_metric_on_examples() {
    let mut a = BiasVector::new();
    let mut b = BiasVector::new();
    let mut c = BiasVector::new();
    a.apply_perturbation(0, 10);
    a.apply_perturbation(1, 250);
    b.apply_perturbation(0, 200);
    b.apply_perturbation(1, 3);
    c.apply_perturbation(0, 128);
    assert_eq!(a.torus_distance(&a), 0);
    assert_eq!(a.torus_distance(&b), b.torus_distance(&a));
    // |10 - 200| = 190 -> 66 ; |250 - 3| = 247 -> 9
    assert_eq!(a.torus_distance(&b), 75);
    assert!(a.torus_distance(&c) <= a.torus_distance(&b) + b.torus_distance(&c));
    // the largest gap on one coordinate is half the ring
    assert_eq!(BiasVector::new().torus_distance(&c), 128);
}

#[test]
fn seal_commits_to_the_hex_hash() {
    let mut b = BiasVector::new();
    b.apply_perturbation(2, 9);
    let before = b.data.clone();
    let h = b.seal();
    assert_eq!(b.commitment, Some(h.clone()));
    assert_eq!(b.data, before);
    assert!(!h.is_empty() && h.len() <= 16);
    assert!(h.chars().all(|ch| ch.is_ascii_hexdigit() && !ch.is_ascii_uppercase()));
    // sealing is deterministic and depends on the data
    let mut again = BiasVector::new();
    again.apply_perturbation(2, 9);
    assert_eq!(again.seal(), h);
    let mut other = BiasVector::new();
    assert_ne!(other.seal(), h);
}

#[test]
fn hex_of_u64() {
    assert_eq!(u64_to_hex(0), "0");
    assert_eq!(u64_to_hex(255), "ff");
    assert_eq!(u64_to_hex(0xdead_beef), "deadbeef");
    assert_eq!(u64_to_hex(u64::MAX), "ffffffffffffffff");
}
