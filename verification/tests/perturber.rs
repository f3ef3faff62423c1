use evolver::bigint::BigNum;
use evolver::soul::algebra::IdealClass;
use evolver::will::perturber::{is_prime, Perturber};

fn form(a: i64, b: i64, c: i64) -> IdealClass {
    IdealClass::new(BigNum::from_i64(a), BigNum::from_i64(b), BigNum::from_i64(c))
}

fn coeffs(f: &IdealClass) -> (i64, i64, i64) {
    (f.a.to_i64().unwrap(), f.b.to_i64().unwrap(), f.c.to_i64().unwrap())
}

#[test]
fn trial_division_primality() {
    let primes: Vec<u64> = (0u64..30).filter(|&n| is_prime(n)).collect();
    assert_eq!(primes, vec![2, 3, 5, 7, 11, 13, 17, 19, 23, 29]);
    assert!(is_prime(99991));
    assert!(!is_prime(99993));
}

#[test]
fn generators_of_minus_23() {
    let p = Perturber::new(&BigNum::from_i64(-23), 3);
    let gens: Vec<(i64, i64, i64)> = p.get_generators().iter().map(coeffs).collect();
    // 5, 7 and 11 are inert in Q(sqrt(-23)); 2, 3 and 13 split
    assert_eq!(gens, vec![(2, 1, 3), (3, 1, 2), (13, 9, 2)]);
}

#[test]
fn generator_count_is_respected() {
    let p = Perturber::new(&BigNum::from_i64(-23), 0);
    assert!(p.get_generators().is_empty());
    let q = Perturber::new(&BigNum::from_i64(-23), 1);
    assert_eq!(q.get_generators().len(), 1);
}

#[test]
fn chosen_moves() {
    let p = Perturber::new(&BigNum::from_i64(-23), 3);
    let s = form(2, 1, 3);
    let (next, factor) = p.perturb_with_choice(&s, 0, false);
    assert_eq!(coeffs(&factor), (2, 1, 3));
    assert_eq!(coeffs(&next), (2, -1, 3));
    let (back, inv) = p.perturb_with_choice(&s, 0, true);
    assert_eq!(coeffs(&inv), (2, -1, 3));
    assert_eq!(coeffs(&back), (1, 1, 6));
    let (third, f3) = p.perturb_with_choice(&s, 1, false);
    assert_eq!(coeffs(&f3), (3, 1, 2));
    assert_eq!(coeffs(&third), (1, 1, 6));
}

#[test]
fn random_moves_stay_in_the_class_group() {
    let p = Perturber::new(&BigNum::from_i64(-23), 3);
    let classes = [(1, 1, 6), (2, 1, 3), (2, -1, 3)];
    let mut s = form(1, 1, 6);
    for _ in 0..20 {
        let (next, factor) = p.perturb_with_source(&s);
        assert!(next == s.compose(&factor));
        assert_eq!(next.discriminant().to_i64(), Some(-23));
        assert!(classes.contains(&coeffs(&next)));
        s = p.perturb(&next);
        assert!(classes.contains(&coeffs(&s)));
    }
}

#[test]
fn no_generators_no_move() {
    let p = Perturber::new(&BigNum::from_i64(-23), 0);
    let s = form(2, 1, 3);
    let (next, factor) = p.perturb_with_source(&s);
    assert!(next == s);
    assert_eq!(coeffs(&factor), (1, 1, 6));
    assert!(s.compose(&factor) == next);
    assert!(p.perturb(&s) == s);
    // an unreduced state comes back reduced, composed with the identity
    let u = form(3, 5, 4);
    let (next_u, factor_u) = p.perturb_with_source(&u);
    assert_eq!(coeffs(&next_u), (2, 1, 3));
    assert_eq!(coeffs(&factor_u), (1, 1, 6));
    // D = 0 (mod 4): the identity is (1, 0, -D/4)
    let q = Perturber::new(&BigNum::from_i64(-20), 0);
    let v = form(2, 2, 3);
    let (next_v, factor_v) = q.perturb_with_source(&v);
    assert_eq!(coeffs(&factor_v), (1, 0, 5));
    assert!(next_v == v);
    // a form that is not positive definite is returned as it is
    let w = form(1, 4, 2);
    let (next_w, _) = q.perturb_with_source(&w);
    assert!(next_w == w);
}
