use evolver::bigint::BigNum;
use evolver::soul::algebra::IdealClass;

fn form(a: i64, b: i64, c: i64) -> IdealClass {
    IdealClass::new(BigNum::from_i64(a), BigNum::from_i64(b), BigNum::from_i64(c))
}

fn coeffs(f: &IdealClass) -> (i64, i64, i64) {
    (f.a.to_i64().unwrap(), f.b.to_i64().unwrap(), f.c.to_i64().unwrap())
}

#[test]
fn discriminant_of_a_form() {
    assert_eq!(form(2, 1, 3).discriminant().to_i64(), Some(-23));
    assert_eq!(form(1, 1, 6).discriminant().to_i64(), Some(-23));
    assert_eq!(form(3, 4, 5).discriminant().to_i64(), Some(16 - 60));
    assert_eq!(form(1, 4, 2).discriminant().to_i64(), Some(8));
}

#[test]
fn positive_definite_check() {
    assert!(form(2, 1, 3).is_positive_definite());
    assert!(!form(-2, 1, -3).is_positive_definite());
    assert!(!form(1, 4, 2).is_positive_definite());
    assert!(!form(0, 1, 3).is_positive_definite());
}

#[test]
fn reduce_normalizes_and_swaps() {
    let mut f = form(3, 5, 4);
    f.reduce();
    assert_eq!(coeffs(&f), (2, 1, 3));
    let mut g = form(6, 1, 1);
    g.reduce();
    assert_eq!(coeffs(&g), (1, 1, 6));
    // a reduced form is left as it is
    let mut h = form(2, -1, 3);
    h.reduce();
    assert_eq!(coeffs(&h), (2, -1, 3));
    // boundary: b = -a flips to b = a
    let mut k = form(2, -2, 5);
    k.reduce();
    assert_eq!(coeffs(&k), (2, 2, 5));
}

#[test]
fn reduce_is_idempotent() {
    let mut f = form(31, 45, 17);
    f.reduce();
    let once = coeffs(&f);
    f.reduce();
    assert_eq!(coeffs(&f), once);
    assert_eq!(f.discriminant().to_i64(), Some(45 * 45 - 4 * 31 * 17));
}

#[test]
fn square_in_class_group_of_minus_23() {
    // Cl(-23) is cyclic of order 3, generated by (2, 1, 3)
    let g = form(2, 1, 3);
    let g2 = g.square();
    assert_eq!(coeffs(&g2), (2, -1, 3));
    let g3 = g2.compose(&g);
    assert_eq!(coeffs(&g3), (1, 1, 6));
    assert_eq!(g3.discriminant().to_i64(), Some(-23));
}

#[test]
fn compose_with_the_principal_form_is_identity() {
    let e = form(1, 1, 6);
    assert_eq!(coeffs(&form(2, 1, 3).compose(&e)), (2, 1, 3));
    assert_eq!(coeffs(&form(2, -1, 3).compose(&e)), (2, -1, 3));
    assert_eq!(coeffs(&e.compose(&e)), (1, 1, 6));
}

#[test]
fn compose_reduces_unreduced_inputs() {
    // (3, 1, 2) is the unreduced class of (2, -1, 3)
    assert_eq!(coeffs(&form(2, 1, 3).compose(&form(3, 1, 2))), (1, 1, 6));
    assert_eq!(coeffs(&form(2, 1, 3).compose(&form(13, 9, 2))), (1, 1, 6));
}

#[test]
fn inverse_negates_the_middle_coefficient() {
    let g = form(2, 1, 3);
    let inv = g.inverse();
    assert_eq!(coeffs(&inv), (2, -1, 3));
    assert_eq!(coeffs(&inv.inverse()), (2, 1, 3));
    assert_eq!(coeffs(&g.compose(&inv)), (1, 1, 6));
    // a class of order two is its own inverse
    let amb = form(2, 2, 5);
    assert_eq!(coeffs(&amb.inverse()), (2, 2, 5));
}

#[test]
fn larger_discriminant_composition() {
    // D = -47: class number 5, generated by (2, 1, 6)
    let g = form(2, 1, 6);
    let mut acc = g.dup();
    for _ in 0..4 {
        acc = acc.compose(&g);
        assert_eq!(acc.discriminant().to_i64(), Some(-47));
    }
    assert_eq!(coeffs(&acc), (1, 1, 12));
}

#[test]
fn equality_is_coefficientwise() {
    assert!(form(2, 1, 3) == form(2, 1, 3));
    assert!(form(2, 1, 3) != form(2, -1, 3));
    assert!(form(2, 1, 3).equals(&form(2, 1, 3)));
    assert!(!form(2, 1, 3).equals(&form(3, 1, 2)));
}

#[test]
fn text_of_a_form() {
    assert_eq!(form(2, -1, 3).to_text(), "(2, -1, 3)");
    assert_eq!(form(0, 0, 0).to_text(), "(0, 0, 0)");
}

#[test]
fn ambiguous_classes_square_to_the_principal_class() {
    // (a, b, a) is its own inverse
    let f = form(2, 1, 2);
    assert_eq!(coeffs(&f.inverse()), (2, 1, 2));
    assert_eq!(coeffs(&f.square()), (1, 1, 4));
    let g = form(3, 1, 3);
    assert_eq!(coeffs(&g.compose(&g.inverse())), (1, 1, 9));
    // (a, a, c) as well
    let h = form(3, 3, 7);
    assert_eq!(h.discriminant().to_i64(), Some(9 - 84));
    assert_eq!(coeffs(&h.inverse()), (3, 3, 7));
    assert_eq!(coeffs(&h.square()), (1, 1, 19));
}

#[test]
fn principal_form_and_composability() {
    let e = IdealClass::principal(&BigNum::from_i64(-23));
    assert_eq!(coeffs(&e), (1, 1, 6));
    assert_eq!(coeffs(&e.compose(&form(2, -1, 3))), (2, -1, 3));
    assert_eq!(coeffs(&IdealClass::principal(&BigNum::from_i64(-47))), (1, 1, 12));
    assert!(form(2, 1, 3).composable_with(&form(3, 1, 2)));
    assert!(!form(2, 1, 3).composable_with(&form(2, 1, 6)));
    assert!(!form(1, 4, 2).composable_with(&form(1, 4, 2)));
}

#[test]
fn principal_forms_of_both_residues() {
    assert_eq!(coeffs(&IdealClass::principal(&BigNum::from_i64(-4))), (1, 0, 1));
    assert_eq!(coeffs(&IdealClass::principal(&BigNum::from_i64(-20))), (1, 0, 5));
    let e = IdealClass::principal(&BigNum::from_i64(-20));
    // Cl(-20) has the classes (1, 0, 5) and (2, 2, 3)
    let f = form(2, 2, 3);
    assert_eq!(coeffs(&f.compose(&e)), (2, 2, 3));
    assert_eq!(coeffs(&e.compose(&f)), (2, 2, 3));
    assert_eq!(coeffs(&f.compose(&f.inverse())), (1, 0, 5));
}

#[test]
fn inverse_law_on_ambiguous_forms() {
    for (a, b) in [(2i64, 1i64), (3, 1), (3, 2), (5, 3), (7, 4)] {
        let f = form(a, b, a);
        let d = f.discriminant();
        let e = IdealClass::principal(&d);
        assert!(f.compose(&f.inverse()) == e);
        assert!(e.compose(&f) == f && f.compose(&e) == f);
    }
}

#[test]
fn composition_commutes_and_associates_on_examples() {
    // Cl(-47) is cyclic of order 5: (1,1,12), (2,1,6), (2,-1,6), (3,1,4), (3,-1,4)
    let classes = [(1, 1, 12), (2, 1, 6), (2, -1, 6), (3, 1, 4), (3, -1, 4)];
    for &(a, b, c) in classes.iter() {
        for &(p, q, r) in classes.iter() {
            let x = form(a, b, c);
            let y = form(p, q, r);
            assert!(x.compose(&y) == y.compose(&x));
            for &(s, t, u) in classes.iter() {
                let z = form(s, t, u);
                assert!(x.compose(&y).compose(&z) == x.compose(&y.compose(&z)));
            }
        }
    }
}
