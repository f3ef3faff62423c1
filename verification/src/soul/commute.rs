//! Commutativity of Gauss composition: both orders of the composition give
//! the same form, because the two middle coefficients differ by a multiple of
//! twice the new leading coefficient.
use vstd::prelude::*;
use vstd::arithmetic::div_mod::*;
use vstd::arithmetic::mul::*;
use crate::bigint::{trunc_div, bigint_extended_gcd};
use crate::soul::forms::{
    Form, disc, composable, compose_raw, compose_form, gcd_facts, compose_d1, compose_mean,
    lemma_compose_raw, lemma_same_parity, lemma_trunc_div_exact,
};

verus! {

/// `(a b)(c d) = (a c)(b d)`.
proof fn lemma_swap4(a: int, b: int, c: int, d: int)
    ensures
        (a * b) * (c * d) == (a * c) * (b * d),
{
    lemma_mul_is_associative(a, b, c * d);
    lemma_mul_is_associative(b, c, d);
    lemma_mul_is_commutative(b, c);
    lemma_mul_is_associative(c, b, d);
    lemma_mul_is_associative(a, c, b * d);
}

/// `(a b) c = (a c) b`.
proof fn lemma_rot3(a: int, b: int, c: int)
    ensures
        (a * b) * c == (a * c) * b,
{
    lemma_mul_is_associative(a, b, c);
    lemma_mul_is_commutative(b, c);
    lemma_mul_is_associative(a, c, b);
}

/// `(k a)((u b) n) = ((k u) n)(a b)`.
proof fn lemma_spread(k: int, a: int, u: int, b: int, n: int)
    ensures
        (k * a) * ((u * b) * n) == ((k * u) * n) * (a * b),
{
    lemma_mul_is_associative(k, u, n);
    lemma_swap4(k, u * n, a, b);
    lemma_rot3(u, b, n);
}

/// The algebra behind commutativity: with the Bezout identities of the two
/// orders, the gap between the two middle coefficients is a multiple of
/// `2 e1 e2`.
proof fn lemma_middle_gap(
    kd: int, k1: int, k2: int, ks: int, u: int, v: int, up: int, vp: int,
    bu: int, bv: int, n: int, c1: int, c2: int, b1: int, b2: int,
) -> (m: int)
    requires
        1 == k1 * u + k2 * v,
        1 == k2 * up + k1 * vp,
        1 == kd * bu + ks * bv,
        ks * n == kd * (k1 * c1 - k2 * c2),
        b1 - b2 == 2 * n,
        k1 > 0,
    ensures
        (b2 + (2 * (kd * k2)) * (bu * v * n - bv * c2)) - (b1 + (2 * (kd * k1)) * (bu * vp * (-n) - bv * c1))
            == (2 * ((kd * k1) * (kd * k2))) * m,
{
    let e1 = kd * k1;
    let e2 = kd * k2;
    let p = (bu * v) * n;
    let q = bv * c2;
    let pn = (bu * vp) * n;
    let qp = bv * c1;
    let x = k1 * c1 - k2 * c2;
    // the two products, expanded
    lemma_mul_is_associative(2, e2, p - q);
    lemma_mul_is_distributive_sub(e2, p, q);
    lemma_mul_unary_negation(bu * vp, n);
    assert(bu * vp * (-n) == -pn);
    lemma_mul_is_associative(2, e1, -pn - qp);
    lemma_mul_is_distributive_sub(e1, -pn, qp);
    lemma_mul_unary_negation(e1, pn);
    lemma_mul_is_commutative(-e1, pn);
    lemma_mul_is_commutative(e1, -pn);
    assert(e1 * (-pn) == -(e1 * pn));
    // the c-terms: e1 c1 V - e2 c2 V = V (kd x) = V (ks n) = n - kd U n
    lemma_swap4(kd, k1, bv, c1);
    lemma_swap4(kd, k2, bv, c2);
    lemma_mul_is_commutative(kd * bv, k1 * c1);
    lemma_mul_is_commutative(kd * bv, k2 * c2);
    lemma_mul_is_distributive_sub(kd * bv, k1 * c1, k2 * c2);
    assert(e1 * qp - e2 * q == (kd * bv) * x);
    lemma_mul_is_commutative(kd, bv);
    lemma_mul_is_associative(bv, kd, x);
    lemma_mul_is_associative(bv, ks, n);
    lemma_mul_is_commutative(bv, ks);
    assert((kd * bv) * x == (ks * bv) * n);
    let z = (kd * bu) * n;
    assert(ks * bv == 1 - kd * bu);
    lemma_mul_is_distributive_sub_other_way(n, 1, kd * bu);
    assert((ks * bv) * n == n - z);
    // the u-terms: e2 p + e1 pn = z (k2 v + k1 vp)
    lemma_spread(kd, k2, bu, v, n);
    lemma_spread(kd, k1, bu, vp, n);
    lemma_mul_is_distributive_add(z, k2 * v, k1 * vp);
    let r = k2 * v + k1 * vp - 1;
    lemma_mul_is_distributive_sub(z, k2 * v + k1 * vp, 1);
    assert(z * (k2 * v + k1 * vp) - z == z * r);
    // so the gap is 2 z r
    let gap = (b2 + (2 * e2) * (p - q)) - (b1 + (2 * e1) * (-pn - qp));
    assert(gap == 2 * (z * r));
    // r = k1 (vp - u) = k1 k2 w
    lemma_mul_is_distributive_sub(k1, vp, u);
    assert(r == k1 * (vp - u));
    let w = u * (v - up) + v * (vp - u);
    assert(k2 * (v - up) == k1 * (vp - u)) by (nonlinear_arith)
        requires
            1 == k1 * u + k2 * v,
            1 == k2 * up + k1 * vp,
    ;
    assert(v - up == k1 * w) by (nonlinear_arith)
        requires
            1 == k1 * u + k2 * v,
            k2 * (v - up) == k1 * (vp - u),
            w == u * (v - up) + v * (vp - u),
    ;
    assert(vp - u == k2 * w) by (nonlinear_arith)
        requires
            k2 * (v - up) == k1 * (vp - u),
            v - up == k1 * w,
            k1 > 0,
    ;
    lemma_mul_is_associative(k1, k2, w);
    assert(r == (k1 * k2) * w);
    // n = kd nn
    let nn = n * bu + bv * x;
    assert(n == kd * nn) by (nonlinear_arith)
        requires
            1 == kd * bu + ks * bv,
            ks * n == kd * x,
            nn == n * bu + bv * x,
    ;
    // z r = (e1 e2) (bu nn w)
    lemma_mul_is_associative(kd, bu, n);
    assert(z == kd * (bu * n));
    assert(bu * n == bu * (kd * nn));
    lemma_mul_is_associative(bu, kd, nn);
    lemma_mul_is_commutative(bu, kd);
    lemma_mul_is_associative(kd, bu, nn);
    assert(bu * n == kd * (bu * nn));
    lemma_mul_is_associative(kd, kd, bu * nn);
    assert(z == (kd * kd) * (bu * nn));
    lemma_swap4(kd * kd, bu * nn, k1 * k2, w);
    lemma_swap4(kd, kd, k1, k2);
    lemma_swap4(kd, k1, kd, k2);
    let m = (bu * nn) * w;
    assert(z * r == (e1 * e2) * m);
    lemma_mul_is_associative(2, e1 * e2, m);
    lemma_mul_is_associative(2, z, r);
    m
}

/// Gauss composition is commutative: both orders give the same form, before
/// and after reduction.  The three `gcd_facts` are what the extended gcd of
/// `num_integer` gives of the gcds that the two compositions take.
pub proof fn lemma_compose_commutative(f: Form, g: Form)
    requires
        composable(f, g),
        gcd_facts(f.0, g.0),
        gcd_facts(g.0, f.0),
        gcd_facts(compose_d1(f, g), compose_mean(f, g)),
    ensures
        compose_raw(f, g) == compose_raw(g, f),
        compose_form(f, g) == compose_form(g, f),
{
    let (a1, b1, c1) = f;
    let (a2, b2, c2) = g;
    let delta = disc(f);
    lemma_compose_raw(f, g);
    lemma_same_parity(f, g);
    // the first gcd does not depend on the order
    let e1 = bigint_extended_gcd(a1, a2);
    let e1p = bigint_extended_gcd(a2, a1);
    let d1 = e1.0;
    let u = e1.1;
    let v = e1.2;
    let d1p = e1p.0;
    let up = e1p.1;
    let vp = e1p.2;
    assert(d1 > 0);
    assert(d1p > 0);
    lemma_fundamental_div_mod(a1, d1);
    lemma_fundamental_div_mod(a2, d1);
    lemma_fundamental_div_mod(a1, d1p);
    lemma_fundamental_div_mod(a2, d1p);
    let k1 = a1 / d1;
    let k2 = a2 / d1;
    let k1p = a1 / d1p;
    let k2p = a2 / d1p;
    assert(d1p == d1 * (k2 * up + k1 * vp)) by (nonlinear_arith)
        requires
            d1p == a2 * up + a1 * vp,
            a1 == d1 * k1,
            a2 == d1 * k2,
    ;
    assert(d1 == d1p * (k1p * u + k2p * v)) by (nonlinear_arith)
        requires
            d1 == a1 * u + a2 * v,
            a1 == d1p * k1p,
            a2 == d1p * k2p,
    ;
    assert(d1p >= d1) by (nonlinear_arith)
        requires
            d1p == d1 * (k2 * up + k1 * vp),
            d1 > 0,
            d1p > 0,
    ;
    assert(d1 >= d1p) by (nonlinear_arith)
        requires
            d1 == d1p * (k1p * u + k2p * v),
            d1 > 0,
            d1p > 0,
    ;
    assert(d1 == d1p);
    // the mean, the second gcd and its coefficients are shared
    let s = compose_mean(f, g);
    assert(compose_mean(g, f) == s);
    let e2 = bigint_extended_gcd(d1, s);
    let d = e2.0;
    let big_u = e2.1;
    let big_v = e2.2;
    assert(d > 0);
    assert(compose_d1(g, f) == d1);
    // n = (b1 - b2) / 2 and the other order's n is -n
    lemma_fundamental_div_mod(b1 - b2, 2);
    let n = (b1 - b2) / 2;
    lemma_trunc_div_exact(n, 2);
    assert(n * 2 == b1 - b2);
    assert(trunc_div(b1 - b2, 2) == n);
    lemma_trunc_div_exact(-n, 2);
    assert((-n) * 2 == b2 - b1);
    assert(trunc_div(b2 - b1, 2) == -n);
    // d divides d1 and s
    lemma_fundamental_div_mod(d1, d);
    lemma_fundamental_div_mod(s, d);
    let kd = d1 / d;
    let ks = s / d;
    let ee1 = kd * k1;
    let ee2 = kd * k2;
    assert(a1 == d * ee1) by (nonlinear_arith)
        requires a1 == d1 * k1, d1 == d * kd, ee1 == kd * k1;
    assert(a2 == d * ee2) by (nonlinear_arith)
        requires a2 == d1 * k2, d1 == d * kd, ee2 == kd * k2;
    // a3 = e1 e2 in both orders
    assert(a1 * a2 == (ee1 * ee2) * (d * d)) by (nonlinear_arith)
        requires a1 == d * ee1, a2 == d * ee2;
    assert(a2 * a1 == (ee1 * ee2) * (d * d)) by (nonlinear_arith)
        requires a1 == d * ee1, a2 == d * ee2;
    assert(d * d > 0) by (nonlinear_arith) requires d > 0;
    lemma_trunc_div_exact(ee1 * ee2, d * d);
    let a3 = ee1 * ee2;
    let h = compose_raw(f, g);
    let hp = compose_raw(g, f);
    assert(h.0 == a3);
    assert(hp.0 == a3);
    // the factors 2 e2 and 2 e1
    assert(2 * a2 == (2 * ee2) * d) by (nonlinear_arith) requires a2 == d * ee2;
    assert(2 * a1 == (2 * ee1) * d) by (nonlinear_arith) requires a1 == d * ee1;
    lemma_trunc_div_exact(2 * ee2, d);
    lemma_trunc_div_exact(2 * ee1, d);
    // Bezout identities divided through
    assert(1 == k1 * u + k2 * v) by (nonlinear_arith)
        requires
            d1 == a1 * u + a2 * v,
            a1 == d1 * k1,
            a2 == d1 * k2,
            d1 > 0,
    ;
    assert(1 == k2 * up + k1 * vp) by (nonlinear_arith)
        requires
            d1 == a2 * up + a1 * vp,
            a1 == d1 * k1,
            a2 == d1 * k2,
            d1 > 0,
    ;
    assert(1 == kd * big_u + ks * big_v) by (nonlinear_arith)
        requires
            d == d1 * big_u + s * big_v,
            d1 == d * kd,
            s == d * ks,
            d > 0,
    ;
    // s n = a1 c1 - a2 c2, divided by d
    assert(s * n == a1 * c1 - a2 * c2) by (nonlinear_arith)
        requires
            b1 + b2 == 2 * s,
            b1 - b2 == 2 * n,
            b1 * b1 - 4 * a1 * c1 == b2 * b2 - 4 * a2 * c2,
    ;
    lemma_cancel_d(d, ks, n, kd, k1, k2, c1, c2, s, a1, a2);
    assert(k1 > 0) by (nonlinear_arith) requires a1 == d1 * k1, a1 > 0, d1 > 0;
    let m = lemma_middle_gap(kd, k1, k2, ks, u, v, up, vp, big_u, big_v, n, c1, c2, b1, b2);
    let bb = b2 + (2 * ee2) * (big_u * v * n - big_v * c2);
    let bbp = b1 + (2 * ee1) * (big_u * vp * (-n) - big_v * c1);
    assert(bb == (2 * a3) * m + bbp);
    assert(a3 > 0) by (nonlinear_arith) requires a3 == ee1 * ee2, a1 == d * ee1, a2 == d * ee2, a1 > 0, a2 > 0, d > 0;
    lemma_mod_multiples_vanish(m, bbp, 2 * a3);
    assert(h.1 == bb % (2 * a3));
    assert(hp.1 == bbp % (2 * a3));
    assert(h.1 == hp.1);
    assert(disc(g) == delta);
    assert(h.2 == hp.2);
}

/// `s n = a1 c1 - a2 c2` divided through by `d`.
proof fn lemma_cancel_d(d: int, ks: int, n: int, kd: int, k1: int, k2: int, c1: int, c2: int, s: int, a1: int, a2: int)
    requires
        d > 0,
        s == d * ks,
        a1 == d * (kd * k1),
        a2 == d * (kd * k2),
        s * n == a1 * c1 - a2 * c2,
    ensures
        ks * n == kd * (k1 * c1 - k2 * c2),
{
    lemma_mul_is_associative(d, ks, n);
    lemma_mul_is_associative(d, kd * k1, c1);
    lemma_mul_is_associative(d, kd * k2, c2);
    lemma_mul_is_associative(kd, k1, c1);
    lemma_mul_is_associative(kd, k2, c2);
    lemma_mul_is_distributive_sub(kd, k1 * c1, k2 * c2);
    lemma_mul_is_distributive_sub(d, kd * (k1 * c1), kd * (k2 * c2));
    assert(d * (ks * n) == d * (kd * (k1 * c1 - k2 * c2)));
    lemma_mul_equality_converse(d, ks * n, kd * (k1 * c1 - k2 * c2));
}

} // verus!
