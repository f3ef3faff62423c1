//! Binary quadratic forms `a x^2 + b x y + c y^2` as mathematical triples:
//! discriminant, reduction and Gauss composition, with the facts proved of them.
use vstd::prelude::*;
use vstd::arithmetic::div_mod::*;
use vstd::arithmetic::mul::*;
use crate::bigint::{abs_int, trunc_div, trunc_rem, bigint_extended_gcd};

verus! {

/// A form `(a, b, c)` standing for `a x^2 + b x y + c y^2`.
pub type Form = (int, int, int);

pub open spec fn disc(f: Form) -> int {
    f.1 * f.1 - 4 * f.0 * f.2
}

/// Positive definite: `a > 0` and a negative discriminant.
pub open spec fn is_positive_definite(f: Form) -> bool {
    f.0 > 0 && disc(f) < 0
}

/// Reduced: `|b| <= a <= c`, and `b >= 0` when `a == |b|` or `a == c`.
pub open spec fn is_reduced(f: Form) -> bool {
    &&& abs_int(f.1) <= f.0
    &&& f.0 <= f.2
    &&& (f.0 == abs_int(f.1) || f.0 == f.2) ==> f.1 >= 0
}

/// `b` moved into `(-a, a]` by a multiple of `2a`.
pub open spec fn centered_b(f: Form) -> int {
    let two_a = 2 * f.0;
    let r = trunc_rem(f.1, two_a);
    if r > f.0 {
        r - two_a
    } else if r <= -f.0 {
        r + two_a
    } else {
        r
    }
}

/// The substitution `x -> x + k y` that brings `b` into `(-a, a]`.
pub open spec fn normalize(f: Form) -> Form {
    let r = centered_b(f);
    let k = trunc_div(r - f.1, 2 * f.0);
    (f.0, r, f.2 + k * (f.1 + f.0 * k))
}

/// The form after `b` is normalized when `|b| > a`.
pub open spec fn normalize_if_needed(f: Form) -> Form {
    if abs_int(f.1) > f.0 { normalize(f) } else { f }
}

/// The reduction of a positive definite form: normalize `b`, swap `a` and `c`
/// while `a > c`, and settle the sign of `b` on the boundary.
pub open spec fn reduce_form(f: Form) -> Form
    decreases f.0,
    when is_positive_definite(f)
{
    let g = normalize_if_needed(f);
    if g.0 > g.2 {
        proof {
            lemma_normalize_if_needed(f);
            lemma_positive_definite_c(g);
        }
        reduce_form((g.2, -g.1, g.0))
    } else if (g.0 == abs_int(g.1) || g.0 == g.2) && g.1 < 0 {
        (g.0, -g.1, g.2)
    } else {
        g
    }
}

pub proof fn lemma_positive_definite_c(f: Form)
    requires
        is_positive_definite(f),
    ensures
        f.2 > 0,
{
    assert(f.1 * f.1 >= 0) by (nonlinear_arith);
    assert(4 * f.0 * f.2 > 0);
    if f.2 <= 0 {
        assert(f.0 * f.2 <= 0) by (nonlinear_arith)
            requires
                f.0 > 0,
                f.2 <= 0,
        ;
        assert(4 * f.0 * f.2 == 4 * (f.0 * f.2)) by (nonlinear_arith);
    }
}

/// `trunc_div` of an exact multiple.
pub proof fn lemma_trunc_div_exact(m: int, d: int)
    requires
        d > 0,
    ensures
        trunc_div(m * d, d) == m,
{
    if m >= 0 {
        assert(m * d >= 0) by (nonlinear_arith)
            requires
                m >= 0,
                d > 0,
        ;
        lemma_div_multiples_vanish(m, d);
        assert(d * m == m * d) by (nonlinear_arith);
    } else {
        assert(m * d < 0) by (nonlinear_arith)
            requires
                m < 0,
                d > 0,
        ;
        assert(abs_int(m * d) == (-m) * d) by (nonlinear_arith)
            requires
                m < 0,
                d > 0,
                m * d < 0,
        ;
        lemma_div_multiples_vanish(-m, d);
        assert(d * (-m) == (-m) * d) by (nonlinear_arith);
    }
}

/// Bounds and defining equation of `trunc_rem` for a positive divisor.
pub proof fn lemma_trunc_rem_bounds(b: int, d: int)
    requires
        d > 0,
    ensures
        -d < trunc_rem(b, d) < d,
        b >= 0 ==> trunc_rem(b, d) >= 0,
        b < 0 ==> trunc_rem(b, d) <= 0,
        b == d * trunc_div(b, d) + trunc_rem(b, d),
{
    if b >= 0 {
        lemma_fundamental_div_mod(b, d);
        lemma_mod_bound(b, d);
    } else {
        lemma_fundamental_div_mod(-b, d);
        lemma_mod_bound(-b, d);
        assert(d * (-((-b) / d)) == -(d * ((-b) / d))) by (nonlinear_arith);
    }
}

/// Normalization keeps `a` and the discriminant and leaves `|b| <= a`.
pub proof fn lemma_normalize(f: Form)
    requires
        f.0 > 0,
    ensures
        normalize(f).0 == f.0,
        disc(normalize(f)) == disc(f),
        abs_int(normalize(f).1) <= f.0,
        -f.0 < normalize(f).1,
{
    let two_a = 2 * f.0;
    let q = trunc_div(f.1, two_a);
    let r0 = trunc_rem(f.1, two_a);
    lemma_trunc_rem_bounds(f.1, two_a);
    let r = centered_b(f);
    let m: int = if r0 > f.0 { -q - 1 } else if r0 <= -f.0 { -q + 1 } else { -q };
    assert(r - f.1 == m * two_a) by (nonlinear_arith)
        requires
            f.1 == two_a * q + r0,
            r == (if r0 > f.0 { r0 - two_a } else if r0 <= -f.0 { r0 + two_a } else { r0 }),
            m == (if r0 > f.0 { -q - 1 } else if r0 <= -f.0 { -q + 1 } else { -q }),
    ;
    lemma_trunc_div_exact(m, two_a);
    let k = trunc_div(r - f.1, two_a);
    assert(k == m);
    let a = f.0;
    let b = f.1;
    let c = f.2;
    assert(r == b + 2 * a * k) by (nonlinear_arith)
        requires
            r - b == k * two_a,
            two_a == 2 * a,
    ;
    assert(r * r - 4 * a * (c + k * (b + a * k)) == b * b - 4 * a * c) by (nonlinear_arith)
        requires
            r == b + 2 * a * k,
    ;
}

pub proof fn lemma_normalize_if_needed(f: Form)
    requires
        is_positive_definite(f),
    ensures
        normalize_if_needed(f).0 == f.0,
        disc(normalize_if_needed(f)) == disc(f),
        abs_int(normalize_if_needed(f).1) <= f.0,
        is_positive_definite(normalize_if_needed(f)),
{
    if abs_int(f.1) > f.0 {
        lemma_normalize(f);
    }
}

/// The reduction of a positive definite form is reduced, positive definite and
/// has the same discriminant.
pub proof fn lemma_reduce_form(f: Form)
    requires
        is_positive_definite(f),
    ensures
        is_reduced(reduce_form(f)),
        is_positive_definite(reduce_form(f)),
        disc(reduce_form(f)) == disc(f),
    decreases f.0,
{
    let g = normalize_if_needed(f);
    lemma_normalize_if_needed(f);
    lemma_positive_definite_c(g);
    if g.0 > g.2 {
        let h = (g.2, -g.1, g.0);
        assert(disc(h) == disc(g)) by (nonlinear_arith)
            requires
                h == (g.2, -g.1, g.0),
        ;
        lemma_reduce_form(h);
    } else {
        assert(disc((g.0, -g.1, g.2)) == disc(g)) by (nonlinear_arith);
    }
}


/// Reduction leaves a reduced positive definite form as it is.
pub proof fn lemma_reduce_fixes_reduced(f: Form)
    requires
        is_positive_definite(f),
        is_reduced(f),
    ensures
        reduce_form(f) == f,
{
    assert(normalize_if_needed(f) == f);
}

/// Reduction is idempotent: reducing a reduced class changes nothing.
pub proof fn lemma_reduce_idempotent(f: Form)
    requires
        is_positive_definite(f),
    ensures
        reduce_form(reduce_form(f)) == reduce_form(f),
{
    lemma_reduce_form(f);
    lemma_reduce_fixes_reduced(reduce_form(f));
}

/// The inverse of a class: `(a, -b, c)` reduced.
pub open spec fn inverse_form(f: Form) -> Form {
    reduce_form((f.0, -f.1, f.2))
}

/// The inverse of a reduced class is reduced, positive definite, of the same
/// discriminant, and taking the inverse twice gives the class back.
pub proof fn lemma_inverse_involution(f: Form)
    requires
        is_positive_definite(f),
        is_reduced(f),
    ensures
        is_reduced(inverse_form(f)),
        is_positive_definite(inverse_form(f)),
        disc(inverse_form(f)) == disc(f),
        inverse_form(inverse_form(f)) == f,
{
    let g = (f.0, -f.1, f.2);
    assert(disc(g) == disc(f)) by (nonlinear_arith)
        requires
            g == (f.0, -f.1, f.2),
    ;
    assert(normalize_if_needed(g) == g);
    if (f.0 == abs_int(f.1) || f.0 == f.2) && f.1 != 0 {
        // a boundary form with b > 0: (a, -b, c) flips back to f itself
        assert(inverse_form(f) == f);
        assert(inverse_form(inverse_form(f)) == f);
    } else {
        // (a, -b, c) is itself reduced
        assert(is_reduced(g));
        lemma_reduce_fixes_reduced(g);
        assert(inverse_form(f) == g);
        let h = (g.0, -g.1, g.2);
        assert(h == f);
    }
    lemma_reduce_form(g);
}

/// Gauss composition of two forms of one discriminant, before reduction.
/// With `d1 = gcd(a1, a2) = u a1 + v a2` and `d = gcd(d1, s) = U d1 + V s`,
/// where `s = (b1 + b2)/2` and `n = (b1 - b2)/2`, the composite is
/// `a3 = a1 a2 / d^2`, `b3 = b2 + (2 a2 / d)(U v n - V c2) mod 2 a3` and
/// `c3 = (b3^2 - D) / (4 a3)`.
pub open spec fn compose_raw(f: Form, g: Form) -> Form {
    let delta = disc(f);
    let s = trunc_div(f.1 + g.1, 2);
    let n = trunc_div(f.1 - g.1, 2);
    let e1 = bigint_extended_gcd(f.0, g.0);
    let v = e1.2;
    let e2 = bigint_extended_gcd(e1.0, s);
    let d = e2.0;
    let big_u = e2.1;
    let big_v = e2.2;
    let a3 = trunc_div(f.0 * g.0, d * d);
    let big_k = big_u * v * n - big_v * g.2;
    let b3 = (g.1 + trunc_div(2 * g.0, d) * big_k) % (2 * a3);
    let c3 = trunc_div(b3 * b3 - delta, 4 * a3);
    (a3, b3, c3)
}

/// Gauss composition followed by reduction: the product in the class group.
pub open spec fn compose_form(f: Form, g: Form) -> Form {
    reduce_form(compose_raw(f, g))
}

/// Two forms of one discriminant composed: the precondition of composition.
pub open spec fn composable(f: Form, g: Form) -> bool {
    &&& is_positive_definite(f)
    &&& is_positive_definite(g)
    &&& disc(f) == disc(g)
}

proof fn lemma_expand_product(k: int, u: int, v: int, x: int, y: int, z: int)
    ensures
        (k * (u * x + v * y)) * z == (k * u) * (x * z) + (k * v) * (y * z),
{
    lemma_mul_is_associative(k, u * x + v * y, z);
    lemma_mul_is_distributive_add_other_way(z, u * x, v * y);
    lemma_mul_is_distributive_add(k, (u * x) * z, (v * y) * z);
    lemma_mul_is_associative(u, x, z);
    lemma_mul_is_associative(v, y, z);
    lemma_mul_is_associative(k, u, x * z);
    lemma_mul_is_associative(k, v, y * z);
}

proof fn lemma_expand_difference(a: int, p: int, q: int, r: int, x: int, y: int)
    ensures
        a * (p * q * r - x * y) == r * (p * (q * a)) - x * (a * y),
{
    lemma_mul_is_distributive_sub(a, p * q * r, x * y);
    lemma_mul_is_commutative(a, p * q * r);
    lemma_mul_is_commutative(p * q, r);
    lemma_mul_is_associative(r, p * q, a);
    lemma_mul_is_associative(p, q, a);
    lemma_mul_is_commutative(a, x * y);
    lemma_mul_is_associative(x, y, a);
    lemma_mul_is_commutative(y, a);
}

/// The algebraic core of Gauss composition: the new middle coefficient squares
/// to the discriminant modulo four times the new leading coefficient.
proof fn lemma_compose_identity(
    e1: int, e2: int, d: int, u: int, v: int, big_u: int, big_v: int,
    s: int, n: int, c1: int, c2: int,
)
    requires
        d > 0,
        big_u * (u * (d * e1) + v * (d * e2)) + big_v * s == d,
        s * n == (d * e1) * c1 - (d * e2) * c2,
    ensures
        ({
            let k = big_u * v * n - big_v * c2;
            let l = -(n * big_u * u + big_v * c1);
            let b = (s - n) + 2 * e2 * k;
            let x = k * l + d * big_u * (u * c2 + v * c1);
            b * b - ((s - n) * (s - n) - 4 * (d * e2) * c2) == 4 * e1 * e2 * x
        }),
{
    let a1 = d * e1;
    let a2 = d * e2;
    let p = u * a1 + v * a2;
    let k = big_u * v * n - big_v * c2;
    let l = -(n * big_u * u + big_v * c1);
    let w = u * c2 + v * c1;
    let b = (s - n) + 2 * e2 * k;
    let b1 = s + n;
    let b2 = s - n;
    let x = k * l + d * big_u * w;
    // b - b1 == 2 e1 l
    lemma_expand_difference(a2, big_u, v, n, big_v, c2);
    assert(-(a1 * l) == a1 * (n * big_u * u) + a1 * (big_v * c1)) by (nonlinear_arith)
        requires l == -(n * big_u * u + big_v * c1);
    assert(a1 * (n * big_u * u) == n * (big_u * (u * a1))) by (nonlinear_arith);
    assert(a1 * (big_v * c1) == big_v * (a1 * c1)) by (nonlinear_arith);
    assert(n * (big_u * (u * a1)) + n * (big_u * (v * a2)) == n * (big_u * p)) by (nonlinear_arith)
        requires p == u * a1 + v * a2;
    assert(big_v * (a1 * c1) - big_v * (a2 * c2) == big_v * (s * n)) by (nonlinear_arith)
        requires s * n == a1 * c1 - a2 * c2;
    assert(n * (big_u * p) + big_v * (s * n) == n * d) by (nonlinear_arith)
        requires big_u * p + big_v * s == d;
    assert(a2 * k - a1 * l == n * d);
    assert(d * (2 * e2 * k) == 2 * (a2 * k)) by (nonlinear_arith) requires a2 == d * e2;
    assert(d * (2 * e1 * l) == 2 * (a1 * l)) by (nonlinear_arith) requires a1 == d * e1;
    assert(d * (b - b1) == d * (2 * e1 * l)) by (nonlinear_arith)
        requires
            b - b1 == 2 * e2 * k - 2 * n,
            d * (2 * e2 * k) == 2 * (a2 * k),
            d * (2 * e1 * l) == 2 * (a1 * l),
            a2 * k - a1 * l == n * d;
    assert(b - b1 == 2 * e1 * l) by (nonlinear_arith)
        requires d * (b - b1) == d * (2 * e1 * l), d > 0;
    // d c2 + s k == a1 U w
    assert(s * k == (big_u * v) * (s * n) - big_v * (s * c2)) by (nonlinear_arith)
        requires k == big_u * v * n - big_v * c2;
    assert((big_u * v) * (s * n) == (big_u * v) * (a1 * c1) - (big_u * v) * (a2 * c2)) by (nonlinear_arith)
        requires s * n == a1 * c1 - a2 * c2;
    assert(d * c2 == (big_u * p) * c2 + big_v * (s * c2)) by (nonlinear_arith)
        requires big_u * p + big_v * s == d;
    lemma_expand_product(big_u, u, v, a1, a2, c2);
    lemma_expand_product(big_u, u, v, c2, c1, a1);
    assert(a1 * (big_u * w) == (big_u * w) * a1) by (nonlinear_arith);
    assert((big_u * u) * (c2 * a1) == (big_u * u) * (a1 * c2)) by (nonlinear_arith);
    assert((big_u * v) * (c1 * a1) == (big_u * v) * (a1 * c1)) by (nonlinear_arith);
    assert(d * c2 + s * k == a1 * (big_u * w));
    // b^2 - D == 4 e1 e2 x
    assert(b * b - (b2 * b2 - 4 * a2 * c2) == (b - b1) * (b - b2) + (b1 + b2) * (b - b2) + 4 * a2 * c2)
        by (nonlinear_arith);
    assert((b - b1) * (b - b2) == 4 * (e1 * e2) * (k * l)) by (nonlinear_arith)
        requires b - b1 == 2 * e1 * l, b - b2 == 2 * e2 * k;
    assert((b1 + b2) * (b - b2) + 4 * a2 * c2 == 4 * e2 * (d * c2 + s * k)) by (nonlinear_arith)
        requires b1 + b2 == 2 * s, b - b2 == 2 * e2 * k, a2 == d * e2;
    assert(4 * e2 * (a1 * (big_u * w)) == 4 * (e1 * e2) * (d * big_u * w)) by (nonlinear_arith)
        requires a1 == d * e1;
    assert(4 * (e1 * e2) * (k * l) + 4 * (e1 * e2) * (d * big_u * w) == 4 * e1 * e2 * x) by (nonlinear_arith)
        requires x == k * l + d * big_u * w;
}


/// The facts that `num_integer`'s extended gcd gives of its result.
pub open spec fn gcd_facts(a: int, b: int) -> bool {
    let r = bigint_extended_gcd(a, b);
    &&& r.0 >= 0
    &&& r.0 == a * r.1 + b * r.2
    &&& r.0 != 0 ==> a % r.0 == 0 && b % r.0 == 0
    &&& r.0 == 0 ==> a == 0 && b == 0
}

/// `(b1 + b2) / 2`, the mean of the middle coefficients.
pub open spec fn compose_mean(f: Form, g: Form) -> int {
    trunc_div(f.1 + g.1, 2)
}

/// `gcd(a1, a2)`.
pub open spec fn compose_d1(f: Form, g: Form) -> int {
    bigint_extended_gcd(f.0, g.0).0
}

/// `gcd(a1, a2, (b1 + b2) / 2)`.
pub open spec fn compose_d(f: Form, g: Form) -> int {
    bigint_extended_gcd(compose_d1(f, g), compose_mean(f, g)).0
}

/// The middle coefficients of two forms of one discriminant have one parity.
pub proof fn lemma_same_parity(f: Form, g: Form)
    requires
        disc(f) == disc(g),
    ensures
        (f.1 + g.1) % 2 == 0,
        (f.1 - g.1) % 2 == 0,
{
    let t = f.1 - g.1;
    let w = f.1 + g.1;
    assert(t * w == 4 * (f.0 * f.2 - g.0 * g.2)) by (nonlinear_arith)
        requires
            t == f.1 - g.1,
            w == f.1 + g.1,
            f.1 * f.1 - 4 * f.0 * f.2 == g.1 * g.1 - 4 * g.0 * g.2,
    ;
    lemma_fundamental_div_mod(t, 2);
    lemma_fundamental_div_mod(w, 2);
    lemma_mod_bound(t, 2);
    lemma_mod_bound(w, 2);
    let p = t / 2;
    let q = w / 2;
    assert(w == t + 2 * g.1);
    if t % 2 == 1 {
        assert(w % 2 == 1) by {
            lemma_fundamental_div_mod_converse(w, 2, p + g.1, 1);
        }
        assert(t * w == 2 * (2 * p * q + p + q) + 1) by (nonlinear_arith)
            requires
                t == 2 * p + 1,
                w == 2 * q + 1,
        ;
        let x = f.0 * f.2 - g.0 * g.2;
        assert(false) by (nonlinear_arith)
            requires
                t * w == 2 * (2 * p * q + p + q) + 1,
                t * w == 4 * x,
        ;
    }
    assert(t % 2 == 0);
    assert(w % 2 == 0) by {
        lemma_fundamental_div_mod_converse(w, 2, p + g.1, 0);
    }
}

/// If `m` divides `a` exactly then `a == m * (a / m)`.
proof fn lemma_exact_quotient(a: int, m: int)
    requires
        m > 0,
        a % m == 0,
    ensures
        a == m * (a / m),
{
    lemma_fundamental_div_mod(a, m);
}

/// Gauss composition of two positive definite forms of one discriminant gives a
/// positive definite form of that discriminant.
pub proof fn lemma_compose_raw(f: Form, g: Form)
    requires
        composable(f, g),
        gcd_facts(f.0, g.0),
        gcd_facts(compose_d1(f, g), compose_mean(f, g)),
    ensures
        compose_d1(f, g) > 0,
        compose_d(f, g) > 0,
        compose_raw(f, g).0 > 0,
        f.1 + g.1 == 2 * compose_mean(f, g),
        is_positive_definite(compose_raw(f, g)),
        disc(compose_raw(f, g)) == disc(f),
{
    let (a1, b1, c1) = f;
    let (a2, b2, c2) = g;
    let delta = disc(f);
    lemma_same_parity(f, g);
    lemma_fundamental_div_mod(b1 + b2, 2);
    lemma_fundamental_div_mod(b1 - b2, 2);
    let s0 = (b1 + b2) / 2;
    let n0 = (b1 - b2) / 2;
    lemma_trunc_div_exact(s0, 2);
    lemma_trunc_div_exact(n0, 2);
    assert(2 * s0 == s0 * 2);
    assert(2 * n0 == n0 * 2);
    let s = trunc_div(b1 + b2, 2);
    let n = trunc_div(b1 - b2, 2);
    assert(s == s0);
    assert(n == n0);
    let e1r = bigint_extended_gcd(a1, a2);
    let d1 = e1r.0;
    let u = e1r.1;
    let v = e1r.2;
    assert(d1 > 0);
    let e2r = bigint_extended_gcd(d1, s);
    let d = e2r.0;
    let big_u = e2r.1;
    let big_v = e2r.2;
    assert(d > 0);
    // a1 = d e1 and a2 = d e2
    lemma_exact_quotient(a1, d1);
    lemma_exact_quotient(a2, d1);
    lemma_exact_quotient(d1, d);
    let k1 = a1 / d1;
    let k2 = a2 / d1;
    let kd = d1 / d;
    let e1 = kd * k1;
    let e2 = kd * k2;
    assert(a1 == d * e1) by (nonlinear_arith)
        requires a1 == d1 * k1, d1 == d * kd, e1 == kd * k1;
    assert(a2 == d * e2) by (nonlinear_arith)
        requires a2 == d1 * k2, d1 == d * kd, e2 == kd * k2;
    assert(e1 > 0) by (nonlinear_arith) requires a1 == d * e1, a1 > 0, d > 0;
    assert(e2 > 0) by (nonlinear_arith) requires a2 == d * e2, a2 > 0, d > 0;
    // a3 = e1 e2, factor = 2 e2
    assert(a1 * a2 == (e1 * e2) * (d * d)) by (nonlinear_arith)
        requires a1 == d * e1, a2 == d * e2;
    assert(d * d > 0) by (nonlinear_arith) requires d > 0;
    lemma_trunc_div_exact(e1 * e2, d * d);
    let a3 = trunc_div(a1 * a2, d * d);
    assert(a3 == e1 * e2);
    assert(a3 > 0) by (nonlinear_arith) requires a3 == e1 * e2, e1 > 0, e2 > 0;
    assert(2 * a2 == (2 * e2) * d) by (nonlinear_arith) requires a2 == d * e2;
    lemma_trunc_div_exact(2 * e2, d);
    assert(trunc_div(2 * a2, d) == 2 * e2);
    // s n = a1 c1 - a2 c2
    assert(s * n == (d * e1) * c1 - (d * e2) * c2) by (nonlinear_arith)
        requires
            b1 + b2 == 2 * s,
            b1 - b2 == 2 * n,
            b1 * b1 - 4 * a1 * c1 == b2 * b2 - 4 * a2 * c2,
            a1 == d * e1,
            a2 == d * e2,
    ;
    assert(big_u * (u * (d * e1) + v * (d * e2)) + big_v * s == d) by (nonlinear_arith)
        requires
            d1 == a1 * u + a2 * v,
            d == d1 * big_u + s * big_v,
            a1 == d * e1,
            a2 == d * e2,
    ;
    lemma_compose_identity(e1, e2, d, u, v, big_u, big_v, s, n, c1, c2);
    let k = big_u * v * n - big_v * c2;
    let x = k * (-(n * big_u * u + big_v * c1)) + d * big_u * (u * c2 + v * c1);
    let bb = b2 + trunc_div(2 * a2, d) * k;
    assert(bb == (s - n) + 2 * e2 * k) by (nonlinear_arith)
        requires b2 == s - n, bb == b2 + (2 * e2) * k;
    assert(bb * bb - delta == 4 * a3 * x) by (nonlinear_arith)
        requires
            bb * bb - ((s - n) * (s - n) - 4 * (d * e2) * c2) == 4 * e1 * e2 * x,
            delta == b2 * b2 - 4 * a2 * c2,
            b2 == s - n,
            a2 == d * e2,
            a3 == e1 * e2,
    ;
    // b3 = bb mod 2 a3
    let two_a3 = 2 * a3;
    lemma_fundamental_div_mod(bb, two_a3);
    let t = bb / two_a3;
    let b3 = bb % two_a3;
    let y = x - t * bb + a3 * t * t;
    assert(b3 * b3 - delta == y * (4 * a3)) by (nonlinear_arith)
        requires
            bb == two_a3 * t + b3,
            two_a3 == 2 * a3,
            bb * bb - delta == 4 * a3 * x,
            y == x - t * bb + a3 * t * t,
    ;
    assert(4 * a3 > 0);
    lemma_trunc_div_exact(y, 4 * a3);
    let c3 = trunc_div(b3 * b3 - delta, 4 * a3);
    assert(c3 == y);
    assert(compose_raw(f, g) == (a3, b3, c3));
    assert(disc((a3, b3, c3)) == delta) by (nonlinear_arith)
        requires
            b3 * b3 - delta == y * (4 * a3),
            c3 == y,
    ;
}

/// The principal form `(1, t, (t - D) / 4)` with `t = D mod 2`: the
/// identity class of `Cl(D)` (`(1, 1, (1 - D) / 4)` for `D = 1 (mod 4)`,
/// `(1, 0, -D / 4)` for `D = 0 (mod 4)`).
pub open spec fn principal_form(delta: int) -> Form {
    (1, delta % 2, (delta % 2 - delta) / 4)
}

/// The discriminant of a form is congruent to its middle coefficient's
/// parity modulo 4 (so it is 0 or 1 modulo 4).
pub proof fn lemma_disc_residue(f: Form)
    ensures
        disc(f) % 4 == f.1 % 2,
        f.1 % 2 == 0 || f.1 % 2 == 1,
{
    lemma_fundamental_div_mod(f.1, 2);
    lemma_mod_bound(f.1, 2);
    let q = f.1 / 2;
    let r = f.1 % 2;
    let x = q * q + q * r - f.0 * f.2;
    assert(disc(f) == 4 * x + r) by (nonlinear_arith)
        requires
            f.1 == 2 * q + r,
            r == 0 || r == 1,
            x == q * q + q * r - f.0 * f.2,
    ;
    lemma_mod_multiples_vanish(x, r, 4);
    lemma_small_mod(r as nat, 4);
}

/// The coefficients of the principal form of a discriminant `= 0, 1 (mod 4)`.
proof fn lemma_principal_facts(delta: int)
    requires
        delta % 4 == 0 || delta % 4 == 1,
    ensures
        principal_form(delta).1 == delta % 4,
        principal_form(delta).1 == 0 || principal_form(delta).1 == 1,
        4 * principal_form(delta).2 == principal_form(delta).1 - delta,
        disc(principal_form(delta)) == delta,
{
    let q = delta / 4;
    let r = delta % 4;
    lemma_fundamental_div_mod(delta, 4);
    lemma_mod_multiples_vanish(2 * q, r, 2);
    assert(delta == 2 * (2 * q) + r);
    lemma_small_mod(r as nat, 2);
    assert(delta % 2 == r);
    assert(r - delta == 4 * (-q));
    lemma_div_multiples_vanish(-q, 4);
    assert(principal_form(delta).2 == -q);
    assert(r * r == r) by (nonlinear_arith) requires r == 0 || r == 1;
}

/// The principal class is the identity of composition: a reduced class
/// composed with the principal form of its discriminant is the class itself.
/// The two `gcd_facts` are what the extended gcd of `num_integer` gives of
/// the two gcds that the composition takes.
pub proof fn lemma_compose_principal(f: Form)
    requires
        is_positive_definite(f),
        is_reduced(f),
        gcd_facts(f.0, 1),
        gcd_facts(compose_d1(f, principal_form(disc(f))), compose_mean(f, principal_form(disc(f)))),
    ensures
        compose_form(f, principal_form(disc(f))) == f,
{
    let (a, b, c) = f;
    let delta = disc(f);
    let g = principal_form(delta);
    lemma_disc_residue(f);
    lemma_principal_facts(delta);
    let t = g.1;
    let c2 = g.2;
    assert(t * t == t) by (nonlinear_arith) requires t == 0 || t == 1;
    assert(composable(f, g));
    lemma_compose_raw(f, g);
    // both gcds are 1
    let e1 = bigint_extended_gcd(a, 1);
    let d1 = e1.0;
    let u = e1.1;
    let v = e1.2;
    if d1 > 1 {
        lemma_small_mod(1, d1 as nat);
    }
    assert(d1 == 1);
    let s = compose_mean(f, g);
    let e2 = bigint_extended_gcd(d1, s);
    let d = e2.0;
    let big_u = e2.1;
    let big_v = e2.2;
    if d > 1 {
        lemma_small_mod(1, d as nat);
    }
    assert(d == 1);
    assert(v == 1 - a * u);
    assert(d1 * big_u == big_u) by (nonlinear_arith)
        requires
            d1 == 1,
    ;
    assert(big_u == 1 - s * big_v);
    // s = (b + t) / 2 and n = (b - t) / 2 = s - t
    assert(b + t == 2 * s);
    lemma_trunc_div_exact(s - t, 2);
    assert((s - t) * 2 == b - t);
    let n = trunc_div(b - t, 2);
    assert(n == s - t);
    // a3 = a
    lemma_trunc_div_exact(a, 1);
    assert(a * 1 == a);
    let a3 = trunc_div(a * g.0, d * d);
    assert(a3 == a);
    lemma_trunc_div_exact(2, 1);
    assert(trunc_div(2 * g.0, d) == 2);
    // the new middle coefficient is b moved by a multiple of 2a
    assert(s * n + c2 == a * c) by (nonlinear_arith)
        requires
            b == 2 * s - t,
            n == s - t,
            4 * c2 == t - delta,
            delta == b * b - 4 * a * c,
            t * t == t,
    ;
    let k = big_u * v * n - big_v * c2;
    let m = -u * n + u * s * big_v * n - big_v * c;
    let w = big_u * v;
    assert(w == 1 - a * u - s * big_v + a * u * s * big_v) by (nonlinear_arith)
        requires
            big_u == 1 - s * big_v,
            v == 1 - a * u,
            w == big_u * v,
    ;
    let a1 = a * (u * n);
    let a2 = a * (u * s * big_v * n);
    let a3c = a * (big_v * c);
    let b1 = big_v * (s * n);
    let b2 = big_v * c2;
    let pp = a * u;
    let qq = s * big_v;
    let rr = a * u * s * big_v;
    assert(w * n == n - pp * n - qq * n + rr * n) by (nonlinear_arith)
        requires
            w == 1 - pp - qq + rr,
    ;
    assert(pp * n == a1) by (nonlinear_arith)
        requires
            pp == a * u,
            a1 == a * (u * n),
    ;
    assert(qq * n == b1) by (nonlinear_arith)
        requires
            qq == s * big_v,
            b1 == big_v * (s * n),
    ;
    assert(rr * n == a2) by (nonlinear_arith)
        requires
            rr == a * u * s * big_v,
            a2 == a * (u * s * big_v * n),
    ;
    assert(w * n == n - a1 - b1 + a2);
    assert(b1 + b2 == a3c) by (nonlinear_arith)
        requires
            s * n + c2 == a * c,
            b1 == big_v * (s * n),
            b2 == big_v * c2,
            a3c == a * (big_v * c),
    ;
    assert(a * m == -a1 + a2 - a3c) by (nonlinear_arith)
        requires
            m == -u * n + u * s * big_v * n - big_v * c,
            a1 == a * (u * n),
            a2 == a * (u * s * big_v * n),
            a3c == a * (big_v * c),
    ;
    assert(k == w * n - b2);
    assert(k - n == a * m);
    let bb = g.1 + trunc_div(2 * g.0, d) * k;
    assert(bb == t + 2 * k);
    assert(k == n + a * m);
    assert(t + 2 * n == b);
    assert(bb == (2 * a) * m + b) by (nonlinear_arith)
        requires
            bb == t + 2 * k,
            k == n + a * m,
            t + 2 * n == b,
    ;
    lemma_mod_multiples_vanish(m, b, 2 * a);
    let h = compose_raw(f, g);
    assert(h.0 == a);
    assert(h.1 == b % (2 * a));
    lemma_reduce_shifted(f, h);
}

/// The principal class is the identity on the left too: the principal form
/// composed with a reduced class is the class itself.  The two `gcd_facts`
/// are what the extended gcd of `num_integer` gives of the two gcds that the
/// composition takes.
pub proof fn lemma_compose_principal_left(f: Form)
    requires
        is_positive_definite(f),
        is_reduced(f),
        gcd_facts(1, f.0),
        gcd_facts(compose_d1(principal_form(disc(f)), f), compose_mean(principal_form(disc(f)), f)),
    ensures
        compose_form(principal_form(disc(f)), f) == f,
{
    let (a, b, c) = f;
    let delta = disc(f);
    let e = principal_form(delta);
    lemma_disc_residue(f);
    lemma_principal_facts(delta);
    assert(composable(e, f));
    lemma_compose_raw(e, f);
    // d1 = gcd(1, a) = 1 and d = gcd(1, s) = 1
    let e1 = bigint_extended_gcd(1, a);
    let d1 = e1.0;
    if d1 > 1 {
        lemma_small_mod(1, d1 as nat);
    }
    assert(d1 == 1);
    let s = compose_mean(e, f);
    let e2 = bigint_extended_gcd(d1, s);
    let d = e2.0;
    if d > 1 {
        lemma_small_mod(1, d as nat);
    }
    assert(d == 1);
    // a3 = a and the middle coefficient is b + 2a K
    lemma_trunc_div_exact(a, 1);
    assert(1 * a == a && a * 1 == a);
    lemma_trunc_div_exact(2 * a, 1);
    assert((2 * a) * 1 == 2 * a);
    let k = e2.1 * e1.2 * trunc_div(e.1 - b, 2) - e2.2 * c;
    let h = compose_raw(e, f);
    assert(e.0 == 1);
    assert(d * d == 1);
    assert(e.0 * f.0 == a);
    assert(h.0 == trunc_div(a, 1));
    assert(h.0 == a);
    lemma_mod_multiples_vanish(k, b, 2 * a);
    assert(b + (2 * a) * k == (2 * a) * k + b);
    assert(h.1 == b % (2 * a));
    lemma_reduce_shifted(f, h);
}

/// A positive definite form `(a, b mod 2a, c')` of the discriminant of a
/// reduced form `(a, b, c)` reduces to that form.
proof fn lemma_reduce_shifted(f: Form, h: Form)
    requires
        is_positive_definite(f),
        is_reduced(f),
        is_positive_definite(h),
        h.0 == f.0,
        h.1 == f.1 % (2 * f.0),
        disc(h) == disc(f),
    ensures
        reduce_form(h) == f,
{
    let (a, b, c) = f;
    let c3 = h.2;
    if b >= 0 {
        lemma_small_mod(b as nat, (2 * a) as nat);
        assert(h.1 == b);
        assert(c3 == c) by (nonlinear_arith)
            requires
                b * b - 4 * a * c3 == b * b - 4 * a * c,
                a > 0,
        ;
        assert(h == f);
        lemma_reduce_fixes_reduced(f);
    } else {
        let b3 = b + 2 * a;
        assert(-a < b);
        lemma_mod_multiples_vanish(1, b, 2 * a);
        lemma_small_mod(b3 as nat, (2 * a) as nat);
        assert(h.1 == b3);
        // normalization brings b3 back to b
        lemma_basic_div(b3, 2 * a);
        assert(trunc_div(b3, 2 * a) == 0);
        assert(trunc_rem(b3, 2 * a) == b3);
        assert(centered_b(h) == b);
        lemma_normalize(h);
        let nh = normalize(h);
        assert(nh.1 == b);
        assert(nh.2 == c) by (nonlinear_arith)
            requires
                b * b - 4 * a * nh.2 == b * b - 4 * a * c,
                a > 0,
        ;
        assert(normalize_if_needed(h) == f);
    }
}

/// Two forms with one leading coefficient `a` whose middle coefficients
/// average to a multiple of `a` compose to the principal form.
proof fn lemma_compose_same_leading(f: Form, g: Form)
    requires
        composable(f, g),
        f.0 == g.0,
        compose_mean(f, g) % f.0 == 0,
        gcd_facts(f.0, g.0),
        gcd_facts(compose_d1(f, g), compose_mean(f, g)),
    ensures
        compose_raw(f, g) == principal_form(disc(f)),
{
    let a = f.0;
    let delta = disc(f);
    lemma_compose_raw(f, g);
    // d1 = gcd(a, a) = a
    let e1 = bigint_extended_gcd(a, a);
    let d1 = e1.0;
    assert(d1 == a * (e1.1 + e1.2)) by (nonlinear_arith)
        requires
            d1 == a * e1.1 + a * e1.2,
    ;
    lemma_fundamental_div_mod(a, d1);
    assert(d1 == a) by (nonlinear_arith)
        requires
            d1 > 0,
            a > 0,
            d1 == a * (e1.1 + e1.2),
            a == d1 * (a / d1) + a % d1,
            a % d1 == 0,
    ;
    // d = gcd(a, s) = a since a divides s
    let s = compose_mean(f, g);
    let e2 = bigint_extended_gcd(d1, s);
    let d = e2.0;
    lemma_fundamental_div_mod(s, a);
    let ks = s / a;
    assert(d == a * (e2.1 + ks * e2.2)) by (nonlinear_arith)
        requires
            d == d1 * e2.1 + s * e2.2,
            d1 == a,
            s == a * ks,
    ;
    lemma_fundamental_div_mod(a, d);
    assert(d == a) by (nonlinear_arith)
        requires
            d > 0,
            a > 0,
            d == a * (e2.1 + ks * e2.2),
            a == d * (a / d) + a % d,
            a % d == 0,
    ;
    // a3 = 1
    assert(1 * (a * a) == a * a);
    assert(a * a > 0) by (nonlinear_arith) requires a > 0;
    lemma_trunc_div_exact(1, a * a);
    let h = compose_raw(f, g);
    assert(h.0 == 1);
    // b3 = (b2 + 2 K) mod 2 = 1
    assert(2 * a == 2 * a * 1);
    lemma_trunc_div_exact(2, a);
    assert(trunc_div(2 * g.0, d) == 2);
    let k = e2.1 * e1.2 * trunc_div(f.1 - g.1, 2) - e2.2 * g.2;
    lemma_disc_residue(g);
    lemma_principal_facts(delta);
    lemma_mod_multiples_vanish(k, g.1, 2);
    assert(g.1 + 2 * k == 2 * k + g.1);
    assert(h.1 == principal_form(delta).1);
    // c3 from the discriminant
    let t = h.1;
    assert(t * t == t) by (nonlinear_arith) requires t == 0 || t == 1;
    assert(4 * h.2 == t - delta);
    assert(h.2 == principal_form(delta).2);
}

/// The inverse law on representatives: a form composed with its negation
/// `(a, -b, c)` is the principal form.  The `gcd_facts` are what the extended
/// gcd of `num_integer` gives of the two gcds that the composition takes.
pub proof fn lemma_compose_negated(f: Form)
    requires
        is_positive_definite(f),
        gcd_facts(f.0, f.0),
        gcd_facts(compose_d1(f, (f.0, -f.1, f.2)), compose_mean(f, (f.0, -f.1, f.2))),
    ensures
        compose_form(f, (f.0, -f.1, f.2)) == principal_form(disc(f)),
{
    let g = (f.0, -f.1, f.2);
    assert(disc(g) == disc(f)) by (nonlinear_arith)
        requires
            g == (f.0, -f.1, f.2),
    ;
    assert(f.1 + g.1 == 0 * 2);
    lemma_trunc_div_exact(0, 2);
    assert(compose_mean(f, g) == 0);
    lemma_compose_same_leading(f, g);
    lemma_disc_residue(f);
    lemma_principal_reduced(disc(f));
}

/// The principal form of a negative discriminant `= 0, 1 (mod 4)` is reduced.
pub proof fn lemma_principal_reduced(delta: int)
    requires
        delta < 0,
        delta % 4 == 0 || delta % 4 == 1,
    ensures
        is_positive_definite(principal_form(delta)),
        is_reduced(principal_form(delta)),
        disc(principal_form(delta)) == delta,
        reduce_form(principal_form(delta)) == principal_form(delta),
{
    lemma_principal_facts(delta);
    lemma_reduce_fixes_reduced(principal_form(delta));
}

/// A primitive form: no integer greater than 1 divides all three coefficients.
pub open spec fn is_primitive(f: Form) -> bool {
    forall|k: int| k > 1 ==> !(#[trigger] (f.0 % k) == 0 && f.1 % k == 0 && f.2 % k == 0)
}

/// A primitive ambiguous class `(a, b, a)` with `0 < b < a` squares to the
/// principal class.
proof fn lemma_compose_ambiguous_square(f: Form)
    requires
        is_positive_definite(f),
        f.0 == f.2,
        0 < f.1 < f.0,
        is_primitive(f),
        gcd_facts(f.0, f.0),
        gcd_facts(compose_d1(f, f), compose_mean(f, f)),
    ensures
        compose_form(f, f) == principal_form(disc(f)),
{
    let (a, b, c) = f;
    let delta = disc(f);
    lemma_compose_raw(f, f);
    // d1 = gcd(a, a) = a
    let e1 = bigint_extended_gcd(a, a);
    let d1 = e1.0;
    assert(d1 == a * (e1.1 + e1.2)) by (nonlinear_arith)
        requires
            d1 == a * e1.1 + a * e1.2,
    ;
    lemma_fundamental_div_mod(a, d1);
    assert(d1 == a) by (nonlinear_arith)
        requires
            d1 > 0,
            a > 0,
            d1 == a * (e1.1 + e1.2),
            a == d1 * (a / d1) + a % d1,
            a % d1 == 0,
    ;
    // s = b, n = 0
    assert(b + b == b * 2);
    lemma_trunc_div_exact(b, 2);
    let s = compose_mean(f, f);
    assert(s == b);
    assert(b - b == 0 * 2);
    lemma_trunc_div_exact(0, 2);
    assert(trunc_div(b - b, 2) == 0);
    // d = gcd(a, b) = 1 by primitivity
    let e2 = bigint_extended_gcd(d1, s);
    let d = e2.0;
    assert(d > 0);
    if d > 1 {
        assert(a % d == 0 && b % d == 0 && c % d == 0);
        assert(!(f.0 % d == 0 && f.1 % d == 0 && f.2 % d == 0));
    }
    assert(d == 1);
    // a3 = a^2, factor 2a, K = -V a
    assert((a * a) * 1 == a * a);
    lemma_trunc_div_exact(a * a, 1);
    assert(d * d == 1);
    let h = compose_raw(f, f);
    assert(h.0 == a * a);
    lemma_trunc_div_exact(2 * a, 1);
    assert((2 * a) * 1 == 2 * a);
    let big_v = e2.2;
    let k = e2.1 * e1.2 * 0 - big_v * c;
    assert(e2.1 * e1.2 * 0 == 0);
    let bb = b + (2 * a) * k;
    assert(bb == (2 * (a * a)) * (-big_v) + b) by (nonlinear_arith)
        requires
            bb == b + (2 * a) * k,
            k == 0 - big_v * c,
            c == a,
    ;
    assert(a * a >= a) by (nonlinear_arith) requires a > 0;
    lemma_mod_multiples_vanish(-big_v, b, 2 * (a * a));
    lemma_small_mod(b as nat, (2 * (a * a)) as nat);
    assert(h.1 == b);
    // c3 = 1 from the discriminant
    assert(h.2 == 1) by (nonlinear_arith)
        requires
            h.1 * h.1 - 4 * h.0 * h.2 == b * b - 4 * a * c,
            h.0 == a * a,
            h.1 == b,
            c == a,
            a > 0,
    ;
    // reduce (a^2, b, 1): swap to (1, -b, a^2), then settle b
    assert(a >= 2);
    assert(a * a > 1) by (nonlinear_arith) requires a >= 2;
    assert(abs_int(h.1) <= h.0);
    assert(normalize_if_needed(h) == h);
    let h2 = (h.2, -h.1, h.0);
    assert(disc(h2) == delta) by (nonlinear_arith)
        requires
            h2 == (h.2, -h.1, h.0),
            disc(h) == delta,
    ;
    assert(reduce_form(h) == reduce_form(h2));
    lemma_disc_residue(f);
    lemma_principal_reduced(delta);
    lemma_principal_facts(delta);
    let e = principal_form(delta);
    if b == 1 {
        assert(normalize_if_needed(h2) == h2);
        assert(e.1 == 1) by {
            lemma_disc_residue(h2);
        }
        assert(4 * e.2 == 1 - delta);
        assert(4 * (a * a) == 1 - delta);
        assert(reduce_form(h2) == (1int, 1int, a * a));
    } else {
        lemma_normalize(h2);
        let nh = normalize(h2);
        assert(normalize_if_needed(h2) == nh);
        lemma_disc_residue(nh);
        assert(nh.1 == e.1);
        let t = nh.1;
        assert(t * t == t) by (nonlinear_arith) requires t == 0 || t == 1;
        assert(4 * nh.2 == t - delta);
        assert(nh == e);
    }
}

/// The inverse law of the class group: a reduced primitive class composed
/// with its inverse is the principal class.  The two `gcd_facts` are what the
/// extended gcd of `num_integer` gives of the two gcds that the composition
/// takes.
pub proof fn lemma_compose_inverse(f: Form)
    requires
        is_positive_definite(f),
        is_reduced(f),
        is_primitive(f),
        gcd_facts(f.0, inverse_form(f).0),
        gcd_facts(compose_d1(f, inverse_form(f)), compose_mean(f, inverse_form(f))),
    ensures
        compose_form(f, inverse_form(f)) == principal_form(disc(f)),
{
    lemma_inverse_involution(f);
    lemma_disc_residue(f);
    let g = (f.0, -f.1, f.2);
    assert(disc(g) == disc(f)) by (nonlinear_arith)
        requires
            g == (f.0, -f.1, f.2),
    ;
    assert(normalize_if_needed(g) == g);
    if (f.0 == abs_int(f.1) || f.0 == f.2) && f.1 != 0 {
        assert(inverse_form(f) == f);
        if f.1 == f.0 {
            // (a, a, c) squares to the principal class
            assert(f.1 + f.1 == f.0 * 2);
            lemma_trunc_div_exact(f.0, 2);
            assert(compose_mean(f, f) == f.0);
            lemma_mod_multiples_vanish(1, 0, f.0);
            assert(compose_mean(f, f) % f.0 == 0);
            lemma_compose_same_leading(f, f);
            lemma_principal_reduced(disc(f));
        } else {
            // (a, b, a) with 0 < b < a
            lemma_compose_ambiguous_square(f);
        }
    } else {
        assert(is_reduced(g));
        lemma_reduce_fixes_reduced(g);
        assert(inverse_form(f) == g);
        lemma_compose_negated(f);
    }
}

} // verus!
