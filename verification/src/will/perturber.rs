//! The perturbation set: prime forms of small norm that generate the moves of
//! the search on the Cayley graph of `Cl(D)`.
use vstd::prelude::*;
use rand::Rng;
use crate::bigint::{BigNum, trunc_div};
use crate::soul::algebra::IdealClass;
use crate::soul::forms::{Form, disc, composable, compose_form, reduce_form, is_positive_definite, inverse_form, principal_form,
    is_reduced, lemma_disc_residue, lemma_principal_reduced};

verus! {

/// Primality of a natural number.
pub open spec fn is_prime_nat(n: nat) -> bool {
    n > 1 && forall|d: nat| 1 < d < n ==> #[trigger] (n % d) != 0
}

/// Search bound for the primes behind the perturbations.
pub const MAX_PRIME_CANDIDATE: u64 = 100_000;

/// The first `b` in `b0, b0 + 2, ...` up to `2p` with `b^2 = D (mod 4p)`.
pub open spec fn prime_form_root(delta: int, p: nat, b: nat) -> Option<nat>
    decreases 2 * p + 2 - b,
{
    if b > 2 * p {
        None
    } else if (b * b - delta) % ((4 * p) as int) == 0 {
        Some(b)
    } else {
        prime_form_root(delta, p, b + 2)
    }
}

/// The form `(p, b, (b^2 - D) / 4p)` of norm `p`, with `b` the least root of
/// `b^2 = D (mod 4p)` of the parity of `D` in `[0, 2p]`, when there is one.
pub open spec fn prime_form(delta: int, p: nat) -> Option<Form> {
    let b0: nat = if delta % 2 != 0 { 1 } else { 0 };
    match prime_form_root(delta, p, b0) {
        Some(b) => Some((p as int, b as int, trunc_div(b * b - delta, (4 * p) as int))),
        None => None,
    }
}

/// The generators for discriminant `delta`: the prime forms of the primes
/// `p0, p0 + 1, ...` below the search bound, at most `count` of them.
pub open spec fn perturbations_from(delta: int, count: nat, p: nat) -> Seq<Form>
    decreases MAX_PRIME_CANDIDATE - p,
{
    if count == 0 || p >= MAX_PRIME_CANDIDATE {
        Seq::empty()
    } else if is_prime_nat(p) && prime_form(delta, p) is Some {
        seq![prime_form(delta, p).unwrap()] + perturbations_from(delta, (count - 1) as nat, p + 1)
    } else {
        perturbations_from(delta, count, p + 1)
    }
}

/// The generator set `P` that `Perturber::new` builds.
pub open spec fn perturbation_set(delta: int, count: nat) -> Seq<Form> {
    perturbations_from(delta, count, 2)
}

pub open spec fn forms_of(v: Seq<IdealClass>) -> Seq<Form> {
    v.map_values(|x: IdealClass| x@)
}

fn square_u128(i: u64) -> (r: u128)
    ensures
        r == i * i,
{
    assert((i as u128) * (i as u128) <= u128::MAX) by (nonlinear_arith)
        requires
            i <= u64::MAX,
    ;
    (i as u128) * (i as u128)
}

/// Primality by trial division over 2, 3 and the numbers `6k +- 1`.
pub fn is_prime(n: u64) -> (r: bool)
    ensures
        r == is_prime_nat(n as nat),
{
    if n <= 1 {
        return false;
    }
    if n <= 3 {
        assert forall|d: nat| 1 < d < n implies #[trigger] ((n as nat) % d) != 0 by {
            assert(d == 2);
        }
        return true;
    }
    if n % 2 == 0 || n % 3 == 0 {
        assert(((n as nat) % 2nat) == 0 || ((n as nat) % 3nat) == 0);
        return false;
    }
    proof {
        assert forall|d: nat| 1 < d < 5 implies #[trigger] ((n as nat) % d) != 0 by {
            if d == 4 {
                lemma_small_factor(n as nat, d);
            }
        }
    }
    let mut i: u64 = 5;
    while square_u128(i) <= n as u128
        invariant
            n > 3,
            n % 2 != 0,
            n % 3 != 0,
            5 <= i,
            i % 6 == 5,
            forall|d: nat| 1 < d < i ==> #[trigger] ((n as nat) % d) != 0,
        decreases n + 6 - i,
    {
        assert(i + 2 < n) by (nonlinear_arith)
            requires
                i * i <= n,
                i >= 5,
        ;
        if n % i == 0 || n % (i + 2) == 0 {
            assert(((n as nat) % (i as nat)) == 0 || ((n as nat) % ((i + 2) as nat)) == 0);
            return false;
        }
        proof {
            assert forall|d: nat| 1 < d < i + 6 implies #[trigger] ((n as nat) % d) != 0 by {
                if d >= i && d != i && d != i + 2 {
                    lemma_small_factor(n as nat, d);
                }
            }
        }
        i = i + 6;
    }
    proof {
        assert forall|d: nat| 1 < d < n implies #[trigger] ((n as nat) % d) != 0 by {
            if d >= i {
                lemma_cofactor(n as nat, d, i as nat);
            }
        }
    }
    true
}

/// A number that is even or a multiple of 3 cannot divide `n` when 2 and 3 do not.
proof fn lemma_small_factor(n: nat, d: nat)
    requires
        d > 1,
        n % 2 != 0,
        n % 3 != 0,
        d % 2 == 0 || d % 3 == 0,
    ensures
        n % d != 0,
{
    if n % d == 0 {
        vstd::arithmetic::div_mod::lemma_fundamental_div_mod(n as int, d as int);
        let k = n / d;
        if d % 2 == 0 {
            vstd::arithmetic::div_mod::lemma_fundamental_div_mod(d as int, 2);
            let j = d / 2;
            assert(n == 2 * (j * k)) by (nonlinear_arith)
                requires n == d * k, d == 2 * j;
            vstd::arithmetic::div_mod::lemma_mod_multiples_basic((j * k) as int, 2);
        } else {
            vstd::arithmetic::div_mod::lemma_fundamental_div_mod(d as int, 3);
            let j = d / 3;
            assert(n == 3 * (j * k)) by (nonlinear_arith)
                requires n == d * k, d == 3 * j;
            vstd::arithmetic::div_mod::lemma_mod_multiples_basic((j * k) as int, 3);
        }
    }
}

/// Below `i^2`, a number with no factor in `(1, i)` has none in `[i, n)` either.
proof fn lemma_cofactor(n: nat, d: nat, i: nat)
    requires
        1 < d < n,
        d >= i,
        n < i * i,
        forall|e: nat| 1 < e < i ==> #[trigger] (n % e) != 0,
    ensures
        n % d != 0,
{
    if n % d == 0 {
        vstd::arithmetic::div_mod::lemma_fundamental_div_mod(n as int, d as int);
        let k = n / d;
        assert(n == d * k);
        assert(k > 1) by (nonlinear_arith)
            requires n == d * k, d < n, d > 1;
        assert(k < i) by (nonlinear_arith)
            requires n == d * k, d >= i, n < i * i, k > 1;
        assert(n % k == 0) by {
            assert(n == d * k);
            vstd::arithmetic::div_mod::lemma_mod_multiples_basic(d as int, k as int);
        }
        assert((n % k) != 0);
    }
}

/// The prime form of norm `p`: `(p, b, (b^2 - D) / 4p)` for the least `b` of
/// the parity of `D` in `[0, 2p]` with `b^2 = D (mod 4p)`.
fn try_create_prime_form(discriminant: &BigNum, p: u64) -> (r: Option<IdealClass>)
    requires
        0 < p < 0x4000_0000_0000_0000,
    ensures
        r is Some <==> prime_form(discriminant@, p as nat) is Some,
        r matches Some(f) ==> f@ == prime_form(discriminant@, p as nat).unwrap(),
{
    let p_bi = BigNum::from_i64(p as i64);
    let four_p = BigNum::from_i64(4).mul(&p_bi);
    let start: u64 = if !discriminant.is_even() { 1 } else { 0 };
    let limit = 2 * p;
    let mut b_curr = start;
    assert(4 * p > 0);
    while b_curr <= limit
        invariant
            limit == 2 * p,
            p < 0x4000_0000_0000_0000,
            p_bi@ == p,
            four_p@ == 4 * p,
            four_p@ > 0,
            prime_form_root(discriminant@, p as nat, b_curr as nat)
                == prime_form_root(discriminant@, p as nat, start as nat),
            start == (if discriminant@ % 2 != 0 { 1nat } else { 0nat }),
        decreases limit + 2 - b_curr,
    {
        let b_bi = BigNum::from_i64(b_curr as i64);
        let b_sq = b_bi.mul(&b_bi);
        let diff = b_sq.sub(discriminant);
        if diff.rem_trunc(&four_p).is_zero() {
            proof {
                crate::soul::forms::lemma_trunc_rem_bounds(diff@, four_p@);
                vstd::arithmetic::div_mod::lemma_fundamental_div_mod(diff@, four_p@);
                assert(diff@ % four_p@ == 0) by {
                    assert(diff@ == trunc_div(diff@, four_p@) * four_p@ + 0) by (nonlinear_arith)
                        requires
                            diff@ == four_p@ * trunc_div(diff@, four_p@) + 0;
                    vstd::arithmetic::div_mod::lemma_fundamental_div_mod_converse(
                        diff@, four_p@, trunc_div(diff@, four_p@), 0);
                }
            }
            let c_val = diff.div_trunc(&four_p);
            return Some(IdealClass::new(p_bi, b_bi, c_val));
        }
        proof {
            crate::soul::forms::lemma_trunc_rem_bounds(diff@, four_p@);
            if diff@ % four_p@ == 0 {
                vstd::arithmetic::div_mod::lemma_fundamental_div_mod(diff@, four_p@);
                crate::soul::forms::lemma_trunc_div_exact(diff@ / four_p@, four_p@);
                assert(diff@ == (diff@ / four_p@) * four_p@) by (nonlinear_arith)
                    requires diff@ == four_p@ * (diff@ / four_p@);
            }
        }
        b_curr = b_curr + 2;
    }
    None
}


proof fn lemma_prime_form_root(delta: int, p: nat, b: nat)
    requires
        p > 0,
    ensures
        prime_form_root(delta, p, b) matches Some(r) ==> r <= 2 * p && (r * r - delta) % ((4 * p) as int) == 0,
    decreases 2 * p + 2 - b,
{
    if b <= 2 * p && (b * b - delta) % ((4 * p) as int) != 0 {
        lemma_prime_form_root(delta, p, b + 2);
    }
}

/// `b^2 = D (mod 4p)`.
pub open spec fn is_root_mod_4p(delta: int, p: nat, b: int) -> bool {
    (b * b - delta) % ((4 * p) as int) == 0
}

/// The search from `b` (of the parity of `D`) finds a root exactly when there
/// is one of that parity in `[b, 2p]`, and it finds the least.
proof fn lemma_prime_form_root_least(delta: int, p: nat, b: nat)
    requires
        p > 0,
        b % 2 == delta % 2,
    ensures
        (prime_form_root(delta, p, b) is Some) <==> exists|x: int|
            b <= x <= 2 * p && x % 2 == delta % 2 && #[trigger] is_root_mod_4p(delta, p, x),
        prime_form_root(delta, p, b) matches Some(r) ==> {
            &&& b <= r <= 2 * p
            &&& r % 2 == delta % 2
            &&& is_root_mod_4p(delta, p, r as int)
            &&& forall|x: int| b <= x < r && x % 2 == delta % 2 ==> !#[trigger] is_root_mod_4p(delta, p, x)
        },
    decreases 2 * p + 2 - b,
{
    if b > 2 * p {
        assert forall|x: int| b <= x <= 2 * p && x % 2 == delta % 2 implies !#[trigger] is_root_mod_4p(delta, p, x) by {}
    } else if is_root_mod_4p(delta, p, b as int) {
    } else {
        lemma_prime_form_root_least(delta, p, b + 2);
        if prime_form_root(delta, p, b + 2) is None {
            assert forall|x: int| b <= x <= 2 * p && x % 2 == delta % 2 implies !#[trigger] is_root_mod_4p(delta, p, x) by {
                if x != b {
                    assert(b + 2 <= x);
                }
            }
        } else {
            let r = prime_form_root(delta, p, b + 2).unwrap();
            assert forall|x: int| b <= x < r && x % 2 == delta % 2 implies !#[trigger] is_root_mod_4p(delta, p, x) by {
                if x != b {
                    assert(b + 2 <= x);
                }
            }
        }
    }
}

/// The prime form of norm `p` exists exactly when `b^2 = D (mod 4p)` has a
/// solution `b` of the parity of `D` in `[0, 2p]`; it is `(p, b, c)` with `b`
/// the least such solution and `4 p c = b^2 - D`.
pub proof fn lemma_prime_form_exact(delta: int, p: nat)
    requires
        p > 0,
    ensures
        (prime_form(delta, p) is Some) <==> exists|b: int|
            0 <= b <= 2 * p && b % 2 == delta % 2 && #[trigger] is_root_mod_4p(delta, p, b),
        prime_form(delta, p) matches Some(f) ==> {
            &&& f.0 == p
            &&& 0 <= f.1 <= 2 * p
            &&& f.1 % 2 == delta % 2
            &&& is_root_mod_4p(delta, p, f.1)
            &&& (4 * p) * f.2 == f.1 * f.1 - delta
            &&& forall|b: int| 0 <= b < f.1 && b % 2 == delta % 2 ==> !#[trigger] is_root_mod_4p(delta, p, b)
        },
{
    let b0: nat = if delta % 2 != 0 { 1 } else { 0 };
    assert(b0 == delta % 2);
    lemma_prime_form_root_least(delta, p, b0);
    if prime_form(delta, p) is Some {
        let r = prime_form_root(delta, p, b0).unwrap();
        assert forall|b: int| 0 <= b < r && b % 2 == delta % 2 implies !#[trigger] is_root_mod_4p(delta, p, b) by {
            assert(b0 <= b);
        }
        let m = (4 * p) as int;
        let x = r * r - delta;
        vstd::arithmetic::div_mod::lemma_fundamental_div_mod(x, m);
        crate::soul::forms::lemma_trunc_div_exact(x / m, m);
        assert(x == (x / m) * m) by (nonlinear_arith) requires x == m * (x / m) + 0;
        assert(m * trunc_div(x, m) == x) by (nonlinear_arith)
            requires x == (x / m) * m, trunc_div(x, m) == x / m;
    } else {
        assert forall|b: int| 0 <= b <= 2 * p && b % 2 == delta % 2 implies !#[trigger] is_root_mod_4p(delta, p, b) by {
            assert(b0 <= b);
        }
    }
}

/// A prime form has leading coefficient `p` and discriminant `D`; it is
/// positive definite when `D < 0`.
pub proof fn lemma_prime_form(delta: int, p: nat)
    requires
        p > 0,
        prime_form(delta, p) is Some,
    ensures
        prime_form(delta, p).unwrap().0 == p,
        disc(prime_form(delta, p).unwrap()) == delta,
        delta < 0 ==> is_positive_definite(prime_form(delta, p).unwrap()),
{
    let b0: nat = if delta % 2 != 0 { 1 } else { 0 };
    lemma_prime_form_root(delta, p, b0);
    let b = prime_form_root(delta, p, b0).unwrap();
    let m = (4 * p) as int;
    let x = b * b - delta;
    vstd::arithmetic::div_mod::lemma_fundamental_div_mod(x, m);
    crate::soul::forms::lemma_trunc_div_exact(x / m, m);
    assert(x == (x / m) * m) by (nonlinear_arith) requires x == m * (x / m);
    let c = trunc_div(x, m);
    assert(c == x / m);
    assert(disc((p as int, b as int, c)) == delta) by (nonlinear_arith)
        requires
            x == c * m,
            m == 4 * p,
            x == b * b - delta,
    ;
}

/// Asking for fewer generators gives a prefix of the larger set.
proof fn lemma_perturbations_from_prefix(delta: int, c1: nat, c2: nat, p: nat)
    requires
        c1 <= c2,
    ensures
        perturbations_from(delta, c1, p).len() <= perturbations_from(delta, c2, p).len(),
        perturbations_from(delta, c1, p) =~= perturbations_from(delta, c2, p).subrange(
            0, perturbations_from(delta, c1, p).len() as int),
    decreases MAX_PRIME_CANDIDATE - p,
{
    if c1 == 0 || p >= MAX_PRIME_CANDIDATE {
    } else if is_prime_nat(p) && prime_form(delta, p) is Some {
        lemma_perturbations_from_prefix(delta, (c1 - 1) as nat, (c2 - 1) as nat, p + 1);
    } else {
        lemma_perturbations_from_prefix(delta, c1, c2, p + 1);
    }
}

/// The generator sets for one discriminant grow by extension: the set for
/// `c1` generators is a prefix of the set for any `c2 >= c1`, and has at most
/// `c1` elements.
pub proof fn lemma_perturbation_set_prefix(delta: int, c1: nat, c2: nat)
    requires
        c1 <= c2,
    ensures
        perturbation_set(delta, c1).len() <= c1,
        perturbation_set(delta, c1).len() <= perturbation_set(delta, c2).len(),
        perturbation_set(delta, c1) == perturbation_set(delta, c2).subrange(0, perturbation_set(delta, c1).len() as int),
{
    lemma_perturbations_from(delta, c1, 2);
    lemma_perturbations_from_prefix(delta, c1, c2, 2);
}

/// Every generator has discriminant `D` and is positive definite when `D < 0`.
pub proof fn lemma_perturbations_from(delta: int, count: nat, p: nat)
    ensures
        perturbations_from(delta, count, p).len() <= count,
        forall|i: int| 0 <= i < perturbations_from(delta, count, p).len() ==> {
            let f = #[trigger] perturbations_from(delta, count, p)[i];
            &&& disc(f) == delta
            &&& f.0 > 1
            &&& (delta < 0 ==> is_positive_definite(f))
        },
    decreases MAX_PRIME_CANDIDATE - p,
{
    if count == 0 || p >= MAX_PRIME_CANDIDATE {
    } else if is_prime_nat(p) && prime_form(delta, p) is Some {
        lemma_prime_form(delta, p);
        lemma_perturbations_from(delta, (count - 1) as nat, p + 1);
        let rest = perturbations_from(delta, (count - 1) as nat, p + 1);
        let all = perturbations_from(delta, count, p);
        assert forall|i: int| 0 <= i < all.len() implies {
            let f = #[trigger] all[i];
            &&& disc(f) == delta
            &&& f.0 > 1
            &&& (delta < 0 ==> is_positive_definite(f))
        } by {
            if i > 0 {
                assert(all[i] == rest[i - 1]);
            }
        }
    } else {
        lemma_perturbations_from(delta, count, p + 1);
    }
}

/// Generates the perturbation set deterministically: equal discriminants and
/// counts always give equal sets.
fn generate_perturbations(discriminant: &BigNum, count: usize) -> (r: Vec<IdealClass>)
    ensures
        forms_of(r@) == perturbation_set(discriminant@, count as nat),
{
    let mut perturbations: Vec<IdealClass> = Vec::new();
    let mut p_candidate: u64 = 2;
    let max_candidate: u64 = MAX_PRIME_CANDIDATE;
    while perturbations.len() < count && p_candidate < max_candidate
        invariant
            2 <= p_candidate <= max_candidate,
            max_candidate == MAX_PRIME_CANDIDATE,
            perturbations@.len() <= count,
            forms_of(perturbations@) + perturbations_from(discriminant@, (count - perturbations@.len()) as nat, p_candidate as nat)
                == perturbation_set(discriminant@, count as nat),
        decreases max_candidate - p_candidate,
    {
        let ghost before = perturbations@;
        let ghost remaining = (count - perturbations@.len()) as nat;
        if is_prime(p_candidate) {
            if let Some(element) = try_create_prime_form(discriminant, p_candidate) {
                perturbations.push(element);
                proof {
                    assert(forms_of(perturbations@) == forms_of(before).push(element@));
                    assert(perturbations_from(discriminant@, remaining, p_candidate as nat)
                        == seq![element@] + perturbations_from(discriminant@, (remaining - 1) as nat, (p_candidate + 1) as nat));
                    assert(forms_of(perturbations@) + perturbations_from(discriminant@, (remaining - 1) as nat, (p_candidate + 1) as nat)
                        == forms_of(before) + perturbations_from(discriminant@, remaining, p_candidate as nat));
                }
            }
        }
        p_candidate = p_candidate + 1;
    }
    proof {
        let rem = (count - perturbations@.len()) as nat;
        assert(perturbations_from(discriminant@, rem, p_candidate as nat) == Seq::<Form>::empty());
        assert(forms_of(perturbations@) + Seq::<Form>::empty() == forms_of(perturbations@));
    }
    perturbations
}

/// Uniform random index below `len` (`rand`'s thread-local generator).
#[verifier::external_body]
fn random_index(len: usize) -> (r: usize)
    requires
        len > 0,
    ensures
        r < len,
{
    rand::thread_rng().gen_range(0..len)
}

/// A fair random bit (`rand`'s thread-local generator).
#[verifier::external_body]
fn random_bool() -> (r: bool) {
    rand::random::<bool>()
}

/// The generator set `P` of the Cayley graph that the search walks on.
pub struct Perturber {
    generators: Vec<IdealClass>,
}

impl Perturber {
    /// The generators of the graph.
    pub closed spec fn generator_forms(&self) -> Seq<Form> {
        forms_of(self.generators@)
    }

    /// The prime forms of the first primes, at most `count` of them.
    pub fn new(discriminant: &BigNum, count: usize) -> (r: Self)
        ensures
            r.generator_forms() == perturbation_set(discriminant@, count as nat),
    {
        let generators = generate_perturbations(discriminant, count);
        Self { generators }
    }

    /// The generator set, so that a verifier can rebuild the graph.
    pub fn get_generators(&self) -> (r: &Vec<IdealClass>)
        ensures
            forms_of(r@) == self.generator_forms(),
    {
        &self.generators
    }

    /// `state` is a positive definite form of the generators' discriminant.
    pub open spec fn accepts(&self, state: Form) -> bool {
        forall|i: int| 0 <= i < self.generator_forms().len() ==> composable(state, #[trigger] self.generator_forms()[i])
    }

    /// One move: `state * g` or `state * g^-1` for the generator at `idx`;
    /// returns the new state and the factor applied.
    pub fn perturb_with_choice(&self, state: &IdealClass, idx: usize, use_inverse: bool) -> (r: (IdealClass, IdealClass))
        requires
            idx < self.generator_forms().len(),
            self.accepts(state@),
        ensures
            r.1@ == (if use_inverse { inverse_form(self.generator_forms()[idx as int]) } else { self.generator_forms()[idx as int] }),
            r.0@ == compose_form(state@, r.1@),
            is_positive_definite(r.0@),
            disc(r.0@) == disc(state@),
    {
        let gen = &self.generators[idx];
        assert(gen@ == self.generator_forms()[idx as int]);
        assert(composable(state@, gen@));
        if !use_inverse {
            (state.compose(gen), gen.dup())
        } else {
            let inv = gen.inverse();
            (state.compose(&inv), inv)
        }
    }

    /// A random move: a generator chosen uniformly, applied directly or
    /// inverted with even odds.  With no generators the factor is the
    /// principal form of the state's discriminant, the identity: a positive
    /// definite state is composed with it (a reduced one comes back as it is),
    /// any other state is returned as it is.
    pub fn perturb_with_source(&self, state: &IdealClass) -> (r: (IdealClass, IdealClass))
        requires
            self.accepts(state@),
        ensures
            self.generator_forms().len() == 0 ==> r.1@ == principal_form(disc(state@)),
            self.generator_forms().len() == 0 && !is_positive_definite(state@) ==> r.0@ == state@,
            self.generator_forms().len() == 0 && is_positive_definite(state@) && is_reduced(state@) ==> r.0@ == state@,
            self.generator_forms().len() > 0 ==> exists|i: int| 0 <= i < self.generator_forms().len() && {
                ||| r.1@ == self.generator_forms()[i]
                ||| r.1@ == inverse_form(self.generator_forms()[i])
            },
            is_positive_definite(state@) || self.generator_forms().len() > 0 ==> r.0@ == compose_form(state@, r.1@),
    {
        if self.generators.len() == 0 {
            let discriminant = state.discriminant();
            let identity = IdealClass::principal(&discriminant);
            proof {
                if is_positive_definite(state@) {
                    lemma_disc_residue(state@);
                    lemma_principal_reduced(disc(state@));
                }
            }
            if state.composable_with(&identity) {
                let next = state.compose(&identity);
                return (next, identity);
            }
            return (state.dup(), identity);
        }
        let idx = random_index(self.generators.len());
        let use_inverse = random_bool();
        self.perturb_with_choice(state, idx, use_inverse)
    }

    /// The new state of a random move.
    pub fn perturb(&self, state: &IdealClass) -> (r: IdealClass)
        requires
            self.accepts(state@),
        ensures
            self.generator_forms().len() == 0 && is_positive_definite(state@)
                ==> r@ == compose_form(state@, principal_form(disc(state@))),
            self.generator_forms().len() == 0 && (!is_positive_definite(state@) || is_reduced(state@)) ==> r@ == state@,
            self.generator_forms().len() > 0 ==> exists|i: int| 0 <= i < self.generator_forms().len() && {
                ||| r@ == compose_form(state@, self.generator_forms()[i])
                ||| r@ == compose_form(state@, inverse_form(self.generator_forms()[i]))
            },
    {
        self.perturb_with_source(state).0
    }
}

} // verus!
