//! Ideal classes of an imaginary quadratic field, held as binary quadratic forms.
use vstd::prelude::*;
use vstd::string::StringSliceAdditionalSpecFns;
use crate::bigint::{BigNum, abs_int, be_bytes_value, trunc_div, int_decimal};
use crate::soul::entropy::{expand_entropy, expanded_entropy, sha256_hex, hex_lower, sha256_digest};
use crate::soul::primes::{next_prime_3_mod_4, next_prime_3_mod_4_value, first_probable_prime,
    prime_search_start, prime_search_bound};
use crate::soul::forms::{
    Form, disc, is_positive_definite, is_reduced, reduce_form, normalize_if_needed, compose_raw,
    compose_form, composable, lemma_normalize_if_needed, lemma_positive_definite_c,
    lemma_reduce_form, lemma_compose_raw, inverse_form, principal_form, is_primitive,
    lemma_compose_principal, lemma_compose_principal_left, lemma_compose_inverse,
};

verus! {

/// The universe that a context spawns: its discriminant and the hex SHA-256 of
/// the context.
pub struct Universe {
    pub discriminant: BigNum,
    pub context_hash: String,
}

/// The seed that a context determines, when its prime search succeeds.
pub open spec fn context_seed(context: Seq<u8>) -> Option<Form> {
    match universe_modulus(context) {
        Some(m) => Some(seed_form(-m, universe_entropy(context))),
        None => None,
    }
}

/// The text of a form: `(a, b, c)` in decimal.
pub open spec fn form_text(f: Form) -> Seq<char> {
    seq!['('] + int_decimal(f.0) + seq![',', ' '] + int_decimal(f.1) + seq![',', ' '] + int_decimal(f.2) + seq![')']
}

/// Number of entropy bytes behind a discriminant (2048 bits).
pub const UNIVERSE_BYTES: usize = 256;

/// The odd middle coefficient that a seed starts from.
pub open spec fn seed_middle(entropy: int) -> int {
    if entropy % 2 == 0 { entropy + 1 } else { entropy }
}

/// The seed of discriminant `delta` drawn from `entropy`: the reduction of
/// `((b^2 - delta) / 4, b, 1)` with `b` the odd number `entropy` or `entropy + 1`.
pub open spec fn seed_form(delta: int, entropy: int) -> Form {
    let b = seed_middle(entropy);
    reduce_form((trunc_div(b * b - delta, 4), b, 1))
}

/// The entropy that a context yields: 256 expanded bytes read big-endian.
pub open spec fn universe_entropy(context: Seq<u8>) -> int {
    be_bytes_value(expanded_entropy(context, UNIVERSE_BYTES as nat)) as int
}

/// The constant `M`, a probable prime `= 3 (mod 4)`, that fixes the universe of a context.
pub open spec fn universe_modulus(context: Seq<u8>) -> Option<int> {
    next_prime_3_mod_4_value(universe_entropy(context))
}

proof fn lemma_first_probable_prime(m: int, bound: int)
    ensures
        first_probable_prime(m, bound) matches Some(p) ==> p >= m && p % 4 == m % 4
            && crate::soul::primes::passes_miller_rabin(p, 5),
    decreases bound + 4 - m,
{
    if m < bound && !crate::soul::primes::passes_miller_rabin(m, 5) {
        lemma_first_probable_prime(m + 4, bound);
    }
}

/// The modulus found for a non-negative start is positive and `= 3 (mod 4)`.
#[verifier::spinoff_prover]
proof fn lemma_modulus_shape(start: int)
    requires
        start >= 0,
    ensures
        next_prime_3_mod_4_value(start) matches Some(p) ==> p > 0 && p % 4 == 3 && (-p) % 4 == 1,
{
    let c = prime_search_start(start);
    let odd = if start % 2 == 0 { start + 1 } else { start };
    assert(odd % 2 == 1);
    assert(c % 4 == 3 && c >= 3);
    lemma_first_probable_prime(c, prime_search_bound(start));
    if let Some(p) = next_prime_3_mod_4_value(start) {
        assert(p % 4 == 3 && p >= 3);
        vstd::arithmetic::div_mod::lemma_fundamental_div_mod(p, 4);
        vstd::arithmetic::div_mod::lemma_fundamental_div_mod_converse(-p, 4, -(p / 4) - 1, 1);
    }
}

/// The universe constant of a context, when the search finds one, is the
/// least probable prime `M` (it passes five rounds of Miller-Rabin) with
/// `M = 3 (mod 4)` at or above the context's entropy, so the discriminant
/// `-M` is congruent to 1 modulo 4.
pub proof fn lemma_universe_modulus(context: Seq<u8>)
    ensures
        universe_modulus(context) matches Some(m) ==> {
            &&& m > 0
            &&& m >= universe_entropy(context)
            &&& m % 4 == 3
            &&& (-m) % 4 == 1
            &&& crate::soul::primes::passes_miller_rabin(m, 5)
            &&& forall|q: int| universe_entropy(context) <= q < m && q % 4 == 3
                ==> !#[trigger] crate::soul::primes::passes_miller_rabin(q, 5)
        },
{
    let start = universe_entropy(context);
    lemma_modulus_shape(start);
    crate::soul::primes::lemma_next_prime_3_mod_4(start);
}

proof fn lemma_odd_square(b: int)
    requires
        b % 2 != 0,
    ensures
        (b * b) % 4 == 1,
{
    vstd::arithmetic::div_mod::lemma_fundamental_div_mod(b, 2);
    let k = b / 2;
    assert(b * b == 4 * (k * k + k) + 1) by (nonlinear_arith)
        requires
            b == 2 * k + 1,
    ;
}

/// An ideal class of `Cl(D)`, held as the binary quadratic form
/// `a x^2 + b x y + c y^2`.
pub struct IdealClass {
    pub a: BigNum,
    pub b: BigNum,
    pub c: BigNum,
}

impl View for IdealClass {
    type V = Form;

    open spec fn view(&self) -> Form {
        (self.a@, self.b@, self.c@)
    }
}

impl IdealClass {
    /// The form `(a, b, c)`.
    pub fn new(a: BigNum, b: BigNum, c: BigNum) -> (r: Self)
        ensures
            r@ == (a@, b@, c@),
    {
        IdealClass { a, b, c }
    }

    /// A copy with the same coefficients.
    pub fn dup(&self) -> (r: Self)
        ensures
            r@ == self@,
    {
        IdealClass { a: self.a.dup(), b: self.b.dup(), c: self.c.dup() }
    }

    /// The discriminant `b^2 - 4ac`.
    pub fn discriminant(&self) -> (r: BigNum)
        ensures
            r@ == disc(self@),
    {
        let four = BigNum::from_i64(4);
        let b_sq = self.b.mul(&self.b);
        let four_ac = four.mul(&self.a).mul(&self.c);
        let r = b_sq.sub(&four_ac);
        assert(4 * self.a@ * self.c@ == (4 * self.a@) * self.c@);
        r
    }

    /// Whether the form is positive definite (`a > 0` and `b^2 - 4ac < 0`).
    pub fn is_positive_definite(&self) -> (r: bool)
        ensures
            r == is_positive_definite(self@),
    {
        let zero = BigNum::from_i64(0);
        let d = self.discriminant();
        zero.lt(&self.a) && d.is_negative()
    }

    /// The text `(a, b, c)` of the form, in decimal.
    pub fn to_text(&self) -> (r: String)
        ensures
            r@ == form_text(self@),
    {
        let mut r = String::new();
        proof {
            reveal_strlit("(");
            reveal_strlit(", ");
            reveal_strlit(")");
        }
        r.append("(");
        r.append(self.a.to_decimal().as_str());
        r.append(", ");
        r.append(self.b.to_decimal().as_str());
        r.append(", ");
        r.append(self.c.to_decimal().as_str());
        r.append(")");
        assert(r@ =~= form_text(self@));
        r
    }

    /// Coefficient-wise equality.
    pub fn equals(&self, other: &Self) -> (r: bool)
        ensures
            r == (self@ == other@),
    {
        self.a.equals(&other.a) && self.b.equals(&other.b) && self.c.equals(&other.c)
    }

    /// Reduction: brings a positive definite form to the reduced form
    /// `|b| <= a <= c` of its class.
    pub fn reduce(&mut self)
        requires
            is_positive_definite(old(self)@),
        ensures
            final(self)@ == reduce_form(old(self)@),
    {
        let ghost orig = self@;
        loop
            invariant_except_break
                is_positive_definite(self@),
                reduce_form(self@) == reduce_form(orig),
            ensures
                self@ == reduce_form(orig),
            decreases self.a@,
        {
            let ghost start = self@;
            proof {
                lemma_normalize_if_needed(start);
            }
            let two_a = self.a.add(&self.a);
            let abs_b = self.b.abs();
            if self.a.lt(&abs_b) {
                let mut r = self.b.rem_trunc(&two_a);
                if self.a.lt(&r) {
                    r = r.sub(&two_a);
                } else {
                    let neg_a = self.a.neg();
                    if r.le(&neg_a) {
                        r = r.add(&two_a);
                    }
                }
                let k = r.sub(&self.b).div_trunc(&two_a);
                let term = self.b.add(&self.a.mul(&k));
                self.c = self.c.add(&k.mul(&term));
                self.b = r;
            }
            assert(self@ == normalize_if_needed(start));
            let ghost g = self@;
            proof {
                lemma_positive_definite_c(g);
            }
            if self.c.lt(&self.a) {
                std::mem::swap(&mut self.a, &mut self.c);
                self.b = self.b.neg();
                assert(disc(self@) == disc(g)) by (nonlinear_arith)
                    requires
                        self@ == (g.2, -g.1, g.0),
                ;
                continue;
            }
            let abs_b = self.b.abs();
            if self.a.equals(&abs_b) || self.a.equals(&self.c) {
                if self.b.is_negative() {
                    self.b = self.b.neg();
                }
            }
            assert(self@ == reduce_form(start));
            let abs_b2 = self.b.abs();
            if abs_b2.le(&self.a) && self.a.le(&self.c) {
                break;
            }
        }
    }

    /// Gauss composition: the product of two classes of one discriminant,
    /// returned in reduced form.
    pub fn compose(&self, other: &Self) -> (r: Self)
        requires
            composable(self@, other@),
        ensures
            r@ == compose_form(self@, other@),
            is_reduced(r@),
            is_positive_definite(r@),
            disc(r@) == disc(self@),
            is_reduced(self@) && other@ == principal_form(disc(self@)) ==> r@ == self@,
            is_reduced(other@) && self@ == principal_form(disc(other@)) ==> r@ == other@,
            is_reduced(self@) && is_primitive(self@) && other@ == inverse_form(self@)
                ==> r@ == principal_form(disc(self@)),
    {
        let delta = self.discriminant();
        let two = BigNum::from_i64(2);
        // 1. Unification
        let s = self.b.add(&other.b).div_trunc(&two);
        let n = self.b.sub(&other.b).div_trunc(&two);
        // 2. Extended GCD
        let (d1, _u, v) = self.a.extended_gcd(&other.a);
        let (d, big_u, big_v) = d1.extended_gcd(&s);
        proof {
            lemma_compose_raw(self@, other@);
            if is_reduced(self@) && other@ == principal_form(disc(self@)) {
                lemma_compose_principal(self@);
            }
            if is_reduced(other@) && self@ == principal_form(disc(other@)) {
                lemma_compose_principal_left(other@);
            }
            if is_reduced(self@) && is_primitive(self@) && other@ == inverse_form(self@) {
                lemma_compose_inverse(self@);
            }
        }
        // 3. Solve components
        let d_sq = d.mul(&d);
        assert(d_sq@ > 0) by (nonlinear_arith)
            requires
                d_sq@ == d@ * d@,
                d@ > 0,
        ;
        let a1_a2 = self.a.mul(&other.a);
        let a3 = a1_a2.div_trunc(&d_sq);
        let term1 = big_u.mul(&v).mul(&n);
        let term2 = big_v.mul(&other.c);
        let big_k = term1.sub(&term2);
        let factor = two.mul(&other.a).div_trunc(&d);
        let b3_raw = other.b.add(&factor.mul(&big_k));
        let two_a3 = two.mul(&a3);
        let b3 = b3_raw.rem_euclid(&two_a3);
        let num = b3.mul(&b3).sub(&delta);
        let four_a3 = two.mul(&two_a3);
        let c3 = num.div_trunc(&four_a3);
        let mut result = IdealClass::new(a3, b3, c3);
        assert(result@ == compose_raw(self@, other@));
        result.reduce();
        proof {
            lemma_reduce_form(compose_raw(self@, other@));
        }
        result
    }

    /// Self-composition, one step of the delay function.
    pub fn square(&self) -> (r: Self)
        requires
            is_positive_definite(self@),
        ensures
            r@ == compose_form(self@, self@),
            is_reduced(r@),
            is_positive_definite(r@),
            disc(r@) == disc(self@),
    {
        self.compose(self)
    }

    /// The principal form `(1, t, (t - D) / 4)` of a discriminant `D`, with
    /// `t = D mod 2`: the identity class of `Cl(D)`.
    pub fn principal(discriminant: &BigNum) -> (r: Self)
        ensures
            r@ == principal_form(discriminant@),
    {
        let one = BigNum::from_i64(1);
        let two = BigNum::from_i64(2);
        let four = BigNum::from_i64(4);
        let t = discriminant.rem_euclid(&two);
        let x = t.sub(discriminant);
        let rem = x.rem_euclid(&four);
        let c = x.sub(&rem).div_trunc(&four);
        proof {
            vstd::arithmetic::div_mod::lemma_fundamental_div_mod(x@, 4);
            crate::soul::forms::lemma_trunc_div_exact(x@ / 4, 4);
            assert(x@ - rem@ == (x@ / 4) * 4);
        }
        IdealClass::new(one, t, c)
    }

    /// Whether the two classes can be composed: both positive definite, of one
    /// discriminant.
    pub fn composable_with(&self, other: &Self) -> (r: bool)
        ensures
            r == composable(self@, other@),
    {
        if !self.is_positive_definite() || !other.is_positive_definite() {
            return false;
        }
        self.discriminant().equals(&other.discriminant())
    }

    /// The inverse class `(a, -b, c)`, reduced.
    pub fn inverse(&self) -> (r: Self)
        requires
            is_positive_definite(self@),
        ensures
            r@ == inverse_form(self@),
            is_reduced(r@),
            is_positive_definite(r@),
            disc(r@) == disc(self@),
    {
        let mut res = IdealClass::new(self.a.dup(), self.b.neg(), self.c.dup());
        assert(disc(res@) == disc(self@)) by (nonlinear_arith)
            requires
                res@ == (self@.0, -self@.1, self@.2),
        ;
        res.reduce();
        proof {
            lemma_reduce_form((self@.0, -self@.1, self@.2));
        }
        res
    }

    /// The seed of discriminant `delta` grown from `initial_entropy`: an odd
    /// middle coefficient `b`, `a = (b^2 - delta) / 4`, `c = 1`, then reduced.
    fn generate_seed_in_delta(delta: &BigNum, initial_entropy: &BigNum) -> (r: Self)
        requires
            delta@ < 0,
            delta@ % 4 == 1,
        ensures
            r@ == seed_form(delta@, initial_entropy@),
            is_reduced(r@),
            is_positive_definite(r@),
            disc(r@) == delta@,
    {
        let four = BigNum::from_i64(4);
        let mut b_curr = initial_entropy.dup();
        if b_curr.is_even() {
            b_curr = b_curr.add(&BigNum::from_i64(1));
        }
        let b_sq = b_curr.mul(&b_curr);
        let num = b_sq.sub(delta);
        let a = num.div_trunc(&four);
        let c = BigNum::from_i64(1);
        let ghost b = b_curr@;
        proof {
            lemma_odd_square(b);
            vstd::arithmetic::div_mod::lemma_fundamental_div_mod(b * b - delta@, 4);
            crate::soul::forms::lemma_trunc_div_exact((b * b - delta@) / 4, 4);
            assert(b * b >= 0) by (nonlinear_arith);
            assert(a@ > 0);
        }
        let mut element = Self::new(a, b_curr, c);
        assert(disc(element@) == delta@);
        element.reduce();
        proof {
            lemma_reduce_form((trunc_div(b * b - delta@, 4), b, 1));
        }
        element
    }

    /// Contextual universe generation: expands the context to 2048 bits of
    /// entropy, takes the next probable prime `M = 3 (mod 4)` from it, sets
    /// `D = -M`, and grows the seed of `Cl(D)` from the same entropy.
    /// `None` when the prime search reaches its bound.
    pub fn spawn_universe(context: &str) -> (r: Option<(Self, Universe)>)
        ensures
            match universe_modulus(context.spec_bytes()) {
                Some(m) => r matches Some((seed, universe)) && {
                    &&& universe.discriminant@ == -m
                    &&& universe.context_hash@ == hex_lower(sha256_digest(context.spec_bytes()))
                    &&& seed@ == seed_form(-m, universe_entropy(context.spec_bytes()))
                    &&& is_reduced(seed@)
                    &&& is_positive_definite(seed@)
                    &&& disc(seed@) == -m
                },
                None => r is None,
            },
    {
        let expanded_bytes = expand_entropy(context, UNIVERSE_BYTES);
        let seed_bigint = BigNum::from_bytes_be(expanded_bytes.as_slice());
        let context_hash = sha256_hex(context.as_bytes());
        proof {
            lemma_modulus_shape(seed_bigint@);
        }
        let m_prime = match next_prime_3_mod_4(&seed_bigint) {
            Some(m) => m,
            None => return None,
        };
        let delta = m_prime.neg();
        let element = Self::generate_seed_in_delta(&delta, &seed_bigint);
        let universe = Universe { discriminant: delta, context_hash };
        Some((element, universe))
    }

    /// The seed that a context determines (the projection parameter `_p` does
    /// not enter the algebra).
    pub fn from_hash(context: &str, _p: u64) -> (r: Option<Self>)
        ensures
            match universe_modulus(context.spec_bytes()) {
                Some(m) => r matches Some(seed) && seed@ == seed_form(-m, universe_entropy(context.spec_bytes()))
                    && is_reduced(seed@) && is_positive_definite(seed@) && disc(seed@) == -m,
                None => r is None,
            },
    {
        match Self::spawn_universe(context) {
            Some((seed, _)) => Some(seed),
            None => None,
        }
    }
}


impl PartialEq for IdealClass {
    fn eq(&self, other: &Self) -> (r: bool) {
        self.equals(other)
    }
}

impl vstd::std_specs::cmp::PartialEqSpecImpl for IdealClass {
    open spec fn obeys_eq_spec() -> bool {
        true
    }

    open spec fn eq_spec(&self, other: &Self) -> bool {
        self@ == other@
    }
}

impl Eq for IdealClass {}

} // verus!
