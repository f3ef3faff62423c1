//! Probable primes: the Miller-Rabin test with deterministic witnesses, and the
//! search for the next prime congruent to 3 modulo 4.
use vstd::prelude::*;
use vstd::arithmetic::power::{pow, lemma_pow_mod_noop, lemma_pow_multiplies, lemma_pow_positive,
    lemma_pow_increases, lemma_pow_adds, lemma_pow1};
use vstd::arithmetic::div_mod::{lemma_fundamental_div_mod, lemma_mod_bound};
use crate::bigint::{BigNum, trunc_div, trunc_rem};
use crate::soul::forms::lemma_trunc_div_exact;

verus! {

/// The exponent of 2 in `m` (0 for odd `m` and for 0).
pub open spec fn two_adic(m: nat) -> nat
    decreases m,
{
    if m > 0 && m % 2 == 0 {
        1 + two_adic(m / 2)
    } else {
        0
    }
}

/// `m` with its factors of 2 removed.
pub open spec fn odd_part(m: nat) -> nat
    decreases m,
{
    if m > 0 && m % 2 == 0 {
        odd_part(m / 2)
    } else {
        m
    }
}

/// `n` is a strong probable prime to base `a`: with `n - 1 = d 2^s`, `d` odd,
/// either `a^d = ±1 (mod n)` or `a^(d 2^j) = -1 (mod n)` for some `1 <= j < s`.
pub open spec fn strong_probable_prime(n: int, a: int) -> bool {
    let m = (n - 1) as nat;
    let d = odd_part(m);
    let s = two_adic(m);
    ||| pow(a, d) % n == 1
    ||| pow(a, d) % n == n - 1
    ||| exists|j: nat| 1 <= j < s && #[trigger] (pow(a, d * pow(2, j) as nat) % n) == n - 1
}

/// The deterministic witness generator: starts at `n` and steps by
/// `w -> (w * 48271) mod (n - 3)`.
pub open spec fn witness_state(n: int, i: nat) -> int
    decreases i,
{
    if i == 0 {
        n
    } else {
        (witness_state(n, (i - 1) as nat) * 48271) % (n - 3)
    }
}

/// The base used in round `i` of the test.
pub open spec fn witness_base(n: int, i: nat) -> int {
    witness_state(n, i + 1) + 2
}

/// The outcome of `rounds` rounds of Miller-Rabin on `n` with the deterministic witnesses.
pub open spec fn passes_miller_rabin(n: int, rounds: nat) -> bool {
    if n <= 1 {
        false
    } else if n == 2 || n == 3 {
        true
    } else if n % 2 == 0 {
        false
    } else {
        forall|i: nat| i < rounds ==> strong_probable_prime(n, #[trigger] witness_base(n, i))
    }
}

proof fn lemma_odd_decomposition(m: nat)
    requires
        m > 0,
    ensures
        m == odd_part(m) * pow(2, two_adic(m)),
        odd_part(m) % 2 == 1,
    decreases m,
{
    if m % 2 == 0 {
        lemma_fundamental_div_mod(m as int, 2);
        lemma_odd_decomposition(m / 2);
        lemma_pow_adds(2, 1, two_adic(m / 2));
        lemma_pow1(2);
        let t = two_adic(m / 2);
        assert(pow(2, 1 + t) == 2 * pow(2, t));
        assert(m == odd_part(m / 2) * pow(2, 1 + t)) by (nonlinear_arith)
            requires
                m == 2 * (m / 2),
                (m / 2) == odd_part(m / 2) * pow(2, t),
                pow(2, 1 + t) == 2 * pow(2, t),
        ;
    } else {
        assert(pow(2, 0) == 1) by {
            vstd::arithmetic::power::lemma_pow0(2);
        }
    }
}

/// `x^e mod m`.
fn mod_pow(base: &BigNum, exp: &BigNum, modulus: &BigNum) -> (r: BigNum)
    requires
        exp@ >= 0,
        modulus@ > 0,
    ensures
        r@ == pow(base@, exp@ as nat) % modulus@,
{
    base.modpow(exp, modulus)
}

/// Doubling the exponent `d 2^j` stays below `d 2^s` exactly while `j + 1 < s`.
proof fn lemma_doubling_bound(dd: nat, jj: nat, s: nat)
    requires
        dd > 0,
    ensures
        pow(2, jj) > 0,
        pow(2, jj + 1) == 2 * pow(2, jj),
        (dd * pow(2, jj) + dd * pow(2, jj) < dd * pow(2, s)) == (jj + 1 < s),
{
    lemma_pow_positive(2, jj);
    lemma_pow_positive(2, s);
    lemma_pow_adds(2, jj, 1);
    lemma_pow1(2);
    assert(dd * pow(2, jj) + dd * pow(2, jj) == dd * pow(2, jj + 1)) by (nonlinear_arith)
        requires
            pow(2, jj + 1) == pow(2, jj) * 2,
    ;
    if jj + 1 < s {
        vstd::arithmetic::power::lemma_pow_strictly_increases(2, jj + 1, s);
        assert(dd * pow(2, jj + 1) < dd * pow(2, s)) by (nonlinear_arith)
            requires
                pow(2, jj + 1) < pow(2, s),
                dd > 0,
        ;
    } else {
        lemma_pow_increases(2, s, jj + 1);
        assert(dd * pow(2, s) <= dd * pow(2, jj + 1)) by (nonlinear_arith)
            requires
                pow(2, s) <= pow(2, jj + 1),
                dd > 0,
        ;
    }
}

/// Squaring a residue doubles the exponent.
proof fn lemma_square_step(a: int, e: nat, n: int)
    requires
        n > 0,
    ensures
        pow(pow(a, e) % n, 2) % n == pow(a, e + e) % n,
{
    lemma_pow_mod_noop(pow(a, e), 2, n);
    lemma_pow_multiplies(a, e, 2);
    assert(e * 2 == e + e);
}

/// Miller-Rabin with `k` rounds and deterministic witnesses.
pub fn is_probable_prime(n: &BigNum, k: u32) -> (r: bool)
    ensures
        r == passes_miller_rabin(n@, k as nat),
{
    let one = BigNum::from_i64(1);
    let two = BigNum::from_i64(2);
    let three = BigNum::from_i64(3);
    if n.le(&one) {
        return false;
    }
    if n.equals(&two) || n.equals(&three) {
        return true;
    }
    if n.is_even() {
        return false;
    }
    let n_minus_1 = n.sub(&one);
    let ghost m: nat = n_minus_1@ as nat;
    proof {
        lemma_odd_decomposition(m);
    }
    let mut d = n_minus_1.dup();
    let ghost mut j: nat = 0;
    while d.is_even()
        invariant
            d@ > 0,
            two@ == 2,
            odd_part(d@ as nat) == odd_part(m),
            two_adic(m) == j + two_adic(d@ as nat),
        decreases d@,
    {
        proof {
            lemma_fundamental_div_mod(d@, 2);
            lemma_trunc_div_exact(d@ / 2, 2);
        }
        d = d.div_trunc(&two);
        proof {
            j = j + 1;
        }
    }
    let ghost dd: nat = d@ as nat;
    assert(dd == odd_part(m));
    let ghost s: nat = two_adic(m);
    let n_minus_3 = n.sub(&three);
    let multiplier = BigNum::from_i64(48271);
    let mut witness_gen = n.dup();
    let mut round: u32 = 0;
    while round < k
        invariant
            n@ > 3,
            n@ % 2 == 1,
            n_minus_1@ == n@ - 1,
            n_minus_3@ == n@ - 3,
            m == n@ - 1,
            dd == odd_part(m),
            s == two_adic(m),
            m == dd * pow(2, s),
            dd % 2 == 1,
            d@ == dd,
            one@ == 1,
            two@ == 2,
            multiplier@ == 48271,
            round <= k,
            witness_gen@ == witness_state(n@, round as nat),
            forall|i: nat| i < round ==> strong_probable_prime(n@, #[trigger] witness_base(n@, i)),
        decreases k - round,
    {
        witness_gen = witness_gen.mul(&multiplier).rem_euclid(&n_minus_3);
        let a = witness_gen.add(&two);
        let ghost base = witness_base(n@, round as nat);
        assert(a@ == base);
        let mut x = mod_pow(&a, &d, n);
        if x.equals(&one) || x.equals(&n_minus_1) {
            round = round + 1;
            proof {
                assert forall|i: nat| i < round implies strong_probable_prime(n@, #[trigger] witness_base(n@, i)) by {
                    if i == round - 1 {
                        assert(strong_probable_prime(n@, base));
                    }
                }
            }
            continue;
        }
        let mut composite = true;
        let mut e = d.dup();
        let ghost mut jj: nat = 0;
        proof {
            lemma_doubling_bound(dd, 0, s);
            vstd::arithmetic::power::lemma_pow0(2);
        }
        while e.add(&e).lt(&n_minus_1)
            invariant_except_break
                composite,
                forall|t: nat| 1 <= t <= jj ==> #[trigger] (pow(a@, dd * pow(2, t) as nat) % n@) != n@ - 1,
            invariant
                n@ > 3,
                m == n@ - 1,
                dd == odd_part(m),
                s == two_adic(m),
                n_minus_1@ == n@ - 1,
                m == dd * pow(2, s),
                dd % 2 == 1,
                two@ == 2,
                a@ == base,
                jj < s,
                pow(2, jj) > 0,
                e@ == dd * pow(2, jj),
                (e@ + e@ < n@ - 1) == (jj + 1 < s),
                x@ == pow(a@, e@ as nat) % n@,
                !composite ==> strong_probable_prime(n@, base),
                pow(a@, dd) % n@ != 1,
                pow(a@, dd) % n@ != n@ - 1,
            ensures
                composite ==> forall|t: nat| 1 <= t < s ==> #[trigger] (pow(a@, dd * pow(2, t) as nat) % n@) != n@ - 1,
                !composite ==> strong_probable_prime(n@, base),
            decreases n@ - e@,
        {
            proof {
                lemma_doubling_bound(dd, jj, s);
                lemma_square_step(a@, e@ as nat, n@);
                assert(e@ > 0) by (nonlinear_arith)
                    requires
                        e@ == dd * pow(2, jj),
                        dd % 2 == 1,
                        pow(2, jj) > 0,
                ;
                assert(e@ + e@ == dd * pow(2, jj + 1)) by (nonlinear_arith)
                    requires
                        e@ == dd * pow(2, jj),
                        pow(2, jj + 1) == 2 * pow(2, jj),
                ;
            }
            let e2 = e.add(&e);
            e = e2;
            x = mod_pow(&x, &two, n);
            proof {
                jj = jj + 1;
                lemma_doubling_bound(dd, jj, s);
                assert(x@ == pow(a@, e@ as nat) % n@);
            }
            if x.equals(&n_minus_1) {
                composite = false;
                assert(e@ as nat == dd * pow(2, jj) as nat) by (nonlinear_arith)
                    requires
                        e@ == dd * pow(2, jj),
                        pow(2, jj) > 0,
                ;
                assert(pow(a@, dd * pow(2, jj) as nat) % n@ == n@ - 1);
                assert(pow(base, odd_part((n@ - 1) as nat) * pow(2, jj) as nat) % n@ == n@ - 1);
                assert(strong_probable_prime(n@, base));
                break;
            }
        }
        if composite {
            assert(!strong_probable_prime(n@, base));
            assert(!strong_probable_prime(n@, witness_base(n@, round as nat)));
            return false;
        }
        round = round + 1;
        proof {
            assert forall|i: nat| i < round implies strong_probable_prime(n@, #[trigger] witness_base(n@, i)) by {
                if i == round - 1 {
                    assert(strong_probable_prime(n@, base));
                }
            }
        }
    }
    true
}


/// The first candidate of the search: the least number `>= start` that is
/// congruent to 3 modulo 4 and greater than 1 (so 3 for every `start <= 3`).
pub open spec fn prime_search_start(start: int) -> int {
    if start <= 3 {
        3
    } else {
        let odd = if start % 2 == 0 { start + 1 } else { start };
        if odd % 4 == 3 { odd } else { odd + 2 }
    }
}

/// Where the search gives up: `2 * start + 16` (16 for a negative start).
/// By the prime number theorem for arithmetic progressions a prime
/// `p = 3 (mod 4)` lies in `(x, 2x)` for every `x >= 7`, and Miller-Rabin
/// accepts every prime, so this bound is not reached; that theorem is not
/// proved here.
pub open spec fn prime_search_bound(start: int) -> int {
    if start < 0 { 16 } else { 2 * start + 16 }
}

/// The first candidate `m, m + 4, m + 8, ...` below `bound` that passes five
/// rounds of Miller-Rabin.
pub open spec fn first_probable_prime(m: int, bound: int) -> Option<int>
    decreases bound + 4 - m,
{
    if m >= bound {
        None
    } else if passes_miller_rabin(m, 5) {
        Some(m)
    } else {
        first_probable_prime(m + 4, bound)
    }
}

/// The probable prime congruent to 3 modulo 4 that the search finds from `start`.
pub open spec fn next_prime_3_mod_4_value(start: int) -> Option<int> {
    first_probable_prime(prime_search_start(start), prime_search_bound(start))
}

/// The next probable prime `p >= start` with `p = 3 (mod 4)`, stepping by 4
/// from the first such candidate.
pub fn next_prime_3_mod_4(start: &BigNum) -> (r: Option<BigNum>)
    ensures
        r matches Some(p) ==> next_prime_3_mod_4_value(start@) == Some(p@),
        r is None ==> next_prime_3_mod_4_value(start@) is None,
{
    let zero = BigNum::from_i64(0);
    let one = BigNum::from_i64(1);
    let two = BigNum::from_i64(2);
    let three = BigNum::from_i64(3);
    let four = BigNum::from_i64(4);
    let sixteen = BigNum::from_i64(16);
    let bound = if start.lt(&zero) { sixteen } else { two.mul(start).add(&sixteen) };
    let mut cand = start.dup();
    if cand.le(&three) {
        cand = three.dup();
    } else {
        // make it odd
        if cand.is_even() {
            cand = cand.add(&one);
        }
        // make it 3 (mod 4)
        if !cand.rem_euclid(&four).equals(&three) {
            cand = cand.add(&two);
        }
    }
    assert(cand@ == prime_search_start(start@));
    loop
        invariant
            four@ == 4,
            bound@ == prime_search_bound(start@),
            first_probable_prime(cand@, bound@) == next_prime_3_mod_4_value(start@),
        decreases bound@ + 4 - cand@,
    {
        if !cand.lt(&bound) {
            return None;
        }
        if is_probable_prime(&cand, 5) {
            return Some(cand);
        }
        cand = cand.add(&four);
    }
}

/// The search takes the first candidate that passes: every earlier
/// candidate of the progression fails the test.
proof fn lemma_first_probable_prime_minimal(m: int, bound: int)
    ensures
        first_probable_prime(m, bound) matches Some(p) ==> {
            &&& p >= m
            &&& p % 4 == m % 4
            &&& passes_miller_rabin(p, 5)
            &&& forall|q: int| m <= q < p && q % 4 == m % 4 ==> !#[trigger] passes_miller_rabin(q, 5)
        },
    decreases bound + 4 - m,
{
    if m < bound && !passes_miller_rabin(m, 5) {
        lemma_first_probable_prime_minimal(m + 4, bound);
        if let Some(p) = first_probable_prime(m, bound) {
            assert forall|q: int| m <= q < p && q % 4 == m % 4 implies !#[trigger] passes_miller_rabin(q, 5) by {
                if q != m {
                    assert(q >= m + 4);
                    assert(q % 4 == (m + 4) % 4);
                }
            }
        }
    }
}

/// The modulus that the search finds from `start` is the least probable
/// prime `p >= start` with `p = 3 (mod 4)`: it passes five rounds of
/// Miller-Rabin, and no number between `start` and it that is `= 3 (mod 4)`
/// does.
pub proof fn lemma_next_prime_3_mod_4(start: int)
    ensures
        next_prime_3_mod_4_value(start) matches Some(p) ==> {
            &&& p >= start
            &&& p >= 3
            &&& p % 4 == 3
            &&& passes_miller_rabin(p, 5)
            &&& forall|q: int| start <= q < p && q % 4 == 3 ==> !#[trigger] passes_miller_rabin(q, 5)
        },
{
    let c = prime_search_start(start);
    lemma_search_start(start);
    lemma_first_probable_prime_minimal(c, prime_search_bound(start));
    if let Some(p) = next_prime_3_mod_4_value(start) {
        assert forall|q: int| start <= q < p && q % 4 == 3 implies !#[trigger] passes_miller_rabin(q, 5) by {
            if q < c {
                lemma_search_start_least(start, q);
            }
        }
    }
}

/// The first candidate is `= 3 (mod 4)`, at least 3 and at least `start`.
proof fn lemma_search_start(start: int)
    ensures
        prime_search_start(start) % 4 == 3,
        prime_search_start(start) >= start,
        prime_search_start(start) >= 3,
{
}

/// Below the first candidate, a number `>= start` that is `= 3 (mod 4)` is
/// at most 1.
proof fn lemma_search_start_least(start: int, q: int)
    requires
        start <= q < prime_search_start(start),
        q % 4 == 3,
    ensures
        q <= 1,
{
}

} // verus!

