//! Arbitrary-precision integers held as plain bytes.
//!
//! A `BigNum` stores an integer in two's-complement, little-endian bytes, the
//! layout that `num_bigint::BigInt::{from,to}_signed_bytes_le` read and write.
//! Its view is the mathematical integer those bytes denote.  Every arithmetic
//! step is carried out by `num_bigint` behind a small trusted wrapper whose
//! contract states the exact integer result.
use vstd::prelude::*;
use vstd::arithmetic::power::pow;
use num_bigint::{BigInt, Sign};
use num_integer::Integer;
use num_traits::{Euclid, ToPrimitive};

verus! {

/// Unsigned value of little-endian bytes.
pub open spec fn le_bytes_value(s: Seq<u8>) -> nat
    decreases s.len(),
{
    if s.len() == 0 {
        0
    } else {
        s[0] as nat + 256 * le_bytes_value(s.drop_first())
    }
}

/// Unsigned value of big-endian bytes.
pub open spec fn be_bytes_value(s: Seq<u8>) -> nat
    decreases s.len(),
{
    if s.len() == 0 {
        0
    } else {
        be_bytes_value(s.drop_last()) * 256 + s.last() as nat
    }
}

/// Signed value of little-endian two's-complement bytes.
pub open spec fn twos_complement_value(s: Seq<u8>) -> int {
    if s.len() > 0 && s.last() >= 128 {
        le_bytes_value(s) - pow(256, s.len())
    } else {
        le_bytes_value(s) as int
    }
}

pub open spec fn abs_int(x: int) -> int {
    if x < 0 { -x } else { x }
}

/// Quotient rounded toward zero, as Rust's `/` rounds.
pub open spec fn trunc_div(a: int, b: int) -> int {
    let q = abs_int(a) / abs_int(b);
    if (a < 0) != (b < 0) { -q } else { q }
}

/// Remainder that goes with `trunc_div`: it has the sign of the dividend.
pub open spec fn trunc_rem(a: int, b: int) -> int {
    a - b * trunc_div(a, b)
}

/// Decimal digits of a natural number, most significant first.
pub open spec fn nat_decimal(n: nat) -> Seq<char>
    decreases n,
{
    if n < 10 {
        seq![digit_char(n)]
    } else {
        nat_decimal(n / 10).push(digit_char(n % 10))
    }
}

pub open spec fn digit_char(d: nat) -> char {
    if d == 0 { '0' } else if d == 1 { '1' } else if d == 2 { '2' } else if d == 3 { '3' }
    else if d == 4 { '4' } else if d == 5 { '5' } else if d == 6 { '6' } else if d == 7 { '7' }
    else if d == 8 { '8' } else { '9' }
}

/// Decimal text of an integer, with a leading '-' when it is negative.
pub open spec fn int_decimal(x: int) -> Seq<char> {
    if x < 0 { seq!['-'] + nat_decimal((-x) as nat) } else { nat_decimal(x as nat) }
}

/// Bezout data that `num_integer::Integer::extended_gcd` computes for two integers:
/// the gcd and one pair of coefficients.
pub uninterp spec fn bigint_extended_gcd(a: int, b: int) -> (int, int, int);

/// An integer of unbounded size.
pub struct BigNum {
    pub(crate) bytes: Vec<u8>,
}

impl View for BigNum {
    type V = int;

    closed spec fn view(&self) -> int {
        twos_complement_value(self.bytes@)
    }
}

// ---------------------------------------------------------------------------
// Calls into num_bigint.  Each body reads the operands with
// `BigInt::from_signed_bytes_le`, makes one call, and writes the result back
// with `BigInt::to_signed_bytes_le`; the contract claims that this round trip
// denotes the integer that the call returns.
// ---------------------------------------------------------------------------

/// `BigInt::from(i64)`: the integer `v`.
#[verifier::external_body]
fn big_from_i64(v: i64) -> (r: BigNum)
    ensures
        r@ == v as int,
{
    BigNum { bytes: BigInt::from(v).to_signed_bytes_le() }
}

/// `BigInt::from_bytes_be(Sign::Plus, bytes)`: the unsigned big-endian value of `bytes`.
#[verifier::external_body]
fn big_from_bytes_be(bytes: &[u8]) -> (r: BigNum)
    ensures
        r@ == be_bytes_value(bytes@) as int,
{
    BigNum { bytes: BigInt::from_bytes_be(Sign::Plus, bytes).to_signed_bytes_le() }
}

/// `ToPrimitive::to_i64`: the value when it fits in an `i64`.
#[verifier::external_body]
fn big_to_i64(x: &BigNum) -> (r: Option<i64>)
    ensures
        r is Some <==> (i64::MIN <= x@ <= i64::MAX),
        r matches Some(v) ==> v as int == x@,
{
    BigInt::from_signed_bytes_le(&x.bytes).to_i64()
}

/// `BigInt as Display` (`to_string`): the decimal text of the value.
#[verifier::external_body]
fn big_to_decimal(x: &BigNum) -> (r: String)
    ensures
        r@ == int_decimal(x@),
{
    BigInt::from_signed_bytes_le(&x.bytes).to_string()
}

/// `&BigInt + &BigInt`: the exact sum.
#[verifier::external_body]
fn big_add(x: &BigNum, y: &BigNum) -> (r: BigNum)
    ensures
        r@ == x@ + y@,
{
    let s = BigInt::from_signed_bytes_le(&x.bytes) + BigInt::from_signed_bytes_le(&y.bytes);
    BigNum { bytes: s.to_signed_bytes_le() }
}

/// `&BigInt - &BigInt`: the exact difference.
#[verifier::external_body]
fn big_sub(x: &BigNum, y: &BigNum) -> (r: BigNum)
    ensures
        r@ == x@ - y@,
{
    let s = BigInt::from_signed_bytes_le(&x.bytes) - BigInt::from_signed_bytes_le(&y.bytes);
    BigNum { bytes: s.to_signed_bytes_le() }
}

/// `&BigInt * &BigInt`: the exact product.
#[verifier::external_body]
fn big_mul(x: &BigNum, y: &BigNum) -> (r: BigNum)
    ensures
        r@ == x@ * y@,
{
    let s = BigInt::from_signed_bytes_le(&x.bytes) * BigInt::from_signed_bytes_le(&y.bytes);
    BigNum { bytes: s.to_signed_bytes_le() }
}

/// `-&BigInt`: the negation.
#[verifier::external_body]
fn big_neg(x: &BigNum) -> (r: BigNum)
    ensures
        r@ == -x@,
{
    BigNum { bytes: (-BigInt::from_signed_bytes_le(&x.bytes)).to_signed_bytes_le() }
}

/// `&BigInt / &BigInt`: the quotient rounded toward zero (division by zero panics).
#[verifier::external_body]
fn big_div(x: &BigNum, y: &BigNum) -> (r: BigNum)
    requires
        y@ != 0,
    ensures
        r@ == trunc_div(x@, y@),
{
    let s = BigInt::from_signed_bytes_le(&x.bytes) / BigInt::from_signed_bytes_le(&y.bytes);
    BigNum { bytes: s.to_signed_bytes_le() }
}

/// `&BigInt % &BigInt`: the remainder with the sign of the dividend (zero divisor panics).
#[verifier::external_body]
fn big_rem(x: &BigNum, y: &BigNum) -> (r: BigNum)
    requires
        y@ != 0,
    ensures
        r@ == trunc_rem(x@, y@),
{
    let s = BigInt::from_signed_bytes_le(&x.bytes) % BigInt::from_signed_bytes_le(&y.bytes);
    BigNum { bytes: s.to_signed_bytes_le() }
}

/// `Euclid::rem_euclid`: the remainder in `[0, |y|)` (zero divisor panics).
#[verifier::external_body]
fn big_rem_euclid(x: &BigNum, y: &BigNum) -> (r: BigNum)
    requires
        y@ != 0,
    ensures
        r@ == x@ % y@,
{
    let s = BigInt::from_signed_bytes_le(&x.bytes).rem_euclid(&BigInt::from_signed_bytes_le(&y.bytes));
    BigNum { bytes: s.to_signed_bytes_le() }
}

/// `BigInt::modpow`: `x^e mod m`, in `[0, m)` for a positive modulus.  It panics on a
/// negative exponent or a zero modulus.
#[verifier::external_body]
fn big_modpow(x: &BigNum, e: &BigNum, m: &BigNum) -> (r: BigNum)
    requires
        e@ >= 0,
        m@ > 0,
    ensures
        r@ == pow(x@, e@ as nat) % m@,
{
    let b = BigInt::from_signed_bytes_le(&x.bytes);
    let s = b.modpow(&BigInt::from_signed_bytes_le(&e.bytes), &BigInt::from_signed_bytes_le(&m.bytes));
    BigNum { bytes: s.to_signed_bytes_le() }
}

/// `num_integer::Integer::extended_gcd`: the gcd (never negative) and Bezout
/// coefficients `x`, `y` with `gcd == a*x + b*y`; the gcd divides both operands.
#[verifier::external_body]
fn big_extended_gcd(x: &BigNum, y: &BigNum) -> (r: (BigNum, BigNum, BigNum))
    ensures
        (r.0@, r.1@, r.2@) == bigint_extended_gcd(x@, y@),
        r.0@ >= 0,
        r.0@ == x@ * r.1@ + y@ * r.2@,
        r.0@ != 0 ==> x@ % r.0@ == 0 && y@ % r.0@ == 0,
        r.0@ == 0 ==> x@ == 0 && y@ == 0,
{
    let e = BigInt::from_signed_bytes_le(&x.bytes).extended_gcd(&BigInt::from_signed_bytes_le(&y.bytes));
    (
        BigNum { bytes: e.gcd.to_signed_bytes_le() },
        BigNum { bytes: e.x.to_signed_bytes_le() },
        BigNum { bytes: e.y.to_signed_bytes_le() },
    )
}

/// `BigInt < BigInt`.
#[verifier::external_body]
fn big_lt(x: &BigNum, y: &BigNum) -> (r: bool)
    ensures
        r == (x@ < y@),
{
    BigInt::from_signed_bytes_le(&x.bytes) < BigInt::from_signed_bytes_le(&y.bytes)
}

/// `BigInt == BigInt`.
#[verifier::external_body]
fn big_eq(x: &BigNum, y: &BigNum) -> (r: bool)
    ensures
        r == (x@ == y@),
{
    BigInt::from_signed_bytes_le(&x.bytes) == BigInt::from_signed_bytes_le(&y.bytes)
}

impl BigNum {
    /// The integer `v`.
    pub fn from_i64(v: i64) -> (r: BigNum)
        ensures
            r@ == v as int,
    {
        big_from_i64(v)
    }

    /// The unsigned integer whose big-endian bytes are `bytes`.
    pub fn from_bytes_be(bytes: &[u8]) -> (r: BigNum)
        ensures
            r@ == be_bytes_value(bytes@) as int,
    {
        big_from_bytes_be(bytes)
    }

    /// The value as an `i64`, when it fits.
    pub fn to_i64(&self) -> (r: Option<i64>)
        ensures
            r is Some <==> (i64::MIN <= self@ <= i64::MAX),
            r matches Some(v) ==> v as int == self@,
    {
        big_to_i64(self)
    }

    /// Decimal text of the value.
    pub fn to_decimal(&self) -> (r: String)
        ensures
            r@ == int_decimal(self@),
    {
        big_to_decimal(self)
    }

    /// A copy with the same value.
    pub fn dup(&self) -> (r: BigNum)
        ensures
            r@ == self@,
    {
        let bytes = self.bytes.clone();
        assert(bytes@ =~= self.bytes@);
        BigNum { bytes }
    }

    pub fn add(&self, other: &BigNum) -> (r: BigNum)
        ensures
            r@ == self@ + other@,
    {
        big_add(self, other)
    }

    pub fn sub(&self, other: &BigNum) -> (r: BigNum)
        ensures
            r@ == self@ - other@,
    {
        big_sub(self, other)
    }

    pub fn mul(&self, other: &BigNum) -> (r: BigNum)
        ensures
            r@ == self@ * other@,
    {
        big_mul(self, other)
    }

    pub fn neg(&self) -> (r: BigNum)
        ensures
            r@ == -self@,
    {
        big_neg(self)
    }

    pub fn abs(&self) -> (r: BigNum)
        ensures
            r@ == abs_int(self@),
    {
        let zero = big_from_i64(0);
        if big_lt(self, &zero) {
            big_neg(self)
        } else {
            self.dup()
        }
    }

    /// Quotient rounded toward zero.
    pub fn div_trunc(&self, other: &BigNum) -> (r: BigNum)
        requires
            other@ != 0,
        ensures
            r@ == trunc_div(self@, other@),
    {
        big_div(self, other)
    }

    /// Remainder with the sign of `self`.
    pub fn rem_trunc(&self, other: &BigNum) -> (r: BigNum)
        requires
            other@ != 0,
        ensures
            r@ == trunc_rem(self@, other@),
    {
        big_rem(self, other)
    }

    /// Remainder in `[0, |other|)`.
    pub fn rem_euclid(&self, other: &BigNum) -> (r: BigNum)
        requires
            other@ != 0,
        ensures
            r@ == self@ % other@,
    {
        big_rem_euclid(self, other)
    }

    /// `self^exponent mod modulus`.
    pub fn modpow(&self, exponent: &BigNum, modulus: &BigNum) -> (r: BigNum)
        requires
            exponent@ >= 0,
            modulus@ > 0,
        ensures
            r@ == pow(self@, exponent@ as nat) % modulus@,
    {
        big_modpow(self, exponent, modulus)
    }

    /// The gcd of `self` and `other` with Bezout coefficients.
    pub fn extended_gcd(&self, other: &BigNum) -> (r: (BigNum, BigNum, BigNum))
        ensures
            (r.0@, r.1@, r.2@) == bigint_extended_gcd(self@, other@),
            r.0@ >= 0,
            r.0@ == self@ * r.1@ + other@ * r.2@,
            r.0@ != 0 ==> self@ % r.0@ == 0 && other@ % r.0@ == 0,
            r.0@ == 0 ==> self@ == 0 && other@ == 0,
    {
        big_extended_gcd(self, other)
    }

    pub fn lt(&self, other: &BigNum) -> (r: bool)
        ensures
            r == (self@ < other@),
    {
        big_lt(self, other)
    }

    pub fn le(&self, other: &BigNum) -> (r: bool)
        ensures
            r == (self@ <= other@),
    {
        !big_lt(other, self)
    }

    pub fn equals(&self, other: &BigNum) -> (r: bool)
        ensures
            r == (self@ == other@),
    {
        big_eq(self, other)
    }

    pub fn is_zero(&self) -> (r: bool)
        ensures
            r == (self@ == 0),
    {
        let zero = big_from_i64(0);
        big_eq(self, &zero)
    }

    pub fn is_negative(&self) -> (r: bool)
        ensures
            r == (self@ < 0),
    {
        let zero = big_from_i64(0);
        big_lt(self, &zero)
    }

    pub fn is_even(&self) -> (r: bool)
        ensures
            r == (self@ % 2 == 0),
    {
        let two = big_from_i64(2);
        let m = big_rem_euclid(self, &two);
        let zero = big_from_i64(0);
        big_eq(&m, &zero)
    }
}

} // verus!
