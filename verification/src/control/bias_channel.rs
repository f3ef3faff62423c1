//! Bias vectors on the torus `(Z / L)^n`, with their commitments and distances.
use vstd::prelude::*;
use std::collections::hash_map::DefaultHasher;
use std::hash::{BuildHasher, BuildHasherDefault};
use crate::soul::entropy::hex_char;

verus! {

/// Size of the action space that a bias steers.
pub const ACTION_SPACE_SIZE: usize = 1024;

/// Dimension of the bias (control) vector.
pub const BIAS_DIM: usize = 16;

/// Modulus `L` of the coordinate ring `Z / L`.
pub const BIAS_RING_SIZE: i32 = 256;

/// The 64-bit `DefaultHasher` value of a bias vector's data (`Vec<i32>` hashing).
/// It is fixed for one build: the hasher's algorithm may change between Rust
/// releases and the length prefix is a `usize`, so no contract compares it
/// across builds or machines.
pub uninterp spec fn bias_data_hash(data: Seq<i32>) -> u64;

/// `BuildHasher::hash_one` of `BuildHasherDefault<DefaultHasher>` (fixed keys)
/// on the `Vec<i32>`.
#[verifier::external_body]
fn hash_bias_data(data: &Vec<i32>) -> (h: u64)
    ensures
        h == bias_data_hash(data@),
{
    BuildHasherDefault::<DefaultHasher>::default().hash_one(data)
}

/// Lowercase hex digits of a number, without leading zeros (`{:x}`).
pub open spec fn hex_u64(x: nat) -> Seq<char>
    decreases x,
{
    if x < 16 {
        seq![hex_char(x)]
    } else {
        hex_u64(x / 16).push(hex_char(x % 16))
    }
}

fn hex_digit_char(n: u64) -> (r: &'static str)
    requires
        n < 16,
    ensures
        r@ == seq![hex_char(n as nat)],
{
    match n {
        0 => { proof { reveal_strlit("0"); } "0" }
        1 => { proof { reveal_strlit("1"); } "1" }
        2 => { proof { reveal_strlit("2"); } "2" }
        3 => { proof { reveal_strlit("3"); } "3" }
        4 => { proof { reveal_strlit("4"); } "4" }
        5 => { proof { reveal_strlit("5"); } "5" }
        6 => { proof { reveal_strlit("6"); } "6" }
        7 => { proof { reveal_strlit("7"); } "7" }
        8 => { proof { reveal_strlit("8"); } "8" }
        9 => { proof { reveal_strlit("9"); } "9" }
        10 => { proof { reveal_strlit("a"); } "a" }
        11 => { proof { reveal_strlit("b"); } "b" }
        12 => { proof { reveal_strlit("c"); } "c" }
        13 => { proof { reveal_strlit("d"); } "d" }
        14 => { proof { reveal_strlit("e"); } "e" }
        _ => { proof { reveal_strlit("f"); } "f" }
    }
}

/// Lowercase hex text of a `u64` (as `format!("{:x}", x)` writes it).
pub fn u64_to_hex(x: u64) -> (r: String)
    ensures
        r@ == hex_u64(x as nat),
    decreases x,
{
    if x < 16 {
        let mut r = String::new();
        r.append(hex_digit_char(x));
        r
    } else {
        let mut r = u64_to_hex(x / 16);
        r.append(hex_digit_char(x % 16));
        r
    }
}

/// The distance between two coordinates on the ring: `min(|a - b|, L - |a - b|)`.
pub open spec fn ring_gap(a: int, b: int) -> int {
    let raw = if a >= b { a - b } else { b - a };
    if raw < BIAS_RING_SIZE - raw { raw } else { BIAS_RING_SIZE - raw }
}

/// Sum of the ring gaps of the first `n` coordinates.
pub open spec fn torus_sum(x: Seq<i32>, y: Seq<i32>, n: nat) -> int
    decreases n,
{
    if n == 0 {
        0
    } else {
        torus_sum(x, y, (n - 1) as nat) + ring_gap(x[n - 1] as int, y[n - 1] as int)
    }
}

/// The first `n` coordinate differences, and the partial sums of their ring
/// gaps, fit in an `i32`.
pub open spec fn torus_fits(x: Seq<i32>, y: Seq<i32>, n: nat) -> bool {
    &&& forall|i: int| 0 <= i < n ==> -i32::MAX <= #[trigger] x[i] - y[i] <= i32::MAX
    &&& forall|k: nat| k <= n ==> i32::MIN <= #[trigger] torus_sum(x, y, k) <= i32::MAX
}

/// Every coordinate lies in `[0, L)`.
pub open spec fn on_ring(x: Seq<i32>) -> bool {
    forall|i: int| 0 <= i < x.len() ==> 0 <= #[trigger] x[i] < BIAS_RING_SIZE
}

/// A bias vector on the torus `(Z / L)^n`, with an optional commitment.
#[derive(Debug, Clone)]
pub struct BiasVector {
    /// Coordinates, each kept in `[0, L)`.
    pub data: Vec<i32>,
    /// Audit commitment of the data, once sealed.
    pub commitment: Option<String>,
}

impl BiasVector {
    /// The zero bias of dimension `BIAS_DIM`.
    pub fn new() -> (r: Self)
        ensures
            r.data@ == Seq::new(BIAS_DIM as nat, |i: int| 0i32),
            r.commitment is None,
    {
        let mut data: Vec<i32> = Vec::new();
        let mut i: usize = 0;
        while i < BIAS_DIM
            invariant
                i <= BIAS_DIM,
                data@ == Seq::new(i as nat, |j: int| 0i32),
            decreases BIAS_DIM - i,
        {
            data.push(0);
            i = i + 1;
            assert(data@ =~= Seq::new(i as nat, |j: int| 0i32));
        }
        BiasVector { data, commitment: None }
    }

    /// Seals the bias: hashes the data, keeps the lowercase hex of the hash as
    /// the commitment and returns it.
    pub fn seal(&mut self) -> (r: String)
        ensures
            r@ == hex_u64(bias_data_hash(old(self).data@) as nat),
            final(self).data@ == old(self).data@,
            final(self).commitment matches Some(c) && c@ == r@,
    {
        let h = hash_bias_data(&self.data);
        let hash = u64_to_hex(h);
        self.commitment = Some(hash.clone());
        hash
    }

    /// Manhattan distance on the torus: the sum over coordinates of
    /// `min(|x_i - y_i|, L - |x_i - y_i|)`, over the shorter of the two vectors.
    /// Each difference and each partial sum must fit in an `i32`.
    pub fn torus_distance(&self, other: &BiasVector) -> (r: i32)
        requires
            torus_fits(self.data@, other.data@,
                if self.data@.len() <= other.data@.len() { self.data@.len() } else { other.data@.len() }),
        ensures
            r == torus_sum(self.data@, other.data@,
                if self.data@.len() <= other.data@.len() { self.data@.len() } else { other.data@.len() }),
    {
        let n = if self.data.len() <= other.data.len() { self.data.len() } else { other.data.len() };
        let mut sum: i32 = 0;
        let mut i: usize = 0;
        while i < n
            invariant
                n <= self.data@.len(),
                n <= other.data@.len(),
                i <= n,
                torus_fits(self.data@, other.data@, n as nat),
                sum == torus_sum(self.data@, other.data@, i as nat),
            decreases n - i,
        {
            let a = self.data[i];
            let b = other.data[i];
            assert(-i32::MAX <= a - b <= i32::MAX);
            let raw_diff = if a >= b { a - b } else { b - a };
            let gap = if raw_diff < BIAS_RING_SIZE - raw_diff { raw_diff } else { BIAS_RING_SIZE - raw_diff };
            assert(i32::MIN <= torus_sum(self.data@, other.data@, (i + 1) as nat) <= i32::MAX);
            sum = sum + gap;
            i = i + 1;
        }
        sum
    }

    /// Moves coordinate `idx` by `delta` around the ring:
    /// `x_idx <- (x_idx + delta) mod L`; an index past the end changes nothing.
    pub fn apply_perturbation(&mut self, idx: usize, delta: i32)
        requires
            idx < old(self).data@.len() ==> i32::MIN <= old(self).data@[idx as int] + delta <= i32::MAX,
        ensures
            idx < old(self).data@.len() ==> final(self).data@ == old(self).data@.update(
                idx as int, ((old(self).data@[idx as int] + delta) % (BIAS_RING_SIZE as int)) as i32),
            idx >= old(self).data@.len() ==> final(self).data@ == old(self).data@,
            final(self).commitment == old(self).commitment,
    {
        if idx < self.data.len() {
            let s = self.data[idx] + delta;
            let r = s.checked_rem_euclid(BIAS_RING_SIZE).unwrap();
            self.data.set(idx, r);
        }
    }
}

/// Perturbing keeps a bias on the ring.
pub proof fn lemma_perturbation_stays_on_ring(x: Seq<i32>, idx: int, delta: int)
    requires
        on_ring(x),
        0 <= idx < x.len(),
        i32::MIN <= x[idx] + delta <= i32::MAX,
    ensures
        on_ring(x.update(idx, ((x[idx] + delta) % (BIAS_RING_SIZE as int)) as i32)),
{
}


/// The torus distance is symmetric.
pub proof fn lemma_torus_distance_symmetric(x: Seq<i32>, y: Seq<i32>, n: nat)
    requires
        n <= x.len(),
        n <= y.len(),
    ensures
        torus_sum(x, y, n) == torus_sum(y, x, n),
    decreases n,
{
    if n > 0 {
        lemma_torus_distance_symmetric(x, y, (n - 1) as nat);
    }
}

/// A bias is at distance zero from itself.
pub proof fn lemma_torus_distance_self(x: Seq<i32>, n: nat)
    requires
        n <= x.len(),
    ensures
        torus_sum(x, x, n) == 0,
    decreases n,
{
    if n > 0 {
        lemma_torus_distance_self(x, (n - 1) as nat);
    }
}

/// On the ring the distance obeys the triangle inequality.
pub proof fn lemma_torus_distance_triangle(x: Seq<i32>, y: Seq<i32>, z: Seq<i32>, n: nat)
    requires
        n <= x.len(),
        n <= y.len(),
        n <= z.len(),
        on_ring(x),
        on_ring(y),
        on_ring(z),
    ensures
        torus_sum(x, z, n) <= torus_sum(x, y, n) + torus_sum(y, z, n),
    decreases n,
{
    if n > 0 {
        lemma_torus_distance_triangle(x, y, z, (n - 1) as nat);
        let i = n - 1;
        assert(0 <= x[i] < BIAS_RING_SIZE);
        assert(0 <= y[i] < BIAS_RING_SIZE);
        assert(0 <= z[i] < BIAS_RING_SIZE);
    }
}

/// Perturbing a coordinate by `d1` and then by `d2` is perturbing it by `d1 + d2`:
/// the map from deltas to moves is a homomorphism onto the ring.
pub proof fn lemma_perturbation_homomorphism(v: int, d1: int, d2: int)
    ensures
        ((v + d1) % (BIAS_RING_SIZE as int) + d2) % (BIAS_RING_SIZE as int) == (v + d1 + d2) % (BIAS_RING_SIZE as int),
{
    let m = BIAS_RING_SIZE as int;
    vstd::arithmetic::div_mod::lemma_add_mod_noop(v + d1, d2, m);
    vstd::arithmetic::div_mod::lemma_add_mod_noop((v + d1) % m, d2, m);
    vstd::arithmetic::div_mod::lemma_mod_twice(v + d1, m);
}

/// Two biases on the ring always fit, and their distance lies in `[0, 128 n]`.
pub proof fn lemma_torus_distance_range(x: Seq<i32>, y: Seq<i32>, n: nat)
    requires
        n <= x.len(),
        n <= y.len(),
        n <= 0xFF_FFFF,
        on_ring(x),
        on_ring(y),
    ensures
        0 <= torus_sum(x, y, n) <= 128 * n,
        torus_fits(x, y, n),
    decreases n,
{
    if n > 0 {
        lemma_torus_distance_range(x, y, (n - 1) as nat);
        let i = n - 1;
        assert(0 <= x[i] < BIAS_RING_SIZE);
        assert(0 <= y[i] < BIAS_RING_SIZE);
        assert forall|k: nat| k <= n implies i32::MIN <= #[trigger] torus_sum(x, y, k) <= i32::MAX by {
            if k < n {
                assert(torus_fits(x, y, (n - 1) as nat));
            }
        }
    }
}

/// On the ring the distance is zero exactly when the coordinates agree.
pub proof fn lemma_torus_distance_zero(x: Seq<i32>, y: Seq<i32>, n: nat)
    requires
        n <= x.len(),
        n <= y.len(),
        on_ring(x),
        on_ring(y),
    ensures
        torus_sum(x, y, n) == 0 <==> (forall|i: int| 0 <= i < n ==> x[i] == y[i]),
    decreases n,
{
    if n > 0 {
        lemma_torus_distance_zero(x, y, (n - 1) as nat);
        lemma_torus_distance_nonneg(x, y, (n - 1) as nat);
        let i = n - 1;
        assert(0 <= x[i] < BIAS_RING_SIZE);
        assert(0 <= y[i] < BIAS_RING_SIZE);
        if torus_sum(x, y, n) == 0 {
            assert forall|j: int| 0 <= j < n implies x[j] == y[j] by {
                if j < n - 1 {
                }
            }
        }
    }
}

proof fn lemma_torus_distance_nonneg(x: Seq<i32>, y: Seq<i32>, n: nat)
    requires
        n <= x.len(),
        n <= y.len(),
        on_ring(x),
        on_ring(y),
    ensures
        torus_sum(x, y, n) >= 0,
    decreases n,
{
    if n > 0 {
        lemma_torus_distance_nonneg(x, y, (n - 1) as nat);
        let i = n - 1;
        assert(0 <= x[i] < BIAS_RING_SIZE);
        assert(0 <= y[i] < BIAS_RING_SIZE);
    }
}

} // verus!
