//! Entropy from a context: SHA-256 in counter mode, and lowercase hex text.
use vstd::prelude::*;
use vstd::string::StringSliceAdditionalSpecFns;
use sha2::{Digest, Sha256};

verus! {

/// The SHA-256 digest of a byte string.
pub uninterp spec fn sha256_digest(data: Seq<u8>) -> Seq<u8>;

/// `sha2::Sha256::digest`: the SHA-256 digest of `data`, 32 bytes long.
#[verifier::external_body]
fn sha256(data: &[u8]) -> (r: Vec<u8>)
    ensures
        r@ == sha256_digest(data@),
        r@.len() == 32,
{
    Sha256::digest(data).to_vec()
}

/// Big-endian bytes of a 32-bit counter.
pub open spec fn be_u32_bytes(c: nat) -> Seq<u8> {
    seq![
        ((c / 0x100_0000) % 256) as u8,
        ((c / 0x1_0000) % 256) as u8,
        ((c / 0x100) % 256) as u8,
        (c % 256) as u8,
    ]
}

/// The block that counter `i` contributes: `SHA256(input || be32(i))`.
pub open spec fn entropy_block(input: Seq<u8>, i: nat) -> Seq<u8> {
    sha256_digest(input + be_u32_bytes(i))
}

/// The first `blocks` blocks of the counter-mode stream, concatenated.
pub open spec fn entropy_stream(input: Seq<u8>, blocks: nat) -> Seq<u8>
    decreases blocks,
{
    if blocks == 0 {
        Seq::empty()
    } else {
        entropy_stream(input, (blocks - 1) as nat) + entropy_block(input, (blocks - 1) as nat)
    }
}

/// Number of 32-byte blocks needed for `target` bytes.
pub open spec fn blocks_for(target: nat) -> nat {
    (target + 31) / 32
}

/// The expanded entropy: the stream cut to `target` bytes.
pub open spec fn expanded_entropy(input: Seq<u8>, target: nat) -> Seq<u8> {
    entropy_stream(input, blocks_for(target)).take(target as int)
}

/// Appends `src` to `dst`.
fn append_bytes(dst: &mut Vec<u8>, src: &[u8])
    ensures
        final(dst)@ == old(dst)@ + src@,
{
    let mut i: usize = 0;
    while i < src.len()
        invariant
            i <= src@.len(),
            dst@ == old(dst)@ + src@.take(i as int),
        decreases src@.len() - i,
    {
        dst.push(src[i]);
        i = i + 1;
        assert(src@.take(i as int) == src@.take((i - 1) as int).push(src@[i - 1]));
    }
    assert(src@.take(i as int) == src@);
}

/// Sponge expansion: SHA-256 in counter mode until `target_bytes` bytes are
/// produced, each block hashing the input followed by the big-endian counter.
/// The counter is a `u32`, so at most `u32::MAX` blocks of 32 bytes are made.
pub fn expand_entropy(input: &str, target_bytes: usize) -> (r: Vec<u8>)
    requires
        target_bytes <= 32 * (u32::MAX as int),
    ensures
        r@ == expanded_entropy(input.spec_bytes(), target_bytes as nat),
{
    let bytes = input.as_bytes();
    let mut result: Vec<u8> = Vec::new();
    let mut counter: u32 = 0;
    while result.len() < target_bytes
        invariant
            bytes@ == input.spec_bytes(),
            target_bytes <= 32 * (u32::MAX as int),
            result@ == entropy_stream(bytes@, counter as nat),
            result@.len() == 32 * counter,
            32 * counter < target_bytes + 32,
        decreases target_bytes + 32 - result@.len(),
    {
        let mut buf: Vec<u8> = Vec::new();
        append_bytes(&mut buf, bytes);
        buf.push(((counter / 0x100_0000) % 256) as u8);
        buf.push(((counter / 0x1_0000) % 256) as u8);
        buf.push(((counter / 0x100) % 256) as u8);
        buf.push((counter % 256) as u8);
        assert(buf@ == bytes@ + be_u32_bytes(counter as nat));
        let hash = sha256(buf.as_slice());
        append_bytes(&mut result, hash.as_slice());
        counter = counter + 1;
    }
    proof {
        assert(counter as nat == blocks_for(target_bytes as nat));
    }
    result.truncate(target_bytes);
    result
}

pub open spec fn hex_char(n: nat) -> char {
    if n == 0 { '0' } else if n == 1 { '1' } else if n == 2 { '2' } else if n == 3 { '3' }
    else if n == 4 { '4' } else if n == 5 { '5' } else if n == 6 { '6' } else if n == 7 { '7' }
    else if n == 8 { '8' } else if n == 9 { '9' } else if n == 10 { 'a' } else if n == 11 { 'b' }
    else if n == 12 { 'c' } else if n == 13 { 'd' } else if n == 14 { 'e' } else { 'f' }
}

/// Lowercase hex text of bytes, two digits per byte.
pub open spec fn hex_lower(s: Seq<u8>) -> Seq<char>
    decreases s.len(),
{
    if s.len() == 0 {
        Seq::empty()
    } else {
        hex_lower(s.drop_last()) + seq![hex_char((s.last() / 16) as nat), hex_char((s.last() % 16) as nat)]
    }
}

fn hex_digit(n: u8) -> (r: &'static str)
    requires
        n < 16,
    ensures
        r@ == seq![hex_char(n as nat)],
{
    match n {
        0 => { proof { reveal_strlit("0"); } "0" }
        1 => { proof { reveal_strlit("1"); } "1" }
        2 => { proof { reveal_strlit("2"); } "2" }
        3 => { proof { reveal_strlit("3"); } "3" }
        4 => { proof { reveal_strlit("4"); } "4" }
        5 => { proof { reveal_strlit("5"); } "5" }
        6 => { proof { reveal_strlit("6"); } "6" }
        7 => { proof { reveal_strlit("7"); } "7" }
        8 => { proof { reveal_strlit("8"); } "8" }
        9 => { proof { reveal_strlit("9"); } "9" }
        10 => { proof { reveal_strlit("a"); } "a" }
        11 => { proof { reveal_strlit("b"); } "b" }
        12 => { proof { reveal_strlit("c"); } "c" }
        13 => { proof { reveal_strlit("d"); } "d" }
        14 => { proof { reveal_strlit("e"); } "e" }
        _ => { proof { reveal_strlit("f"); } "f" }
    }
}

/// Lowercase hex text of bytes.
pub fn to_hex_lower(data: &[u8]) -> (r: String)
    ensures
        r@ == hex_lower(data@),
{
    let mut res = String::new();
    let mut i: usize = 0;
    while i < data.len()
        invariant
            i <= data@.len(),
            res@ == hex_lower(data@.take(i as int)),
        decreases data@.len() - i,
    {
        let byte = data[i];
        res.append(hex_digit(byte / 16));
        res.append(hex_digit(byte % 16));
        i = i + 1;
        assert(data@.take(i as int).drop_last() == data@.take((i - 1) as int));
    }
    assert(data@.take(i as int) == data@);
    res
}

/// The lowercase hex SHA-256 of a byte string.
pub fn sha256_hex(data: &[u8]) -> (r: String)
    ensures
        r@ == hex_lower(sha256_digest(data@)),
{
    let h = sha256(data);
    to_hex_lower(h.as_slice())
}

} // verus!
