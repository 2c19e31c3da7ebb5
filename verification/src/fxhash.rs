//! The Fx hash on 64-bit words, and its use on byte strings.
//!
//! The hash of a byte string takes the bytes eight at a time as little-endian words, then four
//! at once if at least four are left, then one by one.

use vstd::prelude::*;

verus! {

/// The multiplier of the hash.
pub const SEED: u64 = 0x51_7c_c1_b7_27_22_0a_95;

/// `hash` rotated left by five bits.
pub open spec fn rotate5(hash: u64) -> u64 {
    (hash << 5) | (hash >> 59)
}

/// One step of the hash: rotate, mix the word in, multiply by the seed modulo `2^64`.
pub open spec fn spec_add_u64_to_hash(hash: u64, word: u64) -> u64 {
    (((rotate5(hash) ^ word) as nat * SEED as nat) % 0x1_0000_0000_0000_0000) as u64
}

/// The little-endian number that the bytes spell.
pub open spec fn le_word(bytes: Seq<u8>) -> nat
    decreases bytes.len(),
{
    if bytes.len() == 0 {
        0
    } else {
        bytes[0] as nat + 256 * le_word(bytes.skip(1))
    }
}

/// The hash after the bytes went in one by one.
pub open spec fn hash_each(hash: u64, bytes: Seq<u8>) -> u64
    decreases bytes.len(),
{
    if bytes.len() == 0 {
        hash
    } else {
        hash_each(spec_add_u64_to_hash(hash, bytes[0] as u64), bytes.skip(1))
    }
}

/// The hash after the bytes went in: words of eight bytes while eight are left, then a word of
/// four bytes if four are left, then single bytes.
pub open spec fn hash_from(hash: u64, bytes: Seq<u8>) -> u64
    decreases bytes.len(),
{
    if bytes.len() >= 8 {
        hash_from(spec_add_u64_to_hash(hash, le_word(bytes.take(8)) as u64), bytes.skip(8))
    } else if bytes.len() >= 4 {
        hash_each(spec_add_u64_to_hash(hash, le_word(bytes.take(4)) as u64), bytes.skip(4))
    } else {
        hash_each(hash, bytes)
    }
}

/// The hash of a byte string.
pub open spec fn spec_hash_bytes(bytes: Seq<u8>) -> u64 {
    hash_from(0, bytes)
}

/// The hash of one byte is the byte mixed into the hash zero.
pub proof fn lemma_hash_of_one_byte(b: u8)
    ensures
        spec_hash_bytes(seq![b]) == spec_add_u64_to_hash(0, b as u64),
{
    let s = seq![b];
    assert(s.skip(1).len() == 0);
    assert(hash_each(spec_add_u64_to_hash(0, b as u64), s.skip(1)) == spec_add_u64_to_hash(
        0,
        b as u64,
    ));
    assert(hash_each(0, s) == hash_each(spec_add_u64_to_hash(0, s[0] as u64), s.skip(1)));
}

/// Mixes one word into a hash.
pub fn add_u64_to_hash(hash: u64, word: u64) -> (r: u64)
    ensures
        r == spec_add_u64_to_hash(hash, word),
{
    (((hash << 5) | (hash >> 59)) ^ word).wrapping_mul(SEED)
}

proof fn lemma_le_word4(b: Seq<u8>)
    requires
        b.len() == 4,
    ensures
        le_word(b) == b[0] + 256 * b[1] + 65536 * b[2] + 16777216 * b[3],
{
    let b1 = b.skip(1);
    let b2 = b1.skip(1);
    let b3 = b2.skip(1);
    assert(le_word(b3.skip(1)) == 0);
    assert(le_word(b3) == b3[0] as nat + 256 * le_word(b3.skip(1)));
    assert(le_word(b2) == b2[0] as nat + 256 * le_word(b3));
    assert(le_word(b1) == b1[0] as nat + 256 * le_word(b2));
    assert(le_word(b) == b[0] as nat + 256 * le_word(b1));
}

proof fn lemma_le_word8(b: Seq<u8>)
    requires
        b.len() == 8,
    ensures
        le_word(b) == le_word(b.take(4)) + 4294967296 * le_word(b.skip(4)),
{
    let b1 = b.skip(1);
    let b2 = b1.skip(1);
    let b3 = b2.skip(1);
    assert(b3.skip(1) =~= b.skip(4));
    assert(le_word(b3) == b3[0] as nat + 256 * le_word(b3.skip(1)));
    assert(le_word(b2) == b2[0] as nat + 256 * le_word(b3));
    assert(le_word(b1) == b1[0] as nat + 256 * le_word(b2));
    assert(le_word(b) == b[0] as nat + 256 * le_word(b1));
    lemma_le_word4(b.take(4));
}

/// The four bytes of `bytes` from `at` on, as a little-endian word.
fn word4(bytes: &[u8], at: usize) -> (r: u64)
    requires
        at + 4 <= bytes@.len(),
    ensures
        r == le_word(bytes@.subrange(at as int, at + 4)),
        r < 0x1_0000_0000,
{
    proof {
        lemma_le_word4(bytes@.subrange(at as int, at + 4));
    }
    bytes[at] as u64 + 256 * (bytes[at + 1] as u64) + 65536 * (bytes[at + 2] as u64) + 16777216 * (
    bytes[at + 3] as u64)
}

/// The hash of a byte string.
pub fn hash_bytes(bytes: &[u8]) -> (r: u64)
    ensures
        r == spec_hash_bytes(bytes@),
{
    let n = bytes.len();
    let mut hash: u64 = 0;
    let mut i: usize = 0;
    assert(bytes@.skip(0) =~= bytes@);
    while n - i >= 8
        invariant
            i <= n == bytes@.len(),
            spec_hash_bytes(bytes@) == hash_from(hash, bytes@.skip(i as int)),
        decreases n - i,
    {
        let lo = word4(bytes, i);
        let hi = word4(bytes, i + 4);
        proof {
            let rest = bytes@.skip(i as int);
            lemma_le_word8(rest.take(8));
            assert(rest.take(8).take(4) =~= bytes@.subrange(i as int, i + 4));
            assert(rest.take(8).skip(4) =~= bytes@.subrange(i + 4, i + 8));
            assert(rest.skip(8) =~= bytes@.skip(i + 8));
        }
        hash = add_u64_to_hash(hash, lo + 4294967296 * hi);
        i = i + 8;
    }
    if n - i >= 4 {
        let w = word4(bytes, i);
        proof {
            let rest = bytes@.skip(i as int);
            assert(rest.take(4) =~= bytes@.subrange(i as int, i + 4));
            assert(rest.skip(4) =~= bytes@.skip(i + 4));
        }
        hash = add_u64_to_hash(hash, w);
        i = i + 4;
    } else {
        assert(hash_from(hash, bytes@.skip(i as int)) == hash_each(hash, bytes@.skip(i as int)));
    }
    while i < n
        invariant
            i <= n == bytes@.len(),
            spec_hash_bytes(bytes@) == hash_each(hash, bytes@.skip(i as int)),
        decreases n - i,
    {
        proof {
            assert(bytes@.skip(i as int).skip(1) =~= bytes@.skip(i + 1));
        }
        hash = add_u64_to_hash(hash, bytes[i] as u64);
        i = i + 1;
    }
    hash
}

} // verus!
