//! Varints on bytes: a number in groups of seven bits, low group first; the top bit of a
//! byte says that another byte follows. Signed numbers are folded onto unsigned ones first.

use vstd::arithmetic::power2::{lemma2_to64, lemma2_to64_rest, lemma_pow2_unfold, pow2};
use vstd::prelude::*;

verus! {

/// The most bytes that a varint of 64 bits has.
pub const MAX_VARINT64_BYTES: usize = 10;

/// Why no varint could be read.
#[derive(Debug, Clone, Copy, PartialEq, Eq, Structural)]
pub enum Error {
    /// The bytes end within the varint.
    UnexpectedEnd,
    /// The varint has more than ten bytes, or its value does not fit 64 bits.
    MalformedVarint,
}

/// The bytes of the varint of `v`.
pub open spec fn encoded(v: nat) -> Seq<u8>
    decreases v,
{
    if v < 128 {
        seq![v as u8]
    } else {
        seq![(v % 128 + 128) as u8] + encoded(v / 128)
    }
}

/// The value and the length of the varint at the front of `bytes`, if `bytes` hold a whole
/// one.
pub open spec fn decoded(bytes: Seq<u8>) -> Option<(nat, nat)>
    decreases bytes.len(),
{
    if bytes.len() == 0 {
        None
    } else if bytes[0] < 128 {
        Some((bytes[0] as nat, 1))
    } else {
        match decoded(bytes.skip(1)) {
            Some((v, n)) => Some((((bytes[0] - 128) + 128 * v) as nat, n + 1)),
            None => None,
        }
    }
}

/// The number of bits of `v`: the position of its highest set bit, counted from one.
pub open spec fn bit_len(v: nat) -> nat
    decreases v,
{
    if v == 0 {
        0
    } else {
        1 + bit_len(v / 2)
    }
}

/// The number of bytes that the varint of a number of `bits` bits has: a seventh of the
/// bits, rounded up, and at least one.
pub open spec fn len_for_bits(bits: nat) -> nat {
    if bits == 0 {
        1
    } else {
        (bits + 6) / 7
    }
}

/// Seven bits less are one byte less.
proof fn lemma_bit_len_step(v: nat)
    requires
        v >= 128,
    ensures
        bit_len(v) == 7 + bit_len(v / 128),
{
    reveal_with_fuel(bit_len, 8);
    assert(v / 2 / 2 / 2 / 2 / 2 / 2 / 2 == v / 128);
}

/// Numbers below 128 have at most seven bits.
proof fn lemma_bit_len_small(v: nat)
    requires
        v < 128,
    ensures
        bit_len(v) <= 7,
        v > 0 ==> bit_len(v) >= 1,
{
    reveal_with_fuel(bit_len, 9);
}

/// The length of a varint is that of its number of bits.
pub proof fn lemma_encoded_len(v: nat)
    ensures
        encoded(v).len() == len_for_bits(bit_len(v)),
    decreases v,
{
    if v < 128 {
        lemma_bit_len_small(v);
    } else {
        lemma_encoded_len(v / 128);
        lemma_bit_len_step(v);
        lemma_bit_len_small(0);
        if v / 128 < 128 {
            lemma_bit_len_small(v / 128);
        } else {
            lemma_bit_len_step(v / 128);
        }
    }
}

/// A number below two to the `k` has at most `k` bits.
pub proof fn lemma_bit_len_bound(v: nat, k: nat)
    requires
        v < pow2(k),
    ensures
        bit_len(v) <= k,
    decreases k,
{
    if v > 0 {
        lemma2_to64();
        if k > 0 {
            lemma_pow2_unfold(k);
            lemma_bit_len_bound(v / 2, (k - 1) as nat);
        }
    }
}

/// Decoding the varint of a number gives the number back, and with it the length of the
/// varint; what follows the varint does not matter.
pub proof fn lemma_decode_encoded(v: nat, tail: Seq<u8>)
    ensures
        decoded(encoded(v) + tail) == Some((v, encoded(v).len())),
    decreases v,
{
    let bytes = encoded(v) + tail;
    if v < 128 {
        assert(bytes[0] == v as u8);
    } else {
        lemma_decode_encoded(v / 128, tail);
        assert(bytes[0] == (v % 128 + 128) as u8);
        assert(bytes.skip(1) =~= encoded(v / 128) + tail);
    }
}

/// Round trip: for every number of 64 bits, decoding its varint gives the number back, and
/// the varint has a seventh of the number's bits in bytes, rounded up and at least one,
/// which is at most ten.
pub proof fn lemma_varint_round_trip(v: u64)
    ensures
        decoded(encoded(v as nat)) == Some((v as nat, encoded(v as nat).len())),
        encoded(v as nat).len() == len_for_bits(bit_len(v as nat)),
        1 <= encoded(v as nat).len() <= MAX_VARINT64_BYTES,
{
    lemma_decode_encoded(v as nat, Seq::empty());
    assert(encoded(v as nat) + Seq::<u8>::empty() =~= encoded(v as nat));
    lemma_encoded_len(v as nat);
    lemma2_to64_rest();
    lemma_bit_len_bound(v as nat, 64);
}

/// Writes the varint of `v`.
pub fn encode_uvarint64(v: u64) -> (r: Vec<u8>)
    ensures
        r@ == encoded(v as nat),
{
    let mut out: Vec<u8> = Vec::new();
    let mut left: u64 = v;
    assert(out@ + encoded(left as nat) =~= encoded(v as nat));
    while left >= 128
        invariant
            out@ + encoded(left as nat) == encoded(v as nat),
        decreases left,
    {
        let ghost before = out@;
        out.push((left % 128 + 128) as u8);
        assert(out@ + encoded((left / 128) as nat) =~= before + encoded(left as nat));
        left = left / 128;
    }
    let ghost before = out@;
    out.push(left as u8);
    assert(out@ =~= before + encoded(left as nat));
    out
}

/// The first ten bytes of `bytes`, or all of them where they are fewer.
pub open spec fn first_ten(bytes: Seq<u8>) -> Seq<u8> {
    if bytes.len() >= MAX_VARINT64_BYTES {
        bytes.take(MAX_VARINT64_BYTES as int)
    } else {
        bytes
    }
}

/// What reading a varint of 64 bits from `bytes` gives: the value and the length, or the
/// reason why there is none.
pub open spec fn read_result(bytes: Seq<u8>) -> Result<(u64, usize), Error> {
    match decoded(first_ten(bytes)) {
        Some((v, n)) => if v <= u64::MAX {
            Ok((v as u64, n as usize))
        } else {
            Err(Error::MalformedVarint)
        },
        None => if bytes.len() >= MAX_VARINT64_BYTES {
            Err(Error::MalformedVarint)
        } else {
            Err(Error::UnexpectedEnd)
        },
    }
}

/// Reads the varint at the front of `bytes`.
pub fn decode_uvarint64(bytes: &[u8]) -> (r: Result<(u64, usize), Error>)
    ensures
        r == read_result(bytes@),
{
    let ghost all = first_ten(bytes@);
    let n = if bytes.len() < MAX_VARINT64_BYTES {
        bytes.len()
    } else {
        MAX_VARINT64_BYTES
    };
    let mut acc: u64 = 0;
    let mut mult: u64 = 1;
    let mut i: usize = 0;
    proof {
        lemma2_to64();
        assert(all.skip(0) =~= all);
        assert(all.len() == n);
    }
    while i < n
        invariant
            i <= n <= MAX_VARINT64_BYTES,
            all == first_ten(bytes@),
            all.len() == n,
            i < MAX_VARINT64_BYTES ==> mult == pow2(7 * i as nat),
            i < MAX_VARINT64_BYTES ==> acc < mult,
            i == MAX_VARINT64_BYTES ==> decoded(all) is None,
            i < MAX_VARINT64_BYTES ==> decoded(all) == match decoded(all.skip(i as int)) {
                Some((v, k)) => Some(((acc + mult * v) as nat, k + i as nat)),
                None => None::<(nat, nat)>,
            },
        decreases n - i,
    {
        let b = bytes[i];
        proof {
            let rest = all.skip(i as int);
            assert(rest[0] == b);
            assert(rest.skip(1) =~= all.skip(i + 1));
            lemma_pow2_le_2_63(7 * i as nat);
            lemma2_to64_rest();
            if i < 9 {
                lemma_pow2_step7(i as nat);
                lemma_pow2_le_2_63(7 * (i + 1) as nat);
            }
        }
        if b < 128 {
            if i == 9 && b > 1 {
                proof {
                    assert(mult * b >= mult * 2) by (nonlinear_arith)
                        requires
                            b >= 2,
                            mult >= 0,
                    ;
                }
                return Err(Error::MalformedVarint);
            }
            proof {
                if i < 9 {
                    assert(acc + mult * b < mult * 128) by (nonlinear_arith)
                        requires
                            acc < mult,
                            b < 128,
                    ;
                } else {
                    assert(mult * b <= mult) by (nonlinear_arith)
                        requires
                            b <= 1,
                            mult >= 0,
                    ;
                }
            }
            return Ok((acc + mult * (b as u64), i + 1));
        }
        if i == 9 {
            proof {
                assert(all.skip(10) =~= Seq::<u8>::empty());
            }
            i = i + 1;
        } else {
            let ghost acc0 = acc;
            proof {
                assert(acc + mult * (b - 128) < mult * 128) by (nonlinear_arith)
                    requires
                        acc < mult,
                        128 <= b < 256,
                ;
            }
            acc = acc + mult * ((b - 128) as u64);
            proof {
                match decoded(all.skip(i + 1)) {
                    Some((v, k)) => {
                        assert(acc0 + mult * ((b - 128) + 128 * v) == acc + (mult * 128) * v)
                            by (nonlinear_arith)
                            requires
                                acc == acc0 + mult * (b - 128),
                        ;
                    },
                    None => {},
                }
            }
            mult = mult * 128;
            i = i + 1;
        }
    }
    proof {
        if i < MAX_VARINT64_BYTES {
            assert(all.skip(i as int) =~= Seq::<u8>::empty());
        }
    }
    if bytes.len() >= MAX_VARINT64_BYTES {
        Err(Error::MalformedVarint)
    } else {
        Err(Error::UnexpectedEnd)
    }
}

/// The unsigned number that the signed number `v` is folded onto: `0, -1, 1, -2, ...` go to
/// `0, 1, 2, 3, ...`.
pub open spec fn zigzag(v: i64) -> u64 {
    if v >= 0 {
        (2 * v) as u64
    } else {
        (-2 * v - 1) as u64
    }
}

/// The signed number that is folded onto `u`.
pub open spec fn unzigzag(u: u64) -> i64 {
    if u % 2 == 0 {
        (u / 2) as i64
    } else {
        (-(u / 2) - 1) as i64
    }
}

/// Folding and unfolding give the number back, both ways.
pub proof fn lemma_zigzag_round_trip(v: i64, u: u64)
    ensures
        unzigzag(zigzag(v)) == v,
        zigzag(unzigzag(u)) == u,
{
}

/// Folds a signed number onto an unsigned one.
pub fn encode_zigzag64(v: i64) -> (r: u64)
    ensures
        r == zigzag(v),
{
    if v >= 0 {
        2 * (v as u64)
    } else {
        2 * ((-(v + 1)) as u64) + 1
    }
}

/// Unfolds a signed number.
pub fn decode_zigzag64(u: u64) -> (r: i64)
    ensures
        r == unzigzag(u),
{
    if u % 2 == 0 {
        (u / 2) as i64
    } else {
        -((u / 2) as i64) - 1
    }
}

/// Writes the varint of a signed number.
pub fn encode_varint64(v: i64) -> (r: Vec<u8>)
    ensures
        r@ == encoded(zigzag(v) as nat),
{
    encode_uvarint64(encode_zigzag64(v))
}

/// Reads the varint of a signed number at the front of `bytes`.
pub fn decode_varint64(bytes: &[u8]) -> (r: Result<(i64, usize), Error>)
    ensures
        r == match read_result(bytes@) {
            Ok((u, n)) => Ok::<(i64, usize), Error>((unzigzag(u), n)),
            Err(e) => Err::<(i64, usize), Error>(e),
        },
{
    match decode_uvarint64(bytes) {
        Ok((u, n)) => Ok((decode_zigzag64(u), n)),
        Err(e) => Err(e),
    }
}

/// Seven more bits multiply a power of two by 128.
proof fn lemma_pow2_step7(k: nat)
    ensures
        pow2(7 * (k + 1)) == pow2(7 * k) * 128,
{
    vstd::arithmetic::power2::lemma_pow2_adds(7 * k, 7);
    lemma2_to64();
}

proof fn lemma_pow2_le_2_63(a: nat)
    requires
        a <= 63,
    ensures
        0 < pow2(a) <= 0x8000_0000_0000_0000,
{
    vstd::arithmetic::power2::lemma_pow2_pos(a);
    if a < 63 {
        vstd::arithmetic::power2::lemma_pow2_strictly_increases(a, 63);
    }
    lemma2_to64_rest();
}

} // verus!
