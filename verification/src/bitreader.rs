//! A little-endian, bit-granular reader over a borrowed byte slice.
//!
//! Bits are numbered from the least significant bit of the first byte. A value of `n` bits is
//! assembled least significant bit first. Reads never fail: a read that would run past the end
//! yields zero, moves the cursor to the end and raises a sticky overflow flag.

use crate::floatcode::{AngleCode, CoordCode, NormalCode, NormalVectorCode};
use crate::varint::{bit_len, encoded, len_for_bits, lemma_varint_round_trip, zigzag};
use vstd::arithmetic::power2::{lemma2_to64, lemma2_to64_rest, lemma_pow2_unfold, pow2};
use vstd::prelude::*;

verus! {

/// What a checkpoint finds.
#[derive(Debug, Clone, Copy, PartialEq, Eq, Structural)]
pub enum Error {
    /// A read ran past the end of the stream.
    UnexpectedEnd,
}

/// Bit `k` of `byte`, as 0 or 1.
pub open spec fn bit_of(byte: u8, k: u8) -> u8 {
    (byte >> k) & 1
}

/// Bit number `i` of the stream `data`, as 0 or 1.
pub open spec fn bit_at(data: Seq<u8>, i: int) -> nat {
    bit_of(data[i / 8], (i % 8) as u8) as nat
}

/// The number formed by the `n` bits that start at bit `pos`, least significant first.
pub open spec fn bits_at(data: Seq<u8>, pos: int, n: int) -> nat
    decreases n,
{
    if n <= 0 {
        0
    } else {
        bit_at(data, pos) + 2 * bits_at(data, pos + 1, n - 1)
    }
}

/// A bit is 0 or 1.
pub proof fn lemma_bit_of_bound(byte: u8, k: u8)
    requires
        k < 8,
    ensures
        bit_of(byte, k) <= 1,
{
    assert((byte >> k) & 1 <= 1) by (bit_vector)
        requires
            k < 8,
    ;
}

/// A value of `n` bits is below two to the `n`.
pub proof fn lemma_bits_at_bound(data: Seq<u8>, pos: int, n: int)
    requires
        0 <= n,
    ensures
        bits_at(data, pos, n) < pow2(n as nat),
    decreases n,
{
    if n == 0 {
        lemma2_to64();
    } else {
        lemma_bits_at_bound(data, pos + 1, n - 1);
        lemma_bit_of_bound(data[pos / 8], (pos % 8) as u8);
        lemma_pow2_unfold(n as nat);
    }
}

/// What a reader stands for: the bytes, the absolute bit position and the sticky overflow flag.
pub struct BitStream {
    pub data: Seq<u8>,
    pub pos: nat,
    pub overflowed: bool,
}

impl BitStream {
    /// The number of bits in the stream.
    pub open spec fn total(self) -> nat {
        8 * self.data.len()
    }

    /// The number of bits that have not been read.
    pub open spec fn remaining(self) -> nat {
        if self.pos <= self.total() {
            (self.total() - self.pos) as nat
        } else {
            0
        }
    }

    /// Whether reads can lead from `from` to this state: the bytes are the same, the
    /// overflow flag is not taken back, and unless it is up the cursor has not moved back
    /// and, if it moved, lies within the stream.
    pub open spec fn follows(self, from: BitStream) -> bool {
        &&& self.data == from.data
        &&& from.overflowed ==> self.overflowed
        &&& !self.overflowed ==> from.pos <= self.pos && (self.pos <= self.total() || self.pos
            == from.pos)
    }

    /// Whether `n` more bits can be read.
    pub open spec fn fits(self, n: int) -> bool {
        self.pos + n <= self.total()
    }

    /// The value that a read of `n` bits returns.
    pub open spec fn value(self, n: int) -> nat {
        if self.fits(n) {
            bits_at(self.data, self.pos as int, n)
        } else {
            0
        }
    }

    /// The stream after a read of `n` bits.
    pub open spec fn advance(self, n: int) -> BitStream {
        if self.fits(n) {
            BitStream { pos: (self.pos + n) as nat, ..self }
        } else {
            BitStream { pos: self.total(), overflowed: true, ..self }
        }
    }

    /// The index of the byte that holds the next bit.
    pub open spec fn byte_cursor(self) -> nat {
        self.pos / 8
    }

    /// The index of the next bit within its byte.
    pub open spec fn bit_cursor(self) -> nat {
        self.pos % 8
    }
}

impl BitStream {
    /// One bit, read as a flag.
    pub open spec fn read_bool(self) -> (bool, BitStream) {
        (self.value(1) == 1, self.advance(1))
    }

    /// Eight bits, read as a byte.
    pub open spec fn read_byte(self) -> (u8, BitStream) {
        (self.value(8) as u8, self.advance(8))
    }

    /// `n` bytes, read one after the other.
    pub open spec fn read_bytes(self, n: nat) -> (Seq<u8>, BitStream)
        decreases n,
    {
        if n == 0 {
            (Seq::empty(), self)
        } else {
            let (init, s1) = self.read_bytes((n - 1) as nat);
            let (b, s2) = s1.read_byte();
            (init.push(b), s2)
        }
    }

    /// `n` bits, packed into bytes: whole bytes first, then one byte with the bits that are left.
    pub open spec fn read_bits(self, n: nat) -> (Seq<u8>, BitStream) {
        let (whole, s1) = self.read_bytes(n / 8);
        if n % 8 == 0 {
            (whole, s1)
        } else {
            (whole.push(s1.value((n % 8) as int) as u8), s1.advance((n % 8) as int))
        }
    }

    /// A base-128 number of at most `max` bytes, low group first; the top bit of a byte says
    /// that another byte follows. The value is not truncated here.
    pub open spec fn read_base128(self, max: nat) -> (nat, BitStream)
        decreases max,
    {
        if max == 0 {
            (0, self)
        } else {
            let (b, s1) = self.read_byte();
            if b < 128 {
                (b as nat, s1)
            } else {
                let (rest, s2) = s1.read_base128((max - 1) as nat);
                (((b - 128) + 128 * rest) as nat, s2)
            }
        }
    }

    /// An unsigned varint of at most ten bytes, truncated to 64 bits.
    pub open spec fn read_uvarint64(self) -> (u64, BitStream) {
        let (v, s) = self.read_base128(10);
        ((v % 0x1_0000_0000_0000_0000) as u64, s)
    }

    /// An unsigned varint of at most five bytes, truncated to 32 bits.
    pub open spec fn read_uvarint32(self) -> (u32, BitStream) {
        let (v, s) = self.read_base128(5);
        ((v % 0x1_0000_0000) as u32, s)
    }

    /// A zigzag-coded signed varint of at most ten bytes.
    pub open spec fn read_varint64(self) -> (i64, BitStream) {
        let (v, s) = self.read_uvarint64();
        (zigzag64(v), s)
    }

    /// A zigzag-coded signed varint of at most five bytes.
    pub open spec fn read_varint32(self) -> (i32, BitStream) {
        let (v, s) = self.read_uvarint32();
        (zigzag32(v), s)
    }

    /// A two-bit selector, then a payload of 4, 8, 12 or 32 bits. The two middle widths are
    /// biased by the number of values that the narrower widths cover.
    pub open spec fn read_ubitvar(self) -> (u32, BitStream) {
        let sel = self.value(2);
        let s1 = self.advance(2);
        if sel == 0 {
            (s1.value(4) as u32, s1.advance(4))
        } else if sel == 1 {
            ((16 + s1.value(8)) as u32, s1.advance(8))
        } else if sel == 2 {
            ((272 + s1.value(12)) as u32, s1.advance(12))
        } else {
            (s1.value(32) as u32, s1.advance(32))
        }
    }

    /// The width-prefixed number of the field-path code: up to four flags pick a payload of
    /// 2, 4, 10 or 17 bits; with all four clear the payload has 31 bits.
    pub open spec fn read_ubitvarfp(self) -> (u32, BitStream) {
        let (f1, s1) = self.read_bool();
        if f1 {
            (s1.value(2) as u32, s1.advance(2))
        } else {
            let (f2, s2) = s1.read_bool();
            if f2 {
                (s2.value(4) as u32, s2.advance(4))
            } else {
                let (f3, s3) = s2.read_bool();
                if f3 {
                    (s3.value(10) as u32, s3.advance(10))
                } else {
                    let (f4, s4) = s3.read_bool();
                    if f4 {
                        (s4.value(17) as u32, s4.advance(17))
                    } else {
                        (s4.value(31) as u32, s4.advance(31))
                    }
                }
            }
        }
    }

    /// The bytes up to a terminator, which is a zero byte or, with `line`, a newline; the
    /// terminator is consumed. The end of the stream terminates too.
    pub open spec fn read_cstr(self, line: bool) -> (Seq<u8>, BitStream)
        decreases self.remaining(),
    {
        let (b, s1) = self.read_byte();
        if b == 0 || (line && b == 10) || !self.fits(8) {
            (Seq::empty(), s1)
        } else {
            let (rest, s2) = s1.read_cstr(line);
            (seq![b] + rest, s2)
        }
    }
}

impl BitStream {
    /// A world coordinate: a flag for the whole part, a flag for the fraction and, if either is
    /// set, the sign, 14 bits of the whole part less one, and 5 bits of fraction.
    pub open spec fn read_bitcoord(self) -> (CoordCode, BitStream) {
        let (has_whole, s1) = self.read_bool();
        let (has_fract, s2) = s1.read_bool();
        if !has_whole && !has_fract {
            (CoordCode::zero(), s2)
        } else {
            let (negative, s3) = s2.read_bool();
            let whole = if has_whole {
                (s3.value(14) + 1) as u32
            } else {
                0u32
            };
            let s4 = if has_whole {
                s3.advance(14)
            } else {
                s3
            };
            let fract = if has_fract {
                s4.value(5) as u32
            } else {
                0u32
            };
            let s5 = if has_fract {
                s4.advance(5)
            } else {
                s4
            };
            (CoordCode { negative, whole, fract }, s5)
        }
    }

    /// A component of a unit vector: the sign, then 11 bits of fraction.
    pub open spec fn read_bitnormal(self) -> (NormalCode, BitStream) {
        let (negative, s1) = self.read_bool();
        (NormalCode { negative, fract: s1.value(11) as u32 }, s1.advance(11))
    }

    /// An angle of `bits` bits.
    pub open spec fn read_bitangle(self, bits: u32) -> (AngleCode, BitStream) {
        (AngleCode { bits, code: self.value(bits as int) as u32 }, self.advance(bits as int))
    }

    /// The 32 bits of a single-precision number.
    pub open spec fn read_bitfloat(self) -> (u32, BitStream) {
        (self.value(32) as u32, self.advance(32))
    }

    /// Three coordinates behind three flags; one whose flag is clear is zero.
    pub open spec fn read_bitvec3coord(self) -> ([CoordCode; 3], BitStream) {
        let (has_x, s1) = self.read_bool();
        let (has_y, s2) = s1.read_bool();
        let (has_z, s3) = s2.read_bool();
        let (x, s4) = if has_x {
            s3.read_bitcoord()
        } else {
            (CoordCode::zero(), s3)
        };
        let (y, s5) = if has_y {
            s4.read_bitcoord()
        } else {
            (CoordCode::zero(), s4)
        };
        let (z, s6) = if has_z {
            s5.read_bitcoord()
        } else {
            (CoordCode::zero(), s5)
        };
        ([x, y, z], s6)
    }

    /// A unit vector: two flags, the components whose flag is set, and the sign of the third.
    pub open spec fn read_bitvec3normal(self) -> (NormalVectorCode, BitStream) {
        let (has_x, s1) = self.read_bool();
        let (has_y, s2) = s1.read_bool();
        let (x, s3) = if has_x {
            (Some(s2.read_bitnormal().0), s2.read_bitnormal().1)
        } else {
            (None, s2)
        };
        let (y, s4) = if has_y {
            (Some(s3.read_bitnormal().0), s3.read_bitnormal().1)
        } else {
            (None, s3)
        };
        let (z_negative, s5) = s4.read_bool();
        (NormalVectorCode { x, y, z_negative }, s5)
    }
}

/// The signed number that the zigzag code `v` stands for.
pub open spec fn zigzag64(v: u64) -> i64 {
    if v % 2 == 0 {
        (v / 2) as i64
    } else {
        (-(v / 2) - 1) as i64
    }
}

/// The signed number that the zigzag code `v` stands for.
pub open spec fn zigzag32(v: u32) -> i32 {
    if v % 2 == 0 {
        (v / 2) as i32
    } else {
        (-(v / 2) - 1) as i32
    }
}

/// A value of `n` bits fits a type of `w` bits.
pub proof fn lemma_value_bound(s: BitStream, n: int, w: int)
    requires
        0 <= n <= w,
    ensures
        s.value(n) < pow2(w as nat),
{
    lemma_bits_at_bound(s.data, s.pos as int, n);
    vstd::arithmetic::power2::lemma_pow2_pos(w as nat);
    if n < w {
        vstd::arithmetic::power2::lemma_pow2_strictly_increases(n as nat, w as nat);
    }
}

/// Reader over a byte slice with a bit cursor.
pub struct BitReader<'a> {
    data: &'a [u8],
    byte: usize,
    bit: u8,
    overflowed: bool,
}

impl<'a> View for BitReader<'a> {
    type V = BitStream;

    closed spec fn view(&self) -> BitStream {
        let pos = 8 * self.byte + self.bit;
        BitStream {
            data: self.data@,
            pos: if pos <= 8 * self.data@.len() {
                pos as nat
            } else {
                8 * self.data@.len()
            },
            overflowed: self.overflowed,
        }
    }
}

impl<'a> BitReader<'a> {
    #[verifier::type_invariant]
    spec fn inv(self) -> bool {
        &&& self.byte <= self.data@.len()
        &&& self.bit < 8
        &&& self.byte == self.data@.len() ==> self.bit == 0
    }

    /// A reader at the first bit of `data`.
    pub fn new(data: &'a [u8]) -> (r: Self)
        ensures
            r@ == (BitStream { data: data@, pos: 0, overflowed: false }),
    {
        BitReader { data, byte: 0, bit: 0, overflowed: false }
    }

    /// Whether some read ran past the end.
    pub fn is_overflowed(&self) -> (r: bool)
        ensures
            r == self@.overflowed,
    {
        self.overflowed
    }

    /// A checkpoint: fails if some read ran past the end.
    pub fn check(&self) -> (r: Result<(), Error>)
        ensures
            r == if self@.overflowed {
                Err::<(), Error>(Error::UnexpectedEnd)
            } else {
                Ok::<(), Error>(())
            },
    {
        if self.overflowed {
            Err(Error::UnexpectedEnd)
        } else {
            Ok(())
        }
    }

    /// The number of whole bytes before the cursor.
    pub fn num_bytes_read(&self) -> (r: usize)
        ensures
            r == self@.byte_cursor(),
    {
        proof {
            use_type_invariant(self);
        }
        self.byte
    }

    /// The position of the cursor within its byte.
    pub fn bit_offset(&self) -> (r: u8)
        ensures
            r == self@.bit_cursor(),
    {
        proof {
            use_type_invariant(self);
        }
        self.bit
    }

    /// Whether `n` bits are left, for `n` up to 64.
    fn has_bits(&self, n: usize) -> (r: bool)
        requires
            n <= 64,
        ensures
            r == self@.fits(n as int),
    {
        proof {
            use_type_invariant(self);
        }
        let need: usize = (self.bit as usize + n + 7) / 8;
        need <= self.data.len() - self.byte
    }

    /// The bit that lies `off` bits after the cursor.
    fn bit_ahead(&self, off: usize) -> (r: u64)
        requires
            off < 64,
            self@.fits(off + 1),
        ensures
            r == bit_at(self@.data, self@.pos + off),
            r <= 1,
    {
        proof {
            use_type_invariant(self);
        }
        let rel: usize = self.bit as usize + off;
        let len: usize = self.data.len();
        assert(self@.pos == 8 * self.byte + self.bit);
        assert(self.byte + rel / 8 < len);
        let idx: usize = self.byte + rel / 8;
        let k: u8 = (rel % 8) as u8;
        proof {
            lemma_bit_of_bound(self.data@[idx as int], k);
        }
        ((self.data[idx] >> k) & 1) as u64
    }

    /// Reads `n` bits as an unsigned number.
    pub fn read_ubit64(&mut self, n: usize) -> (r: u64)
        requires
            n <= 64,
        ensures
            r == old(self)@.value(n as int),
            final(self)@ == old(self)@.advance(n as int),
    {
        proof {
            use_type_invariant(&*self);
        }
        if !self.has_bits(n) {
            *self = BitReader { data: self.data, byte: self.data.len(), bit: 0, overflowed: true };
            return 0;
        }
        let ghost s = self@;
        let mut v: u64 = 0;
        let mut i: usize = n;
        while i > 0
            invariant
                i <= n <= 64,
                self@ == s,
                s.fits(n as int),
                v == bits_at(s.data, s.pos + i, n - i),
            decreases i,
        {
            let b = self.bit_ahead(i - 1);
            proof {
                lemma_bits_at_bound(s.data, s.pos + i, n - i);
                lemma2_to64();
                lemma2_to64_rest();
                lemma_pow2_unfold((n - i + 1) as nat);
                lemma_bits_at_bound(s.data, s.pos + i - 1, n - i + 1);
                if n - i + 1 < 64 {
                    vstd::arithmetic::power2::lemma_pow2_strictly_increases(
                        (n - i + 1) as nat,
                        64,
                    );
                }
            }
            v = 2 * v + b;
            i = i - 1;
        }
        let rel: usize = self.bit as usize + n;
        let len: usize = self.data.len();
        assert(s.pos == 8 * self.byte + self.bit);
        assert(self.byte + rel / 8 <= len);
        *self = BitReader {
            data: self.data,
            byte: self.byte + rel / 8,
            bit: (rel % 8) as u8,
            overflowed: self.overflowed,
        };
        v
    }

    /// Reads `n` bits, at most 32, as an unsigned number.
    pub fn read_ubitlong(&mut self, n: usize) -> (r: u32)
        requires
            n <= 32,
        ensures
            r == old(self)@.value(n as int),
            final(self)@ == old(self)@.advance(n as int),
    {
        proof {
            lemma_value_bound(self@, n as int, 32);
            lemma2_to64();
        }
        self.read_ubit64(n) as u32
    }

    /// Reads one bit as a flag.
    pub fn read_bool(&mut self) -> (r: bool)
        ensures
            (r, final(self)@) == old(self)@.read_bool(),
    {
        self.read_ubit64(1) == 1
    }

    /// Reads eight bits as a byte.
    pub fn read_byte(&mut self) -> (r: u8)
        ensures
            (r, final(self)@) == old(self)@.read_byte(),
    {
        proof {
            lemma_value_bound(self@, 8, 8);
            lemma2_to64();
        }
        self.read_ubit64(8) as u8
    }

    /// Fills `buf` with the next bytes.
    pub fn read_bytes(&mut self, buf: &mut Vec<u8>)
        ensures
            (final(buf)@, final(self)@) == old(self)@.read_bytes(old(buf)@.len()),
            final(buf)@.len() == old(buf)@.len(),
    {
        let ghost s0 = self@;
        let n = buf.len();
        let mut i: usize = 0;
        while i < n
            invariant
                i <= n,
                buf@.len() == n,
                buf@.take(i as int) == s0.read_bytes(i as nat).0,
                self@ == s0.read_bytes(i as nat).1,
            decreases n - i,
        {
            let b = self.read_byte();
            buf.set(i, b);
            assert(buf@.take(i + 1) =~= s0.read_bytes(i as nat).0.push(b));
            i = i + 1;
        }
        assert(buf@.take(n as int) =~= buf@);
    }

    /// Reads `n` bits into the front of `buf`: whole bytes first, then one byte with the bits
    /// that are left. The rest of `buf` keeps what it held.
    pub fn read_bits(&mut self, buf: &mut Vec<u8>, n: usize)
        requires
            n <= 8 * old(buf)@.len(),
        ensures
            final(buf)@.len() == old(buf)@.len(),
            final(buf)@.take((n + 7) / 8) == old(self)@.read_bits(n as nat).0,
            final(buf)@.skip((n + 7) / 8) == old(buf)@.skip((n + 7) / 8),
            final(self)@ == old(self)@.read_bits(n as nat).1,
    {
        let ghost s0 = self@;
        let ghost b0 = buf@;
        let whole = n / 8;
        let mut i: usize = 0;
        while i < whole
            invariant
                i <= whole,
                whole == n / 8,
                n <= 8 * b0.len(),
                buf@.len() == b0.len(),
                buf@.take(i as int) == s0.read_bytes(i as nat).0,
                buf@.skip(i as int) == b0.skip(i as int),
                self@ == s0.read_bytes(i as nat).1,
            decreases whole - i,
        {
            let b = self.read_byte();
            let ghost before = buf@;
            buf.set(i, b);
            assert(buf@.take(i + 1) =~= before.take(i as int).push(b));
            assert(buf@.skip(i + 1) =~= before.skip(i as int).skip(1));
            assert(b0.skip(i + 1) =~= b0.skip(i as int).skip(1));
            i = i + 1;
        }
        let rest = n % 8;
        if rest != 0 {
            proof {
                lemma_value_bound(self@, rest as int, 8);
                lemma2_to64();
            }
            let last = self.read_ubit64(rest) as u8;
            let ghost before = buf@;
            buf.set(whole, last);
            assert(buf@.take(whole + 1) =~= before.take(whole as int).push(last));
            assert(buf@.skip(whole + 1) =~= before.skip(whole as int).skip(1));
            assert(b0.skip(whole + 1) =~= b0.skip(whole as int).skip(1));
        }
    }

    /// Reads a base-128 number of at most `max` bytes whose value fits below `128^max`.
    fn read_base128_exact(&mut self, max: usize) -> (r: (u64, bool))
        requires
            max <= 9,
        ensures
            r.1 ==> forall|more: nat| #[trigger]
                old(self)@.read_base128(max as nat + more) == (r.0 as nat, final(self)@),
            !r.1 ==> forall|more: nat| #[trigger]
                old(self)@.read_base128(max as nat + more) == (
                    (r.0 + pow2(7 * max as nat) * final(self)@.read_base128(more).0) as nat,
                    final(self)@.read_base128(more).1,
                ),
            r.0 < pow2(7 * max as nat),
    {
        let ghost s0 = self@;
        let mut acc: u64 = 0;
        let mut mult: u64 = 1;
        let mut i: usize = 0;
        proof {
            lemma2_to64();
            assert forall|more: nat| #[trigger]
                s0.read_base128(more) == (
                    (0 + pow2(0) * s0.read_base128(more).0) as nat,
                    s0.read_base128(more).1,
                ) by {
                assert(1 * s0.read_base128(more).0 == s0.read_base128(more).0);
            }
        }
        while i < max
            invariant
                i <= max <= 9,
                s0 == old(self)@,
                mult == pow2(7 * i as nat),
                acc < mult,
                forall|more: nat| #[trigger]
                    s0.read_base128(i as nat + more) == (
                        (acc + mult * self@.read_base128(more).0) as nat,
                        self@.read_base128(more).1,
                    ),
            decreases max - i,
        {
            let ghost cur = self@;
            let b = self.read_byte();
            proof {
                lemma_pow2_step7(i as nat);
                lemma_pow2_le_2_63(7 * (i + 1) as nat);
            }
            if b < 128 {
                let ghost total = (acc + mult * b) as nat;
                assert(acc + mult * b < mult * 128) by (nonlinear_arith)
                    requires
                        acc < mult,
                        b < 128,
                ;
                acc = acc + mult * (b as u64);
                proof {
                    lemma_pow2_mono(7 * (i + 1) as nat, 7 * max as nat);
                    assert forall|more: nat| #[trigger]
                        s0.read_base128(max as nat + more) == (total, self@) by {
                        let left = ((max - i) as nat + more) as nat;
                        assert(cur.read_base128(left) == (b as nat, self@));
                        assert(s0.read_base128(i as nat + left) == (total, self@));
                        assert(i as nat + left == max as nat + more);
                    }
                }
                return (acc, true);
            }
            let ghost acc0 = acc;
            assert(acc + mult * (b - 128) < mult * 128) by (nonlinear_arith)
                requires
                    acc < mult,
                    128 <= b < 256,
            ;
            acc = acc + mult * ((b - 128) as u64);
            proof {
                assert forall|more: nat| #[trigger]
                    s0.read_base128((i + 1) as nat + more) == (
                        (acc + (mult * 128) * self@.read_base128(more).0) as nat,
                        self@.read_base128(more).1,
                    ) by {
                    let rest = self@.read_base128(more).0;
                    assert(cur.read_base128(more + 1) == (
                        ((b - 128) + 128 * rest) as nat,
                        self@.read_base128(more).1,
                    ));
                    assert(s0.read_base128(i as nat + (more + 1)) == (
                        (acc0 + mult * cur.read_base128(more + 1).0) as nat,
                        cur.read_base128(more + 1).1,
                    ));
                    assert((i + 1) as nat + more == i as nat + (more + 1));
                    assert(acc0 + mult * ((b - 128) + 128 * rest) == acc0 + mult * (b - 128) + (mult
                        * 128) * rest) by (nonlinear_arith);
                }
            }
            mult = mult * 128;
            i = i + 1;
        }
        (acc, false)
    }

    /// Reads an unsigned varint of at most ten bytes, truncated to 64 bits.
    pub fn read_uvarint64(&mut self) -> (r: u64)
        ensures
            (r, final(self)@) == old(self)@.read_uvarint64(),
    {
        proof {
            lemma_pow2_le_2_63(63);
            lemma2_to64_rest();
        }
        let (acc, done) = self.read_base128_exact(9);
        if done {
            assert(old(self)@.read_base128(9nat + 1) == (acc as nat, self@));
            return acc;
        }
        let ghost cur = self@;
        let b = self.read_byte();
        let p: u64 = (b % 128) as u64;
        proof {
            assert(cur.read_base128(0) == (0nat, cur));
            assert(self@.read_base128(0) == (0nat, self@));
            assert(cur.read_base128(1) == (p as nat, self@));
            assert(old(self)@.read_base128(9nat + 1) == (
                (acc + pow2(63) * cur.read_base128(1).0) as nat,
                self@,
            ));
        }
        acc + (p % 2) * 0x8000_0000_0000_0000
    }

    /// Reads an unsigned varint of at most five bytes, truncated to 32 bits.
    pub fn read_uvarint32(&mut self) -> (r: u32)
        ensures
            (r, final(self)@) == old(self)@.read_uvarint32(),
    {
        proof {
            lemma2_to64();
        }
        let (acc, done) = self.read_base128_exact(4);
        if done {
            assert(old(self)@.read_base128(4nat + 1) == (acc as nat, self@));
            return acc as u32;
        }
        let ghost cur = self@;
        let b = self.read_byte();
        let p: u64 = (b % 128) as u64;
        proof {
            assert(cur.read_base128(0) == (0nat, cur));
            assert(self@.read_base128(0) == (0nat, self@));
            assert(cur.read_base128(1) == (p as nat, self@));
            assert(old(self)@.read_base128(4nat + 1) == (
                (acc + pow2(28) * cur.read_base128(1).0) as nat,
                self@,
            ));
        }
        (acc + (p % 16) * 0x1000_0000) as u32
    }

    /// Reads a zigzag-coded signed varint of at most ten bytes.
    pub fn read_varint64(&mut self) -> (r: i64)
        ensures
            (r, final(self)@) == old(self)@.read_varint64(),
    {
        let v = self.read_uvarint64();
        if v % 2 == 0 {
            (v / 2) as i64
        } else {
            -((v / 2) as i64) - 1
        }
    }

    /// Reads a zigzag-coded signed varint of at most five bytes.
    pub fn read_varint32(&mut self) -> (r: i32)
        ensures
            (r, final(self)@) == old(self)@.read_varint32(),
    {
        let v = self.read_uvarint32();
        if v % 2 == 0 {
            (v / 2) as i32
        } else {
            -((v / 2) as i32) - 1
        }
    }

    /// Reads a number with a two-bit width selector.
    pub fn read_ubitvar(&mut self) -> (r: u32)
        ensures
            (r, final(self)@) == old(self)@.read_ubitvar(),
    {
        proof {
            lemma2_to64();
        }
        let sel = self.read_ubitlong(2);
        proof {
            lemma_value_bound(self@, 4, 4);
            lemma_value_bound(self@, 8, 8);
            lemma_value_bound(self@, 12, 12);
        }
        if sel == 0 {
            self.read_ubitlong(4)
        } else if sel == 1 {
            16 + self.read_ubitlong(8)
        } else if sel == 2 {
            272 + self.read_ubitlong(12)
        } else {
            self.read_ubitlong(32)
        }
    }

    /// Reads a number in the width-prefixed form of the field-path code.
    pub fn read_ubitvarfp(&mut self) -> (r: u32)
        ensures
            (r, final(self)@) == old(self)@.read_ubitvarfp(),
    {
        if self.read_bool() {
            self.read_ubitlong(2)
        } else if self.read_bool() {
            self.read_ubitlong(4)
        } else if self.read_bool() {
            self.read_ubitlong(10)
        } else if self.read_bool() {
            self.read_ubitlong(17)
        } else {
            self.read_ubitlong(31)
        }
    }

    /// Reads a terminated string into the front of `buf` and returns its length. At most
    /// `buf.len() - 1` bytes are kept; the bytes beyond that are consumed and dropped. A zero
    /// byte is written after the kept bytes, and the rest of `buf` keeps what it held.
    pub fn read_string(&mut self, buf: &mut Vec<u8>, line: bool) -> (n: usize)
        requires
            old(buf)@.len() >= 1,
        ensures
            final(self)@ == old(self)@.read_cstr(line).1,
            n == kept_len(old(self)@.read_cstr(line).0, old(buf)@.len()),
            final(buf)@.len() == old(buf)@.len(),
            final(buf)@.take(n as int) == old(self)@.read_cstr(line).0.take(n as int),
            final(buf)@[n as int] == 0,
            final(buf)@.skip(n + 1) == old(buf)@.skip(n + 1),
    {
        let ghost s0 = self@;
        let ghost b0 = buf@;
        let ghost mut seen: Seq<u8> = Seq::empty();
        let cap: usize = buf.len() - 1;
        let mut n: usize = 0;
        proof {
            assert(seen + s0.read_cstr(line).0 =~= s0.read_cstr(line).0);
        }
        loop
            invariant_except_break
                s0.read_cstr(line) == (seen + self@.read_cstr(line).0, self@.read_cstr(line).1),
            invariant
                s0 == old(self)@,
                b0 == old(buf)@,
                cap == b0.len() - 1,
                buf@.len() == b0.len(),
                n == kept_len(seen, b0.len()),
                buf@.take(n as int) == seen.take(n as int),
                buf@.skip(n as int) == b0.skip(n as int),
            ensures
                self@ == s0.read_cstr(line).1,
                seen == s0.read_cstr(line).0,
                n == kept_len(seen, b0.len()),
                buf@.len() == b0.len(),
                buf@.take(n as int) == seen.take(n as int),
                buf@.skip(n as int) == b0.skip(n as int),
                cap == b0.len() - 1,
            decreases self@.remaining(),
        {
            let ghost cur = self@;
            proof {
                lemma_value_bound(cur, 8, 8);
                lemma2_to64();
                if cur.fits(8) {
                } else {
                    assert(cur.value(8) == 0);
                }
            }
            let b = self.read_byte();
            if b == 0 || (line && b == 10) {
                proof {
                    assert(cur.read_cstr(line) == (Seq::<u8>::empty(), self@));
                    assert(seen + Seq::<u8>::empty() =~= seen);
                }
                break ;
            }
            proof {
                assert(cur.fits(8));
                let rest = self@.read_cstr(line).0;
                assert(cur.read_cstr(line) == (seq![b] + rest, self@.read_cstr(line).1));
                assert(seen + (seq![b] + rest) =~= seen.push(b) + rest);
            }
            if n < cap {
                let ghost before = buf@;
                buf.set(n, b);
                proof {
                    assert(seen.len() == n);
                    assert(seen.take(n as int) =~= seen);
                    assert(buf@.take(n + 1) =~= before.take(n as int).push(b));
                    assert(seen.push(b).take(n + 1) =~= seen.push(b));
                    assert(buf@.skip(n + 1) =~= before.skip(n as int).skip(1));
                    assert(b0.skip(n + 1) =~= b0.skip(n as int).skip(1));
                }
                n = n + 1;
            } else {
                proof {
                    assert(seen.push(b).take(n as int) =~= seen.take(n as int));
                }
            }
            proof {
                seen = seen.push(b);
            }
        }
        let ghost before = buf@;
        buf.set(n, 0);
        proof {
            assert(buf@.take(n as int) =~= before.take(n as int));
            assert(buf@.skip(n + 1) =~= before.skip(n as int).skip(1));
            assert(b0.skip(n + 1) =~= b0.skip(n as int).skip(1));
        }
        n
    }

    /// Reads a world coordinate.
    pub fn read_bitcoord(&mut self) -> (r: CoordCode)
        ensures
            (r, final(self)@) == old(self)@.read_bitcoord(),
    {
        let has_whole = self.read_bool();
        let has_fract = self.read_bool();
        if !has_whole && !has_fract {
            return CoordCode { negative: false, whole: 0, fract: 0 };
        }
        let negative = self.read_bool();
        let mut whole: u32 = 0;
        if has_whole {
            proof {
                lemma_value_bound(self@, 14, 14);
                lemma2_to64();
            }
            whole = self.read_ubitlong(14) + 1;
        }
        let mut fract: u32 = 0;
        if has_fract {
            fract = self.read_ubitlong(5);
        }
        CoordCode { negative, whole, fract }
    }

    /// Reads a component of a unit vector.
    pub fn read_bitnormal(&mut self) -> (r: NormalCode)
        ensures
            (r, final(self)@) == old(self)@.read_bitnormal(),
    {
        let negative = self.read_bool();
        let fract = self.read_ubitlong(11);
        NormalCode { negative, fract }
    }

    /// Reads an angle of `bits` bits.
    pub fn read_bitangle(&mut self, bits: u32) -> (r: AngleCode)
        requires
            bits <= 32,
        ensures
            (r, final(self)@) == old(self)@.read_bitangle(bits),
    {
        let code = self.read_ubitlong(bits as usize);
        AngleCode { bits, code }
    }

    /// Reads the bit pattern of a single-precision number.
    pub fn read_bitfloat(&mut self) -> (r: u32)
        ensures
            (r, final(self)@) == old(self)@.read_bitfloat(),
    {
        self.read_ubitlong(32)
    }

    /// Reads three coordinates behind three flags.
    pub fn read_bitvec3coord(&mut self) -> (r: [CoordCode; 3])
        ensures
            (r, final(self)@) == old(self)@.read_bitvec3coord(),
    {
        let has_x = self.read_bool();
        let has_y = self.read_bool();
        let has_z = self.read_bool();
        let zero = CoordCode { negative: false, whole: 0, fract: 0 };
        let x = if has_x {
            self.read_bitcoord()
        } else {
            zero
        };
        let y = if has_y {
            self.read_bitcoord()
        } else {
            zero
        };
        let z = if has_z {
            self.read_bitcoord()
        } else {
            zero
        };
        [x, y, z]
    }

    /// Reads a unit vector.
    pub fn read_bitvec3normal(&mut self) -> (r: NormalVectorCode)
        ensures
            (r, final(self)@) == old(self)@.read_bitvec3normal(),
    {
        let has_x = self.read_bool();
        let has_y = self.read_bool();
        let x = if has_x {
            Some(self.read_bitnormal())
        } else {
            None
        };
        let y = if has_y {
            Some(self.read_bitnormal())
        } else {
            None
        };
        let z_negative = self.read_bool();
        NormalVectorCode { x, y, z_negative }
    }
}

/// A base-128 number is read by reads.
pub proof fn lemma_base128_follows(s: BitStream, max: nat)
    ensures
        s.read_base128(max).1.follows(s),
    decreases max,
{
    if max > 0 {
        let (b, s1) = s.read_byte();
        if b >= 128 {
            lemma_base128_follows(s1, (max - 1) as nat);
        }
    }
}

/// The bits of a byte, least significant first, form the byte.
proof fn lemma_byte_from_bits(b: u8)
    ensures
        b == bit_of(b, 0) + 2 * bit_of(b, 1) + 4 * bit_of(b, 2) + 8 * bit_of(b, 3) + 16 * bit_of(
            b,
            4,
        ) + 32 * bit_of(b, 5) + 64 * bit_of(b, 6) + 128 * bit_of(b, 7),
{
    assert(b == ((b >> 0u8) & 1) + 2 * ((b >> 1u8) & 1) + 4 * ((b >> 2u8) & 1) + 8 * ((b >> 3u8)
        & 1) + 16 * ((b >> 4u8) & 1) + 32 * ((b >> 5u8) & 1) + 64 * ((b >> 6u8) & 1) + 128 * ((b
        >> 7u8) & 1)) by (bit_vector);
}

/// Whether the stream stands at a byte boundary with the bytes `bytes` in front of it.
pub open spec fn holds_bytes(s: BitStream, bytes: Seq<u8>) -> bool {
    &&& s.pos % 8 == 0
    &&& s.pos / 8 + bytes.len() <= s.data.len()
    &&& s.data.subrange((s.pos / 8) as int, (s.pos / 8 + bytes.len()) as int) == bytes
}

/// At a byte boundary a read of a byte gives the byte of the data and moves on by eight
/// bits.
pub proof fn lemma_read_byte_aligned(s: BitStream)
    requires
        s.pos % 8 == 0,
        s.pos / 8 < s.data.len(),
    ensures
        s.read_byte() == (s.data[(s.pos / 8) as int], BitStream { pos: s.pos + 8, ..s }),
{
    let k = (s.pos / 8) as int;
    let b = s.data[k];
    reveal_with_fuel(bits_at, 9);
    lemma_byte_from_bits(b);
    let p = s.pos as int;
    assert(bit_at(s.data, p) == bit_of(b, 0));
    assert(bit_at(s.data, p + 1) == bit_of(b, 1));
    assert(bit_at(s.data, p + 2) == bit_of(b, 2));
    assert(bit_at(s.data, p + 3) == bit_of(b, 3));
    assert(bit_at(s.data, p + 4) == bit_of(b, 4));
    assert(bit_at(s.data, p + 5) == bit_of(b, 5));
    assert(bit_at(s.data, p + 6) == bit_of(b, 6));
    assert(bit_at(s.data, p + 7) == bit_of(b, 7));
    assert(bits_at(s.data, p, 8) == b);
}

/// A stream that stands in front of the varint of `v` gives `v` back as a base-128 number
/// and moves on by the bytes of the varint.
pub proof fn lemma_read_base128_encoded(s: BitStream, v: nat, max: nat)
    requires
        holds_bytes(s, encoded(v)),
        encoded(v).len() <= max,
    ensures
        s.read_base128(max) == (v, BitStream { pos: s.pos + 8 * encoded(v).len(), ..s }),
    decreases v,
{
    let bytes = encoded(v);
    let k = (s.pos / 8) as int;
    assert(s.data[k] == bytes[0]) by {
        assert(s.data.subrange(k, k + bytes.len())[0] == s.data[k]);
    }
    lemma_read_byte_aligned(s);
    if v >= 128 {
        let s1 = s.read_byte().1;
        let rest = encoded(v / 128);
        assert(bytes.skip(1) =~= rest);
        assert(s1.data.subrange(k + 1, k + 1 + rest.len()) =~= bytes.skip(1));
        lemma_read_base128_encoded(s1, v / 128, (max - 1) as nat);
    }
}

/// Round trip on the stream: a stream that stands at a byte boundary in front of the varint
/// of `v` gives `v` back as an unsigned varint and moves on by the bytes of the varint,
/// which are a seventh of the bits of `v`, rounded up and at least one.
pub proof fn lemma_uvarint64_round_trip(s: BitStream, v: u64)
    requires
        holds_bytes(s, encoded(v as nat)),
    ensures
        s.read_uvarint64() == (
            v,
            BitStream { pos: s.pos + 8 * len_for_bits(bit_len(v as nat)), ..s },
        ),
        1 <= len_for_bits(bit_len(v as nat)) <= 10,
{
    lemma_varint_round_trip(v);
    lemma_read_base128_encoded(s, v as nat, 10);
}

/// Round trip on the stream for signed numbers: a stream that stands at a byte boundary in
/// front of the varint of the folded `v` gives `v` back as a signed varint.
pub proof fn lemma_varint64_round_trip(s: BitStream, v: i64)
    requires
        holds_bytes(s, encoded(zigzag(v) as nat)),
    ensures
        s.read_varint64() == (
            v,
            BitStream { pos: s.pos + 8 * len_for_bits(bit_len(zigzag(v) as nat)), ..s },
        ),
        1 <= len_for_bits(bit_len(zigzag(v) as nat)) <= 10,
{
    lemma_uvarint64_round_trip(s, zigzag(v));
}

/// The sum of the widths `ws`.
pub open spec fn total_width(ws: Seq<nat>) -> nat
    decreases ws.len(),
{
    if ws.len() == 0 {
        0
    } else {
        total_width(ws.drop_last()) + ws.last()
    }
}

/// The stream after reads of the widths `ws`, one after the other.
pub open spec fn after_reads(s: BitStream, ws: Seq<nat>) -> BitStream
    decreases ws.len(),
{
    if ws.len() == 0 {
        s
    } else {
        after_reads(s, ws.drop_last()).advance(ws.last() as int)
    }
}

/// Reads that stay within the stream move the cursor by the sum of their widths and leave
/// the overflow flag as it was.
pub proof fn lemma_reads_add_up(s: BitStream, ws: Seq<nat>)
    requires
        s.fits(total_width(ws) as int),
    ensures
        after_reads(s, ws) == (BitStream { pos: s.pos + total_width(ws), ..s }),
    decreases ws.len(),
{
    if ws.len() > 0 {
        lemma_reads_add_up(s, ws.drop_last());
    }
}

/// Alignment: reads of `8 * k` bits in all, started at a byte boundary of a stream that holds
/// them, end at the byte boundary `k` bytes further on, with the bit cursor at 0. From the
/// start of the stream the byte cursor is then `k`.
pub proof fn lemma_reads_keep_alignment(s: BitStream, ws: Seq<nat>, k: nat)
    requires
        s.bit_cursor() == 0,
        total_width(ws) == 8 * k,
        s.fits(8 * k as int),
    ensures
        after_reads(s, ws).byte_cursor() == s.byte_cursor() + k,
        after_reads(s, ws).bit_cursor() == 0,
        after_reads(s, ws).overflowed == s.overflowed,
{
    lemma_reads_add_up(s, ws);
}

/// How many bytes of a string of `chars` a buffer of `buf_len` bytes keeps: one byte is left
/// for the terminator.
pub open spec fn kept_len(chars: Seq<u8>, buf_len: nat) -> nat {
    if chars.len() < buf_len {
        chars.len()
    } else {
        (buf_len - 1) as nat
    }
}

/// Seven more bits multiply a power of two by 128.
proof fn lemma_pow2_step7(k: nat)
    ensures
        pow2(7 * (k + 1)) == pow2(7 * k) * 128,
{
    vstd::arithmetic::power2::lemma_pow2_adds(7 * k, 7);
    lemma2_to64();
}

proof fn lemma_pow2_mono(a: nat, b: nat)
    requires
        a <= b,
    ensures
        pow2(a) <= pow2(b),
{
    if a < b {
        vstd::arithmetic::power2::lemma_pow2_strictly_increases(a, b);
    }
}

proof fn lemma_pow2_le_2_63(a: nat)
    requires
        a <= 63,
    ensures
        pow2(a) <= 0x8000_0000_0000_0000,
{
    lemma_pow2_mono(a, 63);
    lemma2_to64_rest();
}

} // verus!
