//! Field paths: the position of a leaf in the schema, and the code that sends a batch of them.
//!
//! A batch is a run of operations, each named by a word of a prefix code and followed by its
//! operands. The operations edit one path, which starts as the single index `-1` (held as
//! 255, since indices are bytes that wrap around). After each operation but the last the path
//! is one path of the batch; the last operation ends the batch.

use crate::bitreader::{lemma_base128_follows, BitReader, BitStream};
use vstd::arithmetic::power2::{lemma2_to64, lemma_pow2_strictly_increases, lemma_pow2_unfold, pow2};
use vstd::prelude::*;

verus! {

/// The most levels that a path can have.
pub const MAX_DEPTH: usize = 7;

/// The number of paths that room is made for before a batch is read.
pub const SCRATCH_PATHS: usize = 4096;

/// The longest word of the prefix code, in bits.
pub const MAX_CODE_BITS: u32 = 17;

/// Why a batch of paths could not be read.
#[derive(Debug, Clone, Copy, PartialEq, Eq, Structural)]
pub enum Error {
    /// The stream ended before the operation that ends the batch.
    TruncatedFieldPath,
    /// An operation asked for more than seven levels, for fewer than one, or for the index
    /// before the last of a path with one level; or no operation has the word that was read.
    MalformedFieldPath,
}

/// The operations of the code.
#[derive(Debug, Clone, Copy, PartialEq, Eq, Structural)]
pub enum FieldOp {
    /// The last index grows by one.
    PlusOne,
    /// The last index grows by two.
    PlusTwo,
    /// The last index grows by three.
    PlusThree,
    /// The last index grows by four.
    PlusFour,
    /// The last index grows by a sent number plus five.
    PlusN,
    /// A new level starts at index zero.
    PushOneLeftDeltaZeroRightZero,
    /// A new level starts at a sent index.
    PushOneLeftDeltaZeroRightNonZero,
    /// The last index grows by one; a new level starts at index zero.
    PushOneLeftDeltaOneRightZero,
    /// The last index grows by one; a new level starts at a sent index.
    PushOneLeftDeltaOneRightNonZero,
    /// The last index grows by a sent number; a new level starts at index zero.
    PushOneLeftDeltaNRightZero,
    /// The last index grows by a sent number plus two; a new level starts at a sent index plus one.
    PushOneLeftDeltaNRightNonZero,
    /// As before, with three bits for each number.
    PushOneLeftDeltaNRightNonZeroPack6Bits,
    /// As before, with four bits for each number.
    PushOneLeftDeltaNRightNonZeroPack8Bits,
    /// Two new levels start at sent indices.
    PushTwoLeftDeltaZero,
    /// Two new levels start at indices of five bits.
    PushTwoPack5LeftDeltaZero,
    /// Three new levels start at sent indices.
    PushThreeLeftDeltaZero,
    /// Three new levels start at indices of five bits.
    PushThreePack5LeftDeltaZero,
    /// The last index grows by one; two new levels start at sent indices.
    PushTwoLeftDeltaOne,
    /// The last index grows by one; two new levels start at indices of five bits.
    PushTwoPack5LeftDeltaOne,
    /// The last index grows by one; three new levels start at sent indices.
    PushThreeLeftDeltaOne,
    /// The last index grows by one; three new levels start at indices of five bits.
    PushThreePack5LeftDeltaOne,
    /// The last index grows by a sent number plus two; two new levels start at sent indices.
    PushTwoLeftDeltaN,
    /// The last index grows by a sent number plus two; two new levels start at indices of five bits.
    PushTwoPack5LeftDeltaN,
    /// The last index grows by a sent number plus two; three new levels start at sent indices.
    PushThreeLeftDeltaN,
    /// The last index grows by a sent number plus two; three new levels start at indices of five bits.
    PushThreePack5LeftDeltaN,
    /// A count is sent, the last index grows by a sent number, and that many new levels start at sent indices.
    PushN,
    /// Each index whose flag is set grows by a sent signed number plus one; then a count is sent and that many new levels start at sent indices.
    PushNAndNonTopological,
    /// One level ends; the last index grows by one.
    PopOnePlusOne,
    /// One level ends; the last index grows by a sent number plus one.
    PopOnePlusN,
    /// All levels but the first end; the index grows by one.
    PopAllButOnePlusOne,
    /// All levels but the first end; the index grows by a sent number plus one.
    PopAllButOnePlusN,
    /// As before, with three bits for the number.
    PopAllButOnePlusNPack3Bits,
    /// As before, with six bits for the number.
    PopAllButOnePlusNPack6Bits,
    /// A sent number of levels end; the last index grows by one.
    PopNPlusOne,
    /// A sent number of levels end; the last index grows by a sent signed number.
    PopNPlusN,
    /// A sent number of levels end; each index whose flag is set grows by a sent signed number.
    PopNAndNonTopographical,
    /// Each index whose flag is set grows by a sent signed number.
    NonTopoComplex,
    /// The index before the last grows by one.
    NonTopoPenultimatePlusOne,
    /// Each index whose flag is set grows by a number of four bits less seven.
    NonTopoComplexPack4Bits,
    /// The batch of paths ends.
    FieldPathEncodeFinish,
}

/// The word of each operation: its length in bits and its bits as a number, first bit
/// highest.
pub open spec fn code_of(op: FieldOp) -> (int, int) {
    match op {
        FieldOp::PlusOne => (1, 0b0),
        FieldOp::PlusTwo => (4, 0b1110),
        FieldOp::PlusThree => (6, 0b110010),
        FieldOp::PlusFour => (8, 0b11011111),
        FieldOp::PlusN => (5, 0b11010),
        FieldOp::PushOneLeftDeltaZeroRightZero => (12, 0b110110001101),
        FieldOp::PushOneLeftDeltaZeroRightNonZero => (15, 0b110110001100101),
        FieldOp::PushOneLeftDeltaOneRightZero => (8, 0b11011010),
        FieldOp::PushOneLeftDeltaOneRightNonZero => (5, 0b11000),
        FieldOp::PushOneLeftDeltaNRightZero => (8, 0b11011100),
        FieldOp::PushOneLeftDeltaNRightNonZero => (8, 0b11011001),
        FieldOp::PushOneLeftDeltaNRightNonZeroPack6Bits => (4, 0b1111),
        FieldOp::PushOneLeftDeltaNRightNonZeroPack8Bits => (9, 0b110110110),
        FieldOp::PushTwoLeftDeltaZero => (16, 0b1101100011001000),
        FieldOp::PushTwoPack5LeftDeltaZero => (17, 0b11011000110010011),
        FieldOp::PushThreeLeftDeltaZero => (17, 0b11011000110010010),
        FieldOp::PushThreePack5LeftDeltaZero => (17, 0b11011000110011101),
        FieldOp::PushTwoLeftDeltaOne => (17, 0b11011000110011100),
        FieldOp::PushTwoPack5LeftDeltaOne => (17, 0b11011000110011111),
        FieldOp::PushThreeLeftDeltaOne => (17, 0b11011000110011110),
        FieldOp::PushThreePack5LeftDeltaOne => (17, 0b11011000110011001),
        FieldOp::PushTwoLeftDeltaN => (17, 0b11011000110011000),
        FieldOp::PushTwoPack5LeftDeltaN => (17, 0b11011000110011011),
        FieldOp::PushThreeLeftDeltaN => (17, 0b11011000110011010),
        FieldOp::PushThreePack5LeftDeltaN => (16, 0b1101100011000101),
        FieldOp::PushN => (16, 0b1101100011000100),
        FieldOp::PushNAndNonTopological => (9, 0b110111011),
        FieldOp::PopOnePlusOne => (15, 0b110110001100001),
        FieldOp::PopOnePlusN => (16, 0b1101100011000111),
        FieldOp::PopAllButOnePlusOne => (6, 0b110011),
        FieldOp::PopAllButOnePlusN => (9, 0b110110000),
        FieldOp::PopAllButOnePlusNPack3Bits => (9, 0b110111010),
        FieldOp::PopAllButOnePlusNPack6Bits => (8, 0b11011110),
        FieldOp::PopNPlusOne => (16, 0b1101100011000110),
        FieldOp::PopNPlusN => (16, 0b1101100011000001),
        FieldOp::PopNAndNonTopographical => (16, 0b1101100011000000),
        FieldOp::NonTopoComplex => (11, 0b11011000111),
        FieldOp::NonTopoPenultimatePlusOne => (9, 0b110110111),
        FieldOp::NonTopoComplexPack4Bits => (10, 0b1101100010),
        FieldOp::FieldPathEncodeFinish => (2, 0b10),
    }
}

/// The operation whose word has `len` bits and the value `code`, if there is one.
pub open spec fn op_for(len: int, code: int) -> Option<FieldOp> {
    if exists|op: FieldOp| code_of(op) == (len, code) {
        Some(choose|op: FieldOp| code_of(op) == (len, code))
    } else {
        None
    }
}

/// No two operations share a word.
pub proof fn lemma_codes_differ(a: FieldOp, b: FieldOp)
    requires
        code_of(a) == code_of(b),
    ensures
        a == b,
{
}

/// Finds the operation whose word has `len` bits and the value `code`.
pub fn lookup_op(len: u32, code: u32) -> (r: Option<FieldOp>)
    ensures
        r == op_for(len as int, code as int),
{
    let r = match len {
        1 => match code {
            0b0 => Some(FieldOp::PlusOne),
            _ => None,
        },
        2 => match code {
            0b10 => Some(FieldOp::FieldPathEncodeFinish),
            _ => None,
        },
        4 => match code {
            0b1110 => Some(FieldOp::PlusTwo),
            0b1111 => Some(FieldOp::PushOneLeftDeltaNRightNonZeroPack6Bits),
            _ => None,
        },
        5 => match code {
            0b11000 => Some(FieldOp::PushOneLeftDeltaOneRightNonZero),
            0b11010 => Some(FieldOp::PlusN),
            _ => None,
        },
        6 => match code {
            0b110010 => Some(FieldOp::PlusThree),
            0b110011 => Some(FieldOp::PopAllButOnePlusOne),
            _ => None,
        },
        8 => match code {
            0b11011001 => Some(FieldOp::PushOneLeftDeltaNRightNonZero),
            0b11011010 => Some(FieldOp::PushOneLeftDeltaOneRightZero),
            0b11011100 => Some(FieldOp::PushOneLeftDeltaNRightZero),
            0b11011110 => Some(FieldOp::PopAllButOnePlusNPack6Bits),
            0b11011111 => Some(FieldOp::PlusFour),
            _ => None,
        },
        9 => match code {
            0b110110000 => Some(FieldOp::PopAllButOnePlusN),
            0b110110110 => Some(FieldOp::PushOneLeftDeltaNRightNonZeroPack8Bits),
            0b110110111 => Some(FieldOp::NonTopoPenultimatePlusOne),
            0b110111010 => Some(FieldOp::PopAllButOnePlusNPack3Bits),
            0b110111011 => Some(FieldOp::PushNAndNonTopological),
            _ => None,
        },
        10 => match code {
            0b1101100010 => Some(FieldOp::NonTopoComplexPack4Bits),
            _ => None,
        },
        11 => match code {
            0b11011000111 => Some(FieldOp::NonTopoComplex),
            _ => None,
        },
        12 => match code {
            0b110110001101 => Some(FieldOp::PushOneLeftDeltaZeroRightZero),
            _ => None,
        },
        15 => match code {
            0b110110001100001 => Some(FieldOp::PopOnePlusOne),
            0b110110001100101 => Some(FieldOp::PushOneLeftDeltaZeroRightNonZero),
            _ => None,
        },
        16 => match code {
            0b1101100011000000 => Some(FieldOp::PopNAndNonTopographical),
            0b1101100011000001 => Some(FieldOp::PopNPlusN),
            0b1101100011000100 => Some(FieldOp::PushN),
            0b1101100011000101 => Some(FieldOp::PushThreePack5LeftDeltaN),
            0b1101100011000110 => Some(FieldOp::PopNPlusOne),
            0b1101100011000111 => Some(FieldOp::PopOnePlusN),
            0b1101100011001000 => Some(FieldOp::PushTwoLeftDeltaZero),
            _ => None,
        },
        17 => match code {
            0b11011000110010010 => Some(FieldOp::PushThreeLeftDeltaZero),
            0b11011000110010011 => Some(FieldOp::PushTwoPack5LeftDeltaZero),
            0b11011000110011000 => Some(FieldOp::PushTwoLeftDeltaN),
            0b11011000110011001 => Some(FieldOp::PushThreePack5LeftDeltaOne),
            0b11011000110011010 => Some(FieldOp::PushThreeLeftDeltaN),
            0b11011000110011011 => Some(FieldOp::PushTwoPack5LeftDeltaN),
            0b11011000110011100 => Some(FieldOp::PushTwoLeftDeltaOne),
            0b11011000110011101 => Some(FieldOp::PushThreePack5LeftDeltaZero),
            0b11011000110011110 => Some(FieldOp::PushThreeLeftDeltaOne),
            0b11011000110011111 => Some(FieldOp::PushTwoPack5LeftDeltaOne),
            _ => None,
        },
        _ => None,
    };
    proof {
        match r {
            Some(op) => {
                assert(code_of(op) == (len as int, code as int));
                let other = choose|o: FieldOp| code_of(o) == (len as int, code as int);
                lemma_codes_differ(op, other);
            },
            None => {
                assert forall|op: FieldOp| code_of(op) != (len as int, code as int) by {
                    lemma_word_shape(op);
                }
            },
        }
    }
    r
}

/// The shape of the words: each has from 1 to 17 bits.
pub proof fn lemma_word_shape(op: FieldOp)
    ensures
        1 <= code_of(op).0 <= MAX_CODE_BITS,
        0 <= code_of(op).1 < 0x2_0000,
{
}

/// Two to the `k`, for the lengths of words.
pub open spec fn two_to(k: int) -> int {
    if k <= 0 {
        1
    } else if k == 1 {
        2
    } else if k == 2 {
        4
    } else if k == 3 {
        8
    } else if k == 4 {
        16
    } else if k == 5 {
        32
    } else if k == 6 {
        64
    } else if k == 7 {
        128
    } else if k == 8 {
        256
    } else if k == 9 {
        512
    } else if k == 10 {
        1024
    } else if k == 11 {
        2048
    } else if k == 12 {
        4096
    } else if k == 13 {
        8192
    } else if k == 14 {
        16384
    } else if k == 15 {
        32768
    } else if k == 16 {
        65536
    } else {
        131072
    }
}

/// Whether the word `a` is the start of the word `b`: `b` is at least as long, and its
/// first bits are those of `a`.
pub open spec fn starts_with(b: (int, int), a: (int, int)) -> bool {
    a.0 <= b.0 && a.1 * two_to(b.0 - a.0) <= b.1 < (a.1 + 1) * two_to(b.0 - a.0)
}

/// The words are a prefix code: no word is the start of the word of another operation.
pub proof fn lemma_prefix_code(a: FieldOp, b: FieldOp)
    requires
        a != b,
    ensures
        !starts_with(code_of(b), code_of(a)),
{
}

/// Where an operand comes from, and what is added to it.
#[derive(Debug, Clone, Copy, PartialEq, Eq, Structural)]
pub enum Num {
    /// The number itself.
    Const(i64),
    /// A width-prefixed number of the field-path code, plus the given number.
    Fp(i64),
    /// A number of the given count of bits, plus the given number.
    Bits(usize, i64),
    /// A number with a two-bit width selector, plus the given number.
    UBitVar(i64),
    /// A signed varint of at most five bytes, plus the given number.
    VarInt32(i64),
}

impl Num {
    /// Whether the operand can be read: at most 32 bits, and a small addend.
    pub open spec fn wf(self) -> bool {
        match self {
            Num::Const(c) => -0x1_0000 <= c <= 0x1_0000,
            Num::Fp(e) => -0x1_0000 <= e <= 0x1_0000,
            Num::Bits(n, e) => n <= 32 && -0x1_0000 <= e <= 0x1_0000,
            Num::UBitVar(e) => -0x1_0000 <= e <= 0x1_0000,
            Num::VarInt32(e) => -0x1_0000 <= e <= 0x1_0000,
        }
    }

    /// The operand at the front of `s`, and the stream behind it.
    pub open spec fn read(self, s: BitStream) -> (int, BitStream) {
        match self {
            Num::Const(c) => (c as int, s),
            Num::Fp(e) => (s.read_ubitvarfp().0 + e, s.read_ubitvarfp().1),
            Num::Bits(n, e) => (s.value(n as int) + e, s.advance(n as int)),
            Num::UBitVar(e) => (s.read_ubitvar().0 + e, s.read_ubitvar().1),
            Num::VarInt32(e) => (s.read_varint32().0 + e, s.read_varint32().1),
        }
    }

    /// Reads the operand.
    pub fn fetch(self, br: &mut BitReader) -> (r: i64)
        requires
            self.wf(),
        ensures
            (r as int, final(br)@) == self.read(old(br)@),
            -0x1_0000_0000 <= r <= 0x1_0001_0000,
    {
        match self {
            Num::Const(c) => c,
            Num::Fp(e) => br.read_ubitvarfp() as i64 + e,
            Num::Bits(n, e) => br.read_ubitlong(n) as i64 + e,
            Num::UBitVar(e) => br.read_ubitvar() as i64 + e,
            Num::VarInt32(e) => br.read_varint32() as i64 + e,
        }
    }
}

/// The byte that the index `x` is held as: `x` modulo 256.
pub open spec fn wrap8(x: int) -> u8 {
    (x % 256) as u8
}

/// Computes the index `old + delta` as a byte.
fn wrapped(old: u8, delta: i64) -> (r: u8)
    requires
        -0x1_0000_0000 <= delta <= 0x1_0001_0000,
    ensures
        r == wrap8(old + delta),
{
    let shifted: u64 = (old as i64 + delta + 0x1_0000_0000) as u64;
    (shifted % 256) as u8
}

/// The state that the operations edit: the path, the stream, and whether every step so far
/// could be done. After a step that could not be done nothing changes any more.
pub struct PathCursor {
    pub path: Seq<u8>,
    pub stream: BitStream,
    pub ok: bool,
}

impl PathCursor {
    /// The index at `at` grows by `delta`.
    pub open spec fn grown(self, at: int, delta: int) -> Seq<u8> {
        self.path.update(at, wrap8(self.path[at] + delta))
    }

    /// The last index grows by an operand.
    pub open spec fn bump(self, src: Num) -> PathCursor {
        if !self.ok {
            self
        } else {
            let (d, s) = src.read(self.stream);
            PathCursor { path: self.grown(self.path.len() - 1, d), stream: s, ok: true }
        }
    }

    /// The index before the last grows by one. It cannot be done on a path of one level.
    pub open spec fn bump_penultimate(self) -> PathCursor {
        if !self.ok {
            self
        } else if self.path.len() >= 2 {
            PathCursor { path: self.grown(self.path.len() - 2, 1), ..self }
        } else {
            PathCursor { ok: false, ..self }
        }
    }

    /// A new level starts at an operand. It cannot be done on a path of seven levels, and
    /// then the operand is not read.
    pub open spec fn push(self, src: Num) -> PathCursor {
        if !self.ok {
            self
        } else if self.path.len() < MAX_DEPTH {
            let (v, s) = src.read(self.stream);
            PathCursor { path: self.path.push(wrap8(v)), stream: s, ok: true }
        } else {
            PathCursor { ok: false, ..self }
        }
    }

    /// `count` new levels start at operands, one after the other.
    pub open spec fn push_n(self, count: int, src: Num) -> PathCursor
        decreases count,
    {
        if count <= 0 {
            self
        } else {
            self.push_n(count - 1, src).push(src)
        }
    }

    /// As many levels end as an operand says. At least one level has to stay.
    pub open spec fn pop(self, src: Num) -> PathCursor {
        if !self.ok {
            self
        } else {
            let (n, s) = src.read(self.stream);
            if 0 <= n < self.path.len() {
                PathCursor { path: self.path.take(self.path.len() - n), stream: s, ok: true }
            } else {
                PathCursor { stream: s, ok: false, ..self }
            }
        }
    }

    /// All levels but the first end.
    pub open spec fn pop_all_but_one(self) -> PathCursor {
        if !self.ok {
            self
        } else {
            PathCursor { path: self.path.take(1), ..self }
        }
    }

    /// A count with a two-bit width selector is read.
    pub open spec fn counted(self) -> (PathCursor, int) {
        if !self.ok {
            (self, 0)
        } else {
            (
                PathCursor { stream: self.stream.read_ubitvar().1, ..self },
                self.stream.read_ubitvar().0 as int,
            )
        }
    }

    /// For each of the first `upto` levels a flag is read, and where it is set the index
    /// grows by an operand.
    pub open spec fn adjust_upto(self, upto: int, src: Num) -> PathCursor
        decreases upto,
    {
        if upto <= 0 {
            self
        } else {
            let c = self.adjust_upto(upto - 1, src);
            let (flag, s1) = c.stream.read_bool();
            if flag {
                let (d, s2) = src.read(s1);
                PathCursor { path: c.grown(upto - 1, d), stream: s2, ..c }
            } else {
                PathCursor { stream: s1, ..c }
            }
        }
    }

    /// For each level a flag is read, and where it is set the index grows by an operand.
    pub open spec fn adjust(self, src: Num) -> PathCursor {
        if !self.ok {
            self
        } else {
            self.adjust_upto(self.path.len() as int, src)
        }
    }

    /// What an operation does.
    pub open spec fn apply(self, op: FieldOp) -> PathCursor {
        let c = self;
        match op {
            FieldOp::PlusOne => c.bump(Num::Const(1)),
            FieldOp::PlusTwo => c.bump(Num::Const(2)),
            FieldOp::PlusThree => c.bump(Num::Const(3)),
            FieldOp::PlusFour => c.bump(Num::Const(4)),
            FieldOp::PlusN => c.bump(Num::Fp(5)),
            FieldOp::PushOneLeftDeltaZeroRightZero => c.push(Num::Const(0)),
            FieldOp::PushOneLeftDeltaZeroRightNonZero => c.push(Num::Fp(0)),
            FieldOp::PushOneLeftDeltaOneRightZero => c.bump(Num::Const(1)).push(Num::Const(0)),
            FieldOp::PushOneLeftDeltaOneRightNonZero => c.bump(Num::Const(1)).push(Num::Fp(0)),
            FieldOp::PushOneLeftDeltaNRightZero => c.bump(Num::Fp(0)).push(Num::Const(0)),
            FieldOp::PushOneLeftDeltaNRightNonZero => c.bump(Num::Fp(2)).push(Num::Fp(1)),
            FieldOp::PushOneLeftDeltaNRightNonZeroPack6Bits => c.bump(Num::Bits(3, 2)).push(Num::Bits(3, 1)),
            FieldOp::PushOneLeftDeltaNRightNonZeroPack8Bits => c.bump(Num::Bits(4, 2)).push(Num::Bits(4, 1)),
            FieldOp::PushTwoLeftDeltaZero => c.push(Num::Fp(0)).push(Num::Fp(0)),
            FieldOp::PushTwoPack5LeftDeltaZero => c.push(Num::Bits(5, 0)).push(Num::Bits(5, 0)),
            FieldOp::PushThreeLeftDeltaZero => c.push(Num::Fp(0)).push(Num::Fp(0)).push(Num::Fp(0)),
            FieldOp::PushThreePack5LeftDeltaZero => c.push(Num::Bits(5, 0)).push(Num::Bits(5, 0)).push(Num::Bits(5, 0)),
            FieldOp::PushTwoLeftDeltaOne => c.bump(Num::Const(1)).push(Num::Fp(0)).push(Num::Fp(0)),
            FieldOp::PushTwoPack5LeftDeltaOne => c.bump(Num::Const(1)).push(Num::Bits(5, 0)).push(Num::Bits(5, 0)),
            FieldOp::PushThreeLeftDeltaOne => c.bump(Num::Const(1)).push(Num::Fp(0)).push(Num::Fp(0)).push(Num::Fp(0)),
            FieldOp::PushThreePack5LeftDeltaOne => c.bump(Num::Const(1)).push(Num::Bits(5, 0)).push(Num::Bits(5, 0)).push(Num::Bits(5, 0)),
            FieldOp::PushTwoLeftDeltaN => c.bump(Num::UBitVar(2)).push(Num::Fp(0)).push(Num::Fp(0)),
            FieldOp::PushTwoPack5LeftDeltaN => c.bump(Num::UBitVar(2)).push(Num::Bits(5, 0)).push(Num::Bits(5, 0)),
            FieldOp::PushThreeLeftDeltaN => c.bump(Num::UBitVar(2)).push(Num::Fp(0)).push(Num::Fp(0)).push(Num::Fp(0)),
            FieldOp::PushThreePack5LeftDeltaN => c.bump(Num::UBitVar(2)).push(Num::Bits(5, 0)).push(Num::Bits(5, 0)).push(Num::Bits(5, 0)),
            FieldOp::PushN => c.counted().0.bump(Num::UBitVar(0)).push_n(c.counted().1, Num::Fp(0)),
            FieldOp::PushNAndNonTopological => c.adjust(Num::VarInt32(1)).counted().0.push_n(c.adjust(Num::VarInt32(1)).counted().1, Num::Fp(0)),
            FieldOp::PopOnePlusOne => c.pop(Num::Const(1)).bump(Num::Const(1)),
            FieldOp::PopOnePlusN => c.pop(Num::Const(1)).bump(Num::Fp(1)),
            FieldOp::PopAllButOnePlusOne => c.pop_all_but_one().bump(Num::Const(1)),
            FieldOp::PopAllButOnePlusN => c.pop_all_but_one().bump(Num::Fp(1)),
            FieldOp::PopAllButOnePlusNPack3Bits => c.pop_all_but_one().bump(Num::Bits(3, 1)),
            FieldOp::PopAllButOnePlusNPack6Bits => c.pop_all_but_one().bump(Num::Bits(6, 1)),
            FieldOp::PopNPlusOne => c.pop(Num::Fp(0)).bump(Num::Const(1)),
            FieldOp::PopNPlusN => c.pop(Num::Fp(0)).bump(Num::VarInt32(0)),
            FieldOp::PopNAndNonTopographical => c.pop(Num::Fp(0)).adjust(Num::VarInt32(0)),
            FieldOp::NonTopoComplex => c.adjust(Num::VarInt32(0)),
            FieldOp::NonTopoPenultimatePlusOne => c.bump_penultimate(),
            FieldOp::NonTopoComplexPack4Bits => c.adjust(Num::Bits(4, -7i64)),
            FieldOp::FieldPathEncodeFinish => c,
        }
    }
}

/// The word at the front of `s`, read bit by bit after `len` bits with the value `code`, and
/// the stream behind it. No operation is found where 17 bits name none.
pub open spec fn read_op_from(s: BitStream, len: int, code: int) -> (Option<FieldOp>, BitStream)
    decreases MAX_CODE_BITS - len,
{
    if len >= MAX_CODE_BITS {
        (None, s)
    } else {
        let (bit, s1) = s.read_bool();
        let code1 = 2 * code + if bit {
            1int
        } else {
            0int
        };
        match op_for(len + 1, code1) {
            Some(op) => (Some(op), s1),
            None => read_op_from(s1, len + 1, code1),
        }
    }
}

/// The operation at the front of `s`, and the stream behind its word.
pub open spec fn read_op(s: BitStream) -> (Option<FieldOp>, BitStream) {
    read_op_from(s, 0, 0)
}

/// Reads the word of an operation.
pub fn decode_op(br: &mut BitReader) -> (r: Option<FieldOp>)
    ensures
        (r, final(br)@) == read_op(old(br)@),
{
    let mut len: u32 = 0;
    let mut code: u32 = 0;
    proof {
        lemma2_to64();
    }
    while len < MAX_CODE_BITS
        invariant
            len <= MAX_CODE_BITS,
            code < pow2(len as nat),
            read_op(old(br)@) == read_op_from(br@, len as int, code as int),
        decreases MAX_CODE_BITS - len,
    {
        proof {
            lemma2_to64();
            lemma_pow2_unfold((len + 1) as nat);
            if len < 16 {
                lemma_pow2_strictly_increases((len + 1) as nat, 17);
            }
        }
        let bit = br.read_bool();
        code = 2 * code + if bit {
            1
        } else {
            0
        };
        len = len + 1;
        let found = lookup_op(len, code);
        if found.is_some() {
            return found;
        }
    }
    None
}

/// A path: from one to seven indices.
#[derive(Debug, Clone, Copy, PartialEq, Eq)]
pub struct FieldPath {
    data: [u8; 7],
    last: usize,
}

impl View for FieldPath {
    type V = Seq<u8>;

    closed spec fn view(&self) -> Seq<u8> {
        self.data@.take(
            if self.last < MAX_DEPTH {
                self.last + 1
            } else {
                MAX_DEPTH as int
            },
        )
    }
}

/// The state of the operations that a path and a reader stand for.
pub open spec fn cursor(path: Seq<u8>, stream: BitStream, ok: bool) -> PathCursor {
    PathCursor { path, stream, ok }
}

impl Default for FieldPath {
    fn default() -> (r: Self)
        ensures
            r@ == seq![255u8],
    {
        FieldPath::new()
    }
}

impl FieldPath {
    #[verifier::type_invariant]
    spec fn inv(self) -> bool {
        self.last < MAX_DEPTH
    }

    /// A path has from one to seven levels.
    pub proof fn lemma_len(self)
        ensures
            1 <= self@.len() <= MAX_DEPTH,
    {
    }

    /// The path that a batch starts from: the single index `-1`.
    pub fn new() -> (r: Self)
        ensures
            r@ == seq![255u8],
    {
        let r = FieldPath { data: [255, 0, 0, 0, 0, 0, 0], last: 0 };
        assert(r@ =~= seq![255u8]);
        r
    }

    /// The path with the given indices, if there are from one to seven of them.
    pub fn from_indices(indices: &[u8]) -> (r: Option<Self>)
        ensures
            1 <= indices@.len() <= MAX_DEPTH ==> (r matches Some(p) && p@ == indices@),
            !(1 <= indices@.len() <= MAX_DEPTH) ==> r is None,
    {
        let n = indices.len();
        if n < 1 || n > MAX_DEPTH {
            return None;
        }
        let mut data: [u8; 7] = [0, 0, 0, 0, 0, 0, 0];
        let mut i: usize = 0;
        while i < n
            invariant
                i <= n <= MAX_DEPTH,
                n == indices@.len(),
                data@.take(i as int) == indices@.take(i as int),
            decreases n - i,
        {
            data[i] = indices[i];
            assert(data@.take(i + 1) =~= indices@.take(i as int).push(indices@[i as int]));
            assert(indices@.take(i + 1) =~= indices@.take(i as int).push(indices@[i as int]));
            i = i + 1;
        }
        assert(indices@.take(n as int) =~= indices@);
        Some(FieldPath { data, last: n - 1 })
    }

    /// The position of the last index.
    pub fn last(&self) -> (r: usize)
        ensures
            r == self@.len() - 1,
    {
        proof {
            use_type_invariant(self);
        }
        self.last
    }

    /// The index at the level `at`, if the path has that level.
    pub fn get(&self, at: usize) -> (r: Option<usize>)
        ensures
            at < self@.len() ==> r == Some(self@[at as int] as usize),
            at >= self@.len() ==> r is None,
    {
        proof {
            use_type_invariant(self);
        }
        if at <= self.last {
            Some(self.data[at] as usize)
        } else {
            None
        }
    }

    /// The indices, first level first.
    pub fn iter(&self) -> (r: Vec<u8>)
        ensures
            r@ == self@,
    {
        proof {
            use_type_invariant(self);
        }
        let mut out: Vec<u8> = Vec::new();
        let mut i: usize = 0;
        while i <= self.last
            invariant
                self.last < MAX_DEPTH,
                i <= self.last + 1,
                out@ == self.data@.take(i as int),
            decreases self.last + 1 - i,
        {
            out.push(self.data[i]);
            assert(self.data@.take(i + 1) =~= self.data@.take(i as int).push(self.data@[i as int]));
            i = i + 1;
        }
        out
    }

    /// The index at `at` grows by `delta`.
    fn grow(&mut self, at: usize, delta: i64)
        requires
            at < old(self)@.len(),
            -0x1_0000_0000 <= delta <= 0x1_0001_0000,
        ensures
            final(self)@ == old(self)@.update(at as int, wrap8(old(self)@[at as int] + delta)),
    {
        proof {
            use_type_invariant(&*self);
        }
        let mut data = self.data;
        data[at] = wrapped(data[at], delta);
        let ghost before = self@;
        *self = FieldPath { data, last: self.last };
        assert(self@ =~= before.update(at as int, wrap8(before[at as int] + delta)));
    }

    /// The last index grows by an operand.
    fn bump(&mut self, br: &mut BitReader, src: Num)
        requires
            src.wf(),
        ensures
            cursor(final(self)@, final(br)@, true) == cursor(old(self)@, old(br)@, true).bump(src),
    {
        let d = src.fetch(br);
        let at = self.last();
        self.grow(at, d);
    }

    /// The index before the last grows by one.
    fn bump_penultimate(&mut self, br: &mut BitReader) -> (ok: bool)
        ensures
            cursor(final(self)@, final(br)@, ok) == cursor(
                old(self)@,
                old(br)@,
                true,
            ).bump_penultimate(),
    {
        let at = self.last();
        if at >= 1 {
            self.grow(at - 1, 1);
            true
        } else {
            false
        }
    }

    /// A new level starts at an operand.
    fn push(&mut self, br: &mut BitReader, src: Num) -> (ok: bool)
        requires
            src.wf(),
        ensures
            cursor(final(self)@, final(br)@, ok) == cursor(old(self)@, old(br)@, true).push(src),
    {
        proof {
            use_type_invariant(&*self);
        }
        if self.last + 1 >= MAX_DEPTH {
            return false;
        }
        let v = src.fetch(br);
        let mut data = self.data;
        data[self.last + 1] = wrapped(0, v);
        let ghost before = self@;
        *self = FieldPath { data, last: self.last + 1 };
        assert(self@ =~= before.push(wrap8(v as int)));
        true
    }

    /// `count` new levels start at operands.
    fn push_n(&mut self, br: &mut BitReader, count: u32, src: Num) -> (ok: bool)
        requires
            src.wf(),
        ensures
            cursor(final(self)@, final(br)@, ok) == cursor(old(self)@, old(br)@, true).push_n(
                count as int,
                src,
            ),
    {
        let ghost c0 = cursor(self@, br@, true);
        let mut ok = true;
        let mut i: u32 = 0;
        while i < count && ok
            invariant
                i <= count,
                src.wf(),
                cursor(self@, br@, ok) == c0.push_n(i as int, src),
            decreases count - i,
        {
            ok = self.push(br, src);
            i = i + 1;
        }
        proof {
            if !ok {
                lemma_push_n_stuck(c0, i as int, count as int, src);
            }
        }
        ok
    }

    /// As many levels end as an operand says.
    fn pop(&mut self, br: &mut BitReader, src: Num) -> (ok: bool)
        requires
            src.wf(),
        ensures
            cursor(final(self)@, final(br)@, ok) == cursor(old(self)@, old(br)@, true).pop(src),
    {
        proof {
            use_type_invariant(&*self);
        }
        let n = src.fetch(br);
        if n < 0 || n > self.last as i64 {
            return false;
        }
        let ghost before = self@;
        *self = FieldPath { data: self.data, last: self.last - n as usize };
        assert(self@ =~= before.take(before.len() - n));
        true
    }

    /// All levels but the first end.
    fn pop_all_but_one(&mut self, br: &mut BitReader)
        ensures
            cursor(final(self)@, final(br)@, true) == cursor(
                old(self)@,
                old(br)@,
                true,
            ).pop_all_but_one(),
    {
        let ghost before = self@;
        proof {
            use_type_invariant(&*self);
        }
        *self = FieldPath { data: self.data, last: 0 };
        assert(self@ =~= before.take(1));
    }

    /// For each level a flag is read, and where it is set the index grows by an operand.
    fn adjust(&mut self, br: &mut BitReader, src: Num)
        requires
            src.wf(),
        ensures
            cursor(final(self)@, final(br)@, true) == cursor(old(self)@, old(br)@, true).adjust(
                src,
            ),
    {
        let ghost c0 = cursor(self@, br@, true);
        let n = self.last() + 1;
        let mut i: usize = 0;
        while i < n
            invariant
                i <= n == self@.len(),
                src.wf(),
                c0.path.len() == n,
                cursor(self@, br@, true) == c0.adjust_upto(i as int, src),
            decreases n - i,
        {
            if br.read_bool() {
                let d = src.fetch(br);
                self.grow(i, d);
            }
            i = i + 1;
        }
    }

    /// Carries out an operation; whether every step of it could be done.
    fn apply(&mut self, br: &mut BitReader, op: FieldOp) -> (ok: bool)
        ensures
            cursor(final(self)@, final(br)@, ok) == cursor(old(self)@, old(br)@, true).apply(op),
    {
        match op {
            FieldOp::PlusOne => {
                self.bump(br, Num::Const(1));
                true
            },
            FieldOp::PlusTwo => {
                self.bump(br, Num::Const(2));
                true
            },
            FieldOp::PlusThree => {
                self.bump(br, Num::Const(3));
                true
            },
            FieldOp::PlusFour => {
                self.bump(br, Num::Const(4));
                true
            },
            FieldOp::PlusN => {
                self.bump(br, Num::Fp(5));
                true
            },
            FieldOp::PushOneLeftDeltaZeroRightZero => {
                self.push(br, Num::Const(0))
            },
            FieldOp::PushOneLeftDeltaZeroRightNonZero => {
                self.push(br, Num::Fp(0))
            },
            FieldOp::PushOneLeftDeltaOneRightZero => {
                self.bump(br, Num::Const(1));
                self.push(br, Num::Const(0))
            },
            FieldOp::PushOneLeftDeltaOneRightNonZero => {
                self.bump(br, Num::Const(1));
                self.push(br, Num::Fp(0))
            },
            FieldOp::PushOneLeftDeltaNRightZero => {
                self.bump(br, Num::Fp(0));
                self.push(br, Num::Const(0))
            },
            FieldOp::PushOneLeftDeltaNRightNonZero => {
                self.bump(br, Num::Fp(2));
                self.push(br, Num::Fp(1))
            },
            FieldOp::PushOneLeftDeltaNRightNonZeroPack6Bits => {
                self.bump(br, Num::Bits(3, 2));
                self.push(br, Num::Bits(3, 1))
            },
            FieldOp::PushOneLeftDeltaNRightNonZeroPack8Bits => {
                self.bump(br, Num::Bits(4, 2));
                self.push(br, Num::Bits(4, 1))
            },
            FieldOp::PushTwoLeftDeltaZero => {
                if self.push(br, Num::Fp(0)) {
                    self.push(br, Num::Fp(0))
                } else {
                    false
                }
            },
            FieldOp::PushTwoPack5LeftDeltaZero => {
                if self.push(br, Num::Bits(5, 0)) {
                    self.push(br, Num::Bits(5, 0))
                } else {
                    false
                }
            },
            FieldOp::PushThreeLeftDeltaZero => {
                if self.push(br, Num::Fp(0)) {
                    if self.push(br, Num::Fp(0)) {
                        self.push(br, Num::Fp(0))
                    } else {
                        false
                    }
                } else {
                    false
                }
            },
            FieldOp::PushThreePack5LeftDeltaZero => {
                if self.push(br, Num::Bits(5, 0)) {
                    if self.push(br, Num::Bits(5, 0)) {
                        self.push(br, Num::Bits(5, 0))
                    } else {
                        false
                    }
                } else {
                    false
                }
            },
            FieldOp::PushTwoLeftDeltaOne => {
                self.bump(br, Num::Const(1));
                if self.push(br, Num::Fp(0)) {
                    self.push(br, Num::Fp(0))
                } else {
                    false
                }
            },
            FieldOp::PushTwoPack5LeftDeltaOne => {
                self.bump(br, Num::Const(1));
                if self.push(br, Num::Bits(5, 0)) {
                    self.push(br, Num::Bits(5, 0))
                } else {
                    false
                }
            },
            FieldOp::PushThreeLeftDeltaOne => {
                self.bump(br, Num::Const(1));
                if self.push(br, Num::Fp(0)) {
                    if self.push(br, Num::Fp(0)) {
                        self.push(br, Num::Fp(0))
                    } else {
                        false
                    }
                } else {
                    false
                }
            },
            FieldOp::PushThreePack5LeftDeltaOne => {
                self.bump(br, Num::Const(1));
                if self.push(br, Num::Bits(5, 0)) {
                    if self.push(br, Num::Bits(5, 0)) {
                        self.push(br, Num::Bits(5, 0))
                    } else {
                        false
                    }
                } else {
                    false
                }
            },
            FieldOp::PushTwoLeftDeltaN => {
                self.bump(br, Num::UBitVar(2));
                if self.push(br, Num::Fp(0)) {
                    self.push(br, Num::Fp(0))
                } else {
                    false
                }
            },
            FieldOp::PushTwoPack5LeftDeltaN => {
                self.bump(br, Num::UBitVar(2));
                if self.push(br, Num::Bits(5, 0)) {
                    self.push(br, Num::Bits(5, 0))
                } else {
                    false
                }
            },
            FieldOp::PushThreeLeftDeltaN => {
                self.bump(br, Num::UBitVar(2));
                if self.push(br, Num::Fp(0)) {
                    if self.push(br, Num::Fp(0)) {
                        self.push(br, Num::Fp(0))
                    } else {
                        false
                    }
                } else {
                    false
                }
            },
            FieldOp::PushThreePack5LeftDeltaN => {
                self.bump(br, Num::UBitVar(2));
                if self.push(br, Num::Bits(5, 0)) {
                    if self.push(br, Num::Bits(5, 0)) {
                        self.push(br, Num::Bits(5, 0))
                    } else {
                        false
                    }
                } else {
                    false
                }
            },
            FieldOp::PushN => {
                let count = br.read_ubitvar();
                self.bump(br, Num::UBitVar(0));
                self.push_n(br, count, Num::Fp(0))
            },
            FieldOp::PushNAndNonTopological => {
                self.adjust(br, Num::VarInt32(1));
                let count = br.read_ubitvar();
                self.push_n(br, count, Num::Fp(0))
            },
            FieldOp::PopOnePlusOne => {
                if self.pop(br, Num::Const(1)) {
                    self.bump(br, Num::Const(1));
                    true
                } else {
                    false
                }
            },
            FieldOp::PopOnePlusN => {
                if self.pop(br, Num::Const(1)) {
                    self.bump(br, Num::Fp(1));
                    true
                } else {
                    false
                }
            },
            FieldOp::PopAllButOnePlusOne => {
                self.pop_all_but_one(br);
                self.bump(br, Num::Const(1));
                true
            },
            FieldOp::PopAllButOnePlusN => {
                self.pop_all_but_one(br);
                self.bump(br, Num::Fp(1));
                true
            },
            FieldOp::PopAllButOnePlusNPack3Bits => {
                self.pop_all_but_one(br);
                self.bump(br, Num::Bits(3, 1));
                true
            },
            FieldOp::PopAllButOnePlusNPack6Bits => {
                self.pop_all_but_one(br);
                self.bump(br, Num::Bits(6, 1));
                true
            },
            FieldOp::PopNPlusOne => {
                if self.pop(br, Num::Fp(0)) {
                    self.bump(br, Num::Const(1));
                    true
                } else {
                    false
                }
            },
            FieldOp::PopNPlusN => {
                if self.pop(br, Num::Fp(0)) {
                    self.bump(br, Num::VarInt32(0));
                    true
                } else {
                    false
                }
            },
            FieldOp::PopNAndNonTopographical => {
                if self.pop(br, Num::Fp(0)) {
                    self.adjust(br, Num::VarInt32(0));
                    true
                } else {
                    false
                }
            },
            FieldOp::NonTopoComplex => {
                self.adjust(br, Num::VarInt32(0));
                true
            },
            FieldOp::NonTopoPenultimatePlusOne => {
                self.bump_penultimate(br)
            },
            FieldOp::NonTopoComplexPack4Bits => {
                self.adjust(br, Num::Bits(4, -7i64));
                true
            },
            FieldOp::FieldPathEncodeFinish => true,
        }
    }
}

/// An operand is read by reads.
pub proof fn lemma_num_follows(src: Num, s: BitStream)
    requires
        src.wf(),
    ensures
        src.read(s).1.follows(s),
{
    lemma_base128_follows(s, 5);
}

/// An operand is read by reads.
pub proof fn lemma_bump_follows(c: PathCursor, src: Num, s0: BitStream)
    requires
        src.wf(),
        c.stream.follows(s0),
    ensures
        c.bump(src).stream.follows(s0),
{
    lemma_num_follows(src, c.stream);
}

/// No operand is read for the index before the last.
pub proof fn lemma_bump_penultimate_follows(c: PathCursor, s0: BitStream)
    requires
        c.stream.follows(s0),
    ensures
        c.bump_penultimate().stream.follows(s0),
{
}

/// The index of a new level is read by reads.
pub proof fn lemma_push_follows(c: PathCursor, src: Num, s0: BitStream)
    requires
        src.wf(),
        c.stream.follows(s0),
    ensures
        c.push(src).stream.follows(s0),
{
    lemma_num_follows(src, c.stream);
}

/// The indices of new levels are read by reads.
pub proof fn lemma_push_n_follows(c: PathCursor, count: int, src: Num, s0: BitStream)
    requires
        src.wf(),
        c.stream.follows(s0),
    ensures
        c.push_n(count, src).stream.follows(s0),
    decreases count,
{
    if count > 0 {
        lemma_push_n_follows(c, count - 1, src, s0);
        lemma_push_follows(c.push_n(count - 1, src), src, s0);
    }
}

/// The number of levels that end is read by reads.
pub proof fn lemma_pop_follows(c: PathCursor, src: Num, s0: BitStream)
    requires
        src.wf(),
        c.stream.follows(s0),
    ensures
        c.pop(src).stream.follows(s0),
{
    lemma_num_follows(src, c.stream);
}

/// Nothing is read where all levels but the first end.
pub proof fn lemma_pop_all_but_one_follows(c: PathCursor, s0: BitStream)
    requires
        c.stream.follows(s0),
    ensures
        c.pop_all_but_one().stream.follows(s0),
{
}

/// A count is read by reads.
pub proof fn lemma_counted_follows(c: PathCursor, s0: BitStream)
    requires
        c.stream.follows(s0),
    ensures
        c.counted().0.stream.follows(s0),
{
}

/// Flags and operands are read by reads.
pub proof fn lemma_adjust_upto_follows(c: PathCursor, upto: int, src: Num, s0: BitStream)
    requires
        src.wf(),
        c.stream.follows(s0),
    ensures
        c.adjust_upto(upto, src).stream.follows(s0),
    decreases upto,
{
    if upto > 0 {
        lemma_adjust_upto_follows(c, upto - 1, src, s0);
        let s1 = c.adjust_upto(upto - 1, src).stream.read_bool().1;
        lemma_num_follows(src, s1);
    }
}

/// Flags and operands are read by reads.
pub proof fn lemma_adjust_follows(c: PathCursor, src: Num, s0: BitStream)
    requires
        src.wf(),
        c.stream.follows(s0),
    ensures
        c.adjust(src).stream.follows(s0),
{
    lemma_adjust_upto_follows(c, c.path.len() as int, src, s0);
}

/// The operands of an operation are read by reads.
pub proof fn lemma_apply_follows(c: PathCursor, op: FieldOp)
    ensures
        c.apply(op).stream.follows(c.stream),
{
    let s0 = c.stream;
    match op {
        FieldOp::PlusOne => {
            lemma_bump_follows(c, Num::Const(1), s0);
        },
        FieldOp::PlusTwo => {
            lemma_bump_follows(c, Num::Const(2), s0);
        },
        FieldOp::PlusThree => {
            lemma_bump_follows(c, Num::Const(3), s0);
        },
        FieldOp::PlusFour => {
            lemma_bump_follows(c, Num::Const(4), s0);
        },
        FieldOp::PlusN => {
            lemma_bump_follows(c, Num::Fp(5), s0);
        },
        FieldOp::PushOneLeftDeltaZeroRightZero => {
            lemma_push_follows(c, Num::Const(0), s0);
        },
        FieldOp::PushOneLeftDeltaZeroRightNonZero => {
            lemma_push_follows(c, Num::Fp(0), s0);
        },
        FieldOp::PushOneLeftDeltaOneRightZero => {
            lemma_bump_follows(c, Num::Const(1), s0);
            let c1 = c.bump(Num::Const(1));
            lemma_push_follows(c1, Num::Const(0), s0);
        },
        FieldOp::PushOneLeftDeltaOneRightNonZero => {
            lemma_bump_follows(c, Num::Const(1), s0);
            let c1 = c.bump(Num::Const(1));
            lemma_push_follows(c1, Num::Fp(0), s0);
        },
        FieldOp::PushOneLeftDeltaNRightZero => {
            lemma_bump_follows(c, Num::Fp(0), s0);
            let c1 = c.bump(Num::Fp(0));
            lemma_push_follows(c1, Num::Const(0), s0);
        },
        FieldOp::PushOneLeftDeltaNRightNonZero => {
            lemma_bump_follows(c, Num::Fp(2), s0);
            let c1 = c.bump(Num::Fp(2));
            lemma_push_follows(c1, Num::Fp(1), s0);
        },
        FieldOp::PushOneLeftDeltaNRightNonZeroPack6Bits => {
            lemma_bump_follows(c, Num::Bits(3, 2), s0);
            let c1 = c.bump(Num::Bits(3, 2));
            lemma_push_follows(c1, Num::Bits(3, 1), s0);
        },
        FieldOp::PushOneLeftDeltaNRightNonZeroPack8Bits => {
            lemma_bump_follows(c, Num::Bits(4, 2), s0);
            let c1 = c.bump(Num::Bits(4, 2));
            lemma_push_follows(c1, Num::Bits(4, 1), s0);
        },
        FieldOp::PushTwoLeftDeltaZero => {
            lemma_push_follows(c, Num::Fp(0), s0);
            let c1 = c.push(Num::Fp(0));
            lemma_push_follows(c1, Num::Fp(0), s0);
        },
        FieldOp::PushTwoPack5LeftDeltaZero => {
            lemma_push_follows(c, Num::Bits(5, 0), s0);
            let c1 = c.push(Num::Bits(5, 0));
            lemma_push_follows(c1, Num::Bits(5, 0), s0);
        },
        FieldOp::PushThreeLeftDeltaZero => {
            lemma_push_follows(c, Num::Fp(0), s0);
            let c1 = c.push(Num::Fp(0));
            lemma_push_follows(c1, Num::Fp(0), s0);
            let c2 = c1.push(Num::Fp(0));
            lemma_push_follows(c2, Num::Fp(0), s0);
        },
        FieldOp::PushThreePack5LeftDeltaZero => {
            lemma_push_follows(c, Num::Bits(5, 0), s0);
            let c1 = c.push(Num::Bits(5, 0));
            lemma_push_follows(c1, Num::Bits(5, 0), s0);
            let c2 = c1.push(Num::Bits(5, 0));
            lemma_push_follows(c2, Num::Bits(5, 0), s0);
        },
        FieldOp::PushTwoLeftDeltaOne => {
            lemma_bump_follows(c, Num::Const(1), s0);
            let c1 = c.bump(Num::Const(1));
            lemma_push_follows(c1, Num::Fp(0), s0);
            let c2 = c1.push(Num::Fp(0));
            lemma_push_follows(c2, Num::Fp(0), s0);
        },
        FieldOp::PushTwoPack5LeftDeltaOne => {
            lemma_bump_follows(c, Num::Const(1), s0);
            let c1 = c.bump(Num::Const(1));
            lemma_push_follows(c1, Num::Bits(5, 0), s0);
            let c2 = c1.push(Num::Bits(5, 0));
            lemma_push_follows(c2, Num::Bits(5, 0), s0);
        },
        FieldOp::PushThreeLeftDeltaOne => {
            lemma_bump_follows(c, Num::Const(1), s0);
            let c1 = c.bump(Num::Const(1));
            lemma_push_follows(c1, Num::Fp(0), s0);
            let c2 = c1.push(Num::Fp(0));
            lemma_push_follows(c2, Num::Fp(0), s0);
            let c3 = c2.push(Num::Fp(0));
            lemma_push_follows(c3, Num::Fp(0), s0);
        },
        FieldOp::PushThreePack5LeftDeltaOne => {
            lemma_bump_follows(c, Num::Const(1), s0);
            let c1 = c.bump(Num::Const(1));
            lemma_push_follows(c1, Num::Bits(5, 0), s0);
            let c2 = c1.push(Num::Bits(5, 0));
            lemma_push_follows(c2, Num::Bits(5, 0), s0);
            let c3 = c2.push(Num::Bits(5, 0));
            lemma_push_follows(c3, Num::Bits(5, 0), s0);
        },
        FieldOp::PushTwoLeftDeltaN => {
            lemma_bump_follows(c, Num::UBitVar(2), s0);
            let c1 = c.bump(Num::UBitVar(2));
            lemma_push_follows(c1, Num::Fp(0), s0);
            let c2 = c1.push(Num::Fp(0));
            lemma_push_follows(c2, Num::Fp(0), s0);
        },
        FieldOp::PushTwoPack5LeftDeltaN => {
            lemma_bump_follows(c, Num::UBitVar(2), s0);
            let c1 = c.bump(Num::UBitVar(2));
            lemma_push_follows(c1, Num::Bits(5, 0), s0);
            let c2 = c1.push(Num::Bits(5, 0));
            lemma_push_follows(c2, Num::Bits(5, 0), s0);
        },
        FieldOp::PushThreeLeftDeltaN => {
            lemma_bump_follows(c, Num::UBitVar(2), s0);
            let c1 = c.bump(Num::UBitVar(2));
            lemma_push_follows(c1, Num::Fp(0), s0);
            let c2 = c1.push(Num::Fp(0));
            lemma_push_follows(c2, Num::Fp(0), s0);
            let c3 = c2.push(Num::Fp(0));
            lemma_push_follows(c3, Num::Fp(0), s0);
        },
        FieldOp::PushThreePack5LeftDeltaN => {
            lemma_bump_follows(c, Num::UBitVar(2), s0);
            let c1 = c.bump(Num::UBitVar(2));
            lemma_push_follows(c1, Num::Bits(5, 0), s0);
            let c2 = c1.push(Num::Bits(5, 0));
            lemma_push_follows(c2, Num::Bits(5, 0), s0);
            let c3 = c2.push(Num::Bits(5, 0));
            lemma_push_follows(c3, Num::Bits(5, 0), s0);
        },
        FieldOp::PushN => {
            let c1 = c.counted().0;
            lemma_counted_follows(c, s0);
            let c2 = c1.bump(Num::UBitVar(0));
            lemma_bump_follows(c1, Num::UBitVar(0), s0);
            lemma_push_n_follows(c2, c.counted().1, Num::Fp(0), s0);
        },
        FieldOp::PushNAndNonTopological => {
            let c1 = c.adjust(Num::VarInt32(1));
            lemma_adjust_follows(c, Num::VarInt32(1), s0);
            let c2 = c1.counted().0;
            lemma_counted_follows(c1, s0);
            lemma_push_n_follows(c2, c1.counted().1, Num::Fp(0), s0);
        },
        FieldOp::PopOnePlusOne => {
            lemma_pop_follows(c, Num::Const(1), s0);
            let c1 = c.pop(Num::Const(1));
            lemma_bump_follows(c1, Num::Const(1), s0);
        },
        FieldOp::PopOnePlusN => {
            lemma_pop_follows(c, Num::Const(1), s0);
            let c1 = c.pop(Num::Const(1));
            lemma_bump_follows(c1, Num::Fp(1), s0);
        },
        FieldOp::PopAllButOnePlusOne => {
            lemma_pop_all_but_one_follows(c, s0);
            let c1 = c.pop_all_but_one();
            lemma_bump_follows(c1, Num::Const(1), s0);
        },
        FieldOp::PopAllButOnePlusN => {
            lemma_pop_all_but_one_follows(c, s0);
            let c1 = c.pop_all_but_one();
            lemma_bump_follows(c1, Num::Fp(1), s0);
        },
        FieldOp::PopAllButOnePlusNPack3Bits => {
            lemma_pop_all_but_one_follows(c, s0);
            let c1 = c.pop_all_but_one();
            lemma_bump_follows(c1, Num::Bits(3, 1), s0);
        },
        FieldOp::PopAllButOnePlusNPack6Bits => {
            lemma_pop_all_but_one_follows(c, s0);
            let c1 = c.pop_all_but_one();
            lemma_bump_follows(c1, Num::Bits(6, 1), s0);
        },
        FieldOp::PopNPlusOne => {
            lemma_pop_follows(c, Num::Fp(0), s0);
            let c1 = c.pop(Num::Fp(0));
            lemma_bump_follows(c1, Num::Const(1), s0);
        },
        FieldOp::PopNPlusN => {
            lemma_pop_follows(c, Num::Fp(0), s0);
            let c1 = c.pop(Num::Fp(0));
            lemma_bump_follows(c1, Num::VarInt32(0), s0);
        },
        FieldOp::PopNAndNonTopographical => {
            lemma_pop_follows(c, Num::Fp(0), s0);
            let c1 = c.pop(Num::Fp(0));
            lemma_adjust_follows(c1, Num::VarInt32(0), s0);
        },
        FieldOp::NonTopoComplex => {
            lemma_adjust_follows(c, Num::VarInt32(0), s0);
        },
        FieldOp::NonTopoPenultimatePlusOne => {
            lemma_bump_penultimate_follows(c, s0);
        },
        FieldOp::NonTopoComplexPack4Bits => {
            lemma_adjust_follows(c, Num::Bits(4, -7i64), s0);
        },
        FieldOp::FieldPathEncodeFinish => {},
    }
}

/// The word of an operation is read by reads, and takes at least one bit.
pub proof fn lemma_read_op_follows(s: BitStream, len: int, code: int)
    requires
        0 <= len,
    ensures
        read_op_from(s, len, code).1.follows(s),
        len < MAX_CODE_BITS && !read_op_from(s, len, code).1.overflowed ==> read_op_from(
            s,
            len,
            code,
        ).1.pos > s.pos,
    decreases MAX_CODE_BITS - len,
{
    if len < MAX_CODE_BITS {
        let (bit, s1) = s.read_bool();
        let code1 = 2 * code + if bit {
            1int
        } else {
            0int
        };
        if op_for(len + 1, code1) is None {
            lemma_read_op_follows(s1, len + 1, code1);
        }
    }
}

/// The state after the operation at the front of `s` was carried out on `path`.
pub open spec fn step(path: Seq<u8>, s: BitStream) -> PathCursor {
    match read_op(s).0 {
        Some(op) => cursor(path, read_op(s).1, true).apply(op),
        None => cursor(path, read_op(s).1, false),
    }
}

/// A step that leaves the overflow flag down has moved the cursor on.
pub proof fn lemma_step_moves_on(path: Seq<u8>, s: BitStream)
    ensures
        step(path, s).stream.follows(s),
        !step(path, s).stream.overflowed ==> step(path, s).stream.remaining() < s.remaining(),
{
    lemma_read_op_follows(s, 0, 0);
    match read_op(s).0 {
        Some(op) => {
            lemma_apply_follows(cursor(path, read_op(s).1, true), op);
        },
        None => {},
    }
}

/// The paths of the batch at the front of `s`, after the paths `done`, and the stream behind
/// the batch. The operations edit `path`; each state of it but the last is a path of the
/// batch. A stream that ends within the batch gives `TruncatedFieldPath`, a step that cannot
/// be done `MalformedFieldPath`.
pub open spec fn read_paths_from(path: Seq<u8>, s: BitStream, done: Seq<Seq<u8>>) -> (
    Result<Seq<Seq<u8>>, Error>,
    BitStream,
)
    decreases s.remaining(),
{
    let c = step(path, s);
    if c.stream.overflowed {
        (Err(Error::TruncatedFieldPath), c.stream)
    } else if !c.ok {
        (Err(Error::MalformedFieldPath), c.stream)
    } else if read_op(s).0 == Some(FieldOp::FieldPathEncodeFinish) {
        (Ok(done), c.stream)
    } else {
        proof {
            lemma_step_moves_on(path, s);
        }
        read_paths_from(c.path, c.stream, done.push(c.path))
    }
}

/// The paths of the batch at the front of `s`, and the stream behind the batch.
pub open spec fn read_paths(s: BitStream) -> (Result<Seq<Seq<u8>>, Error>, BitStream) {
    read_paths_from(seq![255u8], s, Seq::empty())
}

/// The indices of each path of `paths`.
pub open spec fn path_views(paths: Seq<FieldPath>) -> Seq<Seq<u8>> {
    paths.map_values(|p: FieldPath| p@)
}

/// Reads a batch of paths.
pub fn read_field_paths(br: &mut BitReader) -> (r: Result<Vec<FieldPath>, Error>)
    ensures
        final(br)@ == read_paths(old(br)@).1,
        match r {
            Ok(paths) => read_paths(old(br)@).0 == Ok::<Seq<Seq<u8>>, Error>(path_views(paths@)),
            Err(e) => read_paths(old(br)@).0 == Err::<Seq<Seq<u8>>, Error>(e),
        },
{
    let mut fp = FieldPath::new();
    let mut out: Vec<FieldPath> = Vec::with_capacity(SCRATCH_PATHS);
    assert(path_views(out@) =~= Seq::<Seq<u8>>::empty());
    loop
        invariant
            read_paths(old(br)@) == read_paths_from(fp@, br@, path_views(out@)),
        decreases br@.remaining(),
    {
        let ghost s = br@;
        let ghost before = path_views(out@);
        proof {
            lemma_step_moves_on(fp@, s);
        }
        let found = decode_op(br);
        let ok = match found {
            Some(op) => fp.apply(br, op),
            None => false,
        };
        if br.is_overflowed() {
            return Err(Error::TruncatedFieldPath);
        }
        if !ok {
            return Err(Error::MalformedFieldPath);
        }
        match found {
            Some(FieldOp::FieldPathEncodeFinish) => {
                return Ok(out);
            },
            _ => {},
        }
        out.push(fp);
        assert(path_views(out@) =~= before.push(fp@));
    }
}

/// After a step that could not be done, further new levels change nothing.
proof fn lemma_push_n_stuck(c: PathCursor, i: int, count: int, src: Num)
    requires
        0 <= i <= count,
        !c.push_n(i, src).ok,
    ensures
        c.push_n(count, src) == c.push_n(i, src),
    decreases count - i,
{
    if i < count {
        lemma_push_n_stuck(c, i, count - 1, src);
    }
}

} // verus!
