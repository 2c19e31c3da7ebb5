//! Quantized reals: a bounded real sent as a step of its range.
//!
//! The range is given by the bit patterns of two single-precision numbers. This module
//! validates the parameters, settles the flags and reads codewords; the real that a codeword
//! stands for is computed by the caller from the [`FloatCode`] that `decode` returns.

use crate::bitreader::{BitReader, BitStream};
use crate::floatcode::{FloatCode, QuantizedCode, QuantizedFlags};
use vstd::prelude::*;

verus! {

/// The lowest value of the range may be sent as a codeword of its own.
pub const QFF_ROUNDDOWN: i32 = 1;

/// The highest value of the range may be sent as a codeword of its own.
pub const QFF_ROUNDUP: i32 = 2;

/// Zero may be sent as a codeword of its own.
pub const QFF_ENCODE_ZERO: i32 = 4;

/// The levels of the range are whole numbers.
pub const QFF_ENCODE_INTEGERS: i32 = 8;

/// Why parameters describe no quantized real.
#[derive(Debug, Clone, Copy, PartialEq, Eq, Structural)]
pub enum Error {
    /// The bit count lies outside 1 to 32, or the range is not finite.
    InvalidQuantizeParams,
}

/// Whether the single-precision number with the pattern `bits` is finite.
pub open spec fn is_finite(bits: u32) -> bool {
    (bits % 0x8000_0000) / 0x80_0000 != 255
}

/// Whether the single-precision number with the pattern `bits` is zero, of either sign.
pub open spec fn is_zero(bits: u32) -> bool {
    bits % 0x8000_0000 == 0
}

/// Whether the single-precision number with the pattern `bits` is below zero.
pub open spec fn is_negative(bits: u32) -> bool {
    bits >= 0x8000_0000 && !is_zero(bits)
}

/// Whether the single-precision number with the pattern `bits` is above zero.
pub open spec fn is_positive(bits: u32) -> bool {
    bits < 0x8000_0000 && !is_zero(bits)
}

/// The flags that the bits of `flags` ask for.
pub open spec fn requested_flags(flags: i32) -> QuantizedFlags {
    QuantizedFlags {
        round_down: flags & QFF_ROUNDDOWN != 0,
        round_up: flags & QFF_ROUNDUP != 0,
        encode_zero: flags & QFF_ENCODE_ZERO != 0,
        encode_integers: flags & QFF_ENCODE_INTEGERS != 0,
    }
}

/// The flags that take effect for a finite range from `low` to `high`.
///
/// A zero codeword is pointless where an end of the range is zero and has a codeword of its
/// own; where an end is zero without one, that end gets the codeword instead; and it is
/// dropped where the range does not straddle zero. Whole-number levels switch the other
/// three flags off.
pub open spec fn settled_flags(flags: i32, low: u32, high: u32) -> QuantizedFlags {
    let f = requested_flags(flags);
    let zero1 = f.encode_zero && !((is_zero(low) && f.round_down) || (is_zero(high) && f.round_up));
    let down = f.round_down || (is_zero(low) && zero1);
    let zero2 = zero1 && !is_zero(low);
    let up = f.round_up || (is_zero(high) && zero2);
    let zero3 = zero2 && !is_zero(high) && is_negative(low) && is_positive(high);
    if f.encode_integers {
        QuantizedFlags {
            round_down: false,
            round_up: false,
            encode_zero: false,
            encode_integers: true,
        }
    } else {
        QuantizedFlags { round_down: down, round_up: up, encode_zero: zero3, encode_integers: false }
    }
}

/// Whether the parameters describe a quantized real.
pub open spec fn valid_params(bit_count: i32, flags: i32, low: u32, high: u32) -> bool {
    &&& 1 <= bit_count <= 32
    &&& is_finite(low)
    &&& is_finite(high)
}

/// The quantized real that the parameters describe, if they describe one.
pub open spec fn quantized_float(bit_count: i32, flags: i32, low: u32, high: u32) -> Result<
    QuantizedFloat,
    Error,
> {
    if valid_params(bit_count, flags, low, high) {
        Ok(
            QuantizedFloat {
                bit_count: bit_count as u32,
                low,
                high,
                flags: settled_flags(flags, low, high),
            },
        )
    } else {
        Err(Error::InvalidQuantizeParams)
    }
}

/// The description of a quantized real: the number of bits of a level, the bit patterns of
/// the ends of the range, and the flags that are in effect.
#[derive(Debug, Clone, Copy, PartialEq, Eq, Structural)]
pub struct QuantizedFloat {
    pub bit_count: u32,
    pub low: u32,
    pub high: u32,
    pub flags: QuantizedFlags,
}

fn exec_is_zero(bits: u32) -> (r: bool)
    ensures
        r == is_zero(bits),
{
    bits % 0x8000_0000 == 0
}

impl QuantizedFloat {
    /// Whether codewords can be read: a level has from 1 to 32 bits.
    pub open spec fn wf(&self) -> bool {
        1 <= self.bit_count <= 32
    }

    /// Whether codewords can be read.
    pub fn is_wf(&self) -> (r: bool)
        ensures
            r == self.wf(),
    {
        1 <= self.bit_count && self.bit_count <= 32
    }

    /// The codeword `code` together with the parameters.
    pub open spec fn with_code(&self, code: QuantizedCode) -> FloatCode {
        FloatCode::Quantized {
            code,
            low: self.low,
            high: self.high,
            bit_count: self.bit_count,
            flags: self.flags,
        }
    }

    /// The codeword at the front of `s`, and the stream behind it: one flag each for the
    /// codewords of the low end, the high end and zero, as far as they are in effect, then
    /// the level.
    pub open spec fn decoded(&self, s: BitStream) -> (FloatCode, BitStream) {
        let (is_low, s1) = if self.flags.round_down {
            s.read_bool()
        } else {
            (false, s)
        };
        if is_low {
            (self.with_code(QuantizedCode::Low), s1)
        } else {
            let (is_high, s2) = if self.flags.round_up {
                s1.read_bool()
            } else {
                (false, s1)
            };
            if is_high {
                (self.with_code(QuantizedCode::High), s2)
            } else {
                let (is_zero, s3) = if self.flags.encode_zero {
                    s2.read_bool()
                } else {
                    (false, s2)
                };
                if is_zero {
                    (self.with_code(QuantizedCode::Zero), s3)
                } else {
                    (
                        self.with_code(QuantizedCode::Level(s3.value(self.bit_count as int) as u32)),
                        s3.advance(self.bit_count as int),
                    )
                }
            }
        }
    }

    /// Validates the parameters of a quantized real and settles its flags.
    pub fn new(bit_count: i32, flags: i32, low: u32, high: u32) -> (r: Result<Self, Error>)
        ensures
            r == quantized_float(bit_count, flags, low, high),
            r matches Ok(q) ==> q.wf(),
    {
        if bit_count < 1 || bit_count > 32 {
            return Err(Error::InvalidQuantizeParams);
        }
        if (low % 0x8000_0000) / 0x80_0000 == 255 || (high % 0x8000_0000) / 0x80_0000 == 255 {
            return Err(Error::InvalidQuantizeParams);
        }
        let round_down = flags & QFF_ROUNDDOWN != 0;
        let round_up = flags & QFF_ROUNDUP != 0;
        let encode_zero = flags & QFF_ENCODE_ZERO != 0;
        let encode_integers = flags & QFF_ENCODE_INTEGERS != 0;
        let low_zero = exec_is_zero(low);
        let high_zero = exec_is_zero(high);
        let zero1 = encode_zero && !((low_zero && round_down) || (high_zero && round_up));
        let down = round_down || (low_zero && zero1);
        let zero2 = zero1 && !low_zero;
        let up = round_up || (high_zero && zero2);
        let zero3 = zero2 && !high_zero && low >= 0x8000_0000 && high < 0x8000_0000;
        if encode_integers {
            return Ok(
                QuantizedFloat {
                    bit_count: bit_count as u32,
                    low,
                    high,
                    flags: QuantizedFlags {
                        round_down: false,
                        round_up: false,
                        encode_zero: false,
                        encode_integers: true,
                    },
                },
            );
        }
        Ok(
            QuantizedFloat {
                bit_count: bit_count as u32,
                low,
                high,
                flags: QuantizedFlags {
                    round_down: down,
                    round_up: up,
                    encode_zero: zero3,
                    encode_integers: false,
                },
            },
        )
    }

    /// Reads one codeword.
    pub fn decode(&self, br: &mut BitReader) -> (r: FloatCode)
        requires
            self.wf(),
        ensures
            (r, final(br)@) == self.decoded(old(br)@),
    {
        if self.flags.round_down && br.read_bool() {
            return self.code(QuantizedCode::Low);
        }
        if self.flags.round_up && br.read_bool() {
            return self.code(QuantizedCode::High);
        }
        if self.flags.encode_zero && br.read_bool() {
            return self.code(QuantizedCode::Zero);
        }
        let level = br.read_ubitlong(self.bit_count as usize);
        self.code(QuantizedCode::Level(level))
    }

    /// The codeword `code` together with the parameters.
    fn code(&self, code: QuantizedCode) -> (r: FloatCode)
        ensures
            r == self.with_code(code),
    {
        FloatCode::Quantized {
            code,
            low: self.low,
            high: self.high,
            bit_count: self.bit_count,
            flags: self.flags,
        }
    }
}

/// Without flags in effect the level is the codeword that was read, so a higher codeword
/// gives a higher level of the same range.
pub proof fn lemma_plain_level_is_codeword(q: QuantizedFloat, s: BitStream)
    requires
        !q.flags.round_down,
        !q.flags.round_up,
        !q.flags.encode_zero,
    ensures
        q.decoded(s).0 == q.with_code(QuantizedCode::Level(s.value(q.bit_count as int) as u32)),
        q.decoded(s).1 == s.advance(q.bit_count as int),
{
}

} // verus!
