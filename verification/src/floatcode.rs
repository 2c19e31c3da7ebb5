//! What the wire holds for a real number.
//!
//! The stream carries reals in several fixed-point forms. This library reads each form into the
//! integers that it is made of and leaves the arithmetic on reals to the caller. Each type says
//! in its documentation which real it stands for.

use vstd::prelude::*;

verus! {

/// A world coordinate: `whole + fract / 32`, negated when `negative`.
#[derive(Debug, Clone, Copy, PartialEq, Eq, Structural)]
pub struct CoordCode {
    pub negative: bool,
    /// Zero, or between 1 and 16384.
    pub whole: u32,
    /// Below 32.
    pub fract: u32,
}

/// A component of a unit vector: `fract / 2047`, negated when `negative`.
#[derive(Debug, Clone, Copy, PartialEq, Eq, Structural)]
pub struct NormalCode {
    pub negative: bool,
    /// Below 2048.
    pub fract: u32,
}

/// An angle in degrees: `code * 360 / 2^bits`.
#[derive(Debug, Clone, Copy, PartialEq, Eq, Structural)]
pub struct AngleCode {
    /// At most 32.
    pub bits: u32,
    pub code: u32,
}

/// A unit vector given by two of its components and the sign of the third. A component that is
/// absent is zero; the third is the non-negative root of `1 - x^2 - y^2`, or zero where that is
/// negative, negated when `z_negative`.
#[derive(Debug, Clone, Copy, PartialEq, Eq, Structural)]
pub struct NormalVectorCode {
    pub x: Option<NormalCode>,
    pub y: Option<NormalCode>,
    pub z_negative: bool,
}

/// A codeword of a quantized real with the range `[low, high]`.
#[derive(Debug, Clone, Copy, PartialEq, Eq, Structural)]
pub enum QuantizedCode {
    /// Exactly `low`.
    Low,
    /// Exactly `high`.
    High,
    /// Exactly zero.
    Zero,
    /// The given step of the range, counted from `low`.
    Level(u32),
}

/// The flags of a quantized real that are in effect.
#[derive(Debug, Clone, Copy, PartialEq, Eq, Structural)]
pub struct QuantizedFlags {
    /// The low end of the range has a codeword of its own, and the levels stop one step
    /// short of the high end.
    pub round_down: bool,
    /// The high end of the range has a codeword of its own, and the levels start one step
    /// above the low end.
    pub round_up: bool,
    /// Zero has a codeword of its own.
    pub encode_zero: bool,
    /// The levels are whole numbers.
    pub encode_integers: bool,
}

/// A real number as the wire holds it.
#[derive(Debug, Clone, Copy, PartialEq, Eq, Structural)]
pub enum FloatCode {
    /// Exactly zero.
    Zero,
    /// The IEEE 754 single-precision number with this bit pattern.
    Bits(u32),
    /// A time in ticks: the count times the length of a tick.
    Ticks(u32),
    Coord(CoordCode),
    Normal(NormalCode),
    Angle(AngleCode),
    /// A codeword of the quantized real with the given bit patterns of `low` and `high`, the
    /// given number of bits per level and the given flags.
    Quantized { code: QuantizedCode, low: u32, high: u32, bit_count: u32, flags: QuantizedFlags },
}

impl CoordCode {
    /// The coordinate zero.
    pub open spec fn zero() -> CoordCode {
        CoordCode { negative: false, whole: 0, fract: 0 }
    }
}

} // verus!
