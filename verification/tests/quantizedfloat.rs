use haste::bitreader::BitReader;
use haste::floatcode::{FloatCode, QuantizedCode, QuantizedFlags};
use haste::quantizedfloat::{
    Error, QuantizedFloat, QFF_ENCODE_INTEGERS, QFF_ENCODE_ZERO, QFF_ROUNDDOWN, QFF_ROUNDUP,
};

/// Collects bits, least significant bit of each value first.
#[allow(dead_code)]
struct Bits {
    bytes: Vec<u8>,
    len: usize,
}

#[allow(dead_code)]
impl Bits {
    fn new() -> Bits {
        Bits { bytes: Vec::new(), len: 0 }
    }

    fn put(&mut self, value: u64, width: usize) -> &mut Bits {
        for i in 0..width {
            if self.len % 8 == 0 {
                self.bytes.push(0);
            }
            if (value >> i) & 1 == 1 {
                let last = self.bytes.len() - 1;
                self.bytes[last] |= 1 << (self.len % 8);
            }
            self.len += 1;
        }
        self
    }

    fn flag(&mut self, value: bool) -> &mut Bits {
        self.put(value as u64, 1)
    }

    /// The word of an operation, written as its bits in the order they are sent.
    fn op(&mut self, word: &str) -> &mut Bits {
        for c in word.chars() {
            self.flag(c == '1');
        }
        self
    }

    fn raw(&mut self, bytes: &[u8]) -> &mut Bits {
        for b in bytes {
            self.put(*b as u64, 8);
        }
        self
    }

    fn cstr(&mut self, s: &str) -> &mut Bits {
        self.raw(s.as_bytes());
        self.put(0, 8)
    }

    fn uvarint(&mut self, mut v: u64) -> &mut Bits {
        while v >= 128 {
            self.put(v % 128 + 128, 8);
            v /= 128;
        }
        self.put(v, 8)
    }

    fn varint(&mut self, v: i64) -> &mut Bits {
        self.uvarint(((v << 1) ^ (v >> 63)) as u64)
    }

    /// A width-prefixed number of the field-path code, in the narrowest form that holds it.
    fn fp(&mut self, v: u64) -> &mut Bits {
        if v < 4 {
            self.flag(true).put(v, 2)
        } else if v < 16 {
            self.flag(false).flag(true).put(v, 4)
        } else if v < 1024 {
            self.flag(false).flag(false).flag(true).put(v, 10)
        } else if v < (1 << 17) {
            self.flag(false).flag(false).flag(false).flag(true).put(v, 17)
        } else {
            self.flag(false).flag(false).flag(false).flag(false).put(v, 31)
        }
    }

    /// A number with a two-bit width selector, in the narrowest form that holds it.
    fn ubitvar(&mut self, v: u64) -> &mut Bits {
        if v < 16 {
            self.put(0, 2).put(v, 4)
        } else if v < 272 {
            self.put(1, 2).put(v - 16, 8)
        } else if v < 272 + 4096 {
            self.put(2, 2).put(v - 272, 12)
        } else {
            self.put(3, 2).put(v, 32)
        }
    }
}

fn code(q: &QuantizedFloat, bits: &Bits) -> (QuantizedCode, usize) {
    let mut br = BitReader::new(&bits.bytes);
    let value = q.decode(&mut br);
    assert!(!br.is_overflowed());
    let read = br.num_bytes_read() * 8 + br.bit_offset() as usize;
    match value {
        FloatCode::Quantized { code, .. } => (code, read),
        _ => panic!("not a quantized code"),
    }
}

fn make(bit_count: i32, flags: i32, low: f32, high: f32) -> Result<QuantizedFloat, Error> {
    QuantizedFloat::new(bit_count, flags, low.to_bits(), high.to_bits())
}

#[test]
fn bit_count_has_to_lie_between_1_and_32() {
    assert_eq!(make(0, 0, 0.0, 1.0), Err(Error::InvalidQuantizeParams));
    assert_eq!(make(33, 0, 0.0, 1.0), Err(Error::InvalidQuantizeParams));
    assert_eq!(make(-8, 0, 0.0, 1.0), Err(Error::InvalidQuantizeParams));
    assert!(make(1, 0, 0.0, 1.0).is_ok());
    assert!(make(32, 0, 0.0, 1.0).is_ok());
}

#[test]
fn range_has_to_be_finite() {
    assert_eq!(make(8, 0, f32::NAN, 1.0), Err(Error::InvalidQuantizeParams));
    assert_eq!(make(8, 0, 0.0, f32::INFINITY), Err(Error::InvalidQuantizeParams));
    assert_eq!(make(8, 0, f32::NEG_INFINITY, 0.0), Err(Error::InvalidQuantizeParams));
    assert!(make(8, 0, f32::MIN, f32::MAX).is_ok());
    assert!(make(8, 0, -0.0, 0.0).is_ok());
}

#[test]
fn both_ends_may_have_codewords() {
    let q = make(4, QFF_ROUNDDOWN | QFF_ROUNDUP, -1.0, 1.0).unwrap();
    let mut low = Bits::new();
    low.flag(true).flag(true).put(9, 4);
    assert_eq!(code(&q, &low), (QuantizedCode::Low, 1));
    let mut high = Bits::new();
    high.flag(false).flag(true).put(9, 4);
    assert_eq!(code(&q, &high), (QuantizedCode::High, 2));
    let mut level = Bits::new();
    level.flag(false).flag(false).put(9, 4);
    assert_eq!(code(&q, &level), (QuantizedCode::Level(9), 6));
    let moved = make(4, QFF_ROUNDUP | QFF_ENCODE_ZERO, 0.0, 1.0).unwrap();
    assert_eq!(code(&moved, &low), (QuantizedCode::Low, 1));
    assert_eq!(code(&moved, &high), (QuantizedCode::High, 2));
    assert!(make(8, QFF_ROUNDDOWN | QFF_ROUNDUP | QFF_ENCODE_INTEGERS, -1.0, 1.0).is_ok());
}

#[test]
fn plain_levels_keep_their_order() {
    let q = make(5, 0, -10.0, 10.0).unwrap();
    let mut last = None;
    for raw in 0..32u64 {
        let mut bits = Bits::new();
        bits.put(raw, 5);
        let (c, read) = code(&q, &bits);
        assert_eq!(c, QuantizedCode::Level(raw as u32));
        assert_eq!(read, 5);
        if let Some(before) = last {
            assert!(before < raw);
        }
        last = Some(raw);
    }
}

#[test]
fn carries_the_range() {
    let q = make(7, 0, 2.5, 9.0).unwrap();
    let mut bits = Bits::new();
    bits.put(100, 7);
    let mut br = BitReader::new(&bits.bytes);
    assert_eq!(
        q.decode(&mut br),
        FloatCode::Quantized {
            code: QuantizedCode::Level(100),
            low: 2.5f32.to_bits(),
            high: 9.0f32.to_bits(),
            bit_count: 7,
            flags: QuantizedFlags {
                round_down: false,
                round_up: false,
                encode_zero: false,
                encode_integers: false,
            },
        }
    );
}

#[test]
fn ends_of_the_range_have_their_own_codewords() {
    let down = make(4, QFF_ROUNDDOWN, -1.0, 1.0).unwrap();
    let mut low = Bits::new();
    low.flag(true).put(9, 4);
    assert_eq!(code(&down, &low), (QuantizedCode::Low, 1));
    let mut level = Bits::new();
    level.flag(false).put(9, 4);
    assert_eq!(code(&down, &level), (QuantizedCode::Level(9), 5));
    let up = make(4, QFF_ROUNDUP, -1.0, 1.0).unwrap();
    let mut high = Bits::new();
    high.flag(true).put(9, 4);
    assert_eq!(code(&up, &high), (QuantizedCode::High, 1));
}

#[test]
fn zero_has_its_own_codeword_where_the_range_straddles_it() {
    let q = make(4, QFF_ENCODE_ZERO, -1.0, 1.0).unwrap();
    let mut zero = Bits::new();
    zero.flag(true).put(9, 4);
    assert_eq!(code(&q, &zero), (QuantizedCode::Zero, 1));
    let mut level = Bits::new();
    level.flag(false).put(9, 4);
    assert_eq!(code(&q, &level), (QuantizedCode::Level(9), 5));
    let with_down = make(4, QFF_ENCODE_ZERO | QFF_ROUNDDOWN, -1.0, 1.0).unwrap();
    let mut second = Bits::new();
    second.flag(false).flag(true).put(9, 4);
    assert_eq!(code(&with_down, &second), (QuantizedCode::Zero, 2));
}

#[test]
fn zero_codeword_moves_to_an_end_that_is_zero() {
    let at_low = make(4, QFF_ENCODE_ZERO, 0.0, 1.0).unwrap();
    let mut bits = Bits::new();
    bits.flag(true).put(9, 4);
    assert_eq!(code(&at_low, &bits), (QuantizedCode::Low, 1));
    let at_high = make(4, QFF_ENCODE_ZERO, -1.0, -0.0).unwrap();
    assert_eq!(code(&at_high, &bits), (QuantizedCode::High, 1));
    let already = make(4, QFF_ENCODE_ZERO | QFF_ROUNDDOWN, 0.0, 1.0).unwrap();
    let mut only_down = Bits::new();
    only_down.flag(false).put(9, 4);
    assert_eq!(code(&already, &only_down), (QuantizedCode::Level(9), 5));
}

#[test]
fn zero_codeword_is_dropped_where_the_range_does_not_straddle_zero() {
    let q = make(4, QFF_ENCODE_ZERO, 1.0, 2.0).unwrap();
    let mut bits = Bits::new();
    bits.put(0b1011, 4);
    assert_eq!(code(&q, &bits), (QuantizedCode::Level(0b1011), 4));
    let backwards = make(4, QFF_ENCODE_ZERO, 1.0, -1.0).unwrap();
    assert_eq!(code(&backwards, &bits), (QuantizedCode::Level(0b1011), 4));
}

#[test]
fn whole_number_levels_switch_the_other_flags_off() {
    let q = make(4, QFF_ENCODE_INTEGERS | QFF_ROUNDDOWN | QFF_ENCODE_ZERO, -8.0, 8.0).unwrap();
    let mut bits = Bits::new();
    bits.put(0b1111, 4);
    assert_eq!(code(&q, &bits), (QuantizedCode::Level(15), 4));
}
