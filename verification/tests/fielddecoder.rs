use haste::bitreader::BitReader;
use haste::fielddecoder::{
    BoolDecoder, Error, F32Decoder, F32Kind, FieldDecode, FieldDecodeContext, FieldDecoder,
    I64Decoder, InternalF32Decoder, InternalQuantizedFloatDecoder, InvalidDecoder, QAngleDecoder,
    QAngleKind, StringDecoder, U64Decoder, U64Kind, Vector2Decoder, Vector3Decoder, Vector3Kind,
    Vector4Decoder,
};
use haste::fieldvalue::FieldValue;
use haste::flattenedserializers::{FlattenedSerializerField, Symbol};
use haste::vartype::VarType;
use std::rc::Rc;
use haste::floatcode::{
    AngleCode, CoordCode, FloatCode, NormalCode, NormalVectorCode, QuantizedCode, QuantizedFlags,
};
use haste::quantizedfloat;

/// Collects bits, least significant bit of each value first.
#[allow(dead_code)]
struct Bits {
    bytes: Vec<u8>,
    len: usize,
}

#[allow(dead_code)]
impl Bits {
    fn new() -> Bits {
        Bits { bytes: Vec::new(), len: 0 }
    }

    fn put(&mut self, value: u64, width: usize) -> &mut Bits {
        for i in 0..width {
            if self.len % 8 == 0 {
                self.bytes.push(0);
            }
            if (value >> i) & 1 == 1 {
                let last = self.bytes.len() - 1;
                self.bytes[last] |= 1 << (self.len % 8);
            }
            self.len += 1;
        }
        self
    }

    fn flag(&mut self, value: bool) -> &mut Bits {
        self.put(value as u64, 1)
    }

    /// The word of an operation, written as its bits in the order they are sent.
    fn op(&mut self, word: &str) -> &mut Bits {
        for c in word.chars() {
            self.flag(c == '1');
        }
        self
    }

    fn raw(&mut self, bytes: &[u8]) -> &mut Bits {
        for b in bytes {
            self.put(*b as u64, 8);
        }
        self
    }

    fn cstr(&mut self, s: &str) -> &mut Bits {
        self.raw(s.as_bytes());
        self.put(0, 8)
    }

    fn uvarint(&mut self, mut v: u64) -> &mut Bits {
        while v >= 128 {
            self.put(v % 128 + 128, 8);
            v /= 128;
        }
        self.put(v, 8)
    }

    fn varint(&mut self, v: i64) -> &mut Bits {
        self.uvarint(((v << 1) ^ (v >> 63)) as u64)
    }

    /// A width-prefixed number of the field-path code, in the narrowest form that holds it.
    fn fp(&mut self, v: u64) -> &mut Bits {
        if v < 4 {
            self.flag(true).put(v, 2)
        } else if v < 16 {
            self.flag(false).flag(true).put(v, 4)
        } else if v < 1024 {
            self.flag(false).flag(false).flag(true).put(v, 10)
        } else if v < (1 << 17) {
            self.flag(false).flag(false).flag(false).flag(true).put(v, 17)
        } else {
            self.flag(false).flag(false).flag(false).flag(false).put(v, 31)
        }
    }

    /// A number with a two-bit width selector, in the narrowest form that holds it.
    fn ubitvar(&mut self, v: u64) -> &mut Bits {
        if v < 16 {
            self.put(0, 2).put(v, 4)
        } else if v < 272 {
            self.put(1, 2).put(v - 16, 8)
        } else if v < 272 + 4096 {
            self.put(2, 2).put(v - 272, 12)
        } else {
            self.put(3, 2).put(v, 32)
        }
    }
}

fn field(name: &str, encoder: Option<&str>, bit_count: Option<i32>) -> FlattenedSerializerField {
    FlattenedSerializerField {
        var_name: Symbol::new(name),
        var_type: Symbol::new("float32"),
        var_encoder: encoder.map(Symbol::new),
        bit_count,
        low_value: None,
        high_value: None,
        encode_flags: None,
        kind: VarType::Scalar,
        decoder: FieldDecoder::Invalid(InvalidDecoder),
        children: Rc::new(Vec::new()),
    }
}

fn quantized_field(bit_count: i32, flags: i32, low: f32, high: f32) -> FlattenedSerializerField {
    let mut f = field("m_flValue", None, Some(bit_count));
    f.low_value = Some(low.to_bits());
    f.high_value = Some(high.to_bits());
    f.encode_flags = Some(flags);
    f
}

#[test]
fn whole_numbers_flags_and_strings() {
    let mut bits = Bits::new();
    bits.varint(-3).uvarint(300).flag(true).cstr("hero");
    let mut br = BitReader::new(&bits.bytes);
    let mut ctx = FieldDecodeContext::new();
    assert_eq!(I64Decoder.decode(&mut ctx, &mut br), FieldValue::I64(-3));
    assert_eq!(U64Decoder::default().decode(&mut ctx, &mut br), FieldValue::U64(300));
    assert_eq!(BoolDecoder.decode(&mut ctx, &mut br), FieldValue::Bool(true));
    assert_eq!(StringDecoder.decode(&mut ctx, &mut br), FieldValue::String(b"hero".to_vec()));
    assert!(!br.is_overflowed());
}

#[test]
fn strings_are_capped_at_511_bytes() {
    let long = "x".repeat(600);
    let mut bits = Bits::new();
    bits.cstr(&long).cstr("next");
    let mut br = BitReader::new(&bits.bytes);
    let mut ctx = FieldDecodeContext::default();
    assert_eq!(StringDecoder.decode(&mut ctx, &mut br), FieldValue::String(vec![b'x'; 511]));
    assert_eq!(StringDecoder.decode(&mut ctx, &mut br), FieldValue::String(b"next".to_vec()));
}

#[test]
fn fixed64_encoder() {
    assert_eq!(U64Decoder::new(&field("m_n", None, None)).kind, U64Kind::Varint);
    assert_eq!(U64Decoder::new(&field("m_n", Some("other"), None)).kind, U64Kind::Varint);
    let decoder = U64Decoder::new(&field("m_n", Some("fixed64"), None));
    assert_eq!(decoder.kind, U64Kind::Fixed64);
    let data = [0x08u8, 0x07, 0x06, 0x05, 0x04, 0x03, 0x02, 0x01];
    let mut br = BitReader::new(&data);
    let mut ctx = FieldDecodeContext::new();
    assert_eq!(decoder.decode(&mut ctx, &mut br), FieldValue::U64(0x0102_0304_0506_0708));
}

#[test]
fn choice_of_the_real_number_decoder() {
    assert_eq!(
        InternalF32Decoder::new(&field("m_flSimulationTime", Some("coord"), Some(8))).unwrap().kind,
        F32Kind::SimulationTime
    );
    assert_eq!(
        InternalF32Decoder::new(&field("m_flAnimTime", None, None)).unwrap().kind,
        F32Kind::SimulationTime
    );
    assert_eq!(
        InternalF32Decoder::new(&field("m_flX", Some("coord"), Some(8))).unwrap().kind,
        F32Kind::Coord
    );
    assert_eq!(
        InternalF32Decoder::new(&field("m_flX", Some("normal"), None)).unwrap().kind,
        F32Kind::Normal
    );
    assert_eq!(InternalF32Decoder::new(&field("m_flX", None, None)).unwrap().kind, F32Kind::NoScale);
    assert_eq!(
        InternalF32Decoder::new(&field("m_flX", None, Some(0))).unwrap().kind,
        F32Kind::NoScale
    );
    assert_eq!(
        InternalF32Decoder::new(&field("m_flX", None, Some(32))).unwrap().kind,
        F32Kind::NoScale
    );
    assert_eq!(
        InternalF32Decoder::new(&field("m_flX", Some("wobble"), None)),
        Err(Error::UnknownEncoder)
    );
    assert_eq!(F32Decoder::new(&field("m_flX", Some("wobble"), None)), Err(Error::UnknownEncoder));
    assert!(matches!(
        InternalF32Decoder::new(&quantized_field(8, 0, 0.0, 1.0)).unwrap().kind,
        F32Kind::Quantized(_)
    ));
    let invalid = Err(Error::QuantizedFloat(quantizedfloat::Error::InvalidQuantizeParams));
    assert_eq!(InternalF32Decoder::new(&quantized_field(33, 0, 0.0, 1.0)), invalid);
    assert_eq!(InternalF32Decoder::new(&quantized_field(-1, 0, 0.0, 1.0)), invalid);
    assert_eq!(InternalF32Decoder::new(&quantized_field(8, 0, 0.0, f32::INFINITY)), invalid);
    assert_eq!(
        InternalQuantizedFloatDecoder::new(&quantized_field(8, 0, f32::NAN, 1.0)),
        Err(Error::QuantizedFloat(quantizedfloat::Error::InvalidQuantizeParams))
    );
    assert!(InternalQuantizedFloatDecoder::new(&quantized_field(1, 0, -5.0, 5.0)).is_ok());
    assert!(InternalQuantizedFloatDecoder::new(&field("m_flX", None, None)).is_err());
}

#[test]
fn simulation_time_counts_ticks() {
    let decoder = F32Decoder::new(&field("m_flSimulationTime", None, None)).unwrap();
    let mut bits = Bits::new();
    bits.uvarint(64);
    let mut br = BitReader::new(&bits.bytes);
    let mut ctx = FieldDecodeContext::new();
    let value = decoder.decode(&mut ctx, &mut br);
    assert_eq!(value, FieldValue::F32(FloatCode::Ticks(64)));
    let tick_interval: f32 = 0.03125;
    match value {
        FieldValue::F32(FloatCode::Ticks(ticks)) => assert_eq!(ticks as f32 * tick_interval, 2.0),
        _ => panic!("not a time"),
    }
}

#[test]
fn real_numbers_in_each_form() {
    let mut ctx = FieldDecodeContext::new();
    let mut bits = Bits::new();
    bits.flag(true).flag(false).flag(false).put(9, 14);
    bits.flag(false).put(1, 11);
    bits.put(0x4048_f5c3, 32);
    bits.put(200, 8);
    let mut br = BitReader::new(&bits.bytes);
    let coord = F32Decoder::new(&field("m_flX", Some("coord"), None)).unwrap();
    assert_eq!(
        coord.decode(&mut ctx, &mut br),
        FieldValue::F32(FloatCode::Coord(CoordCode { negative: false, whole: 10, fract: 0 }))
    );
    let normal = F32Decoder::new(&field("m_flX", Some("normal"), None)).unwrap();
    assert_eq!(
        normal.decode(&mut ctx, &mut br),
        FieldValue::F32(FloatCode::Normal(NormalCode { negative: false, fract: 1 }))
    );
    let plain = F32Decoder::new(&field("m_flX", None, Some(32))).unwrap();
    assert_eq!(plain.decode(&mut ctx, &mut br), FieldValue::F32(FloatCode::Bits(0x4048_f5c3)));
    let quantized = F32Decoder::new(&quantized_field(8, 0, -1.0, 1.0)).unwrap();
    assert_eq!(
        quantized.decode(&mut ctx, &mut br),
        FieldValue::F32(FloatCode::Quantized {
            code: QuantizedCode::Level(200),
            low: (-1.0f32).to_bits(),
            high: 1.0f32.to_bits(),
            bit_count: 8,
            flags: QuantizedFlags {
                round_down: false,
                round_up: false,
                encode_zero: false,
                encode_integers: false,
            },
        })
    );
    assert!(!br.is_overflowed());
}

#[test]
fn vectors() {
    let mut ctx = FieldDecodeContext::new();
    let f = field("m_vec", None, None);
    let mut bits = Bits::new();
    for v in 1..=9u64 {
        bits.put(v, 32);
    }
    let mut br = BitReader::new(&bits.bytes);
    assert_eq!(
        Vector2Decoder::new(&f).unwrap().decode(&mut ctx, &mut br),
        FieldValue::Vector2([FloatCode::Bits(1), FloatCode::Bits(2)])
    );
    let three = Vector3Decoder::new(&f).unwrap();
    assert!(matches!(three.kind, Vector3Kind::Default(_)));
    assert_eq!(
        three.decode(&mut ctx, &mut br),
        FieldValue::Vector3([FloatCode::Bits(3), FloatCode::Bits(4), FloatCode::Bits(5)])
    );
    assert_eq!(
        Vector4Decoder::new(&f).unwrap().decode(&mut ctx, &mut br),
        FieldValue::Vector4([
            FloatCode::Bits(6),
            FloatCode::Bits(7),
            FloatCode::Bits(8),
            FloatCode::Bits(9)
        ])
    );
    assert_eq!(Vector2Decoder::new(&field("v", Some("nope"), None)), Err(Error::UnknownEncoder));
    assert_eq!(Vector4Decoder::new(&field("v", Some("nope"), None)), Err(Error::UnknownEncoder));
    assert_eq!(Vector3Decoder::new(&field("v", Some("nope"), None)), Err(Error::UnknownEncoder));
}

#[test]
fn unit_vectors() {
    let decoder = Vector3Decoder::new(&field("m_vec", Some("normal"), None)).unwrap();
    assert_eq!(decoder.kind, Vector3Kind::Normal);
    let mut bits = Bits::new();
    bits.flag(true).flag(false).flag(true).put(2047, 11).flag(false);
    let mut br = BitReader::new(&bits.bytes);
    let mut ctx = FieldDecodeContext::new();
    assert_eq!(
        decoder.decode(&mut ctx, &mut br),
        FieldValue::UnitVector(NormalVectorCode {
            x: Some(NormalCode { negative: true, fract: 2047 }),
            y: None,
            z_negative: false,
        })
    );
}

#[test]
fn choice_of_the_angle_decoder() {
    assert_eq!(
        QAngleDecoder::new(&field("a", Some("qangle_pitch_yaw"), Some(12))),
        Ok(QAngleDecoder { kind: QAngleKind::PitchYaw { bit_count: 12 } })
    );
    assert_eq!(
        QAngleDecoder::new(&field("a", Some("qangle_precise"), Some(12))),
        Ok(QAngleDecoder { kind: QAngleKind::Precise })
    );
    for encoder in [Some("qangle"), Some("QAngle"), None] {
        assert_eq!(
            QAngleDecoder::new(&field("a", encoder, Some(0))),
            Ok(QAngleDecoder { kind: QAngleKind::NoBitCount })
        );
        assert_eq!(
            QAngleDecoder::new(&field("a", encoder, None)),
            Ok(QAngleDecoder { kind: QAngleKind::NoBitCount })
        );
        assert_eq!(
            QAngleDecoder::new(&field("a", encoder, Some(9))),
            Ok(QAngleDecoder { kind: QAngleKind::BitCount { bit_count: 9 } })
        );
    }
    assert_eq!(QAngleDecoder::new(&field("a", Some("coord"), Some(9))), Err(Error::UnknownEncoder));
    assert_eq!(QAngleDecoder::new(&field("a", None, Some(33))), Err(Error::InvalidBitCount));
    assert_eq!(QAngleDecoder::new(&field("a", None, Some(-1))), Err(Error::InvalidBitCount));
    assert_eq!(
        QAngleDecoder::new(&field("a", Some("qangle_pitch_yaw"), Some(40))),
        Err(Error::InvalidBitCount)
    );
}

#[test]
fn precise_angles_skip_what_is_not_sent() {
    let decoder = QAngleDecoder::new(&field("a", Some("qangle_precise"), None)).unwrap();
    let mut bits = Bits::new();
    bits.flag(true).flag(false).flag(true).put(0x12345, 20).put(0xfffff, 20);
    let mut br = BitReader::new(&bits.bytes);
    let mut ctx = FieldDecodeContext::new();
    let value = decoder.decode(&mut ctx, &mut br);
    assert_eq!(
        value,
        FieldValue::QAngle([
            FloatCode::Angle(AngleCode { bits: 20, code: 0x12345 }),
            FloatCode::Zero,
            FloatCode::Angle(AngleCode { bits: 20, code: 0xfffff }),
        ])
    );
    assert_eq!(br.num_bytes_read() * 8 + br.bit_offset() as usize, 43);
}

#[test]
fn angles_in_the_other_forms() {
    let mut ctx = FieldDecodeContext::new();
    let mut bits = Bits::new();
    bits.put(100, 9).put(200, 9);
    bits.put(1, 9).put(2, 9).put(3, 9);
    bits.flag(false).flag(true).flag(false).flag(false).flag(true).flag(true).put(7, 5);
    let mut br = BitReader::new(&bits.bytes);
    let pitch_yaw = QAngleDecoder::new(&field("a", Some("qangle_pitch_yaw"), Some(9))).unwrap();
    assert_eq!(
        pitch_yaw.decode(&mut ctx, &mut br),
        FieldValue::QAngle([
            FloatCode::Angle(AngleCode { bits: 9, code: 100 }),
            FloatCode::Angle(AngleCode { bits: 9, code: 200 }),
            FloatCode::Zero,
        ])
    );
    let counted = QAngleDecoder::new(&field("a", None, Some(9))).unwrap();
    assert_eq!(
        counted.decode(&mut ctx, &mut br),
        FieldValue::QAngle([
            FloatCode::Angle(AngleCode { bits: 9, code: 1 }),
            FloatCode::Angle(AngleCode { bits: 9, code: 2 }),
            FloatCode::Angle(AngleCode { bits: 9, code: 3 }),
        ])
    );
    let coords = QAngleDecoder::new(&field("a", Some("qangle"), None)).unwrap();
    let zero = CoordCode { negative: false, whole: 0, fract: 0 };
    assert_eq!(
        coords.decode(&mut ctx, &mut br),
        FieldValue::QAngle([
            FloatCode::Coord(zero),
            FloatCode::Coord(CoordCode { negative: true, whole: 0, fract: 7 }),
            FloatCode::Coord(zero),
        ])
    );
    assert!(!br.is_overflowed());
}

#[test]
fn the_decoder_of_a_field_dispatches() {
    let mut ctx = FieldDecodeContext::new();
    let mut bits = Bits::new();
    bits.flag(true).uvarint(9);
    let mut br = BitReader::new(&bits.bytes);
    assert!(FieldDecoder::Bool(BoolDecoder).is_usable());
    assert!(!FieldDecoder::Invalid(InvalidDecoder).is_usable());
    assert!(!FieldDecoder::QAngle(QAngleDecoder { kind: QAngleKind::BitCount { bit_count: 33 } })
        .is_usable());
    assert_eq!(FieldDecoder::Bool(BoolDecoder).decode(&mut ctx, &mut br), FieldValue::Bool(true));
    assert_eq!(
        FieldDecoder::U64(U64Decoder::default()).decode(&mut ctx, &mut br),
        FieldValue::U64(9)
    );
}

#[test]
fn copies_of_values() {
    let values = [
        FieldValue::I64(-1),
        FieldValue::String(b"abc".to_vec()),
        FieldValue::Vector2([FloatCode::Zero, FloatCode::Ticks(3)]),
    ];
    for v in values.iter() {
        assert_eq!(&v.duplicate(), v);
    }
}

#[test]
fn a_new_context_has_a_buffer_of_zeros() {
    assert_eq!(FieldDecodeContext::new().string_buf(), &vec![0u8; 512]);
    assert_eq!(FieldDecodeContext::default().string_buf(), &vec![0u8; 512]);
    let mut ctx = FieldDecodeContext::new();
    let mut bits = Bits::new();
    bits.cstr("hero");
    let mut br = BitReader::new(&bits.bytes);
    assert_eq!(StringDecoder.decode(&mut ctx, &mut br), FieldValue::String(b"hero".to_vec()));
    assert_eq!(ctx.string_buf().len(), 512);
    assert_eq!(&ctx.string_buf()[..5], b"hero\0");
}

#[test]
fn only_the_string_decoder_changes_the_context() {
    let mut ctx = FieldDecodeContext::new();
    let mut bits = Bits::new();
    bits.cstr("abc").uvarint(300).varint(-3).flag(true).put(7, 32).cstr("z");
    let mut br = BitReader::new(&bits.bytes);
    StringDecoder.decode(&mut ctx, &mut br);
    let mut want = vec![0u8; 512];
    want[..3].copy_from_slice(b"abc");
    assert_eq!(ctx.string_buf(), &want);
    U64Decoder::default().decode(&mut ctx, &mut br);
    I64Decoder.decode(&mut ctx, &mut br);
    BoolDecoder.decode(&mut ctx, &mut br);
    F32Decoder::new(&field("m_flX", None, None)).unwrap().decode(&mut ctx, &mut br);
    assert_eq!(ctx.string_buf(), &want);
    StringDecoder.decode(&mut ctx, &mut br);
    want[0] = b'z';
    want[1] = 0;
    assert_eq!(ctx.string_buf(), &want);
    assert!(!br.is_overflowed());
}

#[test]
fn varint_round_trip_through_the_decoders() {
    let mut ctx = FieldDecodeContext::new();
    for v in [0u64, 1, 127, 128, 300, 1 << 32, u64::MAX - 1, u64::MAX] {
        let bytes = haste::varint::encode_uvarint64(v);
        let mut br = BitReader::new(&bytes);
        assert_eq!(U64Decoder::default().decode(&mut ctx, &mut br), FieldValue::U64(v));
        assert_eq!(br.num_bytes_read(), bytes.len());
        assert_eq!(br.bit_offset(), 0);
        assert!(!br.is_overflowed());
    }
    for v in [0i64, -1, 1, -64, 64, i64::MIN, i64::MAX] {
        let bytes = haste::varint::encode_varint64(v);
        let mut padded = vec![0xffu8];
        padded.extend_from_slice(&bytes);
        padded.push(0xff);
        let mut br = BitReader::new(&padded);
        br.read_byte();
        assert_eq!(I64Decoder.decode(&mut ctx, &mut br), FieldValue::I64(v));
        assert_eq!(br.num_bytes_read(), 1 + bytes.len());
        assert!(!br.is_overflowed());
    }
    assert_eq!(ctx.string_buf(), &vec![0u8; 512]);
}
