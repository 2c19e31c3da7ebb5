//! The decoders of field values, and the rules that pick one for a field.

use crate::bitreader::{
    holds_bytes, kept_len, lemma_uvarint64_round_trip, lemma_varint64_round_trip, BitReader,
    BitStream,
};
use crate::fieldvalue::{FieldData, FieldValue, FieldValueOf};
use crate::flattenedserializers::{hash_str, name_hash, FieldParams, FlattenedSerializerField};
use crate::floatcode::FloatCode;
use crate::quantizedfloat::{self, quantized_float, QuantizedFloat};
use crate::varint::{bit_len, encoded, len_for_bits, zigzag};
use vstd::prelude::*;

verus! {

/// The size of the buffer for a string field, terminator included.
pub const DT_MAX_STRING_BUFFERSIZE: usize = 512;

/// Why a field has no decoder.
#[derive(Debug, Clone, Copy, PartialEq, Eq, Structural)]
pub enum Error {
    /// The parameters of a quantized real were refused.
    QuantizedFloat(quantizedfloat::Error),
    /// The field names an encoder that the decoder of its type does not know.
    UnknownEncoder,
    /// An angle asks for more than 32 bits, or for fewer than none.
    InvalidBitCount,
}

/// What a decoder may use besides the stream: a buffer for strings.
#[derive(Debug)]
pub struct FieldDecodeContext {
    string_buf: Vec<u8>,
}

impl View for FieldDecodeContext {
    type V = Seq<u8>;

    /// What a context stands for: the bytes of its buffer for strings.
    closed spec fn view(&self) -> Seq<u8> {
        self.string_buf@
    }
}

/// The buffer that a context starts with: `DT_MAX_STRING_BUFFERSIZE` zero bytes.
pub open spec fn fresh_string_buf() -> Seq<u8> {
    Seq::new(DT_MAX_STRING_BUFFERSIZE as nat, |i: int| 0u8)
}

impl FieldDecodeContext {
    /// A context whose buffer has `DT_MAX_STRING_BUFFERSIZE` bytes, all of them zero.
    pub fn new() -> (r: Self)
        ensures
            r@ == fresh_string_buf(),
    {
        let r = FieldDecodeContext { string_buf: vec![0u8; DT_MAX_STRING_BUFFERSIZE] };
        assert(r@ =~= fresh_string_buf());
        r
    }

    /// The bytes of the buffer for strings.
    pub fn string_buf(&self) -> (r: &Vec<u8>)
        ensures
            r@ == self@,
    {
        &self.string_buf
    }
}

impl Default for FieldDecodeContext {
    /// A context whose buffer has `DT_MAX_STRING_BUFFERSIZE` bytes, all of them zero.
    fn default() -> (r: Self)
        ensures
            r@ == fresh_string_buf(),
    {
        FieldDecodeContext::new()
    }
}

/// A decoder of field values.
pub trait FieldDecode {
    /// Whether the decoder may be asked to decode.
    spec fn usable(&self) -> bool;

    /// The value at the front of `s`, and the stream behind it.
    spec fn decoded(&self, s: BitStream) -> (FieldData, BitStream);

    /// The buffer of the context after a value was read from `s`, where it was `buf` before.
    spec fn buffer_after(&self, buf: Seq<u8>, s: BitStream) -> Seq<u8>;

    /// Reads one value.
    fn decode(&self, ctx: &mut FieldDecodeContext, br: &mut BitReader) -> (r: FieldValue)
        requires
            self.usable(),
        ensures
            (r@, final(br)@) == self.decoded(old(br)@),
            final(ctx)@ == self.buffer_after(old(ctx)@, old(br)@),
    ;
}

/// Stands where a decoder is not chosen yet, while a schema is built, and for a fixed array,
/// which has no value of its own. It is never asked to decode: it is not usable.
#[derive(Debug, Clone, Copy, Default, PartialEq, Eq, Structural)]
pub struct InvalidDecoder;

impl FieldDecode for InvalidDecoder {
    open spec fn usable(&self) -> bool {
        false
    }

    open spec fn decoded(&self, s: BitStream) -> (FieldData, BitStream) {
        (FieldValueOf::Bool(false), s)
    }

    open spec fn buffer_after(&self, buf: Seq<u8>, s: BitStream) -> Seq<u8> {
        buf
    }

    fn decode(&self, ctx: &mut FieldDecodeContext, br: &mut BitReader) -> (r: FieldValue) {
        FieldValueOf::Bool(false)
    }
}

/// Signed whole numbers, as zigzag varints.
#[derive(Debug, Clone, Copy, Default, PartialEq, Eq, Structural)]
pub struct I64Decoder;

impl FieldDecode for I64Decoder {
    open spec fn usable(&self) -> bool {
        true
    }

    open spec fn decoded(&self, s: BitStream) -> (FieldData, BitStream) {
        (FieldValueOf::I64(s.read_varint64().0), s.read_varint64().1)
    }

    open spec fn buffer_after(&self, buf: Seq<u8>, s: BitStream) -> Seq<u8> {
        buf
    }

    fn decode(&self, ctx: &mut FieldDecodeContext, br: &mut BitReader) -> (r: FieldValue) {
        FieldValueOf::I64(br.read_varint64())
    }
}

/// How an unsigned whole number is sent.
#[derive(Debug, Clone, Copy, PartialEq, Eq, Structural)]
pub enum U64Kind {
    /// As a varint.
    Varint,
    /// As eight bytes, low byte first.
    Fixed64,
}

/// Unsigned whole numbers.
#[derive(Debug, Clone, Copy, PartialEq, Eq, Structural)]
pub struct U64Decoder {
    pub kind: U64Kind,
}

/// The decoder of unsigned whole numbers for a field: eight fixed bytes where the field's
/// encoder is `fixed64`, a varint otherwise.
pub open spec fn u64_decoder_for(p: FieldParams) -> U64Decoder {
    if p.encoder_is(name_hash("fixed64"@)) {
        U64Decoder { kind: U64Kind::Fixed64 }
    } else {
        U64Decoder { kind: U64Kind::Varint }
    }
}

impl Default for U64Decoder {
    fn default() -> (r: Self)
        ensures
            r.kind == U64Kind::Varint,
    {
        U64Decoder { kind: U64Kind::Varint }
    }
}

impl U64Decoder {
    /// The decoder that the encoder of `field` asks for.
    pub fn new(field: &FlattenedSerializerField) -> (r: Self)
        ensures
            r == u64_decoder_for(field.spec_params()),
    {
        if field.var_encoder_heq(hash_str("fixed64")) {
            U64Decoder { kind: U64Kind::Fixed64 }
        } else {
            U64Decoder { kind: U64Kind::Varint }
        }
    }
}

/// The number that eight bytes spell, low byte first.
pub open spec fn le_u64(b: Seq<u8>) -> u64 {
    (b[0] + 0x100 * b[1] + 0x1_0000 * b[2] + 0x100_0000 * b[3] + 0x1_0000_0000 * b[4]
        + 0x100_0000_0000 * b[5] + 0x1_0000_0000_0000 * b[6] + 0x100_0000_0000_0000 * b[7]) as u64
}

impl FieldDecode for U64Decoder {
    open spec fn usable(&self) -> bool {
        true
    }

    open spec fn decoded(&self, s: BitStream) -> (FieldData, BitStream) {
        match self.kind {
            U64Kind::Varint => (FieldValueOf::U64(s.read_uvarint64().0), s.read_uvarint64().1),
            U64Kind::Fixed64 => (FieldValueOf::U64(le_u64(s.read_bytes(8).0)), s.read_bytes(8).1),
        }
    }

    open spec fn buffer_after(&self, buf: Seq<u8>, s: BitStream) -> Seq<u8> {
        buf
    }

    fn decode(&self, ctx: &mut FieldDecodeContext, br: &mut BitReader) -> (r: FieldValue) {
        match self.kind {
            U64Kind::Varint => FieldValueOf::U64(br.read_uvarint64()),
            U64Kind::Fixed64 => {
                let mut buf: Vec<u8> = vec![0u8; 8];
                br.read_bytes(&mut buf);
                let lo: u64 = buf[0] as u64 + 0x100 * (buf[1] as u64) + 0x1_0000 * (buf[2] as u64)
                    + 0x100_0000 * (buf[3] as u64);
                let hi: u64 = buf[4] as u64 + 0x100 * (buf[5] as u64) + 0x1_0000 * (buf[6] as u64)
                    + 0x100_0000 * (buf[7] as u64);
                FieldValueOf::U64(lo + 0x1_0000_0000 * hi)
            },
        }
    }
}

/// Round trip through the decoder of unsigned whole numbers: in front of the varint of `v`,
/// at a byte boundary, the decoder gives `v`, moves on by the bytes of the varint, which
/// are a seventh of the bits of `v`, rounded up and at least one, and leaves the buffer of
/// the context as it is.
pub proof fn lemma_u64_decoder_round_trip(s: BitStream, v: u64, buf: Seq<u8>)
    requires
        holds_bytes(s, encoded(v as nat)),
    ensures
        (U64Decoder { kind: U64Kind::Varint }).decoded(s) == (
            FieldValueOf::<Seq<u8>>::U64(v),
            BitStream { pos: s.pos + 8 * len_for_bits(bit_len(v as nat)), ..s },
        ),
        (U64Decoder { kind: U64Kind::Varint }).buffer_after(buf, s) == buf,
        1 <= len_for_bits(bit_len(v as nat)) <= 10,
{
    lemma_uvarint64_round_trip(s, v);
}

/// Round trip through the decoder of signed whole numbers: in front of the varint of the
/// folded `v`, at a byte boundary, the decoder gives `v`, moves on by the bytes of the
/// varint and leaves the buffer of the context as it is.
pub proof fn lemma_i64_decoder_round_trip(s: BitStream, v: i64, buf: Seq<u8>)
    requires
        holds_bytes(s, encoded(zigzag(v) as nat)),
    ensures
        I64Decoder.decoded(s) == (
            FieldValueOf::<Seq<u8>>::I64(v),
            BitStream { pos: s.pos + 8 * len_for_bits(bit_len(zigzag(v) as nat)), ..s },
        ),
        I64Decoder.buffer_after(buf, s) == buf,
        1 <= len_for_bits(bit_len(zigzag(v) as nat)) <= 10,
{
    lemma_varint64_round_trip(s, v);
}

/// Flags, as one bit.
#[derive(Debug, Clone, Copy, Default, PartialEq, Eq, Structural)]
pub struct BoolDecoder;

impl FieldDecode for BoolDecoder {
    open spec fn usable(&self) -> bool {
        true
    }

    open spec fn decoded(&self, s: BitStream) -> (FieldData, BitStream) {
        (FieldValueOf::Bool(s.read_bool().0), s.read_bool().1)
    }

    open spec fn buffer_after(&self, buf: Seq<u8>, s: BitStream) -> Seq<u8> {
        buf
    }

    fn decode(&self, ctx: &mut FieldDecodeContext, br: &mut BitReader) -> (r: FieldValue) {
        FieldValueOf::Bool(br.read_bool())
    }
}

/// Strings, as bytes up to a zero byte; at most 511 bytes are kept.
#[derive(Debug, Clone, Copy, Default, PartialEq, Eq, Structural)]
pub struct StringDecoder;

/// The buffer of a context after a string was read from `s`, where it was `buf` before. A
/// buffer that has not `DT_MAX_STRING_BUFFERSIZE` bytes is replaced by one of zeros first.
/// Then the kept bytes of the string stand at the front, a zero byte follows them, and the
/// rest is what it was.
pub open spec fn string_buf_after(buf: Seq<u8>, s: BitStream) -> Seq<u8> {
    let start = if buf.len() == DT_MAX_STRING_BUFFERSIZE {
        buf
    } else {
        fresh_string_buf()
    };
    let chars = s.read_cstr(false).0;
    let n = kept_len(chars, DT_MAX_STRING_BUFFERSIZE as nat) as int;
    chars.take(n) + seq![0u8] + start.skip(n + 1)
}

impl FieldDecode for StringDecoder {
    open spec fn usable(&self) -> bool {
        true
    }

    open spec fn decoded(&self, s: BitStream) -> (FieldData, BitStream) {
        let (chars, s1) = s.read_cstr(false);
        (
            FieldValueOf::String(chars.take(kept_len(chars, DT_MAX_STRING_BUFFERSIZE as nat) as int)),
            s1,
        )
    }

    open spec fn buffer_after(&self, buf: Seq<u8>, s: BitStream) -> Seq<u8> {
        string_buf_after(buf, s)
    }

    fn decode(&self, ctx: &mut FieldDecodeContext, br: &mut BitReader) -> (r: FieldValue) {
        if ctx.string_buf.len() != DT_MAX_STRING_BUFFERSIZE {
            ctx.string_buf = vec![0u8; DT_MAX_STRING_BUFFERSIZE];
            assert(ctx.string_buf@ =~= fresh_string_buf());
        }
        let ghost start = ctx.string_buf@;
        let n = br.read_string(&mut ctx.string_buf, false);
        proof {
            let chars = old(br)@.read_cstr(false).0;
            assert(ctx.string_buf@ =~= chars.take(n as int) + seq![0u8] + start.skip(n + 1)) by {
                assert forall|j: int| 0 <= j < ctx.string_buf@.len() implies ctx.string_buf@[j] == (
                chars.take(n as int) + seq![0u8] + start.skip(n + 1))[j] by {
                    if j < n {
                        assert(ctx.string_buf@.take(n as int)[j] == chars.take(n as int)[j]);
                    } else if j > n {
                        assert(ctx.string_buf@.skip(n + 1)[j - n - 1] == start.skip(n + 1)[j - n
                            - 1]);
                    }
                }
            }
        }
        let ghost filled = ctx.string_buf@;
        let mut out: Vec<u8> = Vec::with_capacity(n);
        let mut i: usize = 0;
        while i < n
            invariant
                i <= n < ctx.string_buf@.len(),
                ctx.string_buf@ == filled,
                out@ == ctx.string_buf@.take(i as int),
            decreases n - i,
        {
            out.push(ctx.string_buf[i]);
            assert(ctx.string_buf@.take(i + 1) =~= ctx.string_buf@.take(i as int).push(
                ctx.string_buf@[i as int],
            ));
            i = i + 1;
        }
        FieldValueOf::String(out)
    }
}

/// The bit count of a field, zero where it has none.
pub open spec fn bit_count_of(p: FieldParams) -> i32 {
    match p.bit_count {
        Some(b) => b,
        None => 0,
    }
}

/// The encode flags of a field, zero where it has none.
pub open spec fn encode_flags_of(p: FieldParams) -> i32 {
    match p.encode_flags {
        Some(f) => f,
        None => 0,
    }
}

/// The bit pattern of the lower bound of a field, that of zero where it has none.
pub open spec fn low_value_of(p: FieldParams) -> u32 {
    match p.low_value {
        Some(v) => v,
        None => 0,
    }
}

/// The bit pattern of the upper bound of a field, that of zero where it has none.
pub open spec fn high_value_of(p: FieldParams) -> u32 {
    match p.high_value {
        Some(v) => v,
        None => 0,
    }
}

fn exec_bit_count(p: &FieldParams) -> (r: i32)
    ensures
        r == bit_count_of(*p),
{
    match p.bit_count {
        Some(b) => b,
        None => 0,
    }
}

/// Quantized reals with the parameters of a field.
#[derive(Debug, Clone, Copy, PartialEq, Eq, Structural)]
pub struct InternalQuantizedFloatDecoder {
    pub quantized_float: QuantizedFloat,
}

/// The decoder of quantized reals for the bit count, flags and range of a field; what the
/// field lacks counts as zero.
pub open spec fn quantized_decoder_for(p: FieldParams) -> Result<
    InternalQuantizedFloatDecoder,
    Error,
> {
    match quantized_float(bit_count_of(p), encode_flags_of(p), low_value_of(p), high_value_of(p)) {
        Ok(quantized_float) => Ok(InternalQuantizedFloatDecoder { quantized_float }),
        Err(e) => Err(Error::QuantizedFloat(e)),
    }
}

impl InternalQuantizedFloatDecoder {
    /// The decoder for the parameters `p`.
    pub fn from_params(p: &FieldParams) -> (r: Result<Self, Error>)
        ensures
            r == quantized_decoder_for(*p),
            r matches Ok(d) ==> d.quantized_float.wf(),
    {
        let flags = match p.encode_flags {
            Some(f) => f,
            None => 0,
        };
        let low = match p.low_value {
            Some(v) => v,
            None => 0,
        };
        let high = match p.high_value {
            Some(v) => v,
            None => 0,
        };
        match QuantizedFloat::new(exec_bit_count(p), flags, low, high) {
            Ok(quantized_float) => Ok(InternalQuantizedFloatDecoder { quantized_float }),
            Err(e) => Err(Error::QuantizedFloat(e)),
        }
    }

    /// The decoder for the bit count, flags and range of `field`.
    pub fn new(field: &FlattenedSerializerField) -> (r: Result<Self, Error>)
        ensures
            r == quantized_decoder_for(field.spec_params()),
            r matches Ok(d) ==> d.quantized_float.wf(),
    {
        InternalQuantizedFloatDecoder::from_params(&field.params())
    }
}

/// How a real number is sent.
#[derive(Debug, Clone, Copy, PartialEq, Eq, Structural)]
pub enum F32Kind {
    /// A time, as a count of ticks in a varint.
    SimulationTime,
    /// A world coordinate.
    Coord,
    /// A component of a unit vector.
    Normal,
    /// The 32 bits of a single-precision number.
    NoScale,
    /// A step of a range.
    Quantized(InternalQuantizedFloatDecoder),
}

/// Real numbers, in the form that the metadata of the field ask for.
#[derive(Debug, Clone, Copy, PartialEq, Eq, Structural)]
pub struct InternalF32Decoder {
    pub kind: F32Kind,
}

/// The rule for real numbers. A field named `m_flSimulationTime` or `m_flAnimTime` is a
/// time. Otherwise an encoder decides, and only `coord` and `normal` are known. Without an
/// encoder a bit count of 0 or 32 means plain bits, any other a quantized real.
pub open spec fn f32_decoder_for(p: FieldParams) -> Result<InternalF32Decoder, Error> {
    if p.var_name_hash == name_hash("m_flSimulationTime"@) || p.var_name_hash == name_hash(
        "m_flAnimTime"@,
    ) {
        Ok(InternalF32Decoder { kind: F32Kind::SimulationTime })
    } else if p.encoder_is(name_hash("coord"@)) {
        Ok(InternalF32Decoder { kind: F32Kind::Coord })
    } else if p.encoder_is(name_hash("normal"@)) {
        Ok(InternalF32Decoder { kind: F32Kind::Normal })
    } else if p.var_encoder_hash is Some {
        Err(Error::UnknownEncoder)
    } else if bit_count_of(p) == 0 || bit_count_of(p) == 32 {
        Ok(InternalF32Decoder { kind: F32Kind::NoScale })
    } else {
        match quantized_decoder_for(p) {
            Ok(q) => Ok(InternalF32Decoder { kind: F32Kind::Quantized(q) }),
            Err(e) => Err(e),
        }
    }
}

impl InternalF32Decoder {
    /// Whether the decoder may be asked to decode.
    pub open spec fn usable(&self) -> bool {
        match self.kind {
            F32Kind::Quantized(q) => q.quantized_float.wf(),
            _ => true,
        }
    }

    /// Whether the decoder may be asked to decode.
    pub fn is_usable(&self) -> (r: bool)
        ensures
            r == self.usable(),
    {
        match &self.kind {
            F32Kind::Quantized(q) => q.quantized_float.is_wf(),
            _ => true,
        }
    }

    /// The code at the front of `s`, and the stream behind it.
    pub open spec fn decoded(&self, s: BitStream) -> (FloatCode, BitStream) {
        match self.kind {
            F32Kind::SimulationTime => (FloatCode::Ticks(s.read_uvarint32().0), s.read_uvarint32().1),
            F32Kind::Coord => (FloatCode::Coord(s.read_bitcoord().0), s.read_bitcoord().1),
            F32Kind::Normal => (FloatCode::Normal(s.read_bitnormal().0), s.read_bitnormal().1),
            F32Kind::NoScale => (FloatCode::Bits(s.read_bitfloat().0), s.read_bitfloat().1),
            F32Kind::Quantized(q) => q.quantized_float.decoded(s),
        }
    }

    /// The decoder that the parameters `p` ask for.
    pub fn from_params(p: &FieldParams) -> (r: Result<Self, Error>)
        ensures
            r == f32_decoder_for(*p),
            r matches Ok(d) ==> d.usable(),
    {
        if p.var_name_hash == hash_str("m_flSimulationTime") || p.var_name_hash == hash_str(
            "m_flAnimTime",
        ) {
            return Ok(InternalF32Decoder { kind: F32Kind::SimulationTime });
        }
        match p.var_encoder_hash {
            Some(hash) => {
                if hash == hash_str("coord") {
                    return Ok(InternalF32Decoder { kind: F32Kind::Coord });
                }
                if hash == hash_str("normal") {
                    return Ok(InternalF32Decoder { kind: F32Kind::Normal });
                }
                return Err(Error::UnknownEncoder);
            },
            None => {},
        }
        let bit_count = exec_bit_count(p);
        if bit_count == 0 || bit_count == 32 {
            return Ok(InternalF32Decoder { kind: F32Kind::NoScale });
        }
        match InternalQuantizedFloatDecoder::from_params(p) {
            Ok(q) => Ok(InternalF32Decoder { kind: F32Kind::Quantized(q) }),
            Err(e) => Err(e),
        }
    }

    /// The decoder that the name, encoder and bit count of `field` ask for.
    pub fn new(field: &FlattenedSerializerField) -> (r: Result<Self, Error>)
        ensures
            r == f32_decoder_for(field.spec_params()),
            r matches Ok(d) ==> d.usable(),
    {
        InternalF32Decoder::from_params(&field.params())
    }

    /// Reads one real number.
    pub fn decode(&self, ctx: &mut FieldDecodeContext, br: &mut BitReader) -> (r: FloatCode)
        requires
            self.usable(),
        ensures
            (r, final(br)@) == self.decoded(old(br)@),
            final(ctx)@ == old(ctx)@,
    {
        match &self.kind {
            F32Kind::SimulationTime => FloatCode::Ticks(br.read_uvarint32()),
            F32Kind::Coord => FloatCode::Coord(br.read_bitcoord()),
            F32Kind::Normal => FloatCode::Normal(br.read_bitnormal()),
            F32Kind::NoScale => FloatCode::Bits(br.read_bitfloat()),
            F32Kind::Quantized(q) => q.quantized_float.decode(br),
        }
    }
}

/// Real numbers as field values.
#[derive(Debug, Clone, Copy, PartialEq, Eq, Structural)]
pub struct F32Decoder {
    pub decoder: InternalF32Decoder,
}

/// The decoder of real numbers for a field.
pub open spec fn f32_field_decoder_for(p: FieldParams) -> Result<F32Decoder, Error> {
    match f32_decoder_for(p) {
        Ok(decoder) => Ok(F32Decoder { decoder }),
        Err(e) => Err(e),
    }
}

impl F32Decoder {
    /// The decoder that the metadata of `field` ask for.
    pub fn new(field: &FlattenedSerializerField) -> (r: Result<Self, Error>)
        ensures
            r == f32_field_decoder_for(field.spec_params()),
            r matches Ok(d) ==> d.usable(),
    {
        match InternalF32Decoder::new(field) {
            Ok(decoder) => Ok(F32Decoder { decoder }),
            Err(e) => Err(e),
        }
    }
}

impl FieldDecode for F32Decoder {
    open spec fn usable(&self) -> bool {
        self.decoder.usable()
    }

    open spec fn decoded(&self, s: BitStream) -> (FieldData, BitStream) {
        (FieldValueOf::F32(self.decoder.decoded(s).0), self.decoder.decoded(s).1)
    }

    open spec fn buffer_after(&self, buf: Seq<u8>, s: BitStream) -> Seq<u8> {
        buf
    }

    fn decode(&self, ctx: &mut FieldDecodeContext, br: &mut BitReader) -> (r: FieldValue) {
        FieldValueOf::F32(self.decoder.decode(ctx, br))
    }
}

/// Pairs of real numbers.
#[derive(Debug, Clone, Copy, PartialEq, Eq, Structural)]
pub struct Vector2Decoder {
    pub decoder: InternalF32Decoder,
}

/// The decoder of pairs of real numbers for a field.
pub open spec fn vector2_decoder_for(p: FieldParams) -> Result<Vector2Decoder, Error> {
    match f32_decoder_for(p) {
        Ok(decoder) => Ok(Vector2Decoder { decoder }),
        Err(e) => Err(e),
    }
}

impl Vector2Decoder {
    /// The decoder whose components are sent as the metadata of `field` ask.
    pub fn new(field: &FlattenedSerializerField) -> (r: Result<Self, Error>)
        ensures
            r == vector2_decoder_for(field.spec_params()),
            r matches Ok(d) ==> d.usable(),
    {
        match InternalF32Decoder::new(field) {
            Ok(decoder) => Ok(Vector2Decoder { decoder }),
            Err(e) => Err(e),
        }
    }
}

impl FieldDecode for Vector2Decoder {
    open spec fn usable(&self) -> bool {
        self.decoder.usable()
    }

    open spec fn decoded(&self, s: BitStream) -> (FieldData, BitStream) {
        let (x, s1) = self.decoder.decoded(s);
        let (y, s2) = self.decoder.decoded(s1);
        (FieldValueOf::Vector2([x, y]), s2)
    }

    open spec fn buffer_after(&self, buf: Seq<u8>, s: BitStream) -> Seq<u8> {
        buf
    }

    fn decode(&self, ctx: &mut FieldDecodeContext, br: &mut BitReader) -> (r: FieldValue) {
        let x = self.decoder.decode(ctx, br);
        let y = self.decoder.decode(ctx, br);
        FieldValueOf::Vector2([x, y])
    }
}

/// How a vector of three is sent.
#[derive(Debug, Clone, Copy, PartialEq, Eq, Structural)]
pub enum Vector3Kind {
    /// As a unit vector: two components and the sign of the third.
    Normal,
    /// As three real numbers.
    Default(InternalF32Decoder),
}

/// Vectors of three real numbers.
#[derive(Debug, Clone, Copy, PartialEq, Eq, Structural)]
pub struct Vector3Decoder {
    pub kind: Vector3Kind,
}

/// The decoder of vectors of three for a field: a unit vector where the field's encoder is
/// `normal`, three real numbers as the metadata ask otherwise.
pub open spec fn vector3_decoder_for(p: FieldParams) -> Result<Vector3Decoder, Error> {
    if p.encoder_is(name_hash("normal"@)) {
        Ok(Vector3Decoder { kind: Vector3Kind::Normal })
    } else {
        match f32_decoder_for(p) {
            Ok(decoder) => Ok(Vector3Decoder { kind: Vector3Kind::Default(decoder) }),
            Err(e) => Err(e),
        }
    }
}

impl Vector3Decoder {
    /// The decoder that the metadata of `field` ask for.
    pub fn new(field: &FlattenedSerializerField) -> (r: Result<Self, Error>)
        ensures
            r == vector3_decoder_for(field.spec_params()),
            r matches Ok(d) ==> d.usable(),
    {
        if field.var_encoder_heq(hash_str("normal")) {
            Ok(Vector3Decoder { kind: Vector3Kind::Normal })
        } else {
            match InternalF32Decoder::new(field) {
                Ok(decoder) => Ok(Vector3Decoder { kind: Vector3Kind::Default(decoder) }),
                Err(e) => Err(e),
            }
        }
    }
}

impl FieldDecode for Vector3Decoder {
    open spec fn usable(&self) -> bool {
        match self.kind {
            Vector3Kind::Normal => true,
            Vector3Kind::Default(d) => d.usable(),
        }
    }

    open spec fn decoded(&self, s: BitStream) -> (FieldData, BitStream) {
        match self.kind {
            Vector3Kind::Normal => (
                FieldValueOf::UnitVector(s.read_bitvec3normal().0),
                s.read_bitvec3normal().1,
            ),
            Vector3Kind::Default(d) => {
                let (x, s1) = d.decoded(s);
                let (y, s2) = d.decoded(s1);
                let (z, s3) = d.decoded(s2);
                (FieldValueOf::Vector3([x, y, z]), s3)
            },
        }
    }

    open spec fn buffer_after(&self, buf: Seq<u8>, s: BitStream) -> Seq<u8> {
        buf
    }

    fn decode(&self, ctx: &mut FieldDecodeContext, br: &mut BitReader) -> (r: FieldValue) {
        match &self.kind {
            Vector3Kind::Normal => FieldValueOf::UnitVector(br.read_bitvec3normal()),
            Vector3Kind::Default(d) => {
                let x = d.decode(ctx, br);
                let y = d.decode(ctx, br);
                let z = d.decode(ctx, br);
                FieldValueOf::Vector3([x, y, z])
            },
        }
    }
}

/// Vectors of four real numbers.
#[derive(Debug, Clone, Copy, PartialEq, Eq, Structural)]
pub struct Vector4Decoder {
    pub decoder: InternalF32Decoder,
}

/// The decoder of vectors of four for a field.
pub open spec fn vector4_decoder_for(p: FieldParams) -> Result<Vector4Decoder, Error> {
    match f32_decoder_for(p) {
        Ok(decoder) => Ok(Vector4Decoder { decoder }),
        Err(e) => Err(e),
    }
}

impl Vector4Decoder {
    /// The decoder whose components are sent as the metadata of `field` ask.
    pub fn new(field: &FlattenedSerializerField) -> (r: Result<Self, Error>)
        ensures
            r == vector4_decoder_for(field.spec_params()),
            r matches Ok(d) ==> d.usable(),
    {
        match InternalF32Decoder::new(field) {
            Ok(decoder) => Ok(Vector4Decoder { decoder }),
            Err(e) => Err(e),
        }
    }
}

impl FieldDecode for Vector4Decoder {
    open spec fn usable(&self) -> bool {
        self.decoder.usable()
    }

    open spec fn decoded(&self, s: BitStream) -> (FieldData, BitStream) {
        let (x, s1) = self.decoder.decoded(s);
        let (y, s2) = self.decoder.decoded(s1);
        let (z, s3) = self.decoder.decoded(s2);
        let (w, s4) = self.decoder.decoded(s3);
        (FieldValueOf::Vector4([x, y, z, w]), s4)
    }

    open spec fn buffer_after(&self, buf: Seq<u8>, s: BitStream) -> Seq<u8> {
        buf
    }

    fn decode(&self, ctx: &mut FieldDecodeContext, br: &mut BitReader) -> (r: FieldValue) {
        let x = self.decoder.decode(ctx, br);
        let y = self.decoder.decode(ctx, br);
        let z = self.decoder.decode(ctx, br);
        let w = self.decoder.decode(ctx, br);
        FieldValueOf::Vector4([x, y, z, w])
    }
}

/// How three angles are sent.
#[derive(Debug, Clone, Copy, PartialEq, Eq, Structural)]
pub enum QAngleKind {
    /// Pitch and yaw with `bit_count` bits each; roll is zero.
    PitchYaw { bit_count: u32 },
    /// Three world coordinates behind three flags.
    NoBitCount,
    /// Three flags, then 20 bits for each angle whose flag is set; the others are zero.
    Precise,
    /// Three angles with `bit_count` bits each.
    BitCount { bit_count: u32 },
}

/// Triples of angles.
#[derive(Debug, Clone, Copy, PartialEq, Eq, Structural)]
pub struct QAngleDecoder {
    pub kind: QAngleKind,
}

/// The rule for angles. The encoder `qangle_pitch_yaw` asks for pitch and yaw alone,
/// `qangle_precise` for the precise form. With `qangle`, `QAngle` or no encoder the bit count
/// decides: zero means coordinates, any other that many bits for each angle. Other encoders
/// are unknown. A form that reads angles needs a bit count from 0 to 32.
pub open spec fn qangle_decoder_for(p: FieldParams) -> Result<QAngleDecoder, Error> {
    let bits = bit_count_of(p);
    if p.encoder_is(name_hash("qangle_pitch_yaw"@)) {
        if 0 <= bits <= 32 {
            Ok(QAngleDecoder { kind: QAngleKind::PitchYaw { bit_count: bits as u32 } })
        } else {
            Err(Error::InvalidBitCount)
        }
    } else if p.encoder_is(name_hash("qangle_precise"@)) {
        Ok(QAngleDecoder { kind: QAngleKind::Precise })
    } else if p.var_encoder_hash is Some && !p.encoder_is(name_hash("qangle"@)) && !p.encoder_is(
        name_hash("QAngle"@),
    ) {
        Err(Error::UnknownEncoder)
    } else if bits == 0 {
        Ok(QAngleDecoder { kind: QAngleKind::NoBitCount })
    } else if 0 <= bits <= 32 {
        Ok(QAngleDecoder { kind: QAngleKind::BitCount { bit_count: bits as u32 } })
    } else {
        Err(Error::InvalidBitCount)
    }
}

impl QAngleDecoder {
    /// The decoder that the encoder and bit count of `field` ask for.
    pub fn new(field: &FlattenedSerializerField) -> (r: Result<Self, Error>)
        ensures
            r == qangle_decoder_for(field.spec_params()),
            r matches Ok(d) ==> d.usable(),
    {
        let p = field.params();
        let bit_count = exec_bit_count(&p);
        match p.var_encoder_hash {
            Some(hash) => {
                if hash == hash_str("qangle_pitch_yaw") {
                    if bit_count < 0 || bit_count > 32 {
                        return Err(Error::InvalidBitCount);
                    }
                    return Ok(
                        QAngleDecoder { kind: QAngleKind::PitchYaw { bit_count: bit_count as u32 } },
                    );
                }
                if hash == hash_str("qangle_precise") {
                    return Ok(QAngleDecoder { kind: QAngleKind::Precise });
                }
                if hash != hash_str("qangle") && hash != hash_str("QAngle") {
                    return Err(Error::UnknownEncoder);
                }
            },
            None => {},
        }
        if bit_count == 0 {
            return Ok(QAngleDecoder { kind: QAngleKind::NoBitCount });
        }
        if bit_count < 0 || bit_count > 32 {
            return Err(Error::InvalidBitCount);
        }
        Ok(QAngleDecoder { kind: QAngleKind::BitCount { bit_count: bit_count as u32 } })
    }
}

impl FieldDecode for QAngleDecoder {
    open spec fn usable(&self) -> bool {
        match self.kind {
            QAngleKind::PitchYaw { bit_count } => bit_count <= 32,
            QAngleKind::BitCount { bit_count } => bit_count <= 32,
            _ => true,
        }
    }

    open spec fn decoded(&self, s: BitStream) -> (FieldData, BitStream) {
        match self.kind {
            QAngleKind::PitchYaw { bit_count } => {
                let (x, s1) = s.read_bitangle(bit_count);
                let (y, s2) = s1.read_bitangle(bit_count);
                (
                    FieldValueOf::QAngle([FloatCode::Angle(x), FloatCode::Angle(y), FloatCode::Zero]),
                    s2,
                )
            },
            QAngleKind::NoBitCount => {
                let (v, s1) = s.read_bitvec3coord();
                (
                    FieldValueOf::QAngle(
                        [FloatCode::Coord(v[0]), FloatCode::Coord(v[1]), FloatCode::Coord(v[2])],
                    ),
                    s1,
                )
            },
            QAngleKind::Precise => {
                let (has_x, s1) = s.read_bool();
                let (has_y, s2) = s1.read_bool();
                let (has_z, s3) = s2.read_bool();
                let (x, s4) = precise_angle(has_x, s3);
                let (y, s5) = precise_angle(has_y, s4);
                let (z, s6) = precise_angle(has_z, s5);
                (FieldValueOf::QAngle([x, y, z]), s6)
            },
            QAngleKind::BitCount { bit_count } => {
                let (x, s1) = s.read_bitangle(bit_count);
                let (y, s2) = s1.read_bitangle(bit_count);
                let (z, s3) = s2.read_bitangle(bit_count);
                (
                    FieldValueOf::QAngle(
                        [FloatCode::Angle(x), FloatCode::Angle(y), FloatCode::Angle(z)],
                    ),
                    s3,
                )
            },
        }
    }

    open spec fn buffer_after(&self, buf: Seq<u8>, s: BitStream) -> Seq<u8> {
        buf
    }

    fn decode(&self, ctx: &mut FieldDecodeContext, br: &mut BitReader) -> (r: FieldValue) {
        match self.kind {
            QAngleKind::PitchYaw { bit_count } => {
                let x = br.read_bitangle(bit_count);
                let y = br.read_bitangle(bit_count);
                FieldValueOf::QAngle([FloatCode::Angle(x), FloatCode::Angle(y), FloatCode::Zero])
            },
            QAngleKind::NoBitCount => {
                let v = br.read_bitvec3coord();
                FieldValueOf::QAngle(
                    [FloatCode::Coord(v[0]), FloatCode::Coord(v[1]), FloatCode::Coord(v[2])],
                )
            },
            QAngleKind::Precise => {
                let has_x = br.read_bool();
                let has_y = br.read_bool();
                let has_z = br.read_bool();
                let x = if has_x {
                    FloatCode::Angle(br.read_bitangle(20))
                } else {
                    FloatCode::Zero
                };
                let y = if has_y {
                    FloatCode::Angle(br.read_bitangle(20))
                } else {
                    FloatCode::Zero
                };
                let z = if has_z {
                    FloatCode::Angle(br.read_bitangle(20))
                } else {
                    FloatCode::Zero
                };
                FieldValueOf::QAngle([x, y, z])
            },
            QAngleKind::BitCount { bit_count } => {
                let x = br.read_bitangle(bit_count);
                let y = br.read_bitangle(bit_count);
                let z = br.read_bitangle(bit_count);
                FieldValueOf::QAngle([FloatCode::Angle(x), FloatCode::Angle(y), FloatCode::Angle(z)])
            },
        }
    }
}

/// An angle of 20 bits where `present`, zero otherwise.
pub open spec fn precise_angle(present: bool, s: BitStream) -> (FloatCode, BitStream) {
    if present {
        (FloatCode::Angle(s.read_bitangle(20).0), s.read_bitangle(20).1)
    } else {
        (FloatCode::Zero, s)
    }
}

/// The decoder of a field: one of the decoders of this module.
#[derive(Debug, Clone, Copy, PartialEq, Eq, Structural)]
pub enum FieldDecoder {
    Invalid(InvalidDecoder),
    I64(I64Decoder),
    U64(U64Decoder),
    Bool(BoolDecoder),
    String(StringDecoder),
    F32(F32Decoder),
    Vector2(Vector2Decoder),
    Vector3(Vector3Decoder),
    Vector4(Vector4Decoder),
    QAngle(QAngleDecoder),
}

impl FieldDecoder {
    /// Whether the decoder may be asked to decode.
    pub fn is_usable(&self) -> (r: bool)
        ensures
            r == self.usable(),
    {
        match self {
            FieldDecoder::Invalid(_) => false,
            FieldDecoder::F32(d) => d.decoder.is_usable(),
            FieldDecoder::Vector2(d) => d.decoder.is_usable(),
            FieldDecoder::Vector3(d) => match &d.kind {
                Vector3Kind::Normal => true,
                Vector3Kind::Default(f) => f.is_usable(),
            },
            FieldDecoder::Vector4(d) => d.decoder.is_usable(),
            FieldDecoder::QAngle(d) => match d.kind {
                QAngleKind::PitchYaw { bit_count } => bit_count <= 32,
                QAngleKind::BitCount { bit_count } => bit_count <= 32,
                _ => true,
            },
            _ => true,
        }
    }
}

impl FieldDecode for FieldDecoder {
    open spec fn usable(&self) -> bool {
        match self {
            FieldDecoder::Invalid(d) => d.usable(),
            FieldDecoder::I64(d) => d.usable(),
            FieldDecoder::U64(d) => d.usable(),
            FieldDecoder::Bool(d) => d.usable(),
            FieldDecoder::String(d) => d.usable(),
            FieldDecoder::F32(d) => d.usable(),
            FieldDecoder::Vector2(d) => d.usable(),
            FieldDecoder::Vector3(d) => d.usable(),
            FieldDecoder::Vector4(d) => d.usable(),
            FieldDecoder::QAngle(d) => d.usable(),
        }
    }

    open spec fn decoded(&self, s: BitStream) -> (FieldData, BitStream) {
        match self {
            FieldDecoder::Invalid(d) => d.decoded(s),
            FieldDecoder::I64(d) => d.decoded(s),
            FieldDecoder::U64(d) => d.decoded(s),
            FieldDecoder::Bool(d) => d.decoded(s),
            FieldDecoder::String(d) => d.decoded(s),
            FieldDecoder::F32(d) => d.decoded(s),
            FieldDecoder::Vector2(d) => d.decoded(s),
            FieldDecoder::Vector3(d) => d.decoded(s),
            FieldDecoder::Vector4(d) => d.decoded(s),
            FieldDecoder::QAngle(d) => d.decoded(s),
        }
    }

    open spec fn buffer_after(&self, buf: Seq<u8>, s: BitStream) -> Seq<u8> {
        match self {
            FieldDecoder::String(d) => d.buffer_after(buf, s),
            _ => buf,
        }
    }

    fn decode(&self, ctx: &mut FieldDecodeContext, br: &mut BitReader) -> (r: FieldValue) {
        match self {
            FieldDecoder::Invalid(d) => d.decode(ctx, br),
            FieldDecoder::I64(d) => d.decode(ctx, br),
            FieldDecoder::U64(d) => d.decode(ctx, br),
            FieldDecoder::Bool(d) => d.decode(ctx, br),
            FieldDecoder::String(d) => d.decode(ctx, br),
            FieldDecoder::F32(d) => d.decode(ctx, br),
            FieldDecoder::Vector2(d) => d.decode(ctx, br),
            FieldDecoder::Vector3(d) => d.decode(ctx, br),
            FieldDecoder::Vector4(d) => d.decode(ctx, br),
            FieldDecoder::QAngle(d) => d.decode(ctx, br),
        }
    }
}

} // verus!
