//! The rule that picks the decoder of a field from its type.

use crate::fielddecoder::{
    f32_field_decoder_for, qangle_decoder_for, u64_decoder_for, vector2_decoder_for,
    vector3_decoder_for, vector4_decoder_for, BoolDecoder, Error, F32Decoder, FieldDecode,
    FieldDecoder, I64Decoder, InvalidDecoder, QAngleDecoder, StringDecoder, U64Decoder, U64Kind,
    Vector2Decoder, Vector3Decoder, Vector4Decoder,
};
use crate::flattenedserializers::{hash_str, name_hash, FieldParams, FlattenedSerializerField};
use crate::fxhash::{hash_bytes, spec_hash_bytes};
use crate::vartype::VarType;
use vstd::prelude::*;

verus! {

/// Whether `hash` is that of the name of a signed whole number.
pub open spec fn is_signed(hash: u64) -> bool {
    ||| hash == name_hash("int8"@)
    ||| hash == name_hash("int16"@)
    ||| hash == name_hash("int32"@)
    ||| hash == name_hash("int64"@)
}

/// Whether `hash` is that of the name of an unsigned whole number.
pub open spec fn is_unsigned(hash: u64) -> bool {
    ||| hash == name_hash("uint8"@)
    ||| hash == name_hash("uint16"@)
    ||| hash == name_hash("uint32"@)
    ||| hash == name_hash("uint64"@)
}

/// Whether `hash` is that of the name of a string type.
pub open spec fn is_string(hash: u64) -> bool {
    ||| hash == name_hash("char"@)
    ||| hash == name_hash("CUtlString"@)
    ||| hash == name_hash("CUtlSymbolLarge"@)
}

/// The decoder of a value of the type whose name has the hash `type_hash`.
///
/// `bool` is a flag; the signed and the unsigned whole numbers are varints, the unsigned
/// ones with the choice of eight fixed bytes; the string types are strings; `float32`,
/// `Vector2D`, `Vector`, `Vector4D` and `QAngle` are reals, vectors and angles as the
/// metadata ask; a `CHandle` and a value of any other type is an unsigned varint.
pub open spec fn scalar_decoder_for(type_hash: u64, p: FieldParams) -> Result<FieldDecoder, Error> {
    if type_hash == name_hash("bool"@) {
        Ok(FieldDecoder::Bool(BoolDecoder))
    } else if is_signed(type_hash) {
        Ok(FieldDecoder::I64(I64Decoder))
    } else if is_unsigned(type_hash) {
        Ok(FieldDecoder::U64(u64_decoder_for(p)))
    } else if is_string(type_hash) {
        Ok(FieldDecoder::String(StringDecoder))
    } else if type_hash == name_hash("float32"@) {
        match f32_field_decoder_for(p) {
            Ok(d) => Ok(FieldDecoder::F32(d)),
            Err(e) => Err(e),
        }
    } else if type_hash == name_hash("Vector2D"@) {
        match vector2_decoder_for(p) {
            Ok(d) => Ok(FieldDecoder::Vector2(d)),
            Err(e) => Err(e),
        }
    } else if type_hash == name_hash("Vector"@) {
        match vector3_decoder_for(p) {
            Ok(d) => Ok(FieldDecoder::Vector3(d)),
            Err(e) => Err(e),
        }
    } else if type_hash == name_hash("Vector4D"@) {
        match vector4_decoder_for(p) {
            Ok(d) => Ok(FieldDecoder::Vector4(d)),
            Err(e) => Err(e),
        }
    } else if type_hash == name_hash("QAngle"@) {
        match qangle_decoder_for(p) {
            Ok(d) => Ok(FieldDecoder::QAngle(d)),
            Err(e) => Err(e),
        }
    } else {
        Ok(FieldDecoder::U64(U64Decoder { kind: U64Kind::Varint }))
    }
}

/// The decoder of a field of the kind `kind` whose type name has the hash `type_hash`. A
/// pointer is sent as a flag that says whether the structure is there, a vector as its
/// length; a fixed array has no value of its own, and no decoder.
pub open spec fn decoder_for(kind: VarType, type_hash: u64, p: FieldParams) -> Result<
    FieldDecoder,
    Error,
> {
    match kind {
        VarType::Scalar => scalar_decoder_for(type_hash, p),
        VarType::Pointer => Ok(FieldDecoder::Bool(BoolDecoder)),
        VarType::FixedArray { .. } => Ok(FieldDecoder::Invalid(InvalidDecoder)),
        VarType::DynamicArray => Ok(FieldDecoder::U64(U64Decoder { kind: U64Kind::Varint })),
    }
}

/// Picks the decoder of `field`, which has the kind `kind` and the type `name_of_type`.
pub fn get_field_decoder(kind: VarType, name_of_type: &[u8], field: &FlattenedSerializerField) -> (r:
    Result<FieldDecoder, Error>)
    ensures
        r == decoder_for(kind, spec_hash_bytes(name_of_type@), field.spec_params()),
        r matches Ok(d) ==> d.usable() || d is Invalid,
{
    match kind {
        VarType::Pointer => {
            return Ok(FieldDecoder::Bool(BoolDecoder));
        },
        VarType::FixedArray { .. } => {
            return Ok(FieldDecoder::Invalid(InvalidDecoder));
        },
        VarType::DynamicArray => {
            return Ok(FieldDecoder::U64(U64Decoder { kind: U64Kind::Varint }));
        },
        VarType::Scalar => {},
    }
    let hash = hash_bytes(name_of_type);
    if hash == hash_str("bool") {
        Ok(FieldDecoder::Bool(BoolDecoder))
    } else if hash == hash_str("int8") || hash == hash_str("int16") || hash == hash_str("int32")
        || hash == hash_str("int64") {
        Ok(FieldDecoder::I64(I64Decoder))
    } else if hash == hash_str("uint8") || hash == hash_str("uint16") || hash == hash_str("uint32")
        || hash == hash_str("uint64") {
        Ok(FieldDecoder::U64(U64Decoder::new(field)))
    } else if hash == hash_str("char") || hash == hash_str("CUtlString") || hash == hash_str(
        "CUtlSymbolLarge",
    ) {
        Ok(FieldDecoder::String(StringDecoder))
    } else if hash == hash_str("float32") {
        match F32Decoder::new(field) {
            Ok(d) => Ok(FieldDecoder::F32(d)),
            Err(e) => Err(e),
        }
    } else if hash == hash_str("Vector2D") {
        match Vector2Decoder::new(field) {
            Ok(d) => Ok(FieldDecoder::Vector2(d)),
            Err(e) => Err(e),
        }
    } else if hash == hash_str("Vector") {
        match Vector3Decoder::new(field) {
            Ok(d) => Ok(FieldDecoder::Vector3(d)),
            Err(e) => Err(e),
        }
    } else if hash == hash_str("Vector4D") {
        match Vector4Decoder::new(field) {
            Ok(d) => Ok(FieldDecoder::Vector4(d)),
            Err(e) => Err(e),
        }
    } else if hash == hash_str("QAngle") {
        match QAngleDecoder::new(field) {
            Ok(d) => Ok(FieldDecoder::QAngle(d)),
            Err(e) => Err(e),
        }
    } else {
        Ok(FieldDecoder::U64(U64Decoder { kind: U64Kind::Varint }))
    }
}

} // verus!
