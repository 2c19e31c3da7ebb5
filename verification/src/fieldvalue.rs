//! The value of one networked field.

use crate::floatcode::{FloatCode, NormalVectorCode};
use vstd::prelude::*;

verus! {

/// The value of a field, with `S` for the bytes of a string. Real numbers are held as the
/// wire codes that stand for them.
#[derive(Debug, Clone, PartialEq, Eq)]
pub enum FieldValueOf<S> {
    I64(i64),
    U64(u64),
    Bool(bool),
    String(S),
    F32(FloatCode),
    Vector2([FloatCode; 2]),
    Vector3([FloatCode; 3]),
    Vector4([FloatCode; 4]),
    QAngle([FloatCode; 3]),
    /// A unit vector that was sent as two components and a sign.
    UnitVector(NormalVectorCode),
}

/// The value of a field as the library stores it.
pub type FieldValue = FieldValueOf<Vec<u8>>;

/// The value of a field as contracts speak of it.
pub type FieldData = FieldValueOf<Seq<u8>>;

impl View for FieldValueOf<Vec<u8>> {
    type V = FieldValueOf<Seq<u8>>;

    open spec fn view(&self) -> FieldValueOf<Seq<u8>> {
        match *self {
            FieldValueOf::I64(v) => FieldValueOf::I64(v),
            FieldValueOf::U64(v) => FieldValueOf::U64(v),
            FieldValueOf::Bool(v) => FieldValueOf::Bool(v),
            FieldValueOf::String(v) => FieldValueOf::String(v@),
            FieldValueOf::F32(v) => FieldValueOf::F32(v),
            FieldValueOf::Vector2(v) => FieldValueOf::Vector2(v),
            FieldValueOf::Vector3(v) => FieldValueOf::Vector3(v),
            FieldValueOf::Vector4(v) => FieldValueOf::Vector4(v),
            FieldValueOf::QAngle(v) => FieldValueOf::QAngle(v),
            FieldValueOf::UnitVector(v) => FieldValueOf::UnitVector(v),
        }
    }
}

impl FieldValueOf<Vec<u8>> {
    /// A copy of the value.
    pub fn duplicate(&self) -> (r: FieldValue)
        ensures
            r@ == self@,
    {
        match self {
            FieldValueOf::I64(v) => FieldValueOf::I64(*v),
            FieldValueOf::U64(v) => FieldValueOf::U64(*v),
            FieldValueOf::Bool(v) => FieldValueOf::Bool(*v),
            FieldValueOf::String(v) => FieldValueOf::String(v.clone()),
            FieldValueOf::F32(v) => FieldValueOf::F32(*v),
            FieldValueOf::Vector2(v) => FieldValueOf::Vector2(*v),
            FieldValueOf::Vector3(v) => FieldValueOf::Vector3(*v),
            FieldValueOf::Vector4(v) => FieldValueOf::Vector4(*v),
            FieldValueOf::QAngle(v) => FieldValueOf::QAngle(*v),
            FieldValueOf::UnitVector(v) => FieldValueOf::UnitVector(*v),
        }
    }
}

} // verus!
