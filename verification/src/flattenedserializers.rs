//! The schema: named fields with their metadata and decoders, in a tree.

use crate::fielddecoder::FieldDecoder;
use crate::fxhash::{hash_bytes, spec_hash_bytes};
use crate::vartype::VarType;
use std::rc::Rc;
use vstd::prelude::*;

verus! {

/// The hash of a name.
pub open spec fn name_hash(name: Seq<char>) -> u64 {
    spec_hash_bytes(vstd::utf8::encode_utf8(name))
}

/// Computes the hash of a name.
pub fn hash_str(name: &str) -> (r: u64)
    ensures
        r == name_hash(name@),
{
    hash_bytes(name.as_bytes())
}

/// `Rc::clone`: another pointer to the same value.
#[verifier::external_body]
pub(crate) fn share<T>(rc: &Rc<T>) -> (r: Rc<T>)
    ensures
        r == *rc,
{
    Rc::clone(rc)
}

/// A name with its hash.
#[derive(Debug, Clone)]
pub struct Symbol {
    pub hash: u64,
    pub str: String,
}

impl Symbol {
    /// Whether the hash is that of the name.
    pub open spec fn wf(&self) -> bool {
        self.hash == name_hash(self.str@)
    }

    /// Interns a name.
    pub fn new(name: &str) -> (r: Symbol)
        ensures
            r.wf(),
            r.str@ == name@,
            r.hash == name_hash(name@),
    {
        Symbol { hash: hash_str(name), str: name.to_owned() }
    }
}

/// One field of the schema.
#[derive(Debug)]
pub struct FlattenedSerializerField {
    pub var_name: Symbol,
    pub var_type: Symbol,
    pub var_encoder: Option<Symbol>,
    pub bit_count: Option<i32>,
    /// The bit pattern of the single-precision lower bound.
    pub low_value: Option<u32>,
    /// The bit pattern of the single-precision upper bound.
    pub high_value: Option<u32>,
    pub encode_flags: Option<i32>,
    /// What the type of the field is: a value, a pointer to a structure, or an array.
    /// An array has one child, which describes an element; a pointer has the fields of
    /// the structure as children.
    pub kind: VarType,
    pub decoder: FieldDecoder,
    pub children: Rc<Vec<FlattenedSerializerField>>,
}

/// What the choice of a decoder depends on.
#[derive(Debug, Clone, Copy, PartialEq, Eq, Structural)]
pub struct FieldParams {
    pub var_name_hash: u64,
    pub var_encoder_hash: Option<u64>,
    pub bit_count: Option<i32>,
    /// The bit pattern of the single-precision lower bound.
    pub low_value: Option<u32>,
    /// The bit pattern of the single-precision upper bound.
    pub high_value: Option<u32>,
    pub encode_flags: Option<i32>,
}

impl FieldParams {
    /// Whether there is an encoder hint with the hash `rhs`.
    pub open spec fn encoder_is(&self, rhs: u64) -> bool {
        self.var_encoder_hash == Some(rhs)
    }
}

impl FlattenedSerializerField {
    /// What the choice of the field's decoder depends on.
    pub open spec fn spec_params(&self) -> FieldParams {
        FieldParams {
            var_name_hash: self.var_name.hash,
            var_encoder_hash: match self.var_encoder {
                Some(e) => Some(e.hash),
                None => None,
            },
            bit_count: self.bit_count,
            low_value: self.low_value,
            high_value: self.high_value,
            encode_flags: self.encode_flags,
        }
    }

    /// What the choice of the field's decoder depends on.
    pub fn params(&self) -> (r: FieldParams)
        ensures
            r == self.spec_params(),
    {
        FieldParams {
            var_name_hash: self.var_name.hash,
            var_encoder_hash: match &self.var_encoder {
                Some(e) => Some(e.hash),
                None => None,
            },
            bit_count: self.bit_count,
            low_value: self.low_value,
            high_value: self.high_value,
            encode_flags: self.encode_flags,
        }
    }

    /// Whether the field has an encoder hint with the hash `rhs`.
    pub open spec fn spec_var_encoder_heq(&self, rhs: u64) -> bool {
        self.var_encoder matches Some(e) && e.hash == rhs
    }

    /// Whether the field has an encoder hint with the hash `rhs`.
    pub fn var_encoder_heq(&self, rhs: u64) -> (r: bool)
        ensures
            r == self.spec_var_encoder_heq(rhs),
    {
        match &self.var_encoder {
            Some(e) => e.hash == rhs,
            None => false,
        }
    }

    /// Whether the field is an array.
    pub open spec fn spec_is_array(&self) -> bool {
        self.kind is FixedArray || self.kind is DynamicArray
    }

    /// Whether the field is an array, of fixed or of sent length.
    pub fn is_fixed_or_dynamic_array(&self) -> (r: bool)
        ensures
            r == self.spec_is_array(),
    {
        match self.kind {
            VarType::FixedArray { .. } => true,
            VarType::DynamicArray => true,
            _ => false,
        }
    }

    /// The child at `index`, if there is one.
    pub fn get_child(&self, index: usize) -> (r: Option<&FlattenedSerializerField>)
        ensures
            index < self.children@.len() ==> r == Some(&self.children@[index as int]),
            index >= self.children@.len() ==> r is None,
    {
        if index < self.children.len() {
            Some(&self.children[index])
        } else {
            None
        }
    }
}

/// The schema of one class: its name and its fields.
#[derive(Debug)]
pub struct FlattenedSerializer {
    pub serializer_name: Symbol,
    pub fields: Rc<Vec<FlattenedSerializerField>>,
}

impl FlattenedSerializer {
    /// The field at `index`, if there is one.
    pub fn get_child(&self, index: usize) -> (r: Option<&FlattenedSerializerField>)
        ensures
            index < self.fields@.len() ==> r == Some(&self.fields@[index as int]),
            index >= self.fields@.len() ==> r is None,
    {
        if index < self.fields.len() {
            Some(&self.fields[index])
        } else {
            None
        }
    }
}

/// The schemas of all classes.
#[derive(Debug)]
pub struct FlattenedSerializerContainer {
    pub serializers: Vec<Rc<FlattenedSerializer>>,
}

impl FlattenedSerializerContainer {
    /// The position of the first schema whose name has the hash `hash`, among the first
    /// `upto` schemas.
    pub open spec fn position(&self, hash: u64, upto: int) -> Option<int>
        decreases upto,
    {
        if upto <= 0 {
            None
        } else {
            match self.position(hash, upto - 1) {
                Some(i) => Some(i),
                None => if self.serializers@[upto - 1].serializer_name.hash == hash {
                    Some(upto - 1)
                } else {
                    None
                },
            }
        }
    }

    /// The first schema whose name has the hash `hash`, if there is one.
    pub open spec fn spec_by_name_hash(&self, hash: u64) -> Option<Rc<FlattenedSerializer>> {
        match self.position(hash, self.serializers@.len() as int) {
            Some(i) => Some(self.serializers@[i]),
            None => None,
        }
    }

    /// The first schema whose name has the hash `hash`, if there is one.
    pub fn by_name_hash(&self, hash: u64) -> (r: Option<&Rc<FlattenedSerializer>>)
        ensures
            match r {
                Some(ser) => self.spec_by_name_hash(hash) == Some(*ser),
                None => self.spec_by_name_hash(hash) is None,
            },
    {
        let mut i: usize = 0;
        while i < self.serializers.len()
            invariant
                i <= self.serializers@.len(),
                self.position(hash, i as int) is None,
            decreases self.serializers@.len() - i,
        {
            if self.serializers[i].serializer_name.hash == hash {
                proof {
                    self.lemma_position_stays(hash, i as int + 1, self.serializers@.len() as int);
                }
                return Some(&self.serializers[i]);
            }
            i = i + 1;
        }
        None
    }

    /// A schema that was found stays the first.
    pub proof fn lemma_position_stays(&self, hash: u64, at: int, upto: int)
        requires
            0 <= at <= upto,
            self.position(hash, at) is Some,
        ensures
            self.position(hash, upto) == self.position(hash, at),
        decreases upto - at,
    {
        if at < upto {
            self.lemma_position_stays(hash, at, upto - 1);
        }
    }
}

} // verus!
