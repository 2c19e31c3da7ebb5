//! The schema message: a table of names, a table of fields that refer to names, and a list
//! of schemas that refer to fields. From it the schemas are built, one after the other; a
//! field that is a structure refers by name to a schema that was built before.

use crate::fielddecoder::{self, BoolDecoder, FieldDecoder, InvalidDecoder, U64Decoder, U64Kind};
use crate::fieldmetadata::{decoder_for, get_field_decoder};
use crate::flattenedserializers::{
    name_hash, share, FieldParams, FlattenedSerializer, FlattenedSerializerContainer,
    FlattenedSerializerField, Symbol,
};
use crate::fxhash::spec_hash_bytes;
use crate::vartype::{self, parsed, ParsedVarType, VarType};
use std::rc::Rc;
use vstd::prelude::*;

verus! {

/// One field of the message. The names are positions in the table of names.
#[derive(Debug, Clone, Copy, PartialEq, Eq, Structural)]
pub struct ProtoFlattenedSerializerField {
    pub var_type_sym: i32,
    pub var_name_sym: i32,
    pub bit_count: Option<i32>,
    /// The bit pattern of the single-precision lower bound.
    pub low_value: Option<u32>,
    /// The bit pattern of the single-precision upper bound.
    pub high_value: Option<u32>,
    pub encode_flags: Option<i32>,
    pub field_serializer_name_sym: Option<i32>,
    pub var_encoder_sym: Option<i32>,
}

/// One schema of the message. The fields are positions in the table of fields.
#[derive(Debug, Clone, PartialEq, Eq)]
pub struct ProtoFlattenedSerializer {
    pub serializer_name_sym: i32,
    pub serializer_version: i32,
    pub fields_index: Vec<i32>,
}

/// The schema message.
#[derive(Debug, Clone, PartialEq, Eq)]
pub struct SendTables {
    pub symbols: Vec<String>,
    pub fields: Vec<ProtoFlattenedSerializerField>,
    pub serializers: Vec<ProtoFlattenedSerializer>,
}

/// Why the schemas of a message could not be built.
#[derive(Debug, Clone, Copy, PartialEq, Eq, Structural)]
pub enum Error {
    /// A name lies outside the table of names.
    SymbolOutOfRange,
    /// A field lies outside the table of fields.
    FieldOutOfRange,
    /// A field is a structure whose schema was not built before it.
    UnknownSerializer,
    /// A type string cannot be taken apart.
    VarType(vartype::Error),
    /// A field has no decoder.
    FieldDecoder(fielddecoder::Error),
}

/// The name at the position `at` of the table of names.
pub open spec fn symbol(symbols: Seq<String>, at: i32) -> Option<Seq<char>> {
    if 0 <= at < symbols.len() {
        Some(symbols[at as int]@)
    } else {
        None
    }
}

/// The name at an optional position of the table of names.
pub open spec fn optional_symbol(symbols: Seq<String>, at: Option<i32>) -> Result<
    Option<Seq<char>>,
    Error,
> {
    match at {
        None => Ok(None),
        Some(at) => match symbol(symbols, at) {
            Some(name) => Ok(Some(name)),
            None => Err(Error::SymbolOutOfRange),
        },
    }
}

/// The position of the first of the first `upto` hashes that is `hash`.
pub open spec fn hash_position(hashes: Seq<u64>, hash: u64, upto: int) -> Option<int>
    decreases upto,
{
    if upto <= 0 {
        None
    } else {
        match hash_position(hashes, hash, upto - 1) {
            Some(i) => Some(i),
            None => if hashes[upto - 1] == hash {
                Some(upto - 1)
            } else {
                None
            },
        }
    }
}

/// A position that was found stays the first.
pub proof fn lemma_hash_position_stays(hashes: Seq<u64>, hash: u64, at: int, upto: int)
    requires
        0 <= at <= upto,
        hash_position(hashes, hash, at) is Some,
    ensures
        hash_position(hashes, hash, upto) == hash_position(hashes, hash, at),
    decreases upto - at,
{
    if at < upto {
        lemma_hash_position_stays(hashes, hash, at, upto - 1);
    }
}

/// The position of the schema that a field names, among the schemas with the name hashes
/// `built`.
pub open spec fn structure_of(symbols: Seq<String>, built: Seq<u64>, at: Option<i32>) -> Result<
    Option<int>,
    Error,
> {
    match at {
        None => Ok(None),
        Some(at) => match symbol(symbols, at) {
            None => Err(Error::SymbolOutOfRange),
            Some(name) => match hash_position(built, name_hash(name), built.len() as int) {
                Some(i) => Ok(Some(i)),
                None => Err(Error::UnknownSerializer),
            },
        },
    }
}

/// What the children of a field are.
pub enum Children {
    /// The field has none.
    Leaf,
    /// The fields of the schema at the given position of the built schemas.
    Fields(int),
    /// One child, which describes an element of the array: its kind, its decoder, and, if
    /// the element is a structure, the position of its schema among the built schemas.
    Element { kind: VarType, decoder: FieldDecoder, fields: Option<int> },
}

/// What a field of the message is built to.
pub struct FieldModel {
    pub var_name: Seq<char>,
    pub var_type: Seq<char>,
    pub var_encoder: Option<Seq<char>>,
    pub proto: ProtoFlattenedSerializerField,
    pub kind: VarType,
    pub decoder: FieldDecoder,
    pub children: Children,
}

/// What the choice of the decoder of a field of the message depends on.
pub open spec fn params_of(
    var_name: Seq<char>,
    var_encoder: Option<Seq<char>>,
    pf: ProtoFlattenedSerializerField,
) -> FieldParams {
    FieldParams {
        var_name_hash: name_hash(var_name),
        var_encoder_hash: match var_encoder {
            Some(e) => Some(name_hash(e)),
            None => None,
        },
        bit_count: pf.bit_count,
        low_value: pf.low_value,
        high_value: pf.high_value,
        encode_flags: pf.encode_flags,
    }
}

/// Whether the kind is that of an array.
pub open spec fn is_array(kind: VarType) -> bool {
    kind is FixedArray || kind is DynamicArray
}

/// The decoder of an array itself: a vector is sent as its length, and a fixed array has
/// no value of its own.
pub open spec fn array_decoder(kind: VarType) -> FieldDecoder {
    if kind is DynamicArray {
        FieldDecoder::U64(U64Decoder { kind: U64Kind::Varint })
    } else {
        FieldDecoder::Invalid(InvalidDecoder)
    }
}

/// The kind, the decoder and the children of a field whose type string says `kind` of the
/// type `name`, and which names the schema at `structure`, if any.
///
/// A field that names a schema is a structure: a pointer with the fields of the schema as
/// children, or an array of such pointers. Any other array has an element of the type that
/// its type string names, taken apart in turn. Any other field has the decoder of its type.
pub open spec fn shape_of(
    kind: VarType,
    name: Seq<u8>,
    structure: Option<int>,
    p: FieldParams,
) -> Result<(VarType, FieldDecoder, Children), Error> {
    match structure {
        Some(at) => if is_array(kind) {
            Ok(
                (
                    kind,
                    array_decoder(kind),
                    Children::Element {
                        kind: VarType::Pointer,
                        decoder: FieldDecoder::Bool(BoolDecoder),
                        fields: Some(at),
                    },
                ),
            )
        } else {
            Ok((VarType::Pointer, FieldDecoder::Bool(BoolDecoder), Children::Fields(at)))
        },
        None => if is_array(kind) {
            match parsed(name) {
                Err(e) => Err(Error::VarType(e)),
                Ok((element_kind, element_name)) => match decoder_for(
                    element_kind,
                    spec_hash_bytes(element_name),
                    p,
                ) {
                    Err(e) => Err(Error::FieldDecoder(e)),
                    Ok(decoder) => Ok(
                        (
                            kind,
                            array_decoder(kind),
                            Children::Element { kind: element_kind, decoder, fields: None },
                        ),
                    ),
                },
            }
        } else {
            match decoder_for(kind, spec_hash_bytes(name), p) {
                Err(e) => Err(Error::FieldDecoder(e)),
                Ok(decoder) => Ok((kind, decoder, Children::Leaf)),
            }
        },
    }
}

/// What the field `pf` of a message with the names `symbols` is built to, after the schemas
/// with the name hashes `built`. The first fault of the field is the error: a name outside
/// the table, a type string that cannot be taken apart, a schema that was not built, or a
/// decoder that cannot be had.
#[verifier::opaque]
pub open spec fn field_model(
    symbols: Seq<String>,
    built: Seq<u64>,
    pf: ProtoFlattenedSerializerField,
) -> Result<FieldModel, Error> {
    match symbol(symbols, pf.var_name_sym) {
        None => Err(Error::SymbolOutOfRange),
        Some(var_name) => match symbol(symbols, pf.var_type_sym) {
            None => Err(Error::SymbolOutOfRange),
            Some(var_type) => match optional_symbol(symbols, pf.var_encoder_sym) {
                Err(e) => Err(e),
                Ok(var_encoder) => match parsed(vstd::utf8::encode_utf8(var_type)) {
                    Err(e) => Err(Error::VarType(e)),
                    Ok((kind, name)) => match structure_of(
                        symbols,
                        built,
                        pf.field_serializer_name_sym,
                    ) {
                        Err(e) => Err(e),
                        Ok(structure) => match shape_of(
                            kind,
                            name,
                            structure,
                            params_of(var_name, var_encoder, pf),
                        ) {
                            Err(e) => Err(e),
                            Ok((kind, decoder, children)) => Ok(
                                FieldModel {
                                    var_name,
                                    var_type,
                                    var_encoder,
                                    proto: pf,
                                    kind,
                                    decoder,
                                    children,
                                },
                            ),
                        },
                    },
                },
            },
        },
    }
}

/// Whether a symbol holds the name `name` and its hash.
pub open spec fn symbol_is(symbol: Symbol, name: Seq<char>) -> bool {
    symbol.str@ == name && symbol.hash == name_hash(name)
}

/// Whether an optional symbol holds the optional name `name` and its hash.
pub open spec fn optional_symbol_is(symbol: Option<Symbol>, name: Option<Seq<char>>) -> bool {
    match (symbol, name) {
        (Some(s), Some(n)) => symbol_is(s, n),
        (None, None) => true,
        _ => false,
    }
}

/// Whether `f` has the names and the numbers of the model `m`.
pub open spec fn metadata_match(f: &FlattenedSerializerField, m: FieldModel) -> bool {
    &&& symbol_is(f.var_name, m.var_name)
    &&& symbol_is(f.var_type, m.var_type)
    &&& optional_symbol_is(f.var_encoder, m.var_encoder)
    &&& f.bit_count == m.proto.bit_count
    &&& f.low_value == m.proto.low_value
    &&& f.high_value == m.proto.high_value
    &&& f.encode_flags == m.proto.encode_flags
}

/// Whether `f` is the field that the model `m` describes, with the schemas `built` for the
/// structures.
#[verifier::opaque]
pub open spec fn field_matches(
    f: &FlattenedSerializerField,
    m: FieldModel,
    built: Seq<Rc<FlattenedSerializer>>,
) -> bool {
    &&& metadata_match(f, m)
    &&& f.kind == m.kind
    &&& f.decoder == m.decoder
    &&& match m.children {
        Children::Leaf => f.children@.len() == 0,
        Children::Fields(at) => 0 <= at < built.len() && f.children == built[at].fields,
        Children::Element { kind, decoder, fields } => {
            &&& f.children@.len() == 1
            &&& metadata_match(&f.children@[0], m)
            &&& f.children@[0].kind == kind
            &&& f.children@[0].decoder == decoder
            &&& match fields {
                Some(at) => 0 <= at < built.len() && f.children@[0].children == built[at].fields,
                None => f.children@[0].children@.len() == 0,
            }
        },
    }
}

/// What a schema of the message is built to.
pub struct SerializerModel {
    pub name: Seq<char>,
    pub fields: Seq<FieldModel>,
}

/// What the first `upto` fields of a schema are built to.
pub open spec fn fields_model(
    symbols: Seq<String>,
    protos: Seq<ProtoFlattenedSerializerField>,
    built: Seq<u64>,
    indices: Seq<i32>,
    upto: int,
) -> Result<Seq<FieldModel>, Error>
    decreases upto,
{
    if upto <= 0 {
        Ok(Seq::empty())
    } else {
        match fields_model(symbols, protos, built, indices, upto - 1) {
            Err(e) => Err(e),
            Ok(done) => if 0 <= indices[upto - 1] < protos.len() {
                match field_model(symbols, built, protos[indices[upto - 1] as int]) {
                    Err(e) => Err(e),
                    Ok(m) => Ok(done.push(m)),
                }
            } else {
                Err(Error::FieldOutOfRange)
            },
        }
    }
}

/// What a schema of the message is built to.
#[verifier::opaque]
pub open spec fn serializer_model(
    symbols: Seq<String>,
    protos: Seq<ProtoFlattenedSerializerField>,
    built: Seq<u64>,
    ps: ProtoFlattenedSerializer,
) -> Result<SerializerModel, Error> {
    match symbol(symbols, ps.serializer_name_sym) {
        None => Err(Error::SymbolOutOfRange),
        Some(name) => match fields_model(
            symbols,
            protos,
            built,
            ps.fields_index@,
            ps.fields_index@.len() as int,
        ) {
            Err(e) => Err(e),
            Ok(fields) => Ok(SerializerModel { name, fields }),
        },
    }
}

/// The hashes of the names of schemas.
pub open spec fn model_hashes(models: Seq<SerializerModel>) -> Seq<u64> {
    models.map_values(|m: SerializerModel| name_hash(m.name))
}

/// What the first `upto` schemas of a message are built to. The first fault is the error.
pub open spec fn models_upto(msg: &SendTables, upto: int) -> Result<Seq<SerializerModel>, Error>
    decreases upto,
{
    if upto <= 0 {
        Ok(Seq::empty())
    } else {
        match models_upto(msg, upto - 1) {
            Err(e) => Err(e),
            Ok(done) => match serializer_model(
                msg.symbols@,
                msg.fields@,
                model_hashes(done),
                msg.serializers@[upto - 1],
            ) {
                Err(e) => Err(e),
                Ok(m) => Ok(done.push(m)),
            },
        }
    }
}

/// Whether `ser` is the schema that the model `m` describes.
#[verifier::opaque]
pub open spec fn serializer_matches(
    ser: &FlattenedSerializer,
    m: SerializerModel,
    built: Seq<Rc<FlattenedSerializer>>,
) -> bool {
    &&& symbol_is(ser.serializer_name, m.name)
    &&& ser.fields@.len() == m.fields.len()
    &&& forall|j: int|
        0 <= j < m.fields.len() ==> field_matches(&#[trigger] ser.fields@[j], m.fields[j], built)
}

/// Whether the schemas are those that the models describe, each with the schemas before it
/// for its structures.
pub open spec fn container_matches(
    serializers: Seq<Rc<FlattenedSerializer>>,
    models: Seq<SerializerModel>,
) -> bool {
    &&& serializers.len() == models.len()
    &&& forall|i: int|
        0 <= i < models.len() ==> serializer_matches(
            &*#[trigger] serializers[i],
            models[i],
            serializers.take(i),
        )
}

/// The hashes of the names of schemas.
pub open spec fn hashes_of(built: Seq<Rc<FlattenedSerializer>>) -> Seq<u64> {
    built.map_values(|s: Rc<FlattenedSerializer>| s.serializer_name.hash)
}

/// Interns the name at the position `at`.
fn intern(symbols: &Vec<String>, at: i32) -> (r: Option<Symbol>)
    ensures
        match r {
            Some(s) => symbol(symbols@, at) matches Some(name) && symbol_is(s, name),
            None => symbol(symbols@, at) is None,
        },
{
    if at < 0 || at as usize >= symbols.len() {
        return None;
    }
    Some(Symbol::new(symbols[at as usize].as_str()))
}

/// Finds the first schema whose name has the hash `hash`.
fn find_built(built: &Vec<Rc<FlattenedSerializer>>, hash: u64) -> (r: Option<usize>)
    ensures
        match r {
            Some(at) => at < built@.len() && hash_position(
                hashes_of(built@),
                hash,
                built@.len() as int,
            ) == Some(at as int),
            None => hash_position(hashes_of(built@), hash, built@.len() as int) is None,
        },
{
    let mut i: usize = 0;
    while i < built.len()
        invariant
            i <= built@.len(),
            hash_position(hashes_of(built@), hash, i as int) is None,
        decreases built@.len() - i,
    {
        if built[i].serializer_name.hash == hash {
            proof {
                lemma_hash_position_stays(hashes_of(built@), hash, i + 1, built@.len() as int);
            }
            return Some(i);
        }
        i = i + 1;
    }
    None
}

/// Builds one field.
fn build_field(
    symbols: &Vec<String>,
    built: &Vec<Rc<FlattenedSerializer>>,
    pf: &ProtoFlattenedSerializerField,
) -> (r: Result<FlattenedSerializerField, Error>)
    ensures
        match r {
            Ok(f) => field_model(symbols@, hashes_of(built@), *pf) matches Ok(m) && field_matches(
                &f,
                m,
                built@,
            ),
            Err(e) => field_model(symbols@, hashes_of(built@), *pf) == Err::<FieldModel, Error>(e),
        },
{
    reveal(field_model);
    reveal(field_matches);
    let var_name = match intern(symbols, pf.var_name_sym) {
        Some(s) => s,
        None => {
            return Err(Error::SymbolOutOfRange);
        },
    };
    let var_type = match intern(symbols, pf.var_type_sym) {
        Some(s) => s,
        None => {
            return Err(Error::SymbolOutOfRange);
        },
    };
    let var_encoder = match pf.var_encoder_sym {
        None => None,
        Some(at) => match intern(symbols, at) {
            Some(s) => Some(s),
            None => {
                return Err(Error::SymbolOutOfRange);
            },
        },
    };
    let parsed_type = match ParsedVarType::parse(var_type.str.as_str().as_bytes()) {
        Ok(t) => t,
        Err(e) => {
            return Err(Error::VarType(e));
        },
    };
    let structure = match pf.field_serializer_name_sym {
        None => None,
        Some(at) => match intern(symbols, at) {
            None => {
                return Err(Error::SymbolOutOfRange);
            },
            Some(name) => match find_built(built, name.hash) {
                Some(i) => Some(i),
                None => {
                    return Err(Error::UnknownSerializer);
                },
            },
        },
    };
    let mut field = FlattenedSerializerField {
        var_name,
        var_type,
        var_encoder,
        bit_count: pf.bit_count,
        low_value: pf.low_value,
        high_value: pf.high_value,
        encode_flags: pf.encode_flags,
        kind: parsed_type.kind,
        decoder: FieldDecoder::Invalid(InvalidDecoder),
        children: Rc::new(Vec::new()),
    };
    let array = match parsed_type.kind {
        VarType::FixedArray { .. } => true,
        VarType::DynamicArray => true,
        _ => false,
    };
    let array_decoder = match parsed_type.kind {
        VarType::DynamicArray => FieldDecoder::U64(U64Decoder { kind: U64Kind::Varint }),
        _ => FieldDecoder::Invalid(InvalidDecoder),
    };
    match structure {
        Some(at) => {
            if array {
                let element = FlattenedSerializerField {
                    var_name: Symbol::new(field.var_name.str.as_str()),
                    var_type: Symbol::new(field.var_type.str.as_str()),
                    var_encoder: copy_symbol(&field.var_encoder),
                    bit_count: pf.bit_count,
                    low_value: pf.low_value,
                    high_value: pf.high_value,
                    encode_flags: pf.encode_flags,
                    kind: VarType::Pointer,
                    decoder: FieldDecoder::Bool(BoolDecoder),
                    children: share(&built[at].fields),
                };
                field.decoder = array_decoder;
                let mut children: Vec<FlattenedSerializerField> = Vec::new();
                children.push(element);
                field.children = Rc::new(children);
            } else {
                field.kind = VarType::Pointer;
                field.decoder = FieldDecoder::Bool(BoolDecoder);
                field.children = share(&built[at].fields);
            }
        },
        None => {
            if array {
                let element_type = match ParsedVarType::parse(parsed_type.name.as_slice()) {
                    Ok(t) => t,
                    Err(e) => {
                        return Err(Error::VarType(e));
                    },
                };
                let decoder = match get_field_decoder(
                    element_type.kind,
                    element_type.name.as_slice(),
                    &field,
                ) {
                    Ok(d) => d,
                    Err(e) => {
                        return Err(Error::FieldDecoder(e));
                    },
                };
                let element = FlattenedSerializerField {
                    var_name: Symbol::new(field.var_name.str.as_str()),
                    var_type: Symbol::new(field.var_type.str.as_str()),
                    var_encoder: copy_symbol(&field.var_encoder),
                    bit_count: pf.bit_count,
                    low_value: pf.low_value,
                    high_value: pf.high_value,
                    encode_flags: pf.encode_flags,
                    kind: element_type.kind,
                    decoder,
                    children: Rc::new(Vec::new()),
                };
                field.decoder = array_decoder;
                let mut children: Vec<FlattenedSerializerField> = Vec::new();
                children.push(element);
                field.children = Rc::new(children);
            } else {
                field.decoder = match get_field_decoder(
                    parsed_type.kind,
                    parsed_type.name.as_slice(),
                    &field,
                ) {
                    Ok(d) => d,
                    Err(e) => {
                        return Err(Error::FieldDecoder(e));
                    },
                };
            }
        },
    }
    Ok(field)
}

/// A copy of an optional symbol.
fn copy_symbol(symbol: &Option<Symbol>) -> (r: Option<Symbol>)
    ensures
        forall|name: Option<Seq<char>>|
            optional_symbol_is(*symbol, name) ==> optional_symbol_is(r, name),
        r is Some <==> symbol is Some,
{
    match symbol {
        Some(s) => {
            let copy = Symbol { hash: s.hash, str: s.str.clone() };
            Some(copy)
        },
        None => None,
    }
}

/// Builds one schema.
fn build_serializer(
    msg: &SendTables,
    built: &Vec<Rc<FlattenedSerializer>>,
    ps: &ProtoFlattenedSerializer,
) -> (r: Result<FlattenedSerializer, Error>)
    ensures
        match r {
            Ok(ser) => serializer_model(msg.symbols@, msg.fields@, hashes_of(built@), *ps) matches Ok(
                m,
            ) && serializer_matches(&ser, m, built@),
            Err(e) => serializer_model(msg.symbols@, msg.fields@, hashes_of(built@), *ps) == Err::<
                SerializerModel,
                Error,
            >(e),
        },
{
    reveal(serializer_model);
    reveal(serializer_matches);
    let serializer_name = match intern(&msg.symbols, ps.serializer_name_sym) {
        Some(s) => s,
        None => {
            return Err(Error::SymbolOutOfRange);
        },
    };
    let ghost hashes = hashes_of(built@);
    let mut fields: Vec<FlattenedSerializerField> = Vec::new();
    let mut i: usize = 0;
    while i < ps.fields_index.len()
        invariant
            i <= ps.fields_index@.len(),
            hashes == hashes_of(built@),
            symbol(msg.symbols@, ps.serializer_name_sym) is Some,
            fields_model(msg.symbols@, msg.fields@, hashes, ps.fields_index@, i as int) matches Ok(
                models,
            ) && models.len() == fields@.len() && forall|j: int|
                0 <= j < models.len() ==> field_matches(&#[trigger] fields@[j], models[j], built@),
        decreases ps.fields_index@.len() - i,
    {
        let at = ps.fields_index[i];
        if at < 0 || at as usize >= msg.fields.len() {
            proof {
                reveal(serializer_model);
                lemma_fields_model_stops(
                    msg.symbols@,
                    msg.fields@,
                    hashes,
                    ps.fields_index@,
                    i + 1,
                    ps.fields_index@.len() as int,
                );
            }
            return Err(Error::FieldOutOfRange);
        }
        match build_field(&msg.symbols, built, &msg.fields[at as usize]) {
            Ok(f) => {
                fields.push(f);
            },
            Err(e) => {
                proof {
                    reveal(serializer_model);
                    lemma_fields_model_stops(
                        msg.symbols@,
                        msg.fields@,
                        hashes,
                        ps.fields_index@,
                        i + 1,
                        ps.fields_index@.len() as int,
                    );
                }
                return Err(e);
            },
        }
        i = i + 1;
    }
    Ok(FlattenedSerializer { serializer_name, fields: Rc::new(fields) })
}

/// Once a field fails, the fields after it are not built.
proof fn lemma_fields_model_stops(
    symbols: Seq<String>,
    protos: Seq<ProtoFlattenedSerializerField>,
    built: Seq<u64>,
    indices: Seq<i32>,
    at: int,
    upto: int,
)
    requires
        0 <= at <= upto,
        fields_model(symbols, protos, built, indices, at) is Err,
    ensures
        fields_model(symbols, protos, built, indices, upto) == fields_model(
            symbols,
            protos,
            built,
            indices,
            at,
        ),
    decreases upto - at,
{
    if at < upto {
        lemma_fields_model_stops(symbols, protos, built, indices, at, upto - 1);
    }
}

/// Once a schema fails, the schemas after it are not built.
proof fn lemma_models_stop(msg: &SendTables, at: int, upto: int)
    requires
        0 <= at <= upto,
        models_upto(msg, at) is Err,
    ensures
        models_upto(msg, upto) == models_upto(msg, at),
    decreases upto - at,
{
    if at < upto {
        lemma_models_stop(msg, at, upto - 1);
    }
}

impl FlattenedSerializerContainer {
    /// Builds the schemas of a message, in the order of the message.
    pub fn parse(msg: &SendTables) -> (r: Result<FlattenedSerializerContainer, Error>)
        ensures
            match r {
                Ok(c) => models_upto(msg, msg.serializers@.len() as int) matches Ok(models)
                    && container_matches(c.serializers@, models),
                Err(e) => models_upto(msg, msg.serializers@.len() as int) == Err::<
                    Seq<SerializerModel>,
                    Error,
                >(e),
            },
    {
        let mut built: Vec<Rc<FlattenedSerializer>> = Vec::new();
        let mut i: usize = 0;
        while i < msg.serializers.len()
            invariant
                i <= msg.serializers@.len(),
                models_upto(msg, i as int) matches Ok(models) && models.len() == i
                    && container_matches(built@, models),
            decreases msg.serializers@.len() - i,
        {
            let ghost models = models_upto(msg, i as int)->Ok_0;
            let ghost before = built@;
            proof {
                assert forall|k: int| 0 <= k < models.len() implies hashes_of(before)[k]
                    == model_hashes(models)[k] by {
                    reveal(serializer_matches);
                    assert(serializer_matches(&*before[k], models[k], before.take(k)));
                }
                assert(hashes_of(before) =~= model_hashes(models));
            }
            match build_serializer(msg, &built, &msg.serializers[i]) {
                Ok(ser) => {
                    built.push(Rc::new(ser));
                    proof {
                        let now = models_upto(msg, i + 1)->Ok_0;
                        assert forall|k: int| 0 <= k < now.len() implies serializer_matches(
                            &*#[trigger] built@[k],
                            now[k],
                            built@.take(k),
                        ) by {
                            if k < i {
                                assert(built@.take(k) =~= before.take(k));
                            } else {
                                assert(built@.take(k) =~= before);
                            }
                        }
                    }
                },
                Err(e) => {
                    proof {
                        lemma_models_stop(msg, i + 1, msg.serializers@.len() as int);
                    }
                    return Err(e);
                },
            }
            i = i + 1;
        }
        Ok(FlattenedSerializerContainer { serializers: built })
    }
}

} // verus!
