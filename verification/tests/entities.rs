use haste::bitreader::BitReader;
use haste::entities::{
    handle_to_index, is_handle_valid, make_field_key, DeltaHeader, Entity, EntityContainer, Error,
};
use haste::entityclasses::{bits_for, EntityClasses};
use haste::fielddecoder::{
    BoolDecoder, FieldDecodeContext, FieldDecoder, I64Decoder, InvalidDecoder, StringDecoder,
    U64Decoder,
};
use haste::fieldpath::{self, FieldPath};
use haste::fieldvalue::FieldValue;
use haste::flattenedserializers::{
    hash_str, FlattenedSerializer, FlattenedSerializerContainer, FlattenedSerializerField, Symbol,
};
use haste::fxhash::add_u64_to_hash;
use haste::instancebaseline::InstanceBaseline;
use haste::vartype::VarType;
use std::rc::Rc;

/// Collects bits, least significant bit of each value first.
#[allow(dead_code)]
struct Bits {
    bytes: Vec<u8>,
    len: usize,
}

#[allow(dead_code)]
impl Bits {
    fn new() -> Bits {
        Bits { bytes: Vec::new(), len: 0 }
    }

    fn put(&mut self, value: u64, width: usize) -> &mut Bits {
        for i in 0..width {
            if self.len % 8 == 0 {
                self.bytes.push(0);
            }
            if (value >> i) & 1 == 1 {
                let last = self.bytes.len() - 1;
                self.bytes[last] |= 1 << (self.len % 8);
            }
            self.len += 1;
        }
        self
    }

    fn flag(&mut self, value: bool) -> &mut Bits {
        self.put(value as u64, 1)
    }

    /// The word of an operation, written as its bits in the order they are sent.
    fn op(&mut self, word: &str) -> &mut Bits {
        for c in word.chars() {
            self.flag(c == '1');
        }
        self
    }

    fn raw(&mut self, bytes: &[u8]) -> &mut Bits {
        for b in bytes {
            self.put(*b as u64, 8);
        }
        self
    }

    fn cstr(&mut self, s: &str) -> &mut Bits {
        self.raw(s.as_bytes());
        self.put(0, 8)
    }

    fn uvarint(&mut self, mut v: u64) -> &mut Bits {
        while v >= 128 {
            self.put(v % 128 + 128, 8);
            v /= 128;
        }
        self.put(v, 8)
    }

    fn varint(&mut self, v: i64) -> &mut Bits {
        self.uvarint(((v << 1) ^ (v >> 63)) as u64)
    }

    /// A width-prefixed number of the field-path code, in the narrowest form that holds it.
    fn fp(&mut self, v: u64) -> &mut Bits {
        if v < 4 {
            self.flag(true).put(v, 2)
        } else if v < 16 {
            self.flag(false).flag(true).put(v, 4)
        } else if v < 1024 {
            self.flag(false).flag(false).flag(true).put(v, 10)
        } else if v < (1 << 17) {
            self.flag(false).flag(false).flag(false).flag(true).put(v, 17)
        } else {
            self.flag(false).flag(false).flag(false).flag(false).put(v, 31)
        }
    }

    /// A number with a two-bit width selector, in the narrowest form that holds it.
    fn ubitvar(&mut self, v: u64) -> &mut Bits {
        if v < 16 {
            self.put(0, 2).put(v, 4)
        } else if v < 272 {
            self.put(1, 2).put(v - 16, 8)
        } else if v < 272 + 4096 {
            self.put(2, 2).put(v - 272, 12)
        } else {
            self.put(3, 2).put(v, 32)
        }
    }
}

const PLUS_ONE: &str = "0";
const FINISH: &str = "10";
const PUSH_ZERO: &str = "110110001101";
const PUSH_SENT: &str = "110110001100101";
const POP_ALL_BUT_ONE_PLUS_ONE: &str = "110011";

fn leaf(
    name: &str,
    kind: VarType,
    decoder: FieldDecoder,
    children: Vec<FlattenedSerializerField>,
) -> FlattenedSerializerField {
    FlattenedSerializerField {
        var_name: Symbol::new(name),
        var_type: Symbol::new("uint64"),
        var_encoder: None,
        bit_count: None,
        low_value: None,
        high_value: None,
        encode_flags: None,
        kind,
        decoder,
        children: Rc::new(children),
    }
}

fn u64_decoder() -> FieldDecoder {
    FieldDecoder::U64(U64Decoder::default())
}

/// A schema with a number `X`, a flag, a structure `pos` with the fields `a` and `b`, and an
/// array `arr` of three numbers.
fn hero_schema() -> FlattenedSerializer {
    let pos = leaf(
        "pos",
        VarType::Pointer,
        FieldDecoder::Bool(BoolDecoder),
        vec![
            leaf("a", VarType::Scalar, FieldDecoder::I64(I64Decoder), Vec::new()),
            leaf("b", VarType::Scalar, FieldDecoder::String(StringDecoder), Vec::new()),
        ],
    );
    let arr = leaf(
        "arr",
        VarType::FixedArray { length: 3 },
        u64_decoder(),
        vec![leaf("arr", VarType::Scalar, u64_decoder(), Vec::new())],
    );
    FlattenedSerializer {
        serializer_name: Symbol::new("CHero"),
        fields: Rc::new(vec![
            leaf("X", VarType::Scalar, u64_decoder(), Vec::new()),
            leaf("flag", VarType::Scalar, FieldDecoder::Bool(BoolDecoder), Vec::new()),
            pos,
            arr,
        ]),
    }
}

struct World {
    classes: EntityClasses,
    baselines: InstanceBaseline,
    serializers: FlattenedSerializerContainer,
    ctx: FieldDecodeContext,
    entities: EntityContainer,
}

/// A world with four classes; the class 3 is `CHero`, and its baseline sets `X` to 7.
fn world() -> World {
    let classes =
        EntityClasses::new(&[hash_str("CWorld"), hash_str("CTree"), hash_str("CGhost"), hash_str("CHero")]);
    let mut baselines = InstanceBaseline::new();
    let mut blob = Bits::new();
    blob.op(PLUS_ONE).op(FINISH).uvarint(7);
    assert!(baselines.update(3, blob.bytes));
    let mut empty = Bits::new();
    empty.op(FINISH);
    assert!(baselines.update(2, empty.bytes));
    let serializers = FlattenedSerializerContainer { serializers: vec![Rc::new(hero_schema())] };
    World {
        classes,
        baselines,
        serializers,
        ctx: FieldDecodeContext::new(),
        entities: EntityContainer::new(),
    }
}

/// The head of the record of a created entity, for four classes.
fn create_head(bits: &mut Bits, class_id: u64) -> &mut Bits {
    bits.put(class_id, 2).put(0, 17).uvarint(0)
}

fn create(w: &mut World, index: i32, bits: &Bits) -> Result<(), Error> {
    let mut br = BitReader::new(&bits.bytes);
    w.entities
        .handle_create(index, &mut w.ctx, &mut br, &w.classes, &w.baselines, &w.serializers)
        .map(|entity| assert_eq!(entity.index(), index))
}

fn update(w: &mut World, index: i32, bits: &Bits) -> Result<(), Error> {
    let mut br = BitReader::new(&bits.bytes);
    w.entities.handle_update(index, &mut w.ctx, &mut br).map(|entity| assert_eq!(entity.index(), index))
}

fn fields_of(entity: &Entity) -> Vec<(u64, FieldValue)> {
    let mut fields = entity.iter();
    fields.sort_by_key(|f| f.0);
    fields
}

/// A delta that sets every field of the schema.
fn full_delta() -> Bits {
    let mut bits = Bits::new();
    bits.op(PLUS_ONE).op(PLUS_ONE).op(PLUS_ONE);
    bits.op(PUSH_ZERO).op(PLUS_ONE);
    bits.op(POP_ALL_BUT_ONE_PLUS_ONE);
    bits.op(PUSH_SENT).fp(2);
    bits.op(FINISH);
    bits.uvarint(9).flag(true).flag(true).varint(-5).cstr("hi").uvarint(3).uvarint(42);
    bits
}

#[test]
fn handles() {
    assert!(is_handle_valid(0));
    assert!(is_handle_valid(0xff_fffe));
    assert!(!is_handle_valid(0xff_ffff));
    assert!(is_handle_valid(0x1ff_ffff));
    assert_eq!(handle_to_index(0), 0);
    assert_eq!(handle_to_index(16383), 16383);
    assert_eq!(handle_to_index(16384), 0);
    assert_eq!(handle_to_index(0xff_ffff), 16383);
    assert_eq!(handle_to_index((5 << 14) | 1234), 1234);
}

#[test]
fn delta_header() {
    let mut bits = Bits::new();
    bits.flag(false).flag(false);
    bits.flag(false).flag(true);
    bits.flag(true).flag(false);
    bits.flag(true).flag(true);
    let mut br = BitReader::new(&bits.bytes);
    assert_eq!(DeltaHeader::from_bit_reader(&mut br), DeltaHeader(DeltaHeader::UPDATE));
    assert_eq!(DeltaHeader::from_bit_reader(&mut br), DeltaHeader(DeltaHeader::CREATE));
    assert_eq!(DeltaHeader::from_bit_reader(&mut br), DeltaHeader(DeltaHeader::LEAVE));
    assert_eq!(DeltaHeader::from_bit_reader(&mut br), DeltaHeader(DeltaHeader::DELETE));
    assert_eq!(DeltaHeader::UPDATE, 0b00);
    assert_eq!(DeltaHeader::CREATE, 0b10);
    assert_eq!(DeltaHeader::LEAVE, 0b01);
    assert_eq!(DeltaHeader::DELETE, 0b11);
    assert_eq!(br.num_bytes_read(), 1);
}

#[test]
fn class_id_bits() {
    assert_eq!(bits_for(0), 0);
    assert_eq!(bits_for(1), 0);
    assert_eq!(bits_for(2), 1);
    assert_eq!(bits_for(3), 2);
    assert_eq!(bits_for(4), 2);
    assert_eq!(bits_for(5), 3);
    assert_eq!(bits_for(1024), 10);
    assert_eq!(bits_for(1025), 11);
    assert_eq!(bits_for(usize::MAX), usize::BITS as usize);
    let classes = EntityClasses::new(&[11, 22, 33]);
    assert_eq!(classes.bits(), 2);
    assert_eq!(classes.by_id(1).map(|c| c.network_name_hash), Some(22));
    assert_eq!(classes.by_id(3), None);
}

#[test]
fn baselines_by_class() {
    let mut baselines = InstanceBaseline::new();
    assert!(baselines.by_id(0).is_none());
    assert!(baselines.update(4, vec![1, 2]));
    assert!(!baselines.update(-1, vec![3]));
    assert_eq!(baselines.by_id(4), Some(&vec![1, 2]));
    assert!(baselines.by_id(3).is_none());
    assert!(baselines.by_id(5).is_none());
    assert!(baselines.by_id(-1).is_none());
    assert!(baselines.update(4, vec![9]));
    assert_eq!(baselines.by_id(4), Some(&vec![9]));
    assert!(baselines.update(i32::MAX, vec![7, 7]));
    assert!(baselines.update(0, Vec::new()));
    assert!(baselines.update(i32::MAX, vec![8]));
    assert_eq!(baselines.by_id(i32::MAX), Some(&vec![8]));
    assert_eq!(baselines.by_id(0), Some(&Vec::new()));
    assert_eq!(baselines.by_id(4), Some(&vec![9]));
    assert!(baselines.by_id(i32::MAX - 1).is_none());
}

#[test]
fn create_from_baseline() {
    let mut w = world();
    let mut bits = Bits::new();
    create_head(&mut bits, 3).op(FINISH);
    assert_eq!(create(&mut w, 5, &bits), Ok(()));
    let entity = w.entities.get(&5).unwrap();
    assert_eq!(entity.index(), 5);
    assert_eq!(fields_of(entity), vec![(make_field_key(&["X"]), FieldValue::U64(7))]);
    assert_eq!(entity.get_value(&make_field_key(&["X"])), Some(&FieldValue::U64(7)));
    assert_eq!(entity.get_value(&make_field_key(&["flag"])), None);
    assert!(entity.serializer_name_heq(hash_str("CHero")));
    assert!(!entity.serializer_name_heq(hash_str("CTree")));
    assert_eq!(entity.serializer().fields.len(), 4);
    assert!(!w.entities.is_empty());
    assert_eq!(w.entities.iter(), vec![5]);
}

#[test]
fn create_applies_the_delta_on_top_of_the_baseline() {
    let mut w = world();
    let mut bits = Bits::new();
    create_head(&mut bits, 3).op(PLUS_ONE).op(PLUS_ONE).op(FINISH).uvarint(8).flag(true);
    assert_eq!(create(&mut w, 1, &bits), Ok(()));
    assert_eq!(
        fields_of(w.entities.get(&1).unwrap()),
        {
            let mut want = vec![
                (make_field_key(&["X"]), FieldValue::U64(8)),
                (make_field_key(&["flag"]), FieldValue::Bool(true)),
            ];
            want.sort_by_key(|f| f.0);
            want
        }
    );
    let mut plain = Bits::new();
    create_head(&mut plain, 3).op(FINISH);
    assert_eq!(create(&mut w, 2, &plain), Ok(()));
    assert_eq!(
        fields_of(w.entities.get(&2).unwrap()),
        vec![(make_field_key(&["X"]), FieldValue::U64(7))]
    );
}

#[test]
fn baseline_is_pure() {
    let mut w = world();
    let mut bits = Bits::new();
    create_head(&mut bits, 3).op(FINISH);
    assert_eq!(create(&mut w, 10, &bits), Ok(()));
    assert_eq!(update(&mut w, 10, &full_delta()), Ok(()));
    assert_eq!(create(&mut w, 11, &bits), Ok(()));
    assert_eq!(create(&mut w, 12, &bits), Ok(()));
    let second = fields_of(w.entities.get(&11).unwrap());
    let third = fields_of(w.entities.get(&12).unwrap());
    assert_eq!(second, third);
    assert_eq!(second, vec![(make_field_key(&["X"]), FieldValue::U64(7))]);
    assert_eq!(w.entities.get(&11).unwrap().index(), 11);
    assert_eq!(w.entities.get(&12).unwrap().index(), 12);
}

#[test]
fn baseline_is_decoded_once() {
    let mut w = world();
    let mut bits = Bits::new();
    create_head(&mut bits, 3).op(FINISH);
    assert_eq!(create(&mut w, 1, &bits), Ok(()));
    let mut other = Bits::new();
    other.op(PLUS_ONE).op(FINISH).uvarint(100);
    assert!(w.baselines.update(3, other.bytes));
    assert_eq!(create(&mut w, 2, &bits), Ok(()));
    assert_eq!(
        w.entities.get(&2).unwrap().get_value(&make_field_key(&["X"])),
        Some(&FieldValue::U64(7))
    );
    w.entities.clear();
    assert!(w.entities.is_empty());
    assert_eq!(create(&mut w, 3, &bits), Ok(()));
    assert_eq!(
        w.entities.get(&3).unwrap().get_value(&make_field_key(&["X"])),
        Some(&FieldValue::U64(100))
    );
}

#[test]
fn update_sets_nested_fields_and_array_elements() {
    let mut w = world();
    let mut bits = Bits::new();
    create_head(&mut bits, 3).op(FINISH);
    assert_eq!(create(&mut w, 5, &bits), Ok(()));
    assert_eq!(update(&mut w, 5, &full_delta()), Ok(()));
    let entity = w.entities.get(&5).unwrap();
    assert_eq!(entity.get_value(&make_field_key(&["X"])), Some(&FieldValue::U64(9)));
    assert_eq!(entity.get_value(&make_field_key(&["flag"])), Some(&FieldValue::Bool(true)));
    assert_eq!(entity.get_value(&make_field_key(&["pos"])), Some(&FieldValue::Bool(true)));
    assert_eq!(entity.get_value(&make_field_key(&["pos", "a"])), Some(&FieldValue::I64(-5)));
    assert_eq!(
        entity.get_value(&make_field_key(&["pos", "b"])),
        Some(&FieldValue::String(b"hi".to_vec()))
    );
    assert_eq!(entity.get_value(&make_field_key(&["arr"])), Some(&FieldValue::U64(3)));
    let element = add_u64_to_hash(hash_str("arr"), add_u64_to_hash(0, 2));
    assert_eq!(element, 0x70d8b325899f4aff);
    assert_eq!(element, add_u64_to_hash(hash_str("arr"), haste::fxhash::hash_bytes(&[2])));
    assert_eq!(entity.get_value(&element), Some(&FieldValue::U64(42)));
    assert_eq!(entity.iter().len(), 7);
}

#[test]
fn update_is_idempotent() {
    let mut w = world();
    let mut bits = Bits::new();
    create_head(&mut bits, 3).op(FINISH);
    assert_eq!(create(&mut w, 5, &bits), Ok(()));
    assert_eq!(update(&mut w, 5, &full_delta()), Ok(()));
    let once = fields_of(w.entities.get(&5).unwrap());
    assert_eq!(update(&mut w, 5, &full_delta()), Ok(()));
    let twice = fields_of(w.entities.get(&5).unwrap());
    assert_eq!(once, twice);
}

#[test]
fn last_update_of_a_field_wins() {
    let mut w = world();
    let mut bits = Bits::new();
    create_head(&mut bits, 3).op(FINISH);
    assert_eq!(create(&mut w, 5, &bits), Ok(()));
    // The path [0], then [1], then [0] again.
    let mut delta = Bits::new();
    delta.op(PLUS_ONE).op(PLUS_ONE).op("11011000111").flag(true).varint(-1).op(FINISH);
    delta.uvarint(1).flag(false).uvarint(2);
    assert_eq!(update(&mut w, 5, &delta), Ok(()));
    let entity = w.entities.get(&5).unwrap();
    assert_eq!(entity.get_value(&make_field_key(&["X"])), Some(&FieldValue::U64(2)));
    assert_eq!(entity.get_value(&make_field_key(&["flag"])), Some(&FieldValue::Bool(false)));
    let once = fields_of(entity);
    assert_eq!(update(&mut w, 5, &delta), Ok(()));
    assert_eq!(fields_of(w.entities.get(&5).unwrap()), once);
}

#[test]
fn update_or_delete_of_an_unknown_entity() {
    let mut w = world();
    assert_eq!(update(&mut w, 9, &full_delta()), Err(Error::UnknownEntity));
    assert_eq!(w.entities.handle_delete(9).err(), Some(Error::UnknownEntity));
    assert!(w.entities.is_empty());
    assert!(w.entities.get(&9).is_none());
}

#[test]
fn update_leaves_the_stream_alone_for_an_unknown_entity() {
    let mut w = world();
    let delta = full_delta();
    let mut br = BitReader::new(&delta.bytes);
    assert_eq!(w.entities.handle_update(1, &mut w.ctx, &mut br).err(), Some(Error::UnknownEntity));
    assert_eq!(br.num_bytes_read(), 0);
    assert_eq!(br.bit_offset(), 0);
}

#[test]
fn delete_returns_the_entity() {
    let mut w = world();
    let mut bits = Bits::new();
    create_head(&mut bits, 3).op(FINISH);
    assert_eq!(create(&mut w, 5, &bits), Ok(()));
    assert_eq!(create(&mut w, 6, &bits), Ok(()));
    let gone = w.entities.handle_delete(5).unwrap();
    assert_eq!(gone.index(), 5);
    assert_eq!(gone.get_value(&make_field_key(&["X"])), Some(&FieldValue::U64(7)));
    assert!(w.entities.get(&5).is_none());
    assert!(w.entities.get(&6).is_some());
    assert_eq!(w.entities.iter(), vec![6]);
    assert_eq!(w.entities.handle_delete(5).err(), Some(Error::UnknownEntity));
}

#[test]
fn create_replaces_the_entity_of_a_slot() {
    let mut w = world();
    let mut first = Bits::new();
    create_head(&mut first, 3).op(PLUS_ONE).op(FINISH).uvarint(1);
    let mut second = Bits::new();
    create_head(&mut second, 3).op(FINISH);
    assert_eq!(create(&mut w, 5, &first), Ok(()));
    assert_eq!(create(&mut w, 5, &second), Ok(()));
    assert_eq!(
        w.entities.get(&5).unwrap().get_value(&make_field_key(&["X"])),
        Some(&FieldValue::U64(7))
    );
    assert_eq!(w.entities.iter().len(), 1);
}

#[test]
fn a_failing_update_changes_nothing() {
    let mut w = world();
    let mut bits = Bits::new();
    create_head(&mut bits, 3).op(FINISH);
    assert_eq!(create(&mut w, 5, &bits), Ok(()));
    let before = fields_of(w.entities.get(&5).unwrap());
    let mut no_such_field = Bits::new();
    no_such_field.op(PLUS_ONE);
    for _ in 0..4 {
        no_such_field.op(PLUS_ONE);
    }
    no_such_field.op(FINISH).uvarint(1).flag(true).flag(true).uvarint(3).uvarint(9);
    assert_eq!(update(&mut w, 5, &no_such_field), Err(Error::DecodeFailure));
    assert_eq!(fields_of(w.entities.get(&5).unwrap()), before);
    let mut cut = Bits::new();
    cut.op(PLUS_ONE).op(PLUS_ONE).op(PLUS_ONE).op(PUSH_ZERO).op(PLUS_ONE).op(FINISH);
    cut.uvarint(300).flag(true).flag(true);
    assert_eq!(update(&mut w, 5, &cut), Err(Error::UnexpectedEnd));
    assert_eq!(fields_of(w.entities.get(&5).unwrap()), before);
    let mut no_finish = Bits::new();
    no_finish.op(PLUS_ONE);
    assert_eq!(update(&mut w, 5, &no_finish), Err(Error::FieldPath(fieldpath::Error::TruncatedFieldPath)));
    let mut malformed = Bits::new();
    malformed.op("110110111").op(FINISH).put(0, 32);
    assert_eq!(
        update(&mut w, 5, &malformed),
        Err(Error::FieldPath(fieldpath::Error::MalformedFieldPath))
    );
    assert_eq!(fields_of(w.entities.get(&5).unwrap()), before);
}

#[test]
fn a_field_without_a_decoder_fails_the_delta() {
    let mut schema = hero_schema();
    Rc::get_mut(&mut schema.fields).unwrap()[1].decoder = FieldDecoder::Invalid(InvalidDecoder);
    let mut w = world();
    w.serializers = FlattenedSerializerContainer { serializers: vec![Rc::new(schema)] };
    let mut bits = Bits::new();
    create_head(&mut bits, 3).op(PLUS_ONE).op(PLUS_ONE).op(FINISH).uvarint(1).flag(true);
    assert_eq!(create(&mut w, 5, &bits), Err(Error::DecodeFailure));
    assert!(w.entities.get(&5).is_none());
}

#[test]
fn create_of_an_unknown_class() {
    let mut w = world();
    w.classes = EntityClasses::new(&[hash_str("CWorld"), hash_str("CTree"), hash_str("CHero")]);
    let mut bits = Bits::new();
    create_head(&mut bits, 3).op(FINISH);
    assert_eq!(create(&mut w, 5, &bits), Err(Error::UnknownClass));
    let mut tree = Bits::new();
    create_head(&mut tree, 1).op(FINISH);
    assert_eq!(create(&mut w, 5, &tree), Err(Error::UnknownSerializer));
    let mut w = world();
    w.baselines = InstanceBaseline::new();
    assert_eq!(create(&mut w, 5, &bits), Err(Error::MissingBaseline));
    assert!(w.entities.is_empty());
}

#[test]
fn a_broken_baseline_fails_the_create() {
    let mut w = world();
    let mut blob = Bits::new();
    blob.op(PLUS_ONE).op(FINISH);
    assert!(w.baselines.update(3, blob.bytes));
    let mut bits = Bits::new();
    create_head(&mut bits, 3).op(FINISH);
    assert_eq!(create(&mut w, 5, &bits), Err(Error::UnexpectedEnd));
    assert!(w.entities.is_empty());
}

#[test]
fn fields_of_the_schema_by_path() {
    let mut w = world();
    let mut bits = Bits::new();
    create_head(&mut bits, 3).op(FINISH);
    assert_eq!(create(&mut w, 5, &bits), Ok(()));
    let entity = w.entities.get(&5).unwrap();
    let name = |indices: &[u8]| {
        entity
            .get_serializer_field(&FieldPath::from_indices(indices).unwrap())
            .map(|f| f.var_name.str.clone())
    };
    assert_eq!(name(&[0]), Some(String::from("X")));
    assert_eq!(name(&[2]), Some(String::from("pos")));
    assert_eq!(name(&[2, 1]), Some(String::from("b")));
    assert_eq!(name(&[3, 0]), Some(String::from("arr")));
    assert_eq!(name(&[3, 2]), None);
    assert_eq!(name(&[4]), None);
    assert_eq!(name(&[0, 0]), None);
    assert_eq!(name(&[255]), None);
    let pos = entity.get_serializer_field(&FieldPath::from_indices(&[2]).unwrap()).unwrap();
    assert!(!pos.is_fixed_or_dynamic_array());
    assert!(pos.get_child(2).is_none());
    let arr = entity.get_serializer_field(&FieldPath::from_indices(&[3]).unwrap()).unwrap();
    assert!(arr.is_fixed_or_dynamic_array());
    assert!(!arr.var_encoder_heq(hash_str("fixed64")));
}

#[test]
fn schemas_by_name() {
    let w = world();
    assert!(w.serializers.by_name_hash(hash_str("CHero")).is_some());
    assert!(w.serializers.by_name_hash(hash_str("CTree")).is_none());
    let two = FlattenedSerializerContainer {
        serializers: vec![
            Rc::new(FlattenedSerializer {
                serializer_name: Symbol::new("A"),
                fields: Rc::new(Vec::new()),
            }),
            Rc::new(hero_schema()),
            Rc::new(FlattenedSerializer {
                serializer_name: Symbol::new("CHero"),
                fields: Rc::new(Vec::new()),
            }),
        ],
    };
    assert_eq!(two.by_name_hash(hash_str("CHero")).unwrap().fields.len(), 4);
    assert_eq!(two.by_name_hash(hash_str("A")).unwrap().fields.len(), 0);
}

#[test]
fn every_entity_carries_its_slot() {
    let mut w = world();
    let mut bits = Bits::new();
    create_head(&mut bits, 3).op(FINISH);
    for slot in [0, 7, -3, 16383] {
        assert_eq!(create(&mut w, slot, &bits), Ok(()));
    }
    assert_eq!(update(&mut w, 7, &full_delta()), Ok(()));
    assert_eq!(w.entities.handle_delete(0).unwrap().index(), 0);
    let mut slots = w.entities.iter();
    slots.sort();
    assert_eq!(slots, vec![-3, 7, 16383]);
    for slot in slots {
        assert_eq!(w.entities.get(&slot).unwrap().index(), slot);
    }
}

#[test]
fn creation_leaves_the_other_entities_alone() {
    let mut w = world();
    let mut first = Bits::new();
    create_head(&mut first, 3).op(PLUS_ONE).op(FINISH).uvarint(55);
    let mut second = Bits::new();
    create_head(&mut second, 3).op(FINISH);
    assert_eq!(create(&mut w, 1, &first), Ok(()));
    assert_eq!(create(&mut w, 2, &second), Ok(()));
    let key = make_field_key(&["X"]);
    assert_eq!(w.entities.get(&1).unwrap().get_value(&key), Some(&FieldValue::U64(55)));
    assert_eq!(w.entities.get(&2).unwrap().get_value(&key), Some(&FieldValue::U64(7)));
}
