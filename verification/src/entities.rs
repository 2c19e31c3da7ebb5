//! Entities: the networked objects of the replay, each a map from field keys to values, and
//! the container that creates, updates and deletes them as the stream says.

use crate::bitreader::{BitReader, BitStream};
use crate::entityclasses::EntityClasses;
use crate::fielddecoder::{FieldDecode, FieldDecodeContext, FieldDecoder};
use crate::fieldpath::{self, path_views, read_field_paths, read_paths, FieldPath};
use crate::fieldvalue::{FieldData, FieldValue};
use crate::flattenedserializers::{
    hash_str, name_hash, share, FlattenedSerializer, FlattenedSerializerContainer,
    FlattenedSerializerField,
};
use crate::fxhash::{add_u64_to_hash, spec_add_u64_to_hash};
use crate::instancebaseline::InstanceBaseline;
use hashbrown::HashMap;
use std::rc::Rc;
use vstd::prelude::*;

verus! {

/// Why an entity could not be created, updated or deleted.
#[derive(Debug, Clone, Copy, PartialEq, Eq, Structural)]
pub enum Error {
    /// The batch of field paths could not be read.
    FieldPath(fieldpath::Error),
    /// A path names no field of the class, or the field has no decoder.
    DecodeFailure,
    /// The stream ended within the values.
    UnexpectedEnd,
    /// No entity lives at the slot.
    UnknownEntity,
    /// The class id names no class.
    UnknownClass,
    /// The class has no schema.
    UnknownSerializer,
    /// The class has no baseline.
    MissingBaseline,
}

/// The most entries that room is made for when a map is created.
pub const MAX_CAPACITY: usize = 65536;

/// The number of bits of a slot.
pub const MAX_EDICT_BITS: u32 = 14;

/// The number of slots.
pub const MAX_EDICTS: u32 = 16384;

/// The number of bits of the entry of an entity: one more than those of a slot.
pub const NUM_ENT_ENTRY_BITS: u32 = 15;

/// The number of bits of the serial number in the record of a created entity.
pub const NUM_SERIAL_NUM_BITS: u32 = 17;

/// The number of bits of the serial number in a handle.
pub const NUM_NETWORKED_EHANDLE_SERIAL_NUMBER_BITS: u32 = 10;

/// The number of bits of a handle: the slot and the serial number.
pub const NUM_NETWORKED_EHANDLE_BITS: u32 = 24;

/// The handle that refers to no entity: all bits of a handle set.
pub const INVALID_NETWORKED_EHANDLE_VALUE: u32 = 0xff_ffff;

/// Whether a handle refers to an entity: every handle does but the one of 24 set bits.
pub fn is_handle_valid(handle: u32) -> (r: bool)
    ensures
        r == (handle != INVALID_NETWORKED_EHANDLE_VALUE),
{
    handle != INVALID_NETWORKED_EHANDLE_VALUE
}

/// The slot that a handle refers to: its low 14 bits.
pub fn handle_to_index(handle: u32) -> (r: usize)
    ensures
        r == handle % MAX_EDICTS,
{
    (handle % MAX_EDICTS) as usize
}

/// The two bits in front of an entity's record: what happens to the entity.
#[derive(Debug, Clone, Copy, PartialEq, Eq, Structural)]
pub struct DeltaHeader(pub u8);

impl DeltaHeader {
    /// The entity changes.
    pub const UPDATE: u8 = 0b00;

    /// The entity comes into sight; it is created if it does not exist.
    pub const CREATE: u8 = 0b10;

    /// The entity goes out of sight.
    pub const LEAVE: u8 = 0b01;

    /// The entity goes out of sight and is deleted.
    pub const DELETE: u8 = 0b11;

    /// Reads the two bits; the first bit read is the low one.
    pub fn from_bit_reader(br: &mut BitReader) -> (r: Self)
        ensures
            r.0 == old(br)@.value(2),
            final(br)@ == old(br)@.advance(2),
    {
        proof {
            crate::bitreader::lemma_value_bound(br@, 2, 2);
            vstd::arithmetic::power2::lemma2_to64();
        }
        DeltaHeader(br.read_ubit64(2) as u8)
    }
}

/// The values of an entity's fields, by key. The map is kept by `hashbrown`; nothing of what
/// is stated of it here is proved.
#[verifier::external_body]
#[derive(Debug)]
pub struct FieldMap {
    inner: HashMap<u64, FieldValue>,
}

/// What a [`FieldMap`] holds.
pub uninterp spec fn field_map_contents(m: FieldMap) -> Map<u64, FieldData>;

impl View for FieldMap {
    type V = Map<u64, FieldData>;

    open spec fn view(&self) -> Map<u64, FieldData> {
        field_map_contents(*self)
    }
}

impl FieldMap {
    /// `HashMap::with_capacity`: a map that holds nothing. The call panics where the
    /// capacity overflows the address space, so the capacity is kept small.
    #[verifier::external_body]
    fn with_capacity(capacity: usize) -> (r: FieldMap)
        requires
            capacity <= MAX_CAPACITY,
        ensures
            forall|k: u64| !field_map_contents(r).contains_key(k),
    {
        FieldMap { inner: HashMap::with_capacity(capacity) }
    }

    /// `HashMap::insert`: afterwards the key has the value, and every other key has what it
    /// had.
    #[verifier::external_body]
    fn insert(&mut self, key: u64, value: FieldValue)
        ensures
            field_map_contents(*final(self)) == field_map_contents(*old(self)).insert(key, value@),
    {
        self.inner.insert(key, value);
    }

    /// `HashMap::get`: the value of the key, if the map has the key.
    #[verifier::external_body]
    fn get(&self, key: u64) -> (r: Option<&FieldValue>)
        ensures
            match r {
                Some(v) => field_map_contents(*self).contains_key(key) && v@ == field_map_contents(
                    *self,
                )[key],
                None => !field_map_contents(*self).contains_key(key),
            },
    {
        self.inner.get(&key)
    }

    /// `HashMap::clone`, with the derived `clone` of the values: a map that holds the same.
    #[verifier::external_body]
    fn duplicate(&self) -> (r: FieldMap)
        ensures
            field_map_contents(r) == field_map_contents(*self),
    {
        FieldMap { inner: self.inner.clone() }
    }

    /// `HashMap::iter`: every key of the map once, each with a copy of its value, in no
    /// stated order.
    #[verifier::external_body]
    fn entries(&self) -> (r: Vec<(u64, FieldValue)>)
        ensures
            forall|i: int|
                0 <= i < r@.len() ==> field_map_contents(*self).contains_key((#[trigger] r@[i]).0)
                    && r@[i].1@ == field_map_contents(*self)[r@[i].0],
            forall|k: u64|
                field_map_contents(*self).contains_key(k) ==> exists|i: int|
                    0 <= i < r@.len() && (#[trigger] r@[i]).0 == k,
            forall|i: int, j: int|
                0 <= i < j < r@.len() ==> (#[trigger] r@[i]).0 != (#[trigger] r@[j]).0,
    {
        self.inner.iter().map(|(k, v)| (*k, v.duplicate())).collect()
    }
}

/// The key of the field at the end of `path`, which started at `at` levels below `field` with
/// the key `key`, and the decoder of that field. Below a structure a level names a child, and
/// the hash of the child's name goes into the key. Below an array every level names the
/// element, and the hash of the index goes into the key: the index mixed into the hash
/// zero, which is also the hash of the one byte that holds the index.
pub open spec fn resolve_from(
    field: &FlattenedSerializerField,
    key: u64,
    path: Seq<u8>,
    at: int,
) -> Option<(u64, FieldDecoder)>
    decreases path.len() - at,
{
    if at >= path.len() {
        Some((key, field.decoder))
    } else if field.spec_is_array() {
        if field.children@.len() > 0 {
            resolve_from(
                &field.children@[0],
                spec_add_u64_to_hash(key, spec_add_u64_to_hash(0, path[at] as u64)),
                path,
                at + 1,
            )
        } else {
            None
        }
    } else if path[at] < field.children@.len() {
        resolve_from(
            &field.children@[path[at] as int],
            spec_add_u64_to_hash(key, field.children@[path[at] as int].var_name.hash),
            path,
            at + 1,
        )
    } else {
        None
    }
}

/// The key and the decoder of the field that `path` names in the schema `ser`, if it names
/// one. The key starts as the hash of the name of the first field.
pub open spec fn resolve(ser: &FlattenedSerializer, path: Seq<u8>) -> Option<(u64, FieldDecoder)> {
    if path.len() >= 1 && path[0] < ser.fields@.len() {
        resolve_from(&ser.fields@[path[0] as int], ser.fields@[path[0] as int].var_name.hash, path, 1)
    } else {
        None
    }
}

/// Finds the key and the decoder of the field that `path` names.
fn lookup_field(ser: &FlattenedSerializer, path: &FieldPath) -> (r: Option<(u64, FieldDecoder)>)
    ensures
        r == resolve(ser, path@),
{
    proof {
        path.lemma_len();
    }
    let first = match path.get(0) {
        Some(i) => i,
        None => {
            return None;
        },
    };
    let mut field: &FlattenedSerializerField = match ser.get_child(first) {
        Some(f) => f,
        None => {
            return None;
        },
    };
    let mut key: u64 = field.var_name.hash;
    let n = path.last() + 1;
    let mut at: usize = 1;
    while at < n
        invariant
            1 <= at <= n == path@.len(),
            resolve(ser, path@) == resolve_from(field, key, path@, at as int),
        decreases n - at,
    {
        let index = match path.get(at) {
            Some(i) => i,
            None => {
                return None;
            },
        };
        if field.is_fixed_or_dynamic_array() {
            field = match field.get_child(0) {
                Some(f) => f,
                None => {
                    return None;
                },
            };
            key = add_u64_to_hash(key, add_u64_to_hash(0, index as u64));
        } else {
            field = match field.get_child(index) {
                Some(f) => f,
                None => {
                    return None;
                },
            };
            key = add_u64_to_hash(key, field.var_name.hash);
        }
        at = at + 1;
    }
    Some((key, field.decoder))
}

/// The values of the first `upto` paths of `paths`, read one after the other from `s`, each
/// with its key, and the stream behind them.
pub open spec fn decode_paths(ser: &FlattenedSerializer, paths: Seq<Seq<u8>>, s: BitStream, upto: int) -> (
    Result<Seq<(u64, FieldData)>, Error>,
    BitStream,
)
    decreases upto,
{
    if upto <= 0 {
        (Ok(Seq::empty()), s)
    } else {
        let (before, s1) = decode_paths(ser, paths, s, upto - 1);
        match before {
            Err(e) => (Err(e), s1),
            Ok(done) => match resolve(ser, paths[upto - 1]) {
                None => (Err(Error::DecodeFailure), s1),
                Some((key, decoder)) => if decoder.usable() {
                    (Ok(done.push((key, decoder.decoded(s1).0))), decoder.decoded(s1).1)
                } else {
                    (Err(Error::DecodeFailure), s1)
                },
            },
        }
    }
}

/// The updates that the delta at the front of `s` holds for an entity with the schema `ser`,
/// and the stream behind the delta: a batch of field paths, then one value for each path. A
/// stream that ends within the delta gives `UnexpectedEnd`.
pub open spec fn parsed(ser: &FlattenedSerializer, s: BitStream) -> (
    Result<Seq<(u64, FieldData)>, Error>,
    BitStream,
) {
    match read_paths(s).0 {
        Err(e) => (Err(Error::FieldPath(e)), read_paths(s).1),
        Ok(paths) => {
            let (values, s2) = decode_paths(ser, paths, read_paths(s).1, paths.len() as int);
            match values {
                Err(e) => (Err(e), s2),
                Ok(updates) => if s2.overflowed {
                    (Err(Error::UnexpectedEnd), s2)
                } else {
                    (Ok(updates), s2)
                },
            }
        },
    }
}

/// The fields `fields` after the updates went in, one after the other.
pub open spec fn apply_updates(fields: Map<u64, FieldData>, updates: Seq<(u64, FieldData)>) -> Map<
    u64,
    FieldData,
>
    decreases updates.len(),
{
    if updates.len() == 0 {
        fields
    } else {
        apply_updates(fields, updates.drop_last()).insert(updates.last().0, updates.last().1)
    }
}

/// The updates as contracts speak of them.
pub open spec fn update_views(updates: Seq<(u64, FieldValue)>) -> Seq<(u64, FieldData)> {
    updates.map_values(|u: (u64, FieldValue)| (u.0, u.1@))
}

/// The buffer of the context after the values of the first `upto` paths of `paths` were read
/// from `s`, where it was `buf` before: each decoder leaves the buffer that its value leaves.
pub open spec fn buffer_after_paths(
    ser: &FlattenedSerializer,
    paths: Seq<Seq<u8>>,
    s: BitStream,
    buf: Seq<u8>,
    upto: int,
) -> Seq<u8>
    decreases upto,
{
    if upto <= 0 {
        buf
    } else {
        let before = buffer_after_paths(ser, paths, s, buf, upto - 1);
        match decode_paths(ser, paths, s, upto - 1).0 {
            Err(_) => before,
            Ok(_) => match resolve(ser, paths[upto - 1]) {
                None => before,
                Some((_, decoder)) => if decoder.usable() {
                    decoder.buffer_after(before, decode_paths(ser, paths, s, upto - 1).1)
                } else {
                    before
                },
            },
        }
    }
}

/// The buffer of the context after the delta at the front of `s` was read for an entity
/// with the schema `ser`, where it was `buf` before.
pub open spec fn buffer_after_delta(ser: &FlattenedSerializer, s: BitStream, buf: Seq<u8>) -> Seq<u8> {
    match read_paths(s).0 {
        Err(_) => buf,
        Ok(paths) => buffer_after_paths(ser, paths, read_paths(s).1, buf, paths.len() as int),
    }
}

/// Once a path fails, the buffer stays.
proof fn lemma_buffer_after_paths_stops(
    ser: &FlattenedSerializer,
    paths: Seq<Seq<u8>>,
    s: BitStream,
    buf: Seq<u8>,
    at: int,
    upto: int,
)
    requires
        0 <= at <= upto,
        decode_paths(ser, paths, s, at).0 is Err,
    ensures
        buffer_after_paths(ser, paths, s, buf, upto) == buffer_after_paths(ser, paths, s, buf, at),
    decreases upto - at,
{
    if at < upto {
        lemma_buffer_after_paths_stops(ser, paths, s, buf, at, upto - 1);
        lemma_decode_paths_stops(ser, paths, s, at, upto - 1);
    }
}

/// Reads the updates of one delta.
fn decode_updates(ser: &FlattenedSerializer, ctx: &mut FieldDecodeContext, br: &mut BitReader) -> (r:
    Result<Vec<(u64, FieldValue)>, Error>)
    ensures
        final(br)@ == parsed(ser, old(br)@).1,
        final(ctx)@ == buffer_after_delta(ser, old(br)@, old(ctx)@),
        match r {
            Ok(updates) => parsed(ser, old(br)@).0 == Ok::<Seq<(u64, FieldData)>, Error>(
                update_views(updates@),
            ),
            Err(e) => parsed(ser, old(br)@).0 == Err::<Seq<(u64, FieldData)>, Error>(e),
        },
{
    let paths = match read_field_paths(br) {
        Ok(paths) => paths,
        Err(e) => {
            return Err(Error::FieldPath(e));
        },
    };
    let ghost s1 = br@;
    let ghost views = path_views(paths@);
    let mut updates: Vec<(u64, FieldValue)> = Vec::new();
    let mut i: usize = 0;
    assert(update_views(updates@) =~= Seq::<(u64, FieldData)>::empty());
    while i < paths.len()
        invariant
            i <= paths@.len(),
            views == path_views(paths@),
            read_paths(old(br)@) == (Ok::<Seq<Seq<u8>>, fieldpath::Error>(views), s1),
            ctx@ == buffer_after_paths(ser, views, s1, old(ctx)@, i as int),
            decode_paths(ser, views, s1, i as int) == (
                Ok::<Seq<(u64, FieldData)>, Error>(update_views(updates@)),
                br@,
            ),
        decreases paths@.len() - i,
    {
        let ghost before = update_views(updates@);
        match lookup_field(ser, &paths[i]) {
            None => {
                proof {
                    lemma_decode_paths_stops(ser, views, s1, i as int + 1, views.len() as int);
                    lemma_buffer_after_paths_stops(
                        ser,
                        views,
                        s1,
                        old(ctx)@,
                        i as int + 1,
                        views.len() as int,
                    );
                }
                return Err(Error::DecodeFailure);
            },
            Some((key, decoder)) => {
                if !decoder.is_usable() {
                    proof {
                        lemma_decode_paths_stops(ser, views, s1, i as int + 1, views.len() as int);
                        lemma_buffer_after_paths_stops(
                            ser,
                            views,
                            s1,
                            old(ctx)@,
                            i as int + 1,
                            views.len() as int,
                        );
                    }
                    return Err(Error::DecodeFailure);
                }
                let value = decoder.decode(ctx, br);
                updates.push((key, value));
                assert(update_views(updates@) =~= before.push((key, value@)));
            },
        }
        i = i + 1;
    }
    if br.is_overflowed() {
        return Err(Error::UnexpectedEnd);
    }
    Ok(updates)
}

/// Once a path fails, the paths after it are not read.
proof fn lemma_decode_paths_stops(
    ser: &FlattenedSerializer,
    paths: Seq<Seq<u8>>,
    s: BitStream,
    at: int,
    upto: int,
)
    requires
        0 <= at <= upto,
        decode_paths(ser, paths, s, at).0 is Err,
    ensures
        decode_paths(ser, paths, s, upto) == decode_paths(ser, paths, s, at),
    decreases upto - at,
{
    if at < upto {
        lemma_decode_paths_stops(ser, paths, s, at, upto - 1);
    }
}

/// One entity.
#[derive(Debug)]
pub struct Entity {
    index: i32,
    fields: FieldMap,
    serializer: Rc<FlattenedSerializer>,
}

/// What an entity stands for: its slot, the values of its fields by key, and its schema.
pub struct EntityView {
    pub index: i32,
    pub fields: Map<u64, FieldData>,
    pub serializer: FlattenedSerializer,
}

impl View for Entity {
    type V = EntityView;

    closed spec fn view(&self) -> EntityView {
        EntityView { index: self.index, fields: self.fields@, serializer: *self.serializer }
    }
}

/// The field that the indices of `path` from `at` on lead to below `field`, each index
/// naming a child.
pub open spec fn descend(field: &FlattenedSerializerField, path: Seq<u8>, at: int) -> Option<
    &FlattenedSerializerField,
>
    decreases path.len() - at,
{
    if at >= path.len() {
        Some(field)
    } else if path[at] < field.children@.len() {
        descend(&field.children@[path[at] as int], path, at + 1)
    } else {
        None
    }
}

/// The field of the schema `ser` that the indices of `path` lead to, each index naming a
/// child.
pub open spec fn field_at(ser: &FlattenedSerializer, path: Seq<u8>) -> Option<
    &FlattenedSerializerField,
> {
    if path.len() >= 1 && path[0] < ser.fields@.len() {
        descend(&ser.fields@[path[0] as int], path, 1)
    } else {
        None
    }
}

impl Entity {
    /// An entity without fields.
    fn empty(index: i32, serializer: Rc<FlattenedSerializer>) -> (r: Entity)
        ensures
            r@ == (EntityView {
                index,
                fields: Map::<u64, FieldData>::empty(),
                serializer: *serializer,
            }),
    {
        let capacity = if serializer.fields.len() < MAX_CAPACITY {
            serializer.fields.len()
        } else {
            MAX_CAPACITY
        };
        let fields = FieldMap::with_capacity(capacity);
        assert(fields@ =~= Map::<u64, FieldData>::empty());
        Entity { index, fields, serializer }
    }

    /// A copy of this entity for the slot `index`.
    fn duplicate(&self, index: i32) -> (r: Entity)
        ensures
            r@ == (EntityView { index, ..self@ }),
    {
        Entity { index, fields: self.fields.duplicate(), serializer: share(&self.serializer) }
    }

    /// Applies the delta at the front of `br`. Either every update of the delta goes in, or
    /// the entity is left as it was.
    pub fn parse(&mut self, ctx: &mut FieldDecodeContext, br: &mut BitReader) -> (r: Result<
        (),
        Error,
    >)
        ensures
            final(br)@ == parsed(&old(self)@.serializer, old(br)@).1,
            final(ctx)@ == buffer_after_delta(&old(self)@.serializer, old(br)@, old(ctx)@),
            match r {
                Ok(_) => parsed(&old(self)@.serializer, old(br)@).0 matches Ok(updates)
                    && final(self)@ == (EntityView {
                    fields: apply_updates(old(self)@.fields, updates),
                    ..old(self)@
                }),
                Err(e) => parsed(&old(self)@.serializer, old(br)@).0 == Err::<
                    Seq<(u64, FieldData)>,
                    Error,
                >(e) && final(self)@ == old(self)@,
            },
    {
        let updates = match decode_updates(&self.serializer, ctx, br) {
            Ok(updates) => updates,
            Err(e) => {
                return Err(e);
            },
        };
        let ghost before = self@;
        let ghost views = update_views(updates@);
        assert(views.take(0) =~= Seq::<(u64, FieldData)>::empty());
        for update in it: updates
            invariant
                views == update_views(it.seq()),
                self@ == (EntityView {
                    fields: apply_updates(before.fields, views.take(it.index() as int)),
                    ..before
                }),
        {
            proof {
                let done = it.index() as int;
                assert(views.take(done + 1).drop_last() =~= views.take(done));
                assert(views.take(done + 1).last() == views[done]);
            }
            self.fields.insert(update.0, update.1);
        }
        assert(views.take(views.len() as int) =~= views);
        Ok(())
    }

    /// The fields with their values, each key once, in no stated order.
    pub fn iter(&self) -> (r: Vec<(u64, FieldValue)>)
        ensures
            forall|i: int|
                0 <= i < r@.len() ==> self@.fields.contains_key((#[trigger] r@[i]).0) && r@[i].1@
                    == self@.fields[r@[i].0],
            forall|k: u64|
                self@.fields.contains_key(k) ==> exists|i: int|
                    0 <= i < r@.len() && (#[trigger] r@[i]).0 == k,
            forall|i: int, j: int|
                0 <= i < j < r@.len() ==> (#[trigger] r@[i]).0 != (#[trigger] r@[j]).0,
    {
        self.fields.entries()
    }

    /// The value of the field with the key `key`, if the entity has that field.
    pub fn get_value(&self, key: &u64) -> (r: Option<&FieldValue>)
        ensures
            match r {
                Some(v) => self@.fields.contains_key(*key) && v@ == self@.fields[*key],
                None => !self@.fields.contains_key(*key),
            },
    {
        self.fields.get(*key)
    }

    /// The schema of the entity.
    pub fn serializer(&self) -> (r: &FlattenedSerializer)
        ensures
            *r == self@.serializer,
    {
        &self.serializer
    }

    /// Whether the name of the entity's schema has the hash `rhs`.
    pub fn serializer_name_heq(&self, rhs: u64) -> (r: bool)
        ensures
            r == (self@.serializer.serializer_name.hash == rhs),
    {
        self.serializer.serializer_name.hash == rhs
    }

    /// The field of the entity's schema that the indices of `path` lead to.
    pub fn get_serializer_field(&self, path: &FieldPath) -> (r: Option<&FlattenedSerializerField>)
        ensures
            r == field_at(&self@.serializer, path@),
    {
        proof {
            path.lemma_len();
        }
        let first = match path.get(0) {
            Some(i) => i,
            None => {
                return None;
            },
        };
        let mut field: &FlattenedSerializerField = match self.serializer.get_child(first) {
            Some(f) => f,
            None => {
                return None;
            },
        };
        let n = path.last() + 1;
        let mut at: usize = 1;
        while at < n
            invariant
                1 <= at <= n == path@.len(),
                field_at(&self@.serializer, path@) == descend(field, path@, at as int),
            decreases n - at,
        {
            let index = match path.get(at) {
                Some(i) => i,
                None => {
                    return None;
                },
            };
            field = match field.get_child(index) {
                Some(f) => f,
                None => {
                    return None;
                },
            };
            at = at + 1;
        }
        Some(field)
    }

    /// The slot of the entity.
    pub fn index(&self) -> (r: i32)
        ensures
            r == self@.index,
    {
        self.index
    }
}

/// The position of the last update of the field `key` among `updates`, if there is one.
pub open spec fn last_update_of(updates: Seq<(u64, FieldData)>, key: u64) -> Option<int>
    decreases updates.len(),
{
    if updates.len() == 0 {
        None
    } else if updates.last().0 == key {
        Some(updates.len() - 1)
    } else {
        last_update_of(updates.drop_last(), key)
    }
}

/// After updates a field holds the value of its last update; a field without an update
/// holds what it held.
pub proof fn lemma_apply_updates_holds(
    fields: Map<u64, FieldData>,
    updates: Seq<(u64, FieldData)>,
    key: u64,
)
    ensures
        match last_update_of(updates, key) {
            Some(i) => 0 <= i < updates.len() && updates[i].0 == key && apply_updates(
                fields,
                updates,
            ).contains_key(key) && apply_updates(fields, updates)[key] == updates[i].1,
            None => apply_updates(fields, updates).contains_key(key) == fields.contains_key(key)
                && apply_updates(fields, updates)[key] == fields[key],
        },
    decreases updates.len(),
{
    if updates.len() > 0 {
        lemma_apply_updates_holds(fields, updates.drop_last(), key);
    }
}

/// Updating twice is updating once: the updates of a delta, applied to the fields that
/// they were applied to already, change nothing.
pub proof fn lemma_update_is_idempotent(fields: Map<u64, FieldData>, updates: Seq<(u64, FieldData)>)
    ensures
        apply_updates(apply_updates(fields, updates), updates) == apply_updates(fields, updates),
{
    let once = apply_updates(fields, updates);
    let twice = apply_updates(once, updates);
    assert forall|key: u64| #[trigger] twice.dom().contains(key) == once.dom().contains(key) by {
        lemma_apply_updates_holds(fields, updates, key);
        lemma_apply_updates_holds(once, updates, key);
    }
    assert forall|key: u64| twice.dom().contains(key) implies #[trigger] twice[key] == once[key] by {
        lemma_apply_updates_holds(fields, updates, key);
        lemma_apply_updates_holds(once, updates, key);
    }
    assert(twice =~= once);
}

/// The entity `entity` after the delta at the front of `s`, if the delta can be read.
pub open spec fn updated(entity: EntityView, s: BitStream) -> Option<EntityView> {
    match parsed(&entity.serializer, s).0 {
        Ok(updates) => Some(EntityView { fields: apply_updates(entity.fields, updates), ..entity }),
        Err(_) => None,
    }
}

/// The same delta applied twice to an entity leaves it as it is after the first time.
pub proof fn lemma_same_delta_twice(entity: EntityView, s: BitStream)
    requires
        updated(entity, s) is Some,
    ensures
        updated(updated(entity, s)->Some_0, s) == updated(entity, s),
{
    let updates = parsed(&entity.serializer, s).0->Ok_0;
    lemma_update_is_idempotent(entity.fields, updates);
}

/// The live entities and the baseline entities, by slot and by class id. The map is kept by
/// `hashbrown`; nothing of what is stated of it here is proved.
#[verifier::external_body]
#[derive(Debug)]
pub struct EntityMap {
    inner: HashMap<i32, Entity>,
}

/// What an [`EntityMap`] holds.
pub uninterp spec fn entity_map_contents(m: EntityMap) -> Map<i32, EntityView>;

impl View for EntityMap {
    type V = Map<i32, EntityView>;

    open spec fn view(&self) -> Map<i32, EntityView> {
        entity_map_contents(*self)
    }
}

impl EntityMap {
    /// `HashMap::with_capacity`: a map that holds nothing. The call panics where the
    /// capacity overflows the address space, so the capacity is kept small.
    #[verifier::external_body]
    fn with_capacity(capacity: usize) -> (r: EntityMap)
        requires
            capacity <= MAX_CAPACITY,
        ensures
            forall|k: i32| !entity_map_contents(r).contains_key(k),
    {
        EntityMap { inner: HashMap::with_capacity(capacity) }
    }

    /// `HashMap::insert`: afterwards the key has the value, and every other key has what it
    /// had.
    #[verifier::external_body]
    fn insert(&mut self, key: i32, value: Entity)
        ensures
            entity_map_contents(*final(self)) == entity_map_contents(*old(self)).insert(key, value@),
    {
        self.inner.insert(key, value);
    }

    /// `HashMap::get`: the value of the key, if the map has the key.
    #[verifier::external_body]
    fn get(&self, key: i32) -> (r: Option<&Entity>)
        ensures
            match r {
                Some(e) => entity_map_contents(*self).contains_key(key) && e@
                    == entity_map_contents(*self)[key],
                None => !entity_map_contents(*self).contains_key(key),
            },
    {
        self.inner.get(&key)
    }

    /// `HashMap::remove`: the value of the key, if the map has the key; afterwards the map
    /// has not, and every other key has what it had.
    #[verifier::external_body]
    fn remove(&mut self, key: i32) -> (r: Option<Entity>)
        ensures
            entity_map_contents(*final(self)) == entity_map_contents(*old(self)).remove(key),
            match r {
                Some(e) => entity_map_contents(*old(self)).contains_key(key) && e@
                    == entity_map_contents(*old(self))[key],
                None => !entity_map_contents(*old(self)).contains_key(key),
            },
    {
        self.inner.remove(&key)
    }

    /// `HashMap::clear`: afterwards the map holds nothing.
    #[verifier::external_body]
    fn clear(&mut self)
        ensures
            forall|k: i32| !entity_map_contents(*final(self)).contains_key(k),
    {
        self.inner.clear();
    }

    /// `HashMap::is_empty`: whether the map holds nothing.
    #[verifier::external_body]
    fn is_empty(&self) -> (r: bool)
        ensures
            r == (forall|k: i32| !entity_map_contents(*self).contains_key(k)),
    {
        self.inner.is_empty()
    }

    /// `HashMap::keys`: every key of the map once, in no stated order.
    #[verifier::external_body]
    fn keys(&self) -> (r: Vec<i32>)
        ensures
            forall|i: int| 0 <= i < r@.len() ==> entity_map_contents(*self).contains_key(#[trigger] r@[i]),
            forall|k: i32|
                entity_map_contents(*self).contains_key(k) ==> exists|i: int|
                    0 <= i < r@.len() && #[trigger] r@[i] == k,
            forall|i: int, j: int| 0 <= i < j < r@.len() ==> #[trigger] r@[i] != #[trigger] r@[j],
    {
        self.inner.keys().copied().collect()
    }
}

/// What a container stands for: the live entities by slot, and the baseline entities by
/// class id.
pub struct ContainerView {
    pub entities: Map<i32, EntityView>,
    pub baselines: Map<i32, EntityView>,
}

impl ContainerView {
    /// Whether every live entity carries the slot that it lives at.
    pub open spec fn wf(self) -> bool {
        forall|k: i32| self.entities.contains_key(k) ==> (#[trigger] self.entities[k]).index == k
    }
}

/// The container of the entities.
#[derive(Debug)]
pub struct EntityContainer {
    entities: EntityMap,
    baseline_entities: EntityMap,
}

impl View for EntityContainer {
    type V = ContainerView;

    closed spec fn view(&self) -> ContainerView {
        ContainerView { entities: self.entities@, baselines: self.baseline_entities@ }
    }
}

/// The class id at the front of the record of a created entity. It has as many bits as tell
/// the classes apart.
pub open spec fn create_class_id(classes: &EntityClasses, s: BitStream) -> int {
    s.value(crate::entityclasses::ceil_log2(classes@.len()) as int) as int
}

/// The stream behind the head of the record of a created entity: the class id, a serial
/// number of 17 bits and a varint, which are not kept.
pub open spec fn create_body(classes: &EntityClasses, s: BitStream) -> BitStream {
    s.advance(crate::entityclasses::ceil_log2(classes@.len()) as int).advance(
        NUM_SERIAL_NUM_BITS as int,
    ).read_uvarint32().1
}

/// The schema of the class `class_id`: that of the first schema with the hash of the class
/// name.
pub open spec fn class_schema(
    classes: &EntityClasses,
    serializers: &FlattenedSerializerContainer,
    class_id: int,
) -> Result<FlattenedSerializer, Error> {
    match classes.spec_by_id(class_id) {
        None => Err(Error::UnknownClass),
        Some(info) => if class_id > i32::MAX {
            Err(Error::UnknownClass)
        } else {
            match serializers.spec_by_name_hash(info.network_name_hash) {
                None => Err(Error::UnknownSerializer),
                Some(ser) => Ok(*ser),
            }
        },
    }
}

/// A stream at the start of `bytes`.
pub open spec fn stream_of(bytes: Seq<u8>) -> BitStream {
    BitStream { data: bytes, pos: 0, overflowed: false }
}

/// The baseline entity of the class `class_id`, for the slot `index`: the cached one if
/// there is one, else the entity without fields after the delta that the baseline bytes of
/// the class hold.
pub open spec fn baseline_entity(
    cached: Map<i32, EntityView>,
    baselines: &InstanceBaseline,
    ser: FlattenedSerializer,
    class_id: i32,
    index: i32,
) -> Result<EntityView, Error> {
    if cached.contains_key(class_id) {
        Ok(cached[class_id])
    } else if !baselines@.contains_key(class_id as int) {
        Err(Error::MissingBaseline)
    } else {
        match parsed(&ser, stream_of(baselines@[class_id as int])).0 {
            Err(e) => Err(e),
            Ok(updates) => Ok(
                EntityView {
                    index,
                    fields: apply_updates(Map::<u64, FieldData>::empty(), updates),
                    serializer: ser,
                },
            ),
        }
    }
}

/// What the creation of an entity at the slot `index` makes of a container, what it returns,
/// and the stream behind the record. The baseline entity of the class is cached if it was
/// not; the new entity is a copy of it after the delta of the record. Where something
/// fails, no entity is created; a baseline entity that was built before stays cached.
pub open spec fn created(
    view: ContainerView,
    index: i32,
    s: BitStream,
    classes: &EntityClasses,
    baselines: &InstanceBaseline,
    serializers: &FlattenedSerializerContainer,
) -> (ContainerView, Result<(), Error>, BitStream) {
    let class_id = create_class_id(classes, s);
    let body = create_body(classes, s);
    match class_schema(classes, serializers, class_id) {
        Err(e) => (view, Err(e), body),
        Ok(ser) => match baseline_entity(view.baselines, baselines, ser, class_id as i32, index) {
            Err(e) => (view, Err(e), body),
            Ok(base) => {
                let cached = ContainerView {
                    baselines: view.baselines.insert(class_id as i32, base),
                    ..view
                };
                match parsed(&base.serializer, body).0 {
                    Err(e) => (cached, Err(e), parsed(&base.serializer, body).1),
                    Ok(updates) => (
                        ContainerView {
                            entities: view.entities.insert(
                                index,
                                EntityView {
                                    index,
                                    fields: apply_updates(base.fields, updates),
                                    serializer: base.serializer,
                                },
                            ),
                            ..cached
                        },
                        Ok(()),
                        parsed(&base.serializer, body).1,
                    ),
                }
            },
        },
    }
}

/// The buffer of the context after the creation of an entity, where it was `buf` before:
/// the delta of the baseline bytes is read first if the baseline entity of the class is not
/// cached, then the delta of the record.
pub open spec fn buffer_after_create(
    view: ContainerView,
    index: i32,
    s: BitStream,
    classes: &EntityClasses,
    baselines: &InstanceBaseline,
    serializers: &FlattenedSerializerContainer,
    buf: Seq<u8>,
) -> Seq<u8> {
    let class_id = create_class_id(classes, s);
    match class_schema(classes, serializers, class_id) {
        Err(_) => buf,
        Ok(ser) => {
            let cached = view.baselines.contains_key(class_id as i32);
            let after_baseline = if cached || !baselines@.contains_key(class_id) {
                buf
            } else {
                buffer_after_delta(&ser, stream_of(baselines@[class_id]), buf)
            };
            match baseline_entity(view.baselines, baselines, ser, class_id as i32, index) {
                Err(_) => after_baseline,
                Ok(base) => buffer_after_delta(
                    &base.serializer,
                    create_body(classes, s),
                    after_baseline,
                ),
            }
        },
    }
}

impl EntityContainer {
    /// Whether every live entity carries the slot that it lives at. It holds of a new
    /// container, and every method keeps it.
    pub open spec fn wf(&self) -> bool {
        self@.wf()
    }

    /// A container without entities.
    pub fn new() -> (r: Self)
        ensures
            r.wf(),
            r@.entities == Map::<i32, EntityView>::empty(),
            r@.baselines == Map::<i32, EntityView>::empty(),
    {
        let entities = EntityMap::with_capacity(MAX_EDICTS as usize);
        let baseline_entities = EntityMap::with_capacity(1024);
        assert(entities@ =~= Map::<i32, EntityView>::empty());
        assert(baseline_entities@ =~= Map::<i32, EntityView>::empty());
        EntityContainer { entities, baseline_entities }
    }

    /// Creates the entity at the slot `index` from the record at the front of `br`.
    pub fn handle_create(
        &mut self,
        index: i32,
        ctx: &mut FieldDecodeContext,
        br: &mut BitReader,
        entity_classes: &EntityClasses,
        instance_baseline: &InstanceBaseline,
        serializers: &FlattenedSerializerContainer,
    ) -> (r: Result<&Entity, Error>)
        requires
            old(self).wf(),
        ensures
            final(self).wf(),
            r matches Ok(entity) ==> entity@.index == index,
            final(ctx)@ == buffer_after_create(
                old(self)@,
                index,
                old(br)@,
                entity_classes,
                instance_baseline,
                serializers,
                old(ctx)@,
            ),
            final(self)@ == created(
                old(self)@,
                index,
                old(br)@,
                entity_classes,
                instance_baseline,
                serializers,
            ).0,
            final(br)@ == created(
                old(self)@,
                index,
                old(br)@,
                entity_classes,
                instance_baseline,
                serializers,
            ).2,
            match r {
                Ok(entity) => created(
                    old(self)@,
                    index,
                    old(br)@,
                    entity_classes,
                    instance_baseline,
                    serializers,
                ).1 is Ok && entity@ == final(self)@.entities[index],
                Err(e) => created(
                    old(self)@,
                    index,
                    old(br)@,
                    entity_classes,
                    instance_baseline,
                    serializers,
                ).1 == Err::<(), Error>(e),
            },
    {
        let class_id = br.read_ubit64(entity_classes.bits());
        let _serial = br.read_ubit64(NUM_SERIAL_NUM_BITS as usize);
        let _unknown = br.read_uvarint32();
        let info = match entity_classes.by_id(class_id) {
            Some(info) => info,
            None => {
                return Err(Error::UnknownClass);
            },
        };
        if class_id > i32::MAX as u64 {
            return Err(Error::UnknownClass);
        }
        let class_key = class_id as i32;
        let serializer = match serializers.by_name_hash(info.network_name_hash) {
            Some(serializer) => serializer,
            None => {
                return Err(Error::UnknownSerializer);
            },
        };
        let ghost before = self@;
        let mut entity = match self.baseline_entities.get(class_key) {
            Some(baseline) => {
                assert(before.baselines.insert(class_key, baseline@) =~= before.baselines);
                baseline.duplicate(index)
            },
            None => {
                let blob = match instance_baseline.by_id(class_key) {
                    Some(blob) => blob,
                    None => {
                        return Err(Error::MissingBaseline);
                    },
                };
                let mut baseline = Entity::empty(index, share(serializer));
                let mut baseline_br = BitReader::new(blob.as_slice());
                match baseline.parse(ctx, &mut baseline_br) {
                    Ok(_) => {},
                    Err(e) => {
                        return Err(e);
                    },
                }
                let copy = baseline.duplicate(index);
                self.baseline_entities.insert(class_key, baseline);
                copy
            },
        };
        match entity.parse(ctx, br) {
            Ok(_) => {},
            Err(e) => {
                return Err(e);
            },
        }
        self.entities.insert(index, entity);
        match self.entities.get(index) {
            Some(entity) => Ok(entity),
            None => vstd::pervasive::unreached(),
        }
    }

    /// Deletes the entity at the slot `index` and returns it. Where no entity lives there,
    /// nothing changes.
    pub fn handle_delete(&mut self, index: i32) -> (r: Result<Entity, Error>)
        requires
            old(self).wf(),
        ensures
            final(self).wf(),
            r matches Ok(e) ==> e@.index == index,
            match r {
                Ok(e) => old(self)@.entities.contains_key(index) && e@ == old(self)@.entities[index]
                    && final(self)@ == (ContainerView {
                    entities: old(self)@.entities.remove(index),
                    ..old(self)@
                }),
                Err(e) => e == Error::UnknownEntity && !old(self)@.entities.contains_key(index)
                    && final(self)@ == old(self)@,
            },
    {
        let ghost before = self@;
        match self.entities.remove(index) {
            Some(e) => {
                proof {
                    assert(before.entities[index].index == index);
                    assert forall|k: i32| self@.entities.contains_key(k) implies (
                    #[trigger] self@.entities[k]).index == k by {
                        assert(before.entities[k].index == k);
                    }
                }
                Ok(e)
            },
            None => {
                assert(before.entities.remove(index) =~= before.entities);
                Err(Error::UnknownEntity)
            },
        }
    }

    /// Applies the delta at the front of `br` to the entity at the slot `index`. Where no
    /// entity lives there, nothing is read and nothing changes; where the delta cannot be
    /// read, the entity is left as it was.
    pub fn handle_update(&mut self, index: i32, ctx: &mut FieldDecodeContext, br: &mut BitReader) -> (r:
        Result<&Entity, Error>)
        requires
            old(self).wf(),
        ensures
            final(self).wf(),
            r matches Ok(entity) ==> entity@.index == index,
            !old(self)@.entities.contains_key(index) ==> r is Err && r.unwrap_err()
                == Error::UnknownEntity && final(self)@ == old(self)@ && final(br)@ == old(br)@
                && final(ctx)@ == old(ctx)@,
            old(self)@.entities.contains_key(index) ==> final(ctx)@ == buffer_after_delta(
                &old(self)@.entities[index].serializer,
                old(br)@,
                old(ctx)@,
            ),
            old(self)@.entities.contains_key(index) ==> final(br)@ == parsed(
                &old(self)@.entities[index].serializer,
                old(br)@,
            ).1 && match r {
                Ok(entity) => updated(old(self)@.entities[index], old(br)@) == Some(entity@)
                    && final(self)@ == (ContainerView {
                    entities: old(self)@.entities.insert(index, entity@),
                    ..old(self)@
                }),
                Err(e) => parsed(&old(self)@.entities[index].serializer, old(br)@).0 == Err::<
                    Seq<(u64, FieldData)>,
                    Error,
                >(e) && final(self)@ == old(self)@,
            },
    {
        let ghost before = self@;
        let mut entity = match self.entities.remove(index) {
            Some(e) => e,
            None => {
                assert(before.entities.remove(index) =~= before.entities);
                return Err(Error::UnknownEntity);
            },
        };
        let r = entity.parse(ctx, br);
        let ghost after = entity@;
        self.entities.insert(index, entity);
        proof {
            assert(before.entities.remove(index).insert(index, after) =~= before.entities.insert(
                index,
                after,
            ));
            if r is Err {
                assert(before.entities.insert(index, after) =~= before.entities);
            }
        }
        match r {
            Ok(_) => match self.entities.get(index) {
                Some(entity) => Ok(entity),
                None => vstd::pervasive::unreached(),
            },
            Err(e) => Err(e),
        }
    }

    /// The slots of the live entities, each once, in no stated order.
    pub fn iter(&self) -> (r: Vec<i32>)
        ensures
            forall|i: int| 0 <= i < r@.len() ==> self@.entities.contains_key(#[trigger] r@[i]),
            forall|k: i32|
                self@.entities.contains_key(k) ==> exists|i: int|
                    0 <= i < r@.len() && #[trigger] r@[i] == k,
            forall|i: int, j: int| 0 <= i < j < r@.len() ==> #[trigger] r@[i] != #[trigger] r@[j],
    {
        self.entities.keys()
    }

    /// The entity at the slot `index`, if one lives there.
    pub fn get(&self, index: &i32) -> (r: Option<&Entity>)
        requires
            self.wf(),
        ensures
            r matches Some(e) ==> e@.index == *index,
            match r {
                Some(e) => self@.entities.contains_key(*index) && e@ == self@.entities[*index],
                None => !self@.entities.contains_key(*index),
            },
    {
        self.entities.get(*index)
    }

    /// Forgets the live entities and the baseline entities.
    pub fn clear(&mut self)
        ensures
            final(self).wf(),
            final(self)@.entities == Map::<i32, EntityView>::empty(),
            final(self)@.baselines == Map::<i32, EntityView>::empty(),
    {
        self.entities.clear();
        self.baseline_entities.clear();
        assert(self.entities@ =~= Map::<i32, EntityView>::empty());
        assert(self.baseline_entities@ =~= Map::<i32, EntityView>::empty());
    }

    /// Whether no entity is live.
    pub fn is_empty(&self) -> (r: bool)
        ensures
            r == (self@.entities == Map::<i32, EntityView>::empty()),
    {
        let r = self.entities.is_empty();
        proof {
            if r {
                assert(self@.entities =~= Map::<i32, EntityView>::empty());
            } else {
                let k = choose|k: i32| self.entities@.contains_key(k);
                assert(self@.entities.contains_key(k));
            }
        }
        r
    }
}

/// The key of the field that the names of `path` lead to: the hash of the first name, with
/// the hash of each further name mixed in.
pub open spec fn field_key(path: Seq<Seq<char>>) -> u64
    decreases path.len(),
{
    if path.len() <= 1 {
        name_hash(path[0])
    } else {
        spec_add_u64_to_hash(field_key(path.drop_last()), name_hash(path.last()))
    }
}

/// The names of `path` as sequences of characters.
pub open spec fn path_names(path: Seq<&str>) -> Seq<Seq<char>> {
    path.map_values(|name: &str| name@)
}

/// Computes the key of the field that the names of `path` lead to.
pub fn make_field_key(path: &[&str]) -> (r: u64)
    requires
        path@.len() > 0,
    ensures
        r == field_key(path_names(path@)),
{
    let ghost names = path_names(path@);
    let mut hash = hash_str(path[0]);
    let mut i: usize = 1;
    assert(names.take(1).len() == 1);
    assert(names.take(1)[0] == path@[0]@);
    while i < path.len()
        invariant
            1 <= i <= path@.len(),
            names == path_names(path@),
            hash == field_key(names.take(i as int)),
        decreases path@.len() - i,
    {
        let part = hash_str(path[i]);
        proof {
            assert(names.take(i + 1).drop_last() =~= names.take(i as int));
            assert(names.take(i + 1).last() == path@[i as int]@);
        }
        hash = add_u64_to_hash(hash, part);
        i = i + 1;
    }
    assert(names.take(i as int) =~= names);
    hash
}

/// The key of a field depends on the names of its path alone: paths with the same names
/// have the same key.
pub proof fn lemma_field_key_is_stable(a: Seq<&str>, b: Seq<&str>)
    requires
        a.len() == b.len(),
        forall|i: int| 0 <= i < a.len() ==> a[i]@ == b[i]@,
    ensures
        field_key(path_names(a)) == field_key(path_names(b)),
{
    assert(path_names(a) =~= path_names(b));
}

/// The fields and the schema that the baseline bytes of the class `class_id` decode to, if
/// the class has a schema and bytes that can be read.
pub open spec fn decoded_baseline(
    classes: &EntityClasses,
    baselines: &InstanceBaseline,
    serializers: &FlattenedSerializerContainer,
    class_id: int,
) -> Option<(Map<u64, FieldData>, FlattenedSerializer)> {
    match class_schema(classes, serializers, class_id) {
        Err(_) => None,
        Ok(ser) => if baselines@.contains_key(class_id) {
            match parsed(&ser, stream_of(baselines@[class_id])).0 {
                Err(_) => None,
                Ok(updates) => Some((apply_updates(Map::<u64, FieldData>::empty(), updates), ser)),
            }
        } else {
            None
        },
    }
}

/// Whether every cached baseline entity is what the baseline bytes of its class decode to.
pub open spec fn cache_matches(
    view: ContainerView,
    classes: &EntityClasses,
    baselines: &InstanceBaseline,
    serializers: &FlattenedSerializerContainer,
) -> bool {
    forall|c: i32| #[trigger]
        view.baselines.contains_key(c) ==> decoded_baseline(classes, baselines, serializers, c as int)
            == Some((view.baselines[c].fields, view.baselines[c].serializer))
}

/// A creation keeps the cache in step with the baseline bytes.
pub proof fn lemma_create_keeps_cache(
    view: ContainerView,
    index: i32,
    s: BitStream,
    classes: &EntityClasses,
    baselines: &InstanceBaseline,
    serializers: &FlattenedSerializerContainer,
)
    requires
        cache_matches(view, classes, baselines, serializers),
    ensures
        cache_matches(
            created(view, index, s, classes, baselines, serializers).0,
            classes,
            baselines,
            serializers,
        ),
{
    let after = created(view, index, s, classes, baselines, serializers).0;
    assert forall|c: i32| #[trigger] after.baselines.contains_key(c) implies decoded_baseline(
        classes,
        baselines,
        serializers,
        c as int,
    ) == Some((after.baselines[c].fields, after.baselines[c].serializer)) by {
        if view.baselines.contains_key(c) {
            assert(after.baselines[c] == view.baselines[c]);
        }
    }
}

/// With a cache in step with the baseline bytes, an entity created by a record whose delta
/// holds no update has the fields that the baseline bytes of its class decode to, and the
/// schema of its class. This holds whether the baseline entity was cached or not.
pub proof fn lemma_created_from_baseline(
    view: ContainerView,
    index: i32,
    s: BitStream,
    classes: &EntityClasses,
    baselines: &InstanceBaseline,
    serializers: &FlattenedSerializerContainer,
)
    requires
        cache_matches(view, classes, baselines, serializers),
        created(view, index, s, classes, baselines, serializers).1 is Ok,
        no_updates(view, index, s, classes, baselines, serializers),
    ensures
        decoded_baseline(classes, baselines, serializers, create_class_id(classes, s)) == Some(
            (
                created(view, index, s, classes, baselines, serializers).0.entities[index].fields,
                created(
                    view,
                    index,
                    s,
                    classes,
                    baselines,
                    serializers,
                ).0.entities[index].serializer,
            ),
        ),
        created(view, index, s, classes, baselines, serializers).0.entities[index].index == index,
{
    let class_id = create_class_id(classes, s);
    if view.baselines.contains_key(class_id as i32) {
        assert(decoded_baseline(classes, baselines, serializers, (class_id as i32) as int) == Some(
            (view.baselines[class_id as i32].fields, view.baselines[class_id as i32].serializer),
        ));
    }
}

/// A creation leaves the entities of the other slots as they are.
pub proof fn lemma_create_leaves_others(
    view: ContainerView,
    index: i32,
    other: i32,
    s: BitStream,
    classes: &EntityClasses,
    baselines: &InstanceBaseline,
    serializers: &FlattenedSerializerContainer,
)
    requires
        other != index,
    ensures
        created(view, index, s, classes, baselines, serializers).0.entities.contains_key(other)
            == view.entities.contains_key(other),
        created(view, index, s, classes, baselines, serializers).0.entities[other]
            == view.entities[other],
{
}

/// Two entities of one class, created one after the other by records whose deltas hold no
/// update, have the same fields.
pub proof fn lemma_baseline_is_pure(
    view: ContainerView,
    first: i32,
    second: i32,
    s1: BitStream,
    s2: BitStream,
    classes: &EntityClasses,
    baselines: &InstanceBaseline,
    serializers: &FlattenedSerializerContainer,
)
    requires
        created(view, first, s1, classes, baselines, serializers).1 is Ok,
        created(
            created(view, first, s1, classes, baselines, serializers).0,
            second,
            s2,
            classes,
            baselines,
            serializers,
        ).1 is Ok,
        create_class_id(classes, s1) == create_class_id(classes, s2),
        no_updates(view, first, s1, classes, baselines, serializers),
        no_updates(
            created(view, first, s1, classes, baselines, serializers).0,
            second,
            s2,
            classes,
            baselines,
            serializers,
        ),
    ensures
        created(view, first, s1, classes, baselines, serializers).0.entities[first].fields == created(
            created(view, first, s1, classes, baselines, serializers).0,
            second,
            s2,
            classes,
            baselines,
            serializers,
        ).0.entities[second].fields,
{
}

/// Whether the delta of the record of a created entity holds no update.
pub open spec fn no_updates(
    view: ContainerView,
    index: i32,
    s: BitStream,
    classes: &EntityClasses,
    baselines: &InstanceBaseline,
    serializers: &FlattenedSerializerContainer,
) -> bool {
    match class_schema(classes, serializers, create_class_id(classes, s)) {
        Err(e) => false,
        Ok(ser) => match baseline_entity(
            view.baselines,
            baselines,
            ser,
            create_class_id(classes, s) as i32,
            index,
        ) {
            Err(e) => false,
            Ok(base) => parsed(&base.serializer, create_body(classes, s)).0 == Ok::<
                Seq<(u64, FieldData)>,
                Error,
            >(Seq::empty()),
        },
    }
}

} // verus!
