//! String tables: named tables of rows, each a string and some user data, and the code that
//! updates them.
//!
//! A row of an update may spell its string in full, or take the first bytes of one of the
//! last 32 strings of the same update and spell only the rest.

use crate::bitreader::{kept_len, BitReader, BitStream};
use crate::snappy::{decompress_len, decompress_vec, snappy_decoded, snappy_len};
use crate::vartype::same_bytes;
use hashbrown::HashMap;
use vstd::prelude::*;

verus! {

/// The number of strings that the history holds.
pub const HISTORY_SIZE: usize = 32;

/// The number of bits of a slot of the history and of the length of a prefix.
pub const MAX_STRING_BITS: usize = 5;

/// The number of bytes that the history keeps of a string.
pub const MAX_STRING_SIZE: usize = 32;

/// The number of bits of the size of user data, where the size is no width-prefixed number.
pub const MAX_USERDATA_BITS: usize = 17;

/// The most bytes that user data may have.
pub const MAX_USERDATA_SIZE: usize = 131072;

/// The size of the buffer for the string of a row, terminator included.
pub const STRING_BUF_SIZE: usize = 1024;

/// What is wrong with an update.
#[derive(Debug, Clone, Copy, PartialEq, Eq, Structural)]
pub enum Malformation {
    /// A row refers to a place of the history that no string of the update has reached.
    HistoryIndex,
    /// User data are longer than `MAX_USERDATA_SIZE` bytes, or the table's fixed size is
    /// below zero.
    UserDataSize,
    /// Compressed user data cannot be decompressed.
    Snappy,
}

/// Why a table could not be updated or created.
#[derive(Debug, Clone, PartialEq, Eq)]
pub enum Error {
    /// The stream ended within a row.
    UnexpectedEnd,
    /// The update is malformed in the given way.
    MalformedStringTable(Malformation),
    /// A table with this name exists already.
    DuplicateStringTable(String),
}

/// One row of a table.
#[derive(Debug, Clone, PartialEq, Eq)]
pub struct StringTableItem {
    pub string: Option<Vec<u8>>,
    pub user_data: Option<Vec<u8>>,
}

/// What a row stands for.
pub struct ItemView {
    pub string: Option<Seq<u8>>,
    pub user_data: Option<Seq<u8>>,
}

/// The bytes of an optional buffer.
pub open spec fn bytes_of(v: Option<Vec<u8>>) -> Option<Seq<u8>> {
    match v {
        Some(b) => Some(b@),
        None => None,
    }
}

impl View for StringTableItem {
    type V = ItemView;

    open spec fn view(&self) -> ItemView {
        ItemView { string: bytes_of(self.string), user_data: bytes_of(self.user_data) }
    }
}

/// The first 32 bytes of `string`, with zeros where it is shorter.
pub open spec fn first32(string: Seq<u8>) -> Seq<u8> {
    Seq::new(
        MAX_STRING_SIZE as nat,
        |i: int|
            if i < string.len() {
                string[i]
            } else {
                0u8
            },
    )
}

/// What a history stands for: 32 places of 32 bytes each, the place that the next string
/// goes to, and whether every place holds a string.
pub struct HistoryView {
    pub ring: Seq<Seq<u8>>,
    pub next: nat,
    pub full: bool,
}

impl HistoryView {
    /// The history that holds no string.
    pub open spec fn empty() -> HistoryView {
        HistoryView {
            ring: Seq::new(HISTORY_SIZE as nat, |i: int| first32(Seq::empty())),
            next: 0,
            full: false,
        }
    }

    /// The history after `string` went in: it takes the next place, and the place that was
    /// written longest ago is the next.
    pub open spec fn pushed(self, string: Seq<u8>) -> HistoryView {
        HistoryView {
            ring: self.ring.update(self.next as int, first32(string)),
            next: (self.next + 1) % HISTORY_SIZE as nat,
            full: self.full || self.next + 1 == HISTORY_SIZE,
        }
    }

    /// The place that the reference `slot` means: slots count from the oldest string once
    /// every place holds one, and from the first place before.
    pub open spec fn place(self, slot: int) -> int {
        if self.full {
            (self.next + slot) % HISTORY_SIZE as int
        } else {
            slot % HISTORY_SIZE as int
        }
    }

    /// Whether the place `at` holds a string.
    pub open spec fn written(self, at: int) -> bool {
        self.full || at < self.next
    }

    /// The history after the strings went in, one after the other.
    pub open spec fn pushed_all(self, strings: Seq<Seq<u8>>) -> HistoryView
        decreases strings.len(),
    {
        if strings.len() == 0 {
            self
        } else {
            self.pushed_all(strings.drop_last()).pushed(strings.last())
        }
    }
}

/// The last strings of an update.
#[derive(Debug)]
pub struct StringHistory {
    entries: Vec<Vec<u8>>,
    next: usize,
    full: bool,
}

impl View for StringHistory {
    type V = HistoryView;

    closed spec fn view(&self) -> HistoryView {
        HistoryView {
            ring: Seq::new(HISTORY_SIZE as nat, |i: int| self.entries@[i]@),
            next: self.next as nat,
            full: self.full,
        }
    }
}

impl StringHistory {
    /// Whether the history has its 32 places of 32 bytes each.
    pub closed spec fn wf(&self) -> bool {
        &&& self.entries@.len() == HISTORY_SIZE
        &&& self.next < HISTORY_SIZE
        &&& forall|i: int|
            0 <= i < HISTORY_SIZE ==> (#[trigger] self.entries@[i])@.len() == MAX_STRING_SIZE
    }

    /// A history that holds no string.
    pub fn new() -> (r: Self)
        ensures
            r.wf(),
            r@ == HistoryView::empty(),
    {
        let mut entries: Vec<Vec<u8>> = Vec::new();
        let mut i: usize = 0;
        while i < HISTORY_SIZE
            invariant
                i <= HISTORY_SIZE,
                entries@.len() == i,
                forall|j: int| 0 <= j < i ==> (#[trigger] entries@[j])@ == first32(Seq::empty()),
            decreases HISTORY_SIZE - i,
        {
            let entry: Vec<u8> = vec![0u8; MAX_STRING_SIZE];
            assert(entry@ =~= first32(Seq::empty()));
            entries.push(entry);
            i = i + 1;
        }
        let r = StringHistory { entries, next: 0, full: false };
        assert(r@.ring =~= HistoryView::empty().ring);
        r
    }

    /// Puts a string into the history.
    pub fn push(&mut self, string: &Vec<u8>)
        requires
            old(self).wf(),
        ensures
            final(self).wf(),
            final(self)@ == old(self)@.pushed(string@),
    {
        let mut entry: Vec<u8> = vec![0u8; MAX_STRING_SIZE];
        let mut i: usize = 0;
        while i < MAX_STRING_SIZE && i < string.len()
            invariant
                i <= MAX_STRING_SIZE,
                i <= string@.len(),
                entry@.len() == MAX_STRING_SIZE,
                forall|j: int| 0 <= j < i ==> #[trigger] entry@[j] == string@[j],
                forall|j: int| i <= j < MAX_STRING_SIZE ==> #[trigger] entry@[j] == 0,
            decreases MAX_STRING_SIZE - i,
        {
            entry.set(i, string[i]);
            i = i + 1;
        }
        assert(entry@ =~= first32(string@));
        let ghost before = self@;
        self.entries.set(self.next, entry);
        self.full = self.full || self.next + 1 == HISTORY_SIZE;
        self.next = if self.next + 1 == HISTORY_SIZE {
            0
        } else {
            self.next + 1
        };
        assert(self@.ring =~= before.pushed(string@).ring);
    }

    /// The first `len` bytes of the string that the reference `slot` means, if a string of
    /// the update has reached that place.
    pub fn prefix(&self, slot: usize, len: usize) -> (r: Option<Vec<u8>>)
        requires
            self.wf(),
            slot < HISTORY_SIZE,
            len <= MAX_STRING_SIZE,
        ensures
            self@.written(self@.place(slot as int)) ==> (r matches Some(p) && p@
                == self@.ring[self@.place(slot as int)].take(len as int)),
            !self@.written(self@.place(slot as int)) ==> r is None,
    {
        let base = if self.full {
            self.next
        } else {
            0
        };
        let at = (base + slot) % HISTORY_SIZE;
        if !self.full && at >= self.next {
            return None;
        }
        let entry = &self.entries[at];
        let mut out: Vec<u8> = Vec::with_capacity(len);
        let mut i: usize = 0;
        while i < len
            invariant
                i <= len <= MAX_STRING_SIZE,
                entry@.len() == MAX_STRING_SIZE,
                out@ == entry@.take(i as int),
            decreases len - i,
        {
            out.push(entry[i]);
            assert(entry@.take(i + 1) =~= entry@.take(i as int).push(entry@[i as int]));
            i = i + 1;
        }
        Some(out)
    }
}

/// History: after at most 32 strings went into an empty history, each place below their
/// number holds the first 32 bytes of the string of that number, and a reference is taken
/// exactly if it is below their number.
pub proof fn lemma_history_holds_strings(strings: Seq<Seq<u8>>)
    requires
        strings.len() <= HISTORY_SIZE,
    ensures
        forall|i: int|
            0 <= i < strings.len() ==> #[trigger] HistoryView::empty().pushed_all(strings).ring[i]
                == first32(strings[i]),
        forall|slot: int|
            0 <= slot < HISTORY_SIZE ==> (#[trigger] HistoryView::empty().pushed_all(
                strings,
            ).written(HistoryView::empty().pushed_all(strings).place(slot)) <==> slot
                < strings.len()),
    decreases strings.len(),
{
    lemma_history_shape(strings);
    if strings.len() > 0 {
        lemma_history_holds_strings(strings.drop_last());
        lemma_history_shape(strings.drop_last());
        let h = HistoryView::empty().pushed_all(strings);
        assert forall|i: int| 0 <= i < strings.len() implies #[trigger] h.ring[i] == first32(
            strings[i],
        ) by {
            if i < strings.len() - 1 {
                assert(strings.drop_last()[i] == strings[i]);
            }
        }
    }
}

/// The shape of a history that at most 32 strings went into.
proof fn lemma_history_shape(strings: Seq<Seq<u8>>)
    requires
        strings.len() <= HISTORY_SIZE,
    ensures
        HistoryView::empty().pushed_all(strings).ring.len() == HISTORY_SIZE,
        HistoryView::empty().pushed_all(strings).next == strings.len() % HISTORY_SIZE as nat,
        HistoryView::empty().pushed_all(strings).full == (strings.len() == HISTORY_SIZE),
    decreases strings.len(),
{
    if strings.len() > 0 {
        lemma_history_shape(strings.drop_last());
    }
}

/// The rows of a table, by index. The map is kept by `hashbrown`; nothing of what is stated
/// of it here is proved.
#[verifier::external_body]
#[derive(Debug)]
pub struct ItemMap {
    inner: HashMap<i32, StringTableItem>,
}

/// What an [`ItemMap`] holds.
pub uninterp spec fn item_map_contents(m: ItemMap) -> Map<i32, ItemView>;

impl View for ItemMap {
    type V = Map<i32, ItemView>;

    open spec fn view(&self) -> Map<i32, ItemView> {
        item_map_contents(*self)
    }
}

impl ItemMap {
    /// `HashMap::with_capacity`: a map that holds nothing. The call panics where the
    /// capacity overflows the address space, so the capacity is kept small.
    #[verifier::external_body]
    fn with_capacity(capacity: usize) -> (r: ItemMap)
        requires
            capacity <= 65536,
        ensures
            forall|k: i32| !item_map_contents(r).contains_key(k),
    {
        ItemMap { inner: HashMap::with_capacity(capacity) }
    }

    /// `HashMap::insert`: afterwards the key has the value, and every other key has what it
    /// had.
    #[verifier::external_body]
    fn insert(&mut self, key: i32, value: StringTableItem)
        ensures
            item_map_contents(*final(self)) == item_map_contents(*old(self)).insert(key, value@),
    {
        self.inner.insert(key, value);
    }

    /// `HashMap::get`: the value of the key, if the map has the key.
    #[verifier::external_body]
    fn get(&self, key: i32) -> (r: Option<&StringTableItem>)
        ensures
            match r {
                Some(item) => item_map_contents(*self).contains_key(key) && item@
                    == item_map_contents(*self)[key],
                None => !item_map_contents(*self).contains_key(key),
            },
    {
        self.inner.get(&key)
    }

    /// `HashMap::remove`: the value of the key, if the map has the key; afterwards the map
    /// has not, and every other key has what it had.
    #[verifier::external_body]
    fn remove(&mut self, key: i32) -> (r: Option<StringTableItem>)
        ensures
            item_map_contents(*final(self)) == item_map_contents(*old(self)).remove(key),
            match r {
                Some(item) => item_map_contents(*old(self)).contains_key(key) && item@
                    == item_map_contents(*old(self))[key],
                None => !item_map_contents(*old(self)).contains_key(key),
            },
    {
        self.inner.remove(&key)
    }
}

/// What an announced length means for a row: it has to be readable and at most
/// `MAX_USERDATA_SIZE`.
pub open spec fn accepted_len(len: Option<usize>) -> Result<usize, Error> {
    match len {
        None => Err(Error::MalformedStringTable(Malformation::Snappy)),
        Some(n) => if n > MAX_USERDATA_SIZE {
            Err(Error::MalformedStringTable(Malformation::UserDataSize))
        } else {
            Ok(n)
        },
    }
}

/// Judges the length that the header of compressed data announces; `len` is nothing where
/// the header cannot be read.
pub fn check_decompressed_len(len: Option<usize>) -> (r: Result<usize, Error>)
    ensures
        r == accepted_len(len),
{
    match len {
        None => Err(Error::MalformedStringTable(Malformation::Snappy)),
        Some(n) => if n > MAX_USERDATA_SIZE {
            Err(Error::MalformedStringTable(Malformation::UserDataSize))
        } else {
            Ok(n)
        },
    }
}

/// Judges decompressed data; `data` is nothing where the data could not be decompressed.
pub fn check_decompressed(data: Option<Vec<u8>>) -> (r: Result<Vec<u8>, Error>)
    ensures
        r == match data {
            Some(v) => Ok::<Vec<u8>, Error>(v),
            None => Err::<Vec<u8>, Error>(Error::MalformedStringTable(Malformation::Snappy)),
        },
{
    match data {
        None => Err(Error::MalformedStringTable(Malformation::Snappy)),
        Some(v) => Ok(v),
    }
}

/// The length that the header of the compressed bytes `raw` announces.
pub open spec fn announced(raw: Seq<u8>) -> Option<usize> {
    match snappy_len(raw) {
        Some(n) => Some(n as usize),
        None => None,
    }
}

/// The user data that the compressed bytes `raw` stand for.
pub open spec fn decompressed(raw: Seq<u8>) -> Result<Seq<u8>, Error> {
    match accepted_len(announced(raw)) {
        Err(e) => Err(e),
        Ok(_) => match snappy_decoded(raw) {
            None => Err(Error::MalformedStringTable(Malformation::Snappy)),
            Some(d) => Ok(d),
        },
    }
}

/// Decompresses user data. What comes out has at most `MAX_USERDATA_SIZE` bytes.
pub fn decompress_user_data(raw: &Vec<u8>) -> (r: Result<Vec<u8>, Error>)
    ensures
        match r {
            Ok(v) => decompressed(raw@) == Ok::<Seq<u8>, Error>(v@),
            Err(e) => decompressed(raw@) == Err::<Seq<u8>, Error>(e),
        },
        r matches Ok(v) ==> v@.len() <= MAX_USERDATA_SIZE,
{
    match check_decompressed_len(decompress_len(raw)) {
        Err(e) => Err(e),
        Ok(_) => check_decompressed(decompress_vec(raw)),
    }
}

/// How a table holds user data.
#[derive(Debug, Clone, Copy, PartialEq, Eq, Structural)]
pub struct TableConfig {
    pub user_data_fixed_size: bool,
    pub user_data_size: i32,
    pub user_data_size_bits: i32,
    pub flags: i32,
    pub using_varint_bitcounts: bool,
}

/// The 32-bit signed number that `x` wraps around to.
pub open spec fn wrap_i32(x: int) -> i32 {
    if x > i32::MAX {
        (x - 0x1_0000_0000) as i32
    } else {
        x as i32
    }
}

/// The index of a row after the row with the index `prev`: the next one where a flag says
/// so, else as many further on as a varint says.
pub open spec fn row_index(prev: i32, s: BitStream) -> (i32, BitStream) {
    let (next, s1) = s.read_bool();
    if next {
        (wrap_i32(prev + 1), s1)
    } else {
        (wrap_i32(prev + 1 + s1.read_uvarint32().0), s1.read_uvarint32().1)
    }
}

/// Reads the index of a row.
fn read_row_index(br: &mut BitReader, prev: i32) -> (r: i32)
    ensures
        (r, final(br)@) == row_index(prev, old(br)@),
{
    let x: i64 = if br.read_bool() {
        prev as i64 + 1
    } else {
        prev as i64 + 1 + br.read_uvarint32() as i64
    };
    if x > i32::MAX as i64 {
        (x - 0x1_0000_0000) as i32
    } else {
        x as i32
    }
}

/// The string of a row, the history after the row, and the stream behind the string. A flag
/// says whether the row has a string. A second flag says whether it starts with bytes of
/// the history: then a slot and a length of five bits each follow. The rest, or the whole
/// string, is spelled up to a zero byte. The string goes into the history.
pub open spec fn row_string(hist: HistoryView, s: BitStream) -> (
    Result<Option<Seq<u8>>, Error>,
    HistoryView,
    BitStream,
) {
    let (has_string, s1) = s.read_bool();
    if !has_string {
        (Ok(None), hist, s1)
    } else {
        let (from_history, s2) = s1.read_bool();
        if from_history {
            let slot = s2.value(5) as int;
            let len = s2.advance(5).value(MAX_STRING_BITS as int) as int;
            let s3 = s2.advance(5).advance(MAX_STRING_BITS as int);
            if s3.overflowed {
                (Err(Error::UnexpectedEnd), hist, s3)
            } else if !hist.written(hist.place(slot)) {
                (Err(Error::MalformedStringTable(Malformation::HistoryIndex)), hist, s3)
            } else {
                let (chars, s4) = s3.read_cstr(false);
                let rest = chars.take(kept_len(chars, (STRING_BUF_SIZE - len) as nat) as int);
                let string = hist.ring[hist.place(slot)].take(len) + rest;
                (Ok(Some(string)), hist.pushed(string), s4)
            }
        } else {
            let (chars, s3) = s2.read_cstr(false);
            let string = chars.take(kept_len(chars, STRING_BUF_SIZE as nat) as int);
            (Ok(Some(string)), hist.pushed(string), s3)
        }
    }
}

/// Reads a terminated string of at most `cap - 1` bytes.
fn read_rest(br: &mut BitReader, cap: usize) -> (r: Vec<u8>)
    requires
        1 <= cap <= STRING_BUF_SIZE,
    ensures
        final(br)@ == old(br)@.read_cstr(false).1,
        r@ == old(br)@.read_cstr(false).0.take(
            kept_len(old(br)@.read_cstr(false).0, cap as nat) as int,
        ),
{
    let mut buf: Vec<u8> = vec![0u8; cap];
    let n = br.read_string(&mut buf, false);
    buf.truncate(n);
    assert(buf@ =~= old(br)@.read_cstr(false).0.take(n as int));
    buf
}

/// Reads the string of a row.
fn read_row_string(br: &mut BitReader, history: &mut StringHistory) -> (r: Result<
    Option<Vec<u8>>,
    Error,
>)
    requires
        old(history).wf(),
    ensures
        final(history).wf(),
        final(history)@ == row_string(old(history)@, old(br)@).1,
        final(br)@ == row_string(old(history)@, old(br)@).2,
        match r {
            Ok(string) => row_string(old(history)@, old(br)@).0 == Ok::<Option<Seq<u8>>, Error>(
                bytes_of(string),
            ),
            Err(e) => row_string(old(history)@, old(br)@).0 == Err::<Option<Seq<u8>>, Error>(e),
        },
{
    if !br.read_bool() {
        return Ok(None);
    }
    let string = if br.read_bool() {
        proof {
            crate::bitreader::lemma_value_bound(br@, 5, 5);
            crate::bitreader::lemma_value_bound(br@.advance(5), 5, 5);
            vstd::arithmetic::power2::lemma2_to64();
        }
        let slot = br.read_ubitlong(5) as usize;
        let len = br.read_ubitlong(MAX_STRING_BITS) as usize;
        if br.is_overflowed() {
            return Err(Error::UnexpectedEnd);
        }
        let mut string = match history.prefix(slot, len) {
            Some(p) => p,
            None => {
                return Err(Error::MalformedStringTable(Malformation::HistoryIndex));
            },
        };
        let mut rest = read_rest(br, STRING_BUF_SIZE - len);
        string.append(&mut rest);
        string
    } else {
        read_rest(br, STRING_BUF_SIZE)
    };
    history.push(&string);
    Ok(Some(string))
}

/// The first `size` bytes of `bits`, with zeros where `bits` is shorter.
pub open spec fn fixed_data(bits: Seq<u8>, size: int) -> Seq<u8> {
    Seq::new(
        size as nat,
        |i: int|
            if i < bits.len() {
                bits[i]
            } else {
                0u8
            },
    )
}

/// Whether the fixed size of a table can be read: neither below zero nor beyond
/// `MAX_USERDATA_SIZE` bytes.
pub open spec fn fixed_size_ok(cfg: TableConfig) -> bool {
    &&& 0 <= cfg.user_data_size <= MAX_USERDATA_SIZE
    &&& 0 <= cfg.user_data_size_bits <= 8 * MAX_USERDATA_SIZE
}

/// The user data of a row, and the stream behind them. A flag says whether the row has
/// user data. In a table of fixed size the table's number of bits follows, and the data are
/// the table's number of bytes of them. Otherwise a flag for compression follows if the
/// table may compress, then a size, as a number with a width selector or as 17 bits, then
/// that many bytes, which are decompressed if the flag was set.
pub open spec fn row_user_data(cfg: TableConfig, s: BitStream) -> (
    Result<Option<Seq<u8>>, Error>,
    BitStream,
) {
    let (has_data, s1) = s.read_bool();
    if !has_data {
        (Ok(None), s1)
    } else if cfg.user_data_fixed_size {
        if fixed_size_ok(cfg) {
            let (bits, s2) = s1.read_bits(cfg.user_data_size_bits as nat);
            (Ok(Some(fixed_data(bits, cfg.user_data_size as int))), s2)
        } else {
            (Err(Error::MalformedStringTable(Malformation::UserDataSize)), s1)
        }
    } else {
        let (compressed, s2) = if cfg.flags & 1 != 0 {
            s1.read_bool()
        } else {
            (false, s1)
        };
        let (size, s3) = if cfg.using_varint_bitcounts {
            s2.read_ubitvar()
        } else {
            (s2.value(MAX_USERDATA_BITS as int) as u32, s2.advance(MAX_USERDATA_BITS as int))
        };
        if s3.overflowed {
            (Err(Error::UnexpectedEnd), s3)
        } else if size > MAX_USERDATA_SIZE {
            (Err(Error::MalformedStringTable(Malformation::UserDataSize)), s3)
        } else {
            let (raw, s4) = s3.read_bytes(size as nat);
            if !compressed {
                (Ok(Some(raw)), s4)
            } else if s4.overflowed {
                (Err(Error::UnexpectedEnd), s4)
            } else {
                match decompressed(raw) {
                    Ok(d) => (Ok(Some(d)), s4),
                    Err(e) => (Err(e), s4),
                }
            }
        }
    }
}

/// Reads the user data of a row.
fn read_row_user_data(cfg: &TableConfig, br: &mut BitReader) -> (r: Result<Option<Vec<u8>>, Error>)
    ensures
        final(br)@ == row_user_data(*cfg, old(br)@).1,
        match r {
            Ok(data) => row_user_data(*cfg, old(br)@).0 == Ok::<Option<Seq<u8>>, Error>(
                bytes_of(data),
            ),
            Err(e) => row_user_data(*cfg, old(br)@).0 == Err::<Option<Seq<u8>>, Error>(e),
        },
{
    if !br.read_bool() {
        return Ok(None);
    }
    if cfg.user_data_fixed_size {
        if cfg.user_data_size < 0 || cfg.user_data_size as usize > MAX_USERDATA_SIZE
            || cfg.user_data_size_bits < 0 || cfg.user_data_size_bits as usize > 8
            * MAX_USERDATA_SIZE {
            return Err(Error::MalformedStringTable(Malformation::UserDataSize));
        }
        let size = cfg.user_data_size as usize;
        let bits = cfg.user_data_size_bits as usize;
        let whole = (bits + 7) / 8;
        let len = if whole > size {
            whole
        } else {
            size
        };
        let mut buf: Vec<u8> = vec![0u8; len];
        let ghost zeros = buf@;
        br.read_bits(&mut buf, bits);
        let ghost filled = buf@;
        buf.truncate(size);
        proof {
            let read = old(br)@.read_bool().1.read_bits(bits as nat).0;
            assert(read =~= filled.take(whole as int));
            assert forall|i: int| 0 <= i < size implies buf@[i] == fixed_data(read, size as int)[i] by {
                if i < whole {
                    assert(filled.take(whole as int)[i] == filled[i]);
                } else {
                    assert(filled.skip(whole as int)[i - whole] == zeros.skip(whole as int)[i - whole]);
                }
            }
            assert(buf@ =~= fixed_data(read, size as int));
        }
        return Ok(Some(buf));
    }
    let compressed = if cfg.flags & 1 != 0 {
        br.read_bool()
    } else {
        false
    };
    let size = if cfg.using_varint_bitcounts {
        br.read_ubitvar()
    } else {
        br.read_ubitlong(MAX_USERDATA_BITS)
    };
    if br.is_overflowed() {
        return Err(Error::UnexpectedEnd);
    }
    if size as usize > MAX_USERDATA_SIZE {
        return Err(Error::MalformedStringTable(Malformation::UserDataSize));
    }
    let mut raw: Vec<u8> = vec![0u8; size as usize];
    br.read_bytes(&mut raw);
    if !compressed {
        return Ok(Some(raw));
    }
    if br.is_overflowed() {
        return Err(Error::UnexpectedEnd);
    }
    match decompress_user_data(&raw) {
        Ok(data) => Ok(Some(data)),
        Err(e) => Err(e),
    }
}

/// The rows after a row of an update went in. A row that the table has keeps its string,
/// and keeps its user data unless the update brings some. A row that the table lacks is
/// added.
pub open spec fn put_row(
    items: Map<i32, ItemView>,
    index: i32,
    string: Option<Seq<u8>>,
    user_data: Option<Seq<u8>>,
) -> Map<i32, ItemView> {
    if items.contains_key(index) {
        items.insert(
            index,
            ItemView {
                string: items[index].string,
                user_data: if user_data is Some {
                    user_data
                } else {
                    items[index].user_data
                },
            },
        )
    } else {
        items.insert(index, ItemView { string, user_data })
    }
}

/// Where an update stands: the rows, the history, the index of the last row, the stream,
/// and whether a row has failed.
pub struct UpdateState {
    pub items: Map<i32, ItemView>,
    pub history: HistoryView,
    pub prev: i32,
    pub stream: BitStream,
    pub result: Result<(), Error>,
}

/// The state after one more row. A row that fails leaves the rows as they are.
#[verifier::opaque]
pub open spec fn after_row(cfg: TableConfig, st: UpdateState) -> UpdateState {
    let (index, s1) = row_index(st.prev, st.stream);
    let (string, history, s2) = row_string(st.history, s1);
    match string {
        Err(e) => UpdateState { stream: s2, result: Err(e), ..st },
        Ok(string) => {
            let (user_data, s3) = row_user_data(cfg, s2);
            match user_data {
                Err(e) => UpdateState { stream: s3, result: Err(e), ..st },
                Ok(user_data) => if s3.overflowed {
                    UpdateState { stream: s3, result: Err(Error::UnexpectedEnd), ..st }
                } else {
                    UpdateState {
                        items: put_row(st.items, index, string, user_data),
                        history,
                        prev: index,
                        stream: s3,
                        result: Ok(()),
                    }
                },
            }
        },
    }
}

/// The state after `n` rows of an update of the rows `items`, read from `s`. The rows after
/// a row that failed are not read.
pub open spec fn after_rows(cfg: TableConfig, items: Map<i32, ItemView>, s: BitStream, n: int) -> UpdateState
    decreases n,
{
    if n <= 0 {
        UpdateState { items, history: HistoryView::empty(), prev: -1i32, stream: s, result: Ok(()) }
    } else {
        let st = after_rows(cfg, items, s, n - 1);
        if st.result is Err {
            st
        } else {
            after_row(cfg, st)
        }
    }
}

/// Once a row fails, the state stays.
proof fn lemma_after_rows_stops(cfg: TableConfig, items: Map<i32, ItemView>, s: BitStream, at: int, n: int)
    requires
        0 <= at <= n,
        after_rows(cfg, items, s, at).result is Err,
    ensures
        after_rows(cfg, items, s, n) == after_rows(cfg, items, s, at),
    decreases n - at,
{
    if at < n {
        lemma_after_rows_stops(cfg, items, s, at, n - 1);
    }
}

/// One row of a snapshot of a table.
#[derive(Debug, Clone, PartialEq, Eq)]
pub struct FullTableItem {
    pub string: Option<Vec<u8>>,
    pub data: Option<Vec<u8>>,
}

/// A snapshot of a table: its name and all its rows, in the order of their indices.
#[derive(Debug, Clone, PartialEq, Eq)]
pub struct FullTable {
    pub table_name: String,
    pub items: Vec<FullTableItem>,
}

/// Snapshots of tables.
#[derive(Debug, Clone, PartialEq, Eq)]
pub struct FullUpdate {
    pub tables: Vec<FullTable>,
}

/// The row that a row of a snapshot stands for.
pub open spec fn snapshot_row(row: FullTableItem) -> ItemView {
    ItemView { string: bytes_of(row.string), user_data: bytes_of(row.data) }
}

/// The rows after the first `upto` rows of a snapshot went in. Each of them takes the place
/// of the row of its index, with its string and its user data, whether the table had that
/// row or not. The rows of other indices stay.
pub open spec fn after_snapshot(items: Map<i32, ItemView>, rows: Seq<FullTableItem>, upto: int) -> Map<
    i32,
    ItemView,
> {
    Map::new(
        |k: i32| 0 <= k < upto || items.contains_key(k),
        |k: i32|
            if 0 <= k < upto {
                snapshot_row(rows[k as int])
            } else {
                items[k]
            },
    )
}

/// How many rows of a snapshot go in: all of them, up to the index `i32::MAX`.
pub open spec fn snapshot_len(rows: Seq<FullTableItem>) -> int {
    if rows.len() <= i32::MAX {
        rows.len() as int
    } else {
        i32::MAX as int
    }
}

/// A snapshot that goes in twice leaves the rows as they are after the first time.
pub proof fn lemma_snapshot_is_idempotent(items: Map<i32, ItemView>, rows: Seq<FullTableItem>, upto: int)
    ensures
        after_snapshot(after_snapshot(items, rows, upto), rows, upto) == after_snapshot(
            items,
            rows,
            upto,
        ),
{
    assert(after_snapshot(after_snapshot(items, rows, upto), rows, upto) =~= after_snapshot(
        items,
        rows,
        upto,
    ));
}

/// After a snapshot that is at least as long as the table, the table has the rows of the
/// snapshot and no others.
pub proof fn lemma_snapshot_replaces_all(items: Map<i32, ItemView>, rows: Seq<FullTableItem>, upto: int)
    requires
        forall|k: i32| items.contains_key(k) ==> 0 <= k < upto,
    ensures
        forall|k: i32| after_snapshot(items, rows, upto).contains_key(k) <==> 0 <= k < upto,
        forall|k: i32|
            0 <= k < upto ==> after_snapshot(items, rows, upto)[k] == snapshot_row(rows[k as int]),
{
}

/// One table.
#[derive(Debug)]
pub struct StringTable {
    pub name: String,
    config: TableConfig,
    items: ItemMap,
}

/// What a table stands for.
pub struct TableView {
    pub name: Seq<char>,
    pub config: TableConfig,
    pub items: Map<i32, ItemView>,
}

impl View for StringTable {
    type V = TableView;

    closed spec fn view(&self) -> TableView {
        TableView { name: self.name@, config: self.config, items: self.items@ }
    }
}

/// A copy of optional bytes.
fn copy_bytes(v: &Option<Vec<u8>>) -> (r: Option<Vec<u8>>)
    ensures
        bytes_of(r) == bytes_of(*v),
{
    match v {
        Some(b) => Some(b.clone()),
        None => None,
    }
}

impl StringTable {
    /// A table without rows.
    pub fn new(
        name: &str,
        user_data_fixed_size: bool,
        user_data_size: i32,
        user_data_size_bits: i32,
        flags: i32,
        using_varint_bitcounts: bool,
    ) -> (r: Self)
        ensures
            r@ == (TableView {
                name: name@,
                config: TableConfig {
                    user_data_fixed_size,
                    user_data_size,
                    user_data_size_bits,
                    flags,
                    using_varint_bitcounts,
                },
                items: Map::<i32, ItemView>::empty(),
            }),
    {
        let items = ItemMap::with_capacity(1024);
        assert(items@ =~= Map::<i32, ItemView>::empty());
        StringTable {
            name: name.to_owned(),
            config: TableConfig {
                user_data_fixed_size,
                user_data_size,
                user_data_size_bits,
                flags,
                using_varint_bitcounts,
            },
            items,
        }
    }

    /// The row with the index `index`, if the table has it.
    pub fn get_item(&self, index: &i32) -> (r: Option<&StringTableItem>)
        ensures
            match r {
                Some(item) => self@.items.contains_key(*index) && item@ == self@.items[*index],
                None => !self@.items.contains_key(*index),
            },
    {
        self.items.get(*index)
    }

    /// Puts a row of an update into the table.
    pub fn put_row(&mut self, index: i32, string: Option<Vec<u8>>, user_data: Option<Vec<u8>>)
        ensures
            final(self)@ == (TableView {
                items: put_row(old(self)@.items, index, bytes_of(string), bytes_of(user_data)),
                ..old(self)@
            }),
    {
        let ghost before = self@.items;
        match self.items.remove(index) {
            Some(existing) => {
                let item = match user_data {
                    Some(data) => StringTableItem { string: existing.string, user_data: Some(data) },
                    None => existing,
                };
                self.items.insert(index, item);
                assert(self@.items =~= put_row(
                    before,
                    index,
                    bytes_of(string),
                    bytes_of(user_data),
                ));
            },
            None => {
                self.items.insert(index, StringTableItem { string, user_data });
                assert(self@.items =~= put_row(
                    before,
                    index,
                    bytes_of(string),
                    bytes_of(user_data),
                ));
            },
        }
    }

    /// Applies the update of `num_entries` rows at the front of `br`. The rows before a row
    /// that fails stay applied. A count below zero counts as zero.
    pub fn parse_update(&mut self, br: &mut BitReader, num_entries: i32) -> (r: Result<(), Error>)
        ensures
            final(self)@ == (TableView {
                items: after_rows(
                    old(self)@.config,
                    old(self)@.items,
                    old(br)@,
                    num_entries as int,
                ).items,
                ..old(self)@
            }),
            final(br)@ == after_rows(
                old(self)@.config,
                old(self)@.items,
                old(br)@,
                num_entries as int,
            ).stream,
            r == after_rows(old(self)@.config, old(self)@.items, old(br)@, num_entries as int).result,
    {
        let ghost cfg = self@.config;
        let ghost items = self@.items;
        let ghost s = br@;
        let mut history = StringHistory::new();
        let mut prev: i32 = -1;
        let mut i: i32 = 0;
        while i < num_entries
            invariant
                0 <= i,
                i <= num_entries || (num_entries < 0 && i == 0),
                history.wf(),
                cfg == old(self)@.config,
                items == old(self)@.items,
                s == old(br)@,
                self@ == (TableView { items: self@.items, ..old(self)@ }),
                after_rows(cfg, items, s, i as int) == (UpdateState {
                    items: self@.items,
                    history: history@,
                    prev,
                    stream: br@,
                    result: Ok(()),
                }),
            decreases num_entries - i,
        {
            match self.parse_row(br, &mut history, prev) {
                Ok(index) => {
                    prev = index;
                },
                Err(e) => {
                    proof {
                        lemma_after_rows_stops(cfg, items, s, i + 1, num_entries as int);
                    }
                    return Err(e);
                },
            }
            i = i + 1;
        }
        assert(after_rows(cfg, items, s, num_entries as int) == after_rows(cfg, items, s, i as int));
        Ok(())
    }

    /// Applies one row of an update and returns its index.
    fn parse_row(&mut self, br: &mut BitReader, history: &mut StringHistory, prev: i32) -> (r: Result<
        i32,
        Error,
    >)
        requires
            old(history).wf(),
        ensures
            final(history).wf(),
            final(self)@ == (TableView { items: final(self)@.items, ..old(self)@ }),
            match r {
                Ok(index) => after_row(
                    old(self)@.config,
                    UpdateState {
                        items: old(self)@.items,
                        history: old(history)@,
                        prev,
                        stream: old(br)@,
                        result: Ok(()),
                    },
                ) == (UpdateState {
                    items: final(self)@.items,
                    history: final(history)@,
                    prev: index,
                    stream: final(br)@,
                    result: Ok(()),
                }),
                Err(e) => after_row(
                    old(self)@.config,
                    UpdateState {
                        items: old(self)@.items,
                        history: old(history)@,
                        prev,
                        stream: old(br)@,
                        result: Ok(()),
                    },
                ) == (UpdateState {
                    items: final(self)@.items,
                    history: old(history)@,
                    prev,
                    stream: final(br)@,
                    result: Err(e),
                }),
            },
    {
        reveal(after_row);
        let index = read_row_index(br, prev);
        let string = match read_row_string(br, history) {
            Ok(string) => string,
            Err(e) => {
                return Err(e);
            },
        };
        let user_data = match read_row_user_data(&self.config, br) {
            Ok(user_data) => user_data,
            Err(e) => {
                return Err(e);
            },
        };
        if br.is_overflowed() {
            return Err(Error::UnexpectedEnd);
        }
        self.put_row(index, string, user_data);
        Ok(index)
    }

    /// Takes over a snapshot of the table: every row of the snapshot replaces the row of its
    /// index. Rows beyond the index `i32::MAX` are left out.
    pub fn do_full_update(&mut self, table: &FullTable)
        ensures
            final(self)@ == (TableView {
                items: after_snapshot(old(self)@.items, table.items@, snapshot_len(table.items@)),
                ..old(self)@
            }),
    {
        let mut i: usize = 0;
        assert(self@.items =~= after_snapshot(old(self)@.items, table.items@, 0));
        while i < table.items.len() && i < i32::MAX as usize
            invariant
                i <= table.items@.len(),
                i <= i32::MAX,
                self@ == (TableView {
                    items: after_snapshot(old(self)@.items, table.items@, i as int),
                    ..old(self)@
                }),
            decreases table.items@.len() - i,
        {
            let incoming = &table.items[i];
            self.items.insert(
                i as i32,
                StringTableItem {
                    string: copy_bytes(&incoming.string),
                    user_data: copy_bytes(&incoming.data),
                },
            );
            assert(self@.items =~= after_snapshot(old(self)@.items, table.items@, i + 1));
            i = i + 1;
        }
    }
}

/// Whether two names are the same.
fn same_name(a: &str, b: &str) -> (r: bool)
    ensures
        r == (a@ == b@),
{
    proof {
        vstd::utf8::encode_utf8_decode_utf8(a@);
        vstd::utf8::encode_utf8_decode_utf8(b@);
    }
    same_bytes(a.as_bytes(), b.as_bytes())
}

/// The position of the first of the first `upto` tables that has the name `name`.
pub open spec fn table_position(tables: Seq<TableView>, name: Seq<char>, upto: int) -> Option<int>
    decreases upto,
{
    if upto <= 0 {
        None
    } else {
        match table_position(tables, name, upto - 1) {
            Some(i) => Some(i),
            None => if tables[upto - 1].name == name {
                Some(upto - 1)
            } else {
                None
            },
        }
    }
}

/// A table that was found stays the first.
pub proof fn lemma_table_position_stays(tables: Seq<TableView>, name: Seq<char>, at: int, upto: int)
    requires
        0 <= at <= upto,
        table_position(tables, name, at) is Some,
    ensures
        table_position(tables, name, upto) == table_position(tables, name, at),
    decreases upto - at,
{
    if at < upto {
        lemma_table_position_stays(tables, name, at, upto - 1);
    }
}

/// The position of the first table that has the name `name`.
pub open spec fn find(tables: Seq<TableView>, name: Seq<char>) -> Option<int> {
    table_position(tables, name, tables.len() as int)
}

/// The tables after the first `upto` snapshots went in: each goes into the first table of
/// its name, and one without a table of its name is left out.
pub open spec fn after_snapshots(tables: Seq<TableView>, incoming: Seq<FullTable>, upto: int) -> Seq<
    TableView,
>
    decreases upto,
{
    if upto <= 0 {
        tables
    } else {
        let before = after_snapshots(tables, incoming, upto - 1);
        let snapshot = incoming[upto - 1];
        match find(before, snapshot.table_name@) {
            None => before,
            Some(at) => before.update(
                at,
                TableView {
                    items: after_snapshot(
                        before[at].items,
                        snapshot.items@,
                        snapshot_len(snapshot.items@),
                    ),
                    ..before[at]
                },
            ),
        }
    }
}

/// The tables of a replay, in the order of their creation. The id of a table is its
/// position.
#[derive(Debug)]
pub struct StringTables {
    tables: Vec<StringTable>,
}

impl View for StringTables {
    type V = Seq<TableView>;

    closed spec fn view(&self) -> Seq<TableView> {
        self.tables@.map_values(|t: StringTable| t@)
    }
}

impl Default for StringTables {
    fn default() -> (r: Self)
        ensures
            r@ == Seq::<TableView>::empty(),
    {
        let r = StringTables { tables: Vec::new() };
        assert(r@ =~= Seq::<TableView>::empty());
        r
    }
}

impl StringTables {
    /// The id of the first table that has the name `name`.
    pub fn find_table_id(&self, name: &str) -> (r: Option<usize>)
        ensures
            match r {
                Some(id) => find(self@, name@) == Some(id as int) && id < self@.len(),
                None => find(self@, name@) is None,
            },
    {
        let mut i: usize = 0;
        while i < self.tables.len()
            invariant
                i <= self.tables@.len(),
                self@.len() == self.tables@.len(),
                table_position(self@, name@, i as int) is None,
            decreases self.tables@.len() - i,
        {
            if same_name(self.tables[i].name.as_str(), name) {
                proof {
                    lemma_table_position_stays(self@, name@, i + 1, self@.len() as int);
                }
                return Some(i);
            }
            i = i + 1;
        }
        None
    }

    /// Creates a table without rows. A name that a table has already is refused.
    pub fn create_string_table_mut(
        &mut self,
        name: &str,
        user_data_fixed_size: bool,
        user_data_size: i32,
        user_data_size_bits: i32,
        flags: i32,
        using_varint_bitcounts: bool,
    ) -> (r: Result<&mut StringTable, Error>)
        ensures
            r is Ok <==> find(old(self)@, name@) is None,
            r is Ok ==> (*r.unwrap())@ == (TableView {
                name: name@,
                config: TableConfig {
                    user_data_fixed_size,
                    user_data_size,
                    user_data_size_bits,
                    flags,
                    using_varint_bitcounts,
                },
                items: Map::<i32, ItemView>::empty(),
            }) && final(self)@ == old(self)@.push((*final(r.unwrap()))@),
            r is Err ==> final(self)@ == old(self)@ && (r.unwrap_err() matches Error::DuplicateStringTable(
                n,
            ) && n@ == name@),
    {
        if self.find_table_id(name).is_some() {
            return Err(Error::DuplicateStringTable(name.to_owned()));
        }
        let table = StringTable::new(
            name,
            user_data_fixed_size,
            user_data_size,
            user_data_size_bits,
            flags,
            using_varint_bitcounts,
        );
        let id = self.tables.len();
        let ghost before = self@;
        self.tables.push(table);
        let t = &mut self.tables[id];
        proof {
            assert(after_borrow(self.tables)@.map_values(|t: StringTable| t@) =~= before.push(
                (*final(t))@,
            ));
        }
        Ok(t)
    }

    /// Takes over snapshots of tables.
    pub fn do_full_update(&mut self, cmd: &FullUpdate)
        ensures
            final(self)@ == after_snapshots(old(self)@, cmd.tables@, cmd.tables@.len() as int),
    {
        let mut i: usize = 0;
        while i < cmd.tables.len()
            invariant
                i <= cmd.tables@.len(),
                self@ == after_snapshots(old(self)@, cmd.tables@, i as int),
            decreases cmd.tables@.len() - i,
        {
            let incoming = &cmd.tables[i];
            match self.find_table_id(incoming.table_name.as_str()) {
                Some(id) => {
                    let ghost before = self@;
                    self.tables[id].do_full_update(incoming);
                    assert(self@ =~= before.update(id as int, self.tables@[id as int]@));
                },
                None => {},
            }
            i = i + 1;
        }
    }

    /// The first table that has the name `name`.
    pub fn find_table(&self, name: &str) -> (r: Option<&StringTable>)
        ensures
            match r {
                Some(t) => find(self@, name@) matches Some(at) && t@ == self@[at],
                None => find(self@, name@) is None,
            },
    {
        match self.find_table_id(name) {
            Some(id) => Some(&self.tables[id]),
            None => None,
        }
    }

    /// The table with the id `id`.
    pub fn get_table(&self, id: usize) -> (r: Option<&StringTable>)
        ensures
            match r {
                Some(t) => id < self@.len() && t@ == self@[id as int],
                None => id >= self@.len(),
            },
    {
        if id < self.tables.len() {
            Some(&self.tables[id])
        } else {
            None
        }
    }

    /// The table with the id `id`, to change it.
    pub fn get_table_mut(&mut self, id: usize) -> (r: Option<&mut StringTable>)
        ensures
            id >= old(self)@.len() ==> r.is_none() && final(self)@ == old(self)@,
            id < old(self)@.len() ==> r.is_some() && (*r.unwrap())@ == old(self)@[id as int]
                && final(self)@ == old(self)@.update(id as int, (*final(r.unwrap()))@),
    {
        if id < self.tables.len() {
            let ghost before = self@;
            let t = &mut self.tables[id];
            proof {
                assert(after_borrow(self.tables)@.map_values(|t: StringTable| t@) =~= before.update(
                    id as int,
                    (*final(t))@,
                ));
            }
            Some(t)
        } else {
            None
        }
    }

    /// The first table that has the name `name`, to change it.
    pub fn find_table_mut(&mut self, name: &str) -> (r: Option<&mut StringTable>)
        ensures
            find(old(self)@, name@) is None ==> r.is_none() && final(self)@ == old(self)@,
            find(old(self)@, name@) matches Some(at) ==> r.is_some() && (*r.unwrap())@ == old(
                self,
            )@[at] && final(self)@ == old(self)@.update(at, (*final(r.unwrap()))@),
    {
        match self.find_table_id(name) {
            Some(id) => self.get_table_mut(id),
            None => None,
        }
    }

    /// Applies an update to the table with the id `id`. Where there is no such table,
    /// nothing is read and nothing changes.
    pub fn parse_update(&mut self, id: usize, br: &mut BitReader, num_entries: i32) -> (r: Option<
        Result<(), Error>,
    >)
        ensures
            id >= old(self)@.len() ==> r is None && final(self)@ == old(self)@ && final(br)@ == old(
                br,
            )@,
            id < old(self)@.len() ==> {
                let st = after_rows(
                    old(self)@[id as int].config,
                    old(self)@[id as int].items,
                    old(br)@,
                    num_entries as int,
                );
                &&& r == Some(st.result)
                &&& final(br)@ == st.stream
                &&& final(self)@ == old(self)@.update(
                    id as int,
                    TableView { items: st.items, ..old(self)@[id as int] },
                )
            },
    {
        if id >= self.tables.len() {
            return None;
        }
        let ghost before = self@;
        let r = self.tables[id].parse_update(br, num_entries);
        assert(self@ =~= before.update(id as int, self.tables@[id as int]@));
        Some(r)
    }

    /// Forgets all tables.
    pub fn clear(&mut self)
        ensures
            final(self)@ == Seq::<TableView>::empty(),
    {
        self.tables.clear();
        assert(self@ =~= Seq::<TableView>::empty());
    }

    /// Whether there is no table.
    pub fn is_empty(&self) -> (r: bool)
        ensures
            r == (self@.len() == 0),
    {
        self.tables.is_empty()
    }
}

} // verus!
