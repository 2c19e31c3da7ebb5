use haste::bitreader::BitReader;
use haste::stringtables::{
    check_decompressed, check_decompressed_len, decompress_user_data, Error, FullTable,
    FullTableItem, FullUpdate, Malformation, StringHistory, StringTable, StringTableItem,
    StringTables, MAX_USERDATA_SIZE,
};

/// Collects bits, least significant bit of each value first.
#[allow(dead_code)]
struct Bits {
    bytes: Vec<u8>,
    len: usize,
}

#[allow(dead_code)]
impl Bits {
    fn new() -> Bits {
        Bits { bytes: Vec::new(), len: 0 }
    }

    fn put(&mut self, value: u64, width: usize) -> &mut Bits {
        for i in 0..width {
            if self.len % 8 == 0 {
                self.bytes.push(0);
            }
            if (value >> i) & 1 == 1 {
                let last = self.bytes.len() - 1;
                self.bytes[last] |= 1 << (self.len % 8);
            }
            self.len += 1;
        }
        self
    }

    fn flag(&mut self, value: bool) -> &mut Bits {
        self.put(value as u64, 1)
    }

    /// The word of an operation, written as its bits in the order they are sent.
    fn op(&mut self, word: &str) -> &mut Bits {
        for c in word.chars() {
            self.flag(c == '1');
        }
        self
    }

    fn raw(&mut self, bytes: &[u8]) -> &mut Bits {
        for b in bytes {
            self.put(*b as u64, 8);
        }
        self
    }

    fn cstr(&mut self, s: &str) -> &mut Bits {
        self.raw(s.as_bytes());
        self.put(0, 8)
    }

    fn uvarint(&mut self, mut v: u64) -> &mut Bits {
        while v >= 128 {
            self.put(v % 128 + 128, 8);
            v /= 128;
        }
        self.put(v, 8)
    }

    fn varint(&mut self, v: i64) -> &mut Bits {
        self.uvarint(((v << 1) ^ (v >> 63)) as u64)
    }

    /// A width-prefixed number of the field-path code, in the narrowest form that holds it.
    fn fp(&mut self, v: u64) -> &mut Bits {
        if v < 4 {
            self.flag(true).put(v, 2)
        } else if v < 16 {
            self.flag(false).flag(true).put(v, 4)
        } else if v < 1024 {
            self.flag(false).flag(false).flag(true).put(v, 10)
        } else if v < (1 << 17) {
            self.flag(false).flag(false).flag(false).flag(true).put(v, 17)
        } else {
            self.flag(false).flag(false).flag(false).flag(false).put(v, 31)
        }
    }

    /// A number with a two-bit width selector, in the narrowest form that holds it.
    fn ubitvar(&mut self, v: u64) -> &mut Bits {
        if v < 16 {
            self.put(0, 2).put(v, 4)
        } else if v < 272 {
            self.put(1, 2).put(v - 16, 8)
        } else if v < 272 + 4096 {
            self.put(2, 2).put(v - 272, 12)
        } else {
            self.put(3, 2).put(v, 32)
        }
    }
}

#[allow(dead_code)]
impl Bits {
    /// A row at the next index without user data, with its string spelled in full.
    fn plain_row(&mut self, string: &str) -> &mut Bits {
        self.flag(true).flag(true).flag(false).cstr(string).flag(false)
    }

    /// A row at the next index without user data, whose string starts with `len` bytes of
    /// the history.
    fn history_row(&mut self, slot: u64, len: u64, rest: &str) -> &mut Bits {
        self.flag(true).flag(true).flag(true).put(slot, 5).put(len, 5).cstr(rest).flag(false)
    }

    /// A row at the next index without a string.
    fn no_string(&mut self) -> &mut Bits {
        self.flag(true).flag(false)
    }
}

fn table(flags: i32, varint: bool) -> StringTable {
    StringTable::new("instancebaseline", false, 0, 0, flags, varint)
}

fn update(t: &mut StringTable, bits: &Bits, rows: i32) -> Result<(), Error> {
    let mut br = BitReader::new(&bits.bytes);
    t.parse_update(&mut br, rows)
}

fn string_of(t: &StringTable, index: i32) -> Option<Vec<u8>> {
    t.get_item(&index).and_then(|item| item.string.clone())
}

fn data_of(t: &StringTable, index: i32) -> Option<Vec<u8>> {
    t.get_item(&index).and_then(|item| item.user_data.clone())
}

fn compress(bytes: &[u8]) -> Vec<u8> {
    snap::raw::Encoder::new().compress_vec(bytes).unwrap()
}

#[test]
fn string_from_history() {
    let mut t = table(0, false);
    let mut bits = Bits::new();
    bits.plain_row("alpha").history_row(0, 3, "ha");
    assert_eq!(update(&mut t, &bits, 2), Ok(()));
    assert_eq!(string_of(&t, 0), Some(b"alpha".to_vec()));
    assert_eq!(string_of(&t, 1), Some(b"alpha".to_vec()));
    assert_eq!(data_of(&t, 0), None);
    assert!(t.get_item(&2).is_none());
}

#[test]
fn history_prefix_and_suffix() {
    let mut t = table(0, false);
    let mut bits = Bits::new();
    bits.plain_row("models/heroes/axe.vmdl");
    bits.plain_row("particles/generic.vpcf");
    bits.history_row(0, 14, "lina.vmdl");
    bits.history_row(2, 7, "sven.vmdl");
    bits.history_row(1, 0, "materials/x.vmat");
    bits.history_row(1, 10, "");
    assert_eq!(update(&mut t, &bits, 6), Ok(()));
    assert_eq!(string_of(&t, 2), Some(b"models/heroes/lina.vmdl".to_vec()));
    assert_eq!(string_of(&t, 3), Some(b"models/sven.vmdl".to_vec()));
    assert_eq!(string_of(&t, 4), Some(b"materials/x.vmat".to_vec()));
    assert_eq!(string_of(&t, 5), Some(b"particles/".to_vec()));
}

#[test]
fn history_keeps_32_bytes_of_a_string_and_pads_with_zeros() {
    let long = "0123456789abcdefghijklmnopqrstuvwxyz";
    let mut t = table(0, false);
    let mut bits = Bits::new();
    bits.plain_row(long).history_row(0, 31, "!").plain_row("ab").history_row(2, 4, "cd");
    assert_eq!(update(&mut t, &bits, 4), Ok(()));
    assert_eq!(string_of(&t, 0), Some(long.as_bytes().to_vec()));
    let mut want = long.as_bytes()[..31].to_vec();
    want.push(b'!');
    assert_eq!(string_of(&t, 1), Some(want));
    assert_eq!(string_of(&t, 3), Some(b"ab\0\0cd".to_vec()));
}

#[test]
fn history_reference_beyond_the_strings_is_malformed() {
    let mut t = table(0, false);
    let mut first = Bits::new();
    first.history_row(0, 3, "ha");
    assert_eq!(
        update(&mut t, &first, 1),
        Err(Error::MalformedStringTable(Malformation::HistoryIndex))
    );
    assert!(t.get_item(&0).is_none());
    let mut bits = Bits::new();
    bits.plain_row("alpha").plain_row("beta").history_row(2, 1, "x");
    assert_eq!(
        update(&mut t, &bits, 3),
        Err(Error::MalformedStringTable(Malformation::HistoryIndex))
    );
    assert_eq!(string_of(&t, 0), Some(b"alpha".to_vec()));
    assert_eq!(string_of(&t, 1), Some(b"beta".to_vec()));
    assert!(t.get_item(&2).is_none());
    let mut far = Bits::new();
    far.plain_row("alpha").history_row(31, 1, "x");
    let mut t = table(0, false);
    assert_eq!(
        update(&mut t, &far, 2),
        Err(Error::MalformedStringTable(Malformation::HistoryIndex))
    );
}

#[test]
fn history_does_not_outlive_an_update() {
    let mut t = table(0, false);
    let mut bits = Bits::new();
    bits.plain_row("alpha");
    assert_eq!(update(&mut t, &bits, 1), Ok(()));
    let mut next = Bits::new();
    next.flag(false).uvarint(4).flag(true).flag(true).put(0, 5).put(3, 5).cstr("ha").flag(false);
    assert_eq!(
        update(&mut t, &next, 1),
        Err(Error::MalformedStringTable(Malformation::HistoryIndex))
    );
}

#[test]
fn history_of_more_than_32_strings_counts_from_the_oldest() {
    let mut t = table(0, false);
    let mut bits = Bits::new();
    for i in 0..32 {
        bits.plain_row(&format!("s{:02}", i));
    }
    bits.history_row(0, 3, "+");
    bits.history_row(31, 3, "+");
    bits.plain_row("t33");
    bits.plain_row("t34");
    bits.history_row(0, 3, "-");
    bits.history_row(28, 4, "-");
    bits.history_row(30, 2, "!");
    assert_eq!(update(&mut t, &bits, 39), Ok(()));
    // With 32 strings in, the slot 0 is the first string; with 33, the slot 31 is the last.
    assert_eq!(string_of(&t, 32), Some(b"s00+".to_vec()));
    assert_eq!(string_of(&t, 33), Some(b"s00+".to_vec()));
    // 36 strings went in before the row 36: the oldest that is left is the fifth.
    assert_eq!(string_of(&t, 36), Some(b"s04-".to_vec()));
    // 37 went in before the row 37: the slot 28 is the 34th, the string of the row 33.
    assert_eq!(string_of(&t, 37), Some(b"s00+-".to_vec()));
    // 38 went in before the row 38: the slot 30 is the 37th, the string of the row 36.
    assert_eq!(string_of(&t, 38), Some(b"s0!".to_vec()));
}

#[test]
fn string_history_holds_the_strings() {
    let mut history = StringHistory::new();
    assert_eq!(history.prefix(0, 4), None);
    let strings: Vec<Vec<u8>> = (0..32u8).map(|i| vec![b'a' + (i % 26); (i as usize) + 20]).collect();
    for (n, s) in strings.iter().enumerate() {
        for slot in 0..32 {
            let got = history.prefix(slot, 32);
            if slot < n {
                let mut want = strings[slot].clone();
                want.resize(32, 0);
                want.truncate(32);
                assert_eq!(got, Some(want));
            } else {
                assert_eq!(got, None);
            }
        }
        history.push(s);
    }
    for slot in 0..32 {
        assert_eq!(history.prefix(slot, 1), Some(vec![strings[slot][0]]));
    }
    history.push(&b"newest".to_vec());
    assert_eq!(history.prefix(31, 6), Some(b"newest".to_vec()));
    assert_eq!(history.prefix(0, 1), Some(vec![strings[1][0]]));
    assert_eq!(history.prefix(0, 0), Some(Vec::new()));
}

#[test]
fn row_indices() {
    let mut t = table(0, false);
    let mut bits = Bits::new();
    bits.plain_row("zero");
    bits.flag(false).uvarint(9).flag(true).flag(false).cstr("ten").flag(false);
    bits.plain_row("eleven");
    bits.flag(false).uvarint(0).flag(true).flag(false).cstr("twelve").flag(false);
    bits.flag(false).uvarint(u32::MAX as u64).flag(true).flag(false).cstr("again").flag(false);
    bits.flag(false).uvarint(i32::MAX as u64 - 12).flag(true).flag(false).cstr("lowest").flag(false);
    bits.flag(false).uvarint(1).flag(true).flag(false).cstr("next").flag(false);
    assert_eq!(update(&mut t, &bits, 7), Ok(()));
    assert_eq!(string_of(&t, 0), Some(b"zero".to_vec()));
    assert_eq!(string_of(&t, 10), Some(b"ten".to_vec()));
    assert_eq!(string_of(&t, 11), Some(b"eleven".to_vec()));
    // The row 12 comes twice: 11 + 1 + 0, and 12 + 1 + (2^32 - 1) wrapped around.
    assert_eq!(string_of(&t, 12), Some(b"twelve".to_vec()));
    assert_eq!(string_of(&t, i32::MIN), Some(b"lowest".to_vec()));
    assert_eq!(string_of(&t, i32::MIN + 2), Some(b"next".to_vec()));
    assert!(t.get_item(&1).is_none());
    assert!(t.get_item(&13).is_none());
}

#[test]
fn a_row_that_exists_keeps_its_string() {
    let mut t = table(0, false);
    let mut bits = Bits::new();
    bits.flag(true).flag(true).flag(false).cstr("name").flag(true).put(2, 17).raw(&[1, 2]);
    assert_eq!(update(&mut t, &bits, 1), Ok(()));
    let mut again = Bits::new();
    again.flag(true).flag(true).flag(false).cstr("other").flag(true).put(3, 17).raw(&[7, 8, 9]);
    assert_eq!(update(&mut t, &again, 1), Ok(()));
    assert_eq!(string_of(&t, 0), Some(b"name".to_vec()));
    assert_eq!(data_of(&t, 0), Some(vec![7, 8, 9]));
    let mut without = Bits::new();
    without.no_string().flag(false);
    assert_eq!(update(&mut t, &without, 1), Ok(()));
    assert_eq!(string_of(&t, 0), Some(b"name".to_vec()));
    assert_eq!(data_of(&t, 0), Some(vec![7, 8, 9]));
    assert_eq!(
        t.get_item(&0),
        Some(&StringTableItem { string: Some(b"name".to_vec()), user_data: Some(vec![7, 8, 9]) })
    );
}

#[test]
fn rows_without_string_or_data() {
    let mut t = table(0, false);
    let mut bits = Bits::new();
    bits.no_string().flag(false).no_string().flag(true).put(0, 17);
    assert_eq!(update(&mut t, &bits, 2), Ok(()));
    assert_eq!(t.get_item(&0), Some(&StringTableItem { string: None, user_data: None }));
    assert_eq!(t.get_item(&1), Some(&StringTableItem { string: None, user_data: Some(Vec::new()) }));
    let mut none = table(0, false);
    assert_eq!(update(&mut none, &Bits::new(), 0), Ok(()));
    assert_eq!(update(&mut none, &Bits::new(), -3), Ok(()));
    assert!(none.get_item(&0).is_none());
}

#[test]
fn strings_are_capped_by_the_buffer() {
    let long = "y".repeat(2000);
    let mut t = table(0, false);
    let mut bits = Bits::new();
    bits.plain_row(&long).history_row(0, 10, &long).plain_row("after");
    assert_eq!(update(&mut t, &bits, 3), Ok(()));
    assert_eq!(string_of(&t, 0), Some(vec![b'y'; 1023]));
    assert_eq!(string_of(&t, 1), Some(vec![b'y'; 10 + 1013]));
    assert_eq!(string_of(&t, 2), Some(b"after".to_vec()));
}

#[test]
fn user_data_with_a_size_of_17_bits_or_with_a_width_selector() {
    let mut t = table(0, false);
    let mut bits = Bits::new();
    bits.no_string().flag(true).put(3, 17).raw(&[1, 2, 3]);
    assert_eq!(update(&mut t, &bits, 1), Ok(()));
    assert_eq!(data_of(&t, 0), Some(vec![1, 2, 3]));
    let mut v = table(0, true);
    let mut bits = Bits::new();
    bits.no_string().flag(true).ubitvar(3).raw(&[4, 5, 6]);
    bits.no_string().flag(true).ubitvar(20).raw(&[9; 20]);
    assert_eq!(update(&mut v, &bits, 2), Ok(()));
    assert_eq!(data_of(&v, 0), Some(vec![4, 5, 6]));
    assert_eq!(data_of(&v, 1), Some(vec![9; 20]));
}

#[test]
fn user_data_of_fixed_size() {
    let mut t = StringTable::new("fixed", true, 2, 12, 0, false);
    let mut bits = Bits::new();
    bits.no_string().flag(true).put(0xabc, 12).no_string().flag(true).put(0x123, 12);
    assert_eq!(update(&mut t, &bits, 2), Ok(()));
    assert_eq!(data_of(&t, 0), Some(vec![0xbc, 0x0a]));
    assert_eq!(data_of(&t, 1), Some(vec![0x23, 0x01]));
    let mut wide = StringTable::new("wide", true, 4, 8, 0, false);
    let mut bits = Bits::new();
    bits.no_string().flag(true).put(0x7f, 8);
    assert_eq!(update(&mut wide, &bits, 1), Ok(()));
    assert_eq!(data_of(&wide, 0), Some(vec![0x7f, 0, 0, 0]));
    let mut narrow = StringTable::new("narrow", true, 1, 16, 0, false);
    let mut bits = Bits::new();
    bits.no_string().flag(true).put(0x1234, 16).no_string().flag(true).put(0x5678, 16);
    assert_eq!(update(&mut narrow, &bits, 2), Ok(()));
    assert_eq!(data_of(&narrow, 0), Some(vec![0x34]));
    assert_eq!(data_of(&narrow, 1), Some(vec![0x78]));
}

#[test]
fn fixed_size_out_of_range_is_malformed() {
    for (size, bits_count) in [(-1, 8), (2, -1), (MAX_USERDATA_SIZE as i32 + 1, 8), (2, 8 * MAX_USERDATA_SIZE as i32 + 1)] {
        let mut t = StringTable::new("fixed", true, size, bits_count, 0, false);
        let mut bits = Bits::new();
        bits.no_string().flag(true).put(0, 64);
        assert_eq!(
            update(&mut t, &bits, 1),
            Err(Error::MalformedStringTable(Malformation::UserDataSize))
        );
        assert!(t.get_item(&0).is_none());
    }
}

#[test]
fn compressed_user_data() {
    let text = b"hello hello hello hello hello hello".to_vec();
    let packed = compress(&text);
    assert_ne!(packed, text);
    let mut t = table(1, false);
    let mut bits = Bits::new();
    bits.no_string().flag(true).flag(true).put(packed.len() as u64, 17).raw(&packed);
    bits.no_string().flag(true).flag(false).put(packed.len() as u64, 17).raw(&packed);
    assert_eq!(update(&mut t, &bits, 2), Ok(()));
    assert_eq!(data_of(&t, 0), Some(text.clone()));
    assert_eq!(data_of(&t, 1), Some(packed.clone()));
    let mut plain = table(0, false);
    let mut bits = Bits::new();
    bits.no_string().flag(true).put(packed.len() as u64, 17).raw(&packed);
    assert_eq!(update(&mut plain, &bits, 1), Ok(()));
    assert_eq!(data_of(&plain, 0), Some(packed.clone()));
    assert_eq!(decompress_user_data(&packed), Ok(text));
}

#[test]
fn compressed_user_data_that_cannot_be_decompressed() {
    let mut t = table(1, false);
    let mut bits = Bits::new();
    bits.no_string().flag(true).flag(true).put(3, 17).raw(&[0xff, 0xff, 0xff]);
    assert_eq!(update(&mut t, &bits, 1), Err(Error::MalformedStringTable(Malformation::Snappy)));
    let mut empty = Bits::new();
    empty.no_string().flag(true).flag(true).put(0, 17);
    assert_eq!(update(&mut t, &empty, 1), Err(Error::MalformedStringTable(Malformation::Snappy)));
    let mut cut = compress(&vec![7u8; 100]);
    cut.truncate(cut.len() - 1);
    assert_eq!(
        decompress_user_data(&cut),
        Err(Error::MalformedStringTable(Malformation::Snappy))
    );
    assert!(t.get_item(&0).is_none());
}

#[test]
fn compressed_user_data_that_grow_too_long() {
    let big = compress(&vec![0u8; MAX_USERDATA_SIZE + 1]);
    assert!(big.len() < MAX_USERDATA_SIZE);
    assert_eq!(
        decompress_user_data(&big),
        Err(Error::MalformedStringTable(Malformation::UserDataSize))
    );
    let fits = compress(&vec![0u8; MAX_USERDATA_SIZE]);
    assert_eq!(decompress_user_data(&fits), Ok(vec![0u8; MAX_USERDATA_SIZE]));
    let mut t = table(1, false);
    let mut bits = Bits::new();
    bits.no_string().flag(true).flag(true).put(big.len() as u64, 17).raw(&big);
    assert_eq!(
        update(&mut t, &bits, 1),
        Err(Error::MalformedStringTable(Malformation::UserDataSize))
    );
}

#[test]
fn judging_what_snappy_returned() {
    assert_eq!(check_decompressed_len(Some(0)), Ok(0));
    assert_eq!(check_decompressed_len(Some(MAX_USERDATA_SIZE)), Ok(MAX_USERDATA_SIZE));
    assert_eq!(
        check_decompressed_len(Some(MAX_USERDATA_SIZE + 1)),
        Err(Error::MalformedStringTable(Malformation::UserDataSize))
    );
    assert_eq!(
        check_decompressed_len(None),
        Err(Error::MalformedStringTable(Malformation::Snappy))
    );
    assert_eq!(check_decompressed(Some(vec![1, 2])), Ok(vec![1, 2]));
    assert_eq!(check_decompressed(None), Err(Error::MalformedStringTable(Malformation::Snappy)));
}

#[test]
fn user_data_longer_than_the_limit_are_malformed() {
    let mut t = table(0, true);
    let mut bits = Bits::new();
    bits.no_string().flag(true).ubitvar(MAX_USERDATA_SIZE as u64 + 1).raw(&[0; 64]);
    assert_eq!(
        update(&mut t, &bits, 1),
        Err(Error::MalformedStringTable(Malformation::UserDataSize))
    );
    let mut most = Bits::new();
    most.no_string().flag(true).ubitvar(MAX_USERDATA_SIZE as u64).raw(&vec![5u8; MAX_USERDATA_SIZE]);
    assert_eq!(update(&mut t, &most, 1), Ok(()));
    assert_eq!(data_of(&t, 0).map(|d| d.len()), Some(MAX_USERDATA_SIZE));
}

#[test]
fn an_update_that_ends_early() {
    let mut t = table(0, false);
    let mut bits = Bits::new();
    bits.plain_row("kept");
    assert_eq!(update(&mut t, &bits, 2), Err(Error::UnexpectedEnd));
    assert_eq!(string_of(&t, 0), Some(b"kept".to_vec()));
    assert!(t.get_item(&1).is_none());
    let mut cut = Bits::new();
    cut.no_string().flag(true).put(100, 17).raw(&[1, 2, 3]);
    let mut t = table(0, false);
    assert_eq!(update(&mut t, &cut, 1), Err(Error::UnexpectedEnd));
    assert!(t.get_item(&0).is_none());
    let mut t = table(0, false);
    assert_eq!(update(&mut t, &Bits::new(), 1), Err(Error::UnexpectedEnd));
    let mut size_cut = Bits::new();
    size_cut.no_string().flag(true).put(1, 5);
    let mut t = table(0, true);
    assert_eq!(update(&mut t, &size_cut, 1), Err(Error::UnexpectedEnd));
}

#[test]
fn full_update_of_a_table() {
    let mut t = table(0, false);
    let mut bits = Bits::new();
    bits.flag(true).flag(true).flag(false).cstr("zero").flag(true).put(1, 17).raw(&[1]);
    bits.plain_row("one");
    assert_eq!(update(&mut t, &bits, 2), Ok(()));
    let snapshot = FullTable {
        table_name: String::from("instancebaseline"),
        items: vec![
            FullTableItem { string: Some(b"ZERO".to_vec()), data: None },
            FullTableItem { string: None, data: Some(vec![9, 9]) },
            FullTableItem { string: Some(b"two".to_vec()), data: Some(vec![2]) },
            FullTableItem { string: None, data: None },
        ],
    };
    t.put_row(9, Some(b"nine".to_vec()), None);
    t.do_full_update(&snapshot);
    let check = |t: &StringTable| {
        assert_eq!(
            t.get_item(&0),
            Some(&StringTableItem { string: Some(b"ZERO".to_vec()), user_data: None })
        );
        assert_eq!(
            t.get_item(&1),
            Some(&StringTableItem { string: None, user_data: Some(vec![9, 9]) })
        );
        assert_eq!(
            t.get_item(&2),
            Some(&StringTableItem { string: Some(b"two".to_vec()), user_data: Some(vec![2]) })
        );
        assert_eq!(t.get_item(&3), Some(&StringTableItem { string: None, user_data: None }));
        assert!(t.get_item(&4).is_none());
        assert_eq!(
            t.get_item(&9),
            Some(&StringTableItem { string: Some(b"nine".to_vec()), user_data: None })
        );
    };
    check(&t);
    t.do_full_update(&snapshot);
    check(&t);
    let mut fresh = table(0, false);
    fresh.do_full_update(&FullTable { table_name: String::from("x"), items: Vec::new() });
    assert!(fresh.get_item(&0).is_none());
}

#[test]
fn put_row_directly() {
    let mut t = table(0, false);
    t.put_row(-4, Some(b"x".to_vec()), None);
    t.put_row(-4, Some(b"y".to_vec()), Some(vec![1]));
    t.put_row(-4, None, None);
    assert_eq!(
        t.get_item(&-4),
        Some(&StringTableItem { string: Some(b"x".to_vec()), user_data: Some(vec![1]) })
    );
}

#[test]
fn tables_by_name_and_id() {
    let mut tables = StringTables::default();
    assert!(tables.is_empty());
    assert!(tables.find_table("a").is_none());
    assert!(tables.get_table(0).is_none());
    {
        let a = tables.create_string_table_mut("a", false, 0, 0, 0, true).unwrap();
        assert_eq!(a.name, "a");
        a.put_row(0, Some(b"first".to_vec()), None);
    }
    tables.create_string_table_mut("b", true, 1, 8, 0, false).unwrap();
    assert!(!tables.is_empty());
    assert_eq!(
        tables.create_string_table_mut("a", false, 0, 0, 0, true).err(),
        Some(Error::DuplicateStringTable(String::from("a")))
    );
    assert_eq!(tables.find_table_id("a"), Some(0));
    assert_eq!(tables.find_table_id("b"), Some(1));
    assert_eq!(tables.find_table_id("c"), None);
    assert_eq!(tables.find_table_id(""), None);
    assert_eq!(tables.find_table("a").unwrap().get_item(&0).unwrap().string, Some(b"first".to_vec()));
    assert_eq!(tables.find_table("b").unwrap().name, "b");
    assert_eq!(tables.get_table(1).unwrap().name, "b");
    assert!(tables.get_table(2).is_none());
    tables.find_table_mut("b").unwrap().put_row(3, None, Some(vec![1]));
    tables.get_table_mut(0).unwrap().put_row(1, Some(b"second".to_vec()), None);
    assert!(tables.get_table_mut(2).is_none());
    assert!(tables.find_table_mut("zzz").is_none());
    assert_eq!(tables.get_table(1).unwrap().get_item(&3).unwrap().user_data, Some(vec![1]));
    assert_eq!(tables.get_table(0).unwrap().get_item(&1).unwrap().string, Some(b"second".to_vec()));
    tables.clear();
    assert!(tables.is_empty());
    assert!(tables.find_table("a").is_none());
}

#[test]
fn updates_and_snapshots_through_the_tables() {
    let mut tables = StringTables::default();
    tables.create_string_table_mut("names", false, 0, 0, 0, false).unwrap();
    tables.create_string_table_mut("models", false, 0, 0, 0, false).unwrap();
    let mut bits = Bits::new();
    bits.plain_row("axe").history_row(0, 1, "ntimage");
    let mut br = BitReader::new(&bits.bytes);
    assert_eq!(tables.parse_update(1, &mut br, 2), Some(Ok(())));
    let mut br = BitReader::new(&bits.bytes);
    assert_eq!(tables.parse_update(2, &mut br, 2), None);
    assert_eq!(br.num_bytes_read(), 0);
    let mut br = BitReader::new(&bits.bytes);
    assert_eq!(tables.parse_update(0, &mut br, 3), Some(Err(Error::UnexpectedEnd)));
    let models = tables.find_table("models").unwrap();
    assert_eq!(models.get_item(&1).unwrap().string, Some(b"antimage".to_vec()));
    tables.do_full_update(&FullUpdate {
        tables: vec![
            FullTable {
                table_name: String::from("unknown"),
                items: vec![FullTableItem { string: Some(b"lost".to_vec()), data: None }],
            },
            FullTable {
                table_name: String::from("models"),
                items: vec![
                    FullTableItem { string: None, data: Some(vec![1]) },
                    FullTableItem { string: None, data: Some(vec![2]) },
                    FullTableItem { string: Some(b"lina".to_vec()), data: None },
                ],
            },
        ],
    });
    let models = tables.find_table("models").unwrap();
    assert_eq!(models.get_item(&0), Some(&StringTableItem { string: None, user_data: Some(vec![1]) }));
    assert_eq!(models.get_item(&1), Some(&StringTableItem { string: None, user_data: Some(vec![2]) }));
    assert_eq!(
        models.get_item(&2),
        Some(&StringTableItem { string: Some(b"lina".to_vec()), user_data: None })
    );
    let names = tables.find_table("names").unwrap();
    assert_eq!(names.get_item(&0).unwrap().string, Some(b"axe".to_vec()));
    assert_eq!(names.get_item(&1).unwrap().string, Some(b"antimage".to_vec()));
    assert!(names.get_item(&2).is_none());
    assert!(tables.find_table("unknown").is_none());
}

#[test]
fn headers_of_compressed_user_data() {
    let snappy = Err(Error::MalformedStringTable(Malformation::Snappy));
    // The length does not end within five bytes.
    assert_eq!(decompress_user_data(&vec![0x80, 0x80, 0x80, 0x80, 0x80, 0x00]), snappy);
    assert_eq!(decompress_user_data(&vec![0x80]), snappy);
    assert_eq!(decompress_user_data(&vec![0xff; 12]), snappy);
    // The length does not fit 32 bits.
    assert_eq!(decompress_user_data(&vec![0xff, 0xff, 0xff, 0xff, 0x1f]), snappy);
    // The length fits 32 bits and is beyond the limit.
    assert_eq!(
        decompress_user_data(&vec![0xff, 0xff, 0xff, 0xff, 0x0f]),
        Err(Error::MalformedStringTable(Malformation::UserDataSize))
    );
    assert_eq!(
        decompress_user_data(&vec![0x81, 0x80, 0x08]),
        Err(Error::MalformedStringTable(Malformation::UserDataSize))
    );
    // The length is within the limit and the data are missing.
    assert_eq!(decompress_user_data(&vec![0x80, 0x80, 0x08]), snappy);
    assert_eq!(decompress_user_data(&vec![0x05]), snappy);
    // Nothing at all.
    assert_eq!(decompress_user_data(&Vec::new()), snappy);
    // A length of zero and no data.
    assert_eq!(decompress_user_data(&vec![0x00]), Ok(Vec::new()));
    let packed = compress(b"abcabcabcabcabcabc");
    assert_eq!(packed[0], 18);
    assert_eq!(decompress_user_data(&packed).map(|d| d.len()), Ok(18));
}
