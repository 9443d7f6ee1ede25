use vela::checksum::ChecksumAlgorithm;
use vela::compression::{Compression, CompressionAlgorithm};
use vela::encrypt::Encryption;
use vela::iterator::BableIterator;
use vela::key::{Key, KeyExt};
use vela::pb::BlockOffset;
use vela::table_builder::{Builder, BuilderOptions};
use vela::table_iter::{Flag, TableData, UniTableIterator};
use vela::table_reader::ChecksumVerificationMode;
use vela::value::{Value, ValueExt};

const SIZES: [usize; 8] = [99, 100, 101, 199, 200, 250, 9999, 10000];

fn key(prefix: &str, i: isize) -> String {
    format!("{}{:04}", prefix, i)
}

fn options(compression: Compression, encryption: Encryption) -> BuilderOptions {
    BuilderOptions {
        block_size: 4 * 1024,
        table_capacity: 64 << 20,
        compression,
        encryption,
        checksum: ChecksumAlgorithm::Crc32c,
        bloom_bits_per_key: Some(10),
    }
}

fn plain() -> Compression {
    Compression::new()
}

fn build_table_with(keys: Vec<Vec<u8>>, vals: Vec<Vec<u8>>, compression: Compression, encryption: Encryption) -> TableData {
    let mut b = Builder::new(options(compression, encryption.clone()));
    for (k, v) in keys.iter().zip(vals.iter()) {
        b.insert(
            &Key::from(k.clone()).with_timestamp(0),
            &Value::with_all_fields(b'A', 0, 0, 0, v.clone()),
            0,
        );
    }
    let n = keys.len();
    let bd = b.build().ok().unwrap().unwrap();
    let mut offsets = Vec::new();
    let mut offset = 0u32;
    for blk in &bd.block_list {
        offsets.push(BlockOffset { key: blk.base_key.clone(), offset, len: blk.data.len() as u32 });
        offset += blk.data.len() as u32;
    }
    TableData {
        id: 1,
        data: bd.to_bytes(),
        block_offsets: offsets,
        compression,
        encryption,
        checksum: ChecksumAlgorithm::Crc32c,
        mode: ChecksumVerificationMode::OnBlockRead,
        num_entries: n,
    }
}

fn build_test_table(prefix: &str, n: usize) -> TableData {
    let mut keys = Vec::new();
    let mut vals = Vec::new();
    for i in 0..n {
        keys.push(key(prefix, i as isize).into_bytes());
        vals.push(format!("{}", i).into_bytes());
    }
    build_table_with(keys, vals, plain(), Encryption::new())
}

fn seek_key(s: &str) -> Key {
    Key::from(s.as_bytes().to_vec()).with_timestamp(0)
}

#[test]
fn test_table_iterator() {
    for n in SIZES {
        let table = build_test_table("key", n);
        let mut iter = UniTableIterator::new(&table, Flag::none());
        let mut cnt = 0;
        iter.next();
        for _ in 0..iter.count() {
            let v = iter.val().unwrap();
            assert_eq!(format!("{}", cnt).as_bytes(), v.parse_value());
            cnt += 1;
            iter.next();
        }
        assert_eq!(cnt as usize, n);
    }
}

#[test]
fn test_seek_to_first() {
    for n in SIZES {
        let table = build_test_table("key", n);
        let mut iter = UniTableIterator::new(&table, Flag::none());
        iter.seek_to_first();
        assert!(iter.valid());
        let v = iter.val().unwrap();
        assert_eq!(v.parse_value(), "0".to_string().as_bytes());
        assert_eq!(v.get_meta(), b'A');
    }
}

#[test]
fn test_seek_to_last() {
    for n in SIZES {
        let table = build_test_table("key", n);
        let mut iter = UniTableIterator::new(&table, Flag::none());
        iter.seek_to_last();
        assert!(iter.valid());
        let v = iter.val().unwrap();
        assert_eq!(v.parse_value(), format!("{}", n - 1).as_bytes());
        assert_eq!(v.get_meta(), b'A');
        iter.prev();
        assert!(iter.valid());
        let v = iter.val().unwrap();
        assert_eq!(v.parse_value(), format!("{}", n - 2).as_bytes());
        assert_eq!(v.get_meta(), b'A');
    }
}

struct TestData {
    input: Vec<u8>,
    valid: bool,
    output: Vec<u8>,
}

fn case(input: &str, valid: bool, output: &str) -> TestData {
    TestData { input: input.as_bytes().to_vec(), valid, output: output.as_bytes().to_vec() }
}

#[test]
fn test_seek_in() {
    let table = build_test_table("k", 10_000);
    let mut iter = UniTableIterator::new(&table, Flag::none());
    let data = vec![
        case("abc", true, "k0000"),
        case("k0100", true, "k0100"),
        case("k0100b", true, "k0101"),
        case("k1234", true, "k1234"),
        case("k1234b", true, "k1235"),
        case("k9999", true, "k9999"),
        case("z", false, ""),
    ];
    for tt in data {
        iter.seek(Key::from(tt.input.clone()).with_timestamp(0).as_slice());
        if !tt.valid {
            assert!(!iter.valid());
            continue;
        }
        assert!(iter.valid());
        let k = iter.key().unwrap();
        assert_eq!(tt.output.as_slice(), k.parse_key());
    }
}

#[test]
fn test_seek_for_prev() {
    let table = build_test_table("k", 10_000);
    let mut iter = UniTableIterator::new(&table, Flag::none());
    let data = vec![
        case("abc", false, ""),
        case("k0100", true, "k0100"),
        case("k0100b", true, "k0100"),
        case("k1234", true, "k1234"),
        case("k1234b", true, "k1234"),
        case("k9999", true, "k9999"),
        case("z", true, "k9999"),
    ];
    for tt in data {
        iter.seek_to_key(Key::from(tt.input.clone()).with_timestamp(0).as_slice());
        if !tt.valid {
            assert!(!iter.valid());
            continue;
        }
        assert!(iter.valid());
        let k = iter.key().unwrap();
        assert_eq!(tt.output.as_slice(), k.parse_key());
    }
}

#[test]
fn test_iterate_from_start() {
    for n in SIZES {
        let table = build_test_table("key", n);
        let mut iter = UniTableIterator::new(&table, Flag::none());
        iter.reset();
        iter.seek_to_first();
        let mut cnt = 0;
        while iter.valid() {
            let v = iter.val().unwrap();
            assert_eq!(format!("{}", cnt).as_bytes(), v.parse_value(), "n is  {}, cnt is {}", n, cnt);
            assert_eq!(b'A', v.get_meta());
            cnt += 1;
            iter.next();
        }
        assert_eq!(cnt as usize, n);
    }
}

#[test]
fn test_iterate_from_end() {
    for n in SIZES {
        let table = build_test_table("key", n);
        let mut iter = UniTableIterator::new(&table, Flag::none());
        iter.reset();
        iter.seek(seek_key("zzzzzz").as_slice());
        assert!(!iter.valid());
        for i in (0..n).rev() {
            iter.prev();
            assert!(iter.valid());
            let v = iter.val().unwrap();
            assert_eq!(format!("{}", i).as_bytes(), v.parse_value());
            assert_eq!(b'A', v.get_meta());
        }
        iter.prev();
        assert!(!iter.valid());
    }
}

#[test]
fn test_table() {
    let table = build_test_table("key", 10_000);
    let mut iter = UniTableIterator::new(&table, Flag::none());
    let mut kid = 1010;
    let seek = Key::from(key("key", kid).into_bytes()).with_timestamp(0);
    iter.seek(seek.as_slice());
    while iter.valid() {
        let k = iter.key().unwrap();
        assert_eq!(k.parse_key(), key("key", kid).as_bytes());
        kid += 1;
        iter.next();
    }
    assert_eq!(kid, 10_000);

    iter.seek(Key::from(key("key", 99999).into_bytes()).with_timestamp(0).as_slice());
    assert!(!iter.valid());

    iter.seek(Key::from(key("key", -1).into_bytes()).with_timestamp(0).as_slice());
    assert!(iter.valid());
    let k = iter.key().unwrap();
    assert_eq!(k.parse_key(), key("key", 0).as_bytes());
}

#[test]
fn test_iterate_back_and_forth() {
    let table = build_test_table("key", 10_000);
    let seek = Key::from(key("key", 1010).into_bytes()).with_timestamp(0);
    let mut iter = UniTableIterator::new(&table, Flag::none());
    iter.seek(seek.as_slice());
    assert!(iter.valid());
    let k = iter.key().unwrap();
    assert_eq!(seek.as_slice(), k.as_slice());

    iter.prev();
    iter.prev();
    assert!(iter.valid());
    let k = iter.key().unwrap();
    assert_eq!(key("key", 1008).as_bytes(), k.parse_key());
    iter.next();
    iter.next();
    assert!(iter.valid());
    let k = iter.key().unwrap();
    assert_eq!(key("key", 1010).as_bytes(), k.parse_key());

    iter.seek(Key::from(key("key", 2000).into_bytes()).with_timestamp(0).as_slice());
    assert!(iter.valid());
    let k = iter.key().unwrap();
    assert_eq!(key("key", 2000).as_bytes(), k.parse_key());

    iter.prev();
    assert!(iter.valid());
    let k = iter.key().unwrap();
    assert_eq!(key("key", 1999).as_bytes(), k.parse_key());
    iter.seek_to_first();
    assert!(iter.valid());
    let k = iter.key().unwrap();
    assert_eq!(key("key", 0).as_bytes(), k.parse_key());
}

#[test]
fn test_uni_iterator() {
    let n = 10_000;
    let table = build_test_table("keya", n);
    let mut iter = UniTableIterator::new(&table, Flag::none());
    let mut cnt = 0;
    iter.next();
    for _ in 0..iter.count() {
        assert_eq!(format!("{}", cnt).as_bytes(), iter.val().unwrap().parse_value());
        assert_eq!(b'A', iter.val().unwrap().get_meta());
        cnt += 1;
        iter.next();
    }
    assert_eq!(cnt, n);
}

#[test]
fn test_uni_iterator_reverse() {
    let n = 10_000;
    let table = build_test_table("keya", n);
    let mut iter = UniTableIterator::new(&table, Flag::reversed());
    let mut cnt = 0;
    iter.next();
    for _ in 0..iter.count() {
        assert_eq!(format!("{}", n - 1 - cnt).as_bytes(), iter.val().unwrap().parse_value());
        assert_eq!(b'A', iter.val().unwrap().get_meta());
        cnt += 1;
        iter.next();
    }
    assert_eq!(cnt, n);
}

#[test]
fn table_iter_compressed_and_encrypted_tables_read_back() {
    let key_bytes = [7u8; 32].to_vec();
    for compression in [
        Compression { algo: CompressionAlgorithm::Snappy, level: 0 },
        Compression { algo: CompressionAlgorithm::Zstd, level: 1 },
        Compression { algo: CompressionAlgorithm::Lz4, level: 0 },
    ] {
        let enc = Encryption::aes(key_bytes.clone());
        let mut keys = Vec::new();
        let mut vals = Vec::new();
        for i in 0..2000 {
            keys.push(key("key", i).into_bytes());
            vals.push(format!("{}", i).into_bytes());
        }
        let table = build_table_with(keys, vals, compression, enc);
        assert!(table.offsets_length() > 1);
        let mut iter = UniTableIterator::new(&table, Flag::none());
        iter.rewind();
        let mut cnt = 0;
        while iter.valid() {
            assert_eq!(iter.key().unwrap().parse_key(), key("key", cnt).as_bytes());
            cnt += 1;
            iter.next();
        }
        assert_eq!(cnt, 2000);
    }
}

#[test]
fn table_iter_empty_table_is_eof() {
    let table = TableData {
        id: 3,
        data: Vec::new(),
        block_offsets: Vec::new(),
        compression: plain(),
        encryption: Encryption::new(),
        checksum: ChecksumAlgorithm::Crc32c,
        mode: ChecksumVerificationMode::OnBlockRead,
        num_entries: 0,
    };
    let mut iter = UniTableIterator::new(&table, Flag::none());
    assert_eq!(iter.get_table_id(), 3);
    assert!(iter.valid());
    iter.rewind();
    assert!(!iter.valid());
    assert!(iter.key().is_none());
    iter.seek_to_last();
    assert!(!iter.valid());
    assert_eq!(iter.count(), 0);
    assert_eq!(iter.size_hint(), (0, Some(0)));
}

#[test]
fn table_iter_corrupt_block_is_an_error_not_eof() {
    let mut table = build_test_table("key", 300);
    let first_len = table.block_offsets[0].len as usize;
    table.data[first_len / 2] ^= 0xff;
    let mut iter = UniTableIterator::new(&table, Flag::none());
    iter.seek_to_first();
    assert!(!iter.valid());
    assert!(iter.key().is_none());
    // the second block still reads
    let second = table.block(1);
    assert!(second.is_ok());
    let bad = table.block(0);
    assert!(bad.is_err());
    let out_of_range = table.block(table.offsets_length());
    assert!(out_of_range.is_err());
}

#[test]
fn table_iter_flags() {
    assert!(!Flag::none().is_reversed());
    assert!(Flag::none().use_cache());
    assert!(Flag::reversed().is_reversed());
    assert!(!Flag::no_cache().use_cache());
    let both = Flag::reversed().union(Flag::no_cache());
    assert!(both.is_reversed());
    assert!(!both.use_cache());
    assert_eq!(both.bits, 6);
}

#[test]
fn table_iter_reverse_seek_finds_last_at_most() {
    let table = build_test_table("k", 1000);
    let mut iter = UniTableIterator::new(&table, Flag::reversed());
    iter.seek(seek_key("k0500b").as_slice());
    assert!(iter.valid());
    assert_eq!(iter.key().unwrap().parse_key(), b"k0500");
    iter.next();
    assert_eq!(iter.key().unwrap().parse_key(), b"k0499");
    let (k, v) = iter.entry().unwrap();
    assert_eq!(k.parse_key(), b"k0499");
    assert_eq!(v.parse_value(), b"499");
}
