use vela::checksum::ChecksumAlgorithm;
use vela::compression::Compression;
use vela::encrypt::Encryption;
use vela::iterator::BableIterator;
use vela::key::{Key, KeyExt};
use vela::multi_iter::ConcatTableIterator;
use vela::pb::{BlockOffset, TableIndex};
use vela::sst::{RawTable, ReadOptions};
use vela::table_builder::{Builder, BuilderOptions};
use vela::table_iter::Flag;
use vela::table_reader::ChecksumVerificationMode;
use vela::value::{Value, ValueExt};

fn key(prefix: &str, i: usize) -> String {
    format!("{}{:04}", prefix, i)
}

fn build_test_table(prefix: &str, n: usize) -> RawTable {
    let mut b = Builder::new(BuilderOptions {
        block_size: 4 * 1024,
        table_capacity: 64 << 20,
        compression: Compression::new(),
        encryption: Encryption::new(),
        checksum: ChecksumAlgorithm::Crc32c,
        bloom_bits_per_key: None,
    });
    for i in 0..n {
        b.insert(
            &Key::from(key(prefix, i).into_bytes()).with_timestamp(0),
            &Value::with_all_fields(b'A', 0, 0, 0, format!("{}", i).into_bytes()),
            0,
        );
    }
    let bd = b.build().ok().unwrap().unwrap();
    let mut offsets = Vec::new();
    let mut offset = 0u32;
    for blk in &bd.block_list {
        offsets.push(BlockOffset { key: blk.base_key.clone(), offset, len: blk.data.len() as u32 });
        offset += blk.data.len() as u32;
    }
    let index = TableIndex {
        offsets,
        bloom_filter: Vec::new(),
        estimated_size: 0,
        max_version: 0,
        key_count: n as u32,
        uncompressed_size: 0,
        stale_data_size: 0,
    };
    let opts = ReadOptions {
        block_size: 4 * 1024,
        compression: Compression::new(),
        encryption: Encryption::new(),
        checksum: ChecksumAlgorithm::Crc32c,
        checksum_verification_mode: ChecksumVerificationMode::NoVerification,
    };
    RawTable::open(1, bd.to_bytes(), index, bd.checksum.clone(), opts, false).ok().unwrap()
}

fn seek_key(s: &str) -> Key {
    Key::from(s.as_bytes().to_vec()).with_timestamp(0)
}

#[test]
fn test_concat_iterator_one_table() {
    let n = 2;
    let tables = vec![build_test_table("k", n)];
    let mut t = ConcatTableIterator::new(&tables, Flag::none());
    t.rewind();
    assert!(t.valid());
    let k = t.key().unwrap();
    assert_eq!("k0000".as_bytes(), k.parse_key());
    let v = t.val().unwrap();
    assert_eq!("0".as_bytes(), v.parse_value());
    assert_eq!(b'A', v.get_meta());
}

#[test]
fn test_concat_iterator() {
    let n = 10_000;
    let tables = vec![build_test_table("keya", n), build_test_table("keyb", n), build_test_table("keyc", n)];
    let mut it = ConcatTableIterator::new(&tables, Flag::none());
    let mut cnt = 0;
    it.rewind();
    while it.valid() {
        assert_eq!(format!("{}", cnt % n).as_bytes(), it.val().unwrap().parse_value());
        assert_eq!(b'A', it.val().unwrap().get_meta());
        cnt += 1;
        it.next();
    }
    assert_eq!(cnt, n * 3);
    it.seek(Key::from(b"a".to_vec()).with_timestamp(0).as_slice());
    assert_eq!(b"keya0000", it.key().unwrap().parse_key());
    assert_eq!("0".as_bytes(), it.val().unwrap().parse_value());

    it.seek(Key::from(b"keyb".to_vec()).with_timestamp(0).as_slice());
    assert_eq!(b"keyb0000", it.key().unwrap().parse_key());
    assert_eq!(b"0", it.val().unwrap().parse_value());

    it.seek(Key::from(b"keyb9999b".to_vec()).with_timestamp(0).as_slice());
    assert_eq!(b"keyc0000", it.key().unwrap().parse_key());
    assert_eq!(b"0", it.val().unwrap().parse_value());

    it.seek(Key::from(b"keyd".to_vec()).with_timestamp(0).as_slice());
    assert!(!it.valid());
}

#[test]
fn test_concat_iterator_reversed() {
    let n = 10_000;
    let tables = vec![build_test_table("keya", n), build_test_table("keyb", n), build_test_table("keyc", n)];
    let mut it = ConcatTableIterator::new(&tables, Flag::reversed());
    let mut cnt = 0;
    it.rewind();
    while it.valid() {
        assert_eq!(format!("{}", n - (cnt % n) - 1).as_bytes(), it.val().unwrap().parse_value());
        assert_eq!(b'A', it.val().unwrap().get_meta());
        cnt += 1;
        it.next();
    }
    assert_eq!(cnt, n * 3);

    it.seek(seek_key("a").as_slice());
    assert!(!it.valid());

    it.seek(seek_key("keyb").as_slice());
    assert_eq!("keya9999".as_bytes(), it.key().unwrap().parse_key());
    assert_eq!("9999".as_bytes(), it.val().unwrap().parse_value());

    it.seek(seek_key("keyb9999b").as_slice());
    assert_eq!("keyb9999".as_bytes(), it.key().unwrap().parse_key());
    assert_eq!("9999".as_bytes(), it.val().unwrap().parse_value());

    it.seek(seek_key("keyd").as_slice());
    assert_eq!("keyc9999".as_bytes(), it.key().unwrap().parse_key());
    assert_eq!("9999".as_bytes(), it.val().unwrap().parse_value());
}

#[test]
fn concat_counts_and_skips_empty_positions() {
    let tables = vec![build_test_table("a", 3), build_test_table("b", 4)];
    let mut it = ConcatTableIterator::new(&tables, Flag::none());
    assert_eq!(it.count(), 7);
    assert_eq!(it.size_hint(), (0, Some(7)));
    assert!(!it.valid());
    assert!(it.key().is_none());
    it.rewind();
    let (k, v) = it.entry().unwrap();
    assert_eq!(k.parse_key(), b"a0000");
    assert_eq!(v.parse_value(), b"0");
    let mut keys = Vec::new();
    while it.valid() {
        keys.push(it.key().unwrap().parse_key().to_vec());
        it.next();
    }
    assert_eq!(keys.len(), 7);
    assert_eq!(keys[3], b"b0000".to_vec());
    assert_eq!(keys[6], b"b0003".to_vec());
    // past the last table no table is current
    assert!(it.entry().is_none());
}

#[test]
fn concat_over_no_tables_is_never_valid() {
    let tables: Vec<RawTable> = Vec::new();
    let mut it = ConcatTableIterator::new(&tables, Flag::none());
    it.rewind();
    assert!(!it.valid());
    it.seek(seek_key("a").as_slice());
    assert!(!it.valid());
    assert_eq!(it.count(), 0);
}
