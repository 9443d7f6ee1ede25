use vela::checksum::ChecksumAlgorithm;
use vela::compression::Compression;
use vela::encrypt::Encryption;
use vela::key::{Key, KeyExt};
use vela::merge_iter::{MergeTableIterator, TableIterator};
use vela::multi_iter::ConcatTableIterator;
use vela::pb::{BlockOffset, TableIndex};
use vela::sst::{RawTable, ReadOptions};
use vela::table_builder::{Builder, BuilderOptions};
use vela::table_iter::Flag;
use vela::table_reader::ChecksumVerificationMode;
use vela::value::{Value, ValueExt};

fn build_table(kvs: &[(&str, &str)]) -> RawTable {
    let mut b = Builder::new(BuilderOptions {
        block_size: 4 * 1024,
        table_capacity: 64 << 20,
        compression: Compression::new(),
        encryption: Encryption::new(),
        checksum: ChecksumAlgorithm::Crc32c,
        bloom_bits_per_key: None,
    });
    let mut sorted = kvs.to_vec();
    sorted.sort();
    for (k, v) in &sorted {
        b.insert(
            &Key::from(k.as_bytes().to_vec()).with_timestamp(0),
            &Value::with_all_fields(b'A', 0, 0, 0, v.as_bytes().to_vec()),
            0,
        );
    }
    let bd = b.build().ok().unwrap().unwrap();
    let mut offsets = Vec::new();
    let mut offset = 0u32;
    for blk in &bd.block_list {
        offsets.push(BlockOffset { key: blk.base_key.clone(), offset, len: blk.data.len() as u32 });
        offset += blk.data.len() as u32;
    }
    let index = TableIndex {
        offsets,
        bloom_filter: Vec::new(),
        estimated_size: 0,
        max_version: 0,
        key_count: kvs.len() as u32,
        uncompressed_size: 0,
        stale_data_size: 0,
    };
    let opts = ReadOptions {
        block_size: 4 * 1024,
        compression: Compression::new(),
        encryption: Encryption::new(),
        checksum: ChecksumAlgorithm::Crc32c,
        checksum_verification_mode: ChecksumVerificationMode::NoVerification,
    };
    RawTable::open(1, bd.to_bytes(), index, bd.checksum.clone(), opts, false).ok().unwrap()
}

#[test]
fn test_merging_iterator() {
    let tbl1 = build_table(&[("k1", "a1"), ("k4", "a4"), ("k5", "a5")]);
    let tbl2 = vec![build_table(&[("k2", "b2"), ("k3", "b3"), ("k4", "b4")])];
    let expected = vec![("k1", "a1"), ("k2", "b2"), ("k3", "b3"), ("k4", "a4"), ("k5", "a5")];
    let it1 = tbl1.iter(Flag::none());
    let it2 = ConcatTableIterator::new(&tbl2, Flag::none());
    let mut it = MergeTableIterator::new(
        vec![Box::new(TableIterator::Uni(it1)), Box::new(TableIterator::Concat(it2))],
        false,
    )
    .unwrap();

    let mut cnt = 0;
    it.rewind();
    while it.valid() {
        let k = it.key().unwrap();
        let v = it.val().unwrap();
        assert_eq!(expected[cnt].0.as_bytes(), k.parse_key());
        assert_eq!(expected[cnt].1.as_bytes(), v.parse_value());
        assert_eq!(b'A', v.get_meta());
        cnt += 1;
        it.next();
    }
    assert_eq!(cnt, expected.len());
    assert!(!it.valid());
}

#[test]
fn test_merging_iterator_reversed() {
    let tbl1 = build_table(&[("k1", "a1"), ("k2", "a2"), ("k4", "a4"), ("k5", "a5")]);
    let tbl2 = vec![build_table(&[("k1", "b2"), ("k3", "b3"), ("k4", "b4"), ("k5", "b5")])];
    let expected = vec![("k5", "a5"), ("k4", "a4"), ("k3", "b3"), ("k2", "a2"), ("k1", "a1")];
    let it1 = tbl1.iter(Flag::reversed());
    let it2 = ConcatTableIterator::new(&tbl2, Flag::reversed());
    let mut it = MergeTableIterator::new(
        vec![Box::new(TableIterator::Uni(it1)), Box::new(TableIterator::Concat(it2))],
        true,
    )
    .unwrap();

    let mut cnt = 0;
    it.rewind();
    while it.valid() {
        let k = it.key().unwrap();
        let v = it.val().unwrap();
        assert_eq!(expected[cnt].0.as_bytes(), k.parse_key());
        assert_eq!(expected[cnt].1.as_bytes(), v.parse_value());
        assert_eq!(b'A', v.get_meta());
        cnt += 1;
        it.next();
    }
    assert_eq!(cnt, expected.len());
    assert!(!it.valid());
}

#[test]
fn test_merging_iterator_take_one() {
    let tbl1 = vec![build_table(&[("k1", "a1"), ("k2", "a2")])];
    let tbl2 = vec![build_table(&[("l1", "b1")])];
    let it1 = ConcatTableIterator::new(&tbl1, Flag::none());
    let it2 = ConcatTableIterator::new(&tbl2, Flag::none());
    let mut it = MergeTableIterator::new(
        vec![Box::new(TableIterator::Concat(it1)), Box::new(TableIterator::Concat(it2))],
        false,
    )
    .unwrap();

    it.rewind();
    assert!(it.valid());
    let k = it.key().unwrap();
    let v = it.val().unwrap();
    assert_eq!(b"k1", k.parse_key());
    assert_eq!("a1".to_string(), v.to_string());
    assert_eq!(b'A', v.get_meta());
    it.next();

    assert!(it.valid());
    let k = it.key().unwrap();
    let v = it.val().unwrap();
    assert_eq!(b"k2", k.parse_key());
    assert_eq!("a2".to_string(), v.to_string());
    assert_eq!(b'A', v.get_meta());
    it.next();

    assert!(it.valid());
    let k = it.key().unwrap();
    let v = it.val().unwrap();
    assert_eq!(b"l1", k.parse_key());
    assert_eq!("b1".to_string(), v.to_string());
    assert_eq!(b'A', v.get_meta());
    it.next();

    assert!(!it.valid());
}

#[test]
fn test_merging_iterator_take_two() {
    let tbl1 = vec![build_table(&[("l1", "b1")])];
    let tbl2 = vec![build_table(&[("k1", "a1"), ("k2", "a2")])];
    let it1 = ConcatTableIterator::new(&tbl1, Flag::none());
    let it2 = ConcatTableIterator::new(&tbl2, Flag::none());
    let mut it = MergeTableIterator::new(
        vec![Box::new(TableIterator::Concat(it1)), Box::new(TableIterator::Concat(it2))],
        false,
    )
    .unwrap();

    it.rewind();
    assert!(it.valid());

    let k = it.key().unwrap();
    let v = it.val().unwrap();
    assert_eq!(b"k1", k.parse_key());
    assert_eq!("a1".to_string(), v.to_string());
    assert_eq!(b'A', v.get_meta());
    it.next();

    assert!(it.valid());
    let k = it.key().unwrap();
    let v = it.val().unwrap();
    assert_eq!(b"k2", k.parse_key());
    assert_eq!("a2".to_string(), v.to_string());
    assert_eq!(b'A', v.get_meta());
    it.next();

    assert!(it.valid());
    let k = it.key().unwrap();
    let v = it.val().unwrap();
    assert_eq!(b"l1", k.parse_key());
    assert_eq!("b1".to_string(), v.to_string());
    assert_eq!(b'A', v.get_meta());
    it.next();

    assert!(!it.valid());
}

#[test]
fn merge_of_many_nests_and_counts() {
    let t1 = build_table(&[("a1", "1"), ("a4", "4")]);
    let t2 = build_table(&[("a2", "2")]);
    let t3 = build_table(&[("a3", "3"), ("a4", "x")]);
    let mut it = MergeTableIterator::new(
        vec![
            Box::new(TableIterator::Uni(t1.iter(Flag::none()))),
            Box::new(TableIterator::Uni(t2.iter(Flag::none()))),
            Box::new(TableIterator::Uni(t3.iter(Flag::none()))),
        ],
        false,
    )
    .unwrap();
    assert_eq!(it.count(), 5);
    assert_eq!(it.size_hint(), (0, Some(5)));
    it.rewind();
    let mut keys = Vec::new();
    let mut vals = Vec::new();
    while it.valid() {
        keys.push(it.key().unwrap().parse_key().to_vec());
        vals.push(it.val().unwrap().parse_value().to_vec());
        it.next();
    }
    assert_eq!(keys, vec![b"a1".to_vec(), b"a2".to_vec(), b"a3".to_vec(), b"a4".to_vec()]);
    // the duplicate key keeps the entry of the earlier iterator
    assert_eq!(vals[3], b"4".to_vec());
    it.seek(Key::from(b"a3".to_vec()).with_timestamp(0).as_slice());
    assert!(it.valid());
    let (k, v) = it.entry().unwrap();
    assert_eq!(k.parse_key(), b"a3");
    assert_eq!(v.parse_value(), b"3");
}

#[test]
fn merge_of_none_or_one() {
    assert!(MergeTableIterator::new(Vec::new(), false).is_none());
    let t1 = build_table(&[("a1", "1")]);
    let mut single = MergeTableIterator::new(vec![Box::new(TableIterator::Uni(t1.iter(Flag::none())))], false).unwrap();
    single.rewind();
    assert!(single.valid());
    assert_eq!(single.key().unwrap().parse_key(), b"a1");
    single.next();
    assert!(!single.valid());
}
