use vela::checksum::ChecksumAlgorithm;
use vela::iterator::{BlockIter, IterError, SeekFrom};
use vela::key::{Key, KeyExt};
use vela::table::{Block, BlockBuilder, BlockError, Header};
use vela::value::{Value, ValueExt};

fn key(i: usize) -> Vec<u8> {
    Key::from(format!("key{:04}", i).into_bytes()).with_timestamp(1).as_slice().to_vec()
}

fn value(i: usize) -> Value {
    Value::with_all_fields(1, 2, 3 * i as u64, 0, format!("value{}", i).into_bytes())
}

fn build(n: usize, algo: ChecksumAlgorithm) -> Vec<u8> {
    let mut b = BlockBuilder::new();
    for i in 0..n {
        b.add(&key(i), &value(i));
    }
    b.finish(algo)
}

#[test]
fn block_header_roundtrip() {
    let h = Header::new(3, 500);
    let enc = h.encode();
    assert_eq!(enc, vec![3, 0, 244, 1]);
    let d = Header::decode(&enc);
    assert_eq!(d.overlap(), 3);
    assert_eq!(d.diff(), 500);
}

#[test]
fn block_builder_writes_entries_against_the_first_key() {
    let mut b = BlockBuilder::new();
    assert!(b.is_empty());
    b.add(b"abcd", &Value::with_all_fields(0, 0, 0, 0, b"x".to_vec()));
    b.add(b"abxy", &Value::with_all_fields(0, 0, 0, 0, b"y".to_vec()));
    assert_eq!(b.len(), 2);
    // first entry: overlap 0, diff 4, "abcd", value (meta, user meta, expiry 0, "x")
    // second: overlap 2, diff 2, "xy", value
    assert_eq!(
        b.as_slice(),
        &[0, 0, 4, 0, b'a', b'b', b'c', b'd', 0, 0, 0, b'x', 2, 0, 2, 0, b'x', b'y', 0, 0, 0, b'y']
    );
    assert_eq!(b.key_diff(b"abzz"), b"zz");
}

#[test]
fn block_reads_back_what_was_written() {
    let n = 50;
    let bytes = build(n, ChecksumAlgorithm::Crc32c);
    let blk = Block::parse(bytes, 7).ok().unwrap();
    assert_eq!(blk.offset(), 7);
    assert_eq!(blk.entry_offsets().len(), n);
    assert!(blk.verify_checksum(ChecksumAlgorithm::Crc32c).is_ok());
    let mut it = BlockIter::new(blk, 1, 0);
    it.seek_to_first();
    for i in 0..n {
        assert!(it.valid());
        assert_eq!(it.get_key().as_bytes(), key(i).as_slice());
        let v = it.get_val();
        assert_eq!(v.parse_value(), format!("value{}", i).as_bytes());
        assert_eq!(v.get_meta(), 1);
        assert_eq!(v.get_user_meta(), 2);
        assert_eq!(v.get_expires_at(), 3 * i as u64);
        it.next();
    }
    assert!(!it.valid());
}

#[test]
fn block_checksum_with_every_algorithm() {
    for algo in [ChecksumAlgorithm::Crc32c, ChecksumAlgorithm::XxHash64, ChecksumAlgorithm::SeaHash] {
        let blk = Block::parse(build(10, algo), 0).ok().unwrap();
        assert!(blk.verify_checksum(algo).is_ok());
    }
    let blk = Block::parse(build(10, ChecksumAlgorithm::Crc32c), 0).ok().unwrap();
    assert!(matches!(blk.verify_checksum(ChecksumAlgorithm::SeaHash), Err(BlockError::ChecksumMismatch)));
}

#[test]
fn block_corruption_is_detected() {
    let mut bytes = build(10, ChecksumAlgorithm::Crc32c);
    bytes[5] ^= 0xff;
    let blk = Block::parse(bytes, 0).ok().unwrap();
    assert!(matches!(blk.verify_checksum(ChecksumAlgorithm::Crc32c), Err(BlockError::ChecksumMismatch)));
}

#[test]
fn block_checksum_length_too_large() {
    let bytes = vec![0, 0, 0, 0, 0, 0, 0, 0, 0xff, 0xff, 0xff, 0xff];
    assert!(matches!(Block::parse(bytes, 0), Err(BlockError::InvalidChecksumLength)));
}

#[test]
fn block_empty_builder_gives_no_bytes() {
    assert!(BlockBuilder::new().finish(ChecksumAlgorithm::Crc32c).is_empty());
}

#[test]
fn block_iter_seek_and_prev() {
    let n = 20;
    let blk = Block::parse(build(n, ChecksumAlgorithm::Crc32c), 0).ok().unwrap();
    let mut it = BlockIter::new(blk, 1, 0);

    it.seek(&key(7), SeekFrom::Origin);
    assert!(it.valid());
    assert_eq!(it.get_key().as_bytes(), key(7).as_slice());

    // a key between entries 7 and 8 lands on 8
    let mid = Key::from(b"key0007a".to_vec()).with_timestamp(1);
    it.seek(mid.as_slice(), SeekFrom::Origin);
    assert_eq!(it.get_key().as_bytes(), key(8).as_slice());

    // past the last key
    let last = Key::from(b"zzzz".to_vec()).with_timestamp(1);
    it.seek(last.as_slice(), SeekFrom::Origin);
    assert!(!it.valid());

    // before the first key
    let first = Key::from(b"a".to_vec()).with_timestamp(1);
    it.seek(first.as_slice(), SeekFrom::Origin);
    assert_eq!(it.get_key().as_bytes(), key(0).as_slice());

    it.seek_to_last();
    assert_eq!(it.get_key().as_bytes(), key(n - 1).as_slice());
    it.prev();
    assert_eq!(it.get_key().as_bytes(), key(n - 2).as_slice());

    it.seek_to_first();
    it.prev();
    assert!(!it.valid());
    assert!(matches!(IterError::EOF.to_string().as_str(), "EOF"));
}

#[test]
fn block_iter_seek_from_current() {
    let blk = Block::parse(build(20, ChecksumAlgorithm::Crc32c), 0).ok().unwrap();
    let mut it = BlockIter::new(blk, 1, 0);
    it.nth(10);
    // an earlier key is passed over: the search starts at the current entry
    it.seek(&key(3), SeekFrom::Current);
    assert_eq!(it.get_key().as_bytes(), key(10).as_slice());
    assert_eq!(it.count(), 20);
}
