use vela::bloom::{hash, Filter};
use vela::checksum::{calculate_checksum, ChecksumAlgorithm};
use vela::compression::{Compression, CompressionAlgorithm};
use vela::encrypt::Encryption;
use vela::iterator::BableIterator;
use vela::key::{Key, KeyExt};
use vela::pb::{BlockOffset, TableIndex};
use vela::sst::{RawTable, ReadOptions};
use vela::table_builder::{Builder, BuilderOptions};
use vela::table_iter::Flag;
use vela::table_reader::{parse_footer, read_index, ChecksumVerificationMode, TableError};
use vela::value::{Value, ValueExt};

fn key(i: usize) -> String {
    format!("key{:04}", i)
}

struct Built {
    bytes: Vec<u8>,
    index: TableIndex,
    checksum: Vec<u8>,
    encoded_index: Vec<u8>,
}

fn build(n: usize, encryption: Encryption) -> Built {
    let mut b = Builder::new(BuilderOptions {
        block_size: 4 * 1024,
        table_capacity: 64 << 20,
        compression: Compression::new(),
        encryption,
        checksum: ChecksumAlgorithm::Crc32c,
        bloom_bits_per_key: Some(10),
    });
    let mut hashes = Vec::new();
    for i in 0..n {
        let k = Key::from(key(i).into_bytes()).with_timestamp(i as u64 + 1);
        hashes.push(hash(k.parse_key()));
        b.insert(&k, &Value::with_all_fields(b'A', 0, 0, 0, format!("{}", i).into_bytes()), 0);
    }
    let bd = b.build().ok().unwrap().unwrap();
    let mut offsets = Vec::new();
    let mut offset = 0u32;
    for blk in &bd.block_list {
        offsets.push(BlockOffset { key: blk.base_key.clone(), offset, len: blk.data.len() as u32 });
        offset += blk.data.len() as u32;
    }
    let index = TableIndex {
        offsets,
        bloom_filter: Filter::new(&hashes, 10).into_vec(),
        estimated_size: 0,
        max_version: n as u64,
        key_count: n as u32,
        uncompressed_size: 0,
        stale_data_size: 0,
    };
    Built { bytes: bd.to_bytes(), index, checksum: bd.checksum.clone(), encoded_index: bd.index.clone() }
}

fn read_opts(mode: ChecksumVerificationMode) -> ReadOptions {
    ReadOptions {
        block_size: 4 * 1024,
        compression: Compression::new(),
        encryption: Encryption::new(),
        checksum: ChecksumAlgorithm::Crc32c,
        checksum_verification_mode: mode,
    }
}

#[test]
fn sst_open_finds_smallest_and_biggest() {
    let b = build(1000, Encryption::new());
    let t = RawTable::open(7, b.bytes, b.index, b.checksum.clone(), read_opts(ChecksumVerificationMode::OnTableRead), false)
        .ok()
        .unwrap();
    assert_eq!(t.id(), 7);
    assert_eq!(t.smallest().parse_key(), key(0).as_bytes());
    assert_eq!(t.biggest().parse_key(), key(999).as_bytes());
    assert_eq!(t.key_count(), 1000);
    assert_eq!(t.num_entries(), 1000);
    assert_eq!(t.max_version(), 1000);
    assert_eq!(t.checksum(), b.checksum.as_slice());
    assert!(!t.in_memory());
    assert!(t.offsets_length() > 1);
    assert!(t.verify_checksum().is_ok());
    assert!(t.bloom_filter_size() > 0);
}

#[test]
fn sst_iterates_every_entry() {
    let b = build(1000, Encryption::new());
    let t = RawTable::open(1, b.bytes, b.index, b.checksum, read_opts(ChecksumVerificationMode::OnBlockRead), true)
        .ok()
        .unwrap();
    assert!(t.in_memory());
    let mut it = t.iter(Flag::none());
    it.rewind();
    let mut cnt = 0;
    while it.valid() {
        assert_eq!(it.key().unwrap().parse_key(), key(cnt).as_bytes());
        assert_eq!(it.val().unwrap().parse_value(), format!("{}", cnt).as_bytes());
        cnt += 1;
        it.next();
    }
    assert_eq!(cnt, 1000);
    assert_eq!(it.count(), 1000);
}

#[test]
fn sst_prefix_and_splits() {
    let b = build(2000, Encryption::new());
    let keys: Vec<Vec<u8>> = b.index.offsets.iter().map(|o| o.key.clone()).collect();
    let t = RawTable::open(1, b.bytes, b.index, b.checksum, read_opts(ChecksumVerificationMode::NoVerification), false)
        .ok()
        .unwrap();
    let m = keys.len();
    assert!(m > 3);
    assert!(t.covered_by_prefix(b"key"));
    assert!(t.covered_by_prefix(b""));
    assert!(!t.covered_by_prefix(b"key00"));
    assert!(!t.covered_by_prefix(b"zzz"));
    assert!(t.key_splits(0, b"").is_empty());
    let splits = t.key_splits(3, b"key");
    let expected: Vec<Vec<u8>> = (0..m).step_by(std::cmp::max(1, m / 3)).map(|j| keys[j].clone()).collect();
    assert!(splits.len() >= 3);
    assert_eq!(splits.iter().map(|k| k.as_bytes().to_vec()).collect::<Vec<_>>(), expected);
    assert_eq!(splits[0].parse_key(), key(0).as_bytes());
    assert_eq!(t.key_splits(2 * m, b"key").len(), m);
    assert!(t.key_splits(3, b"nope").is_empty());
}

#[test]
fn sst_bloom_filter_rules_out_absent_keys() {
    let b = build(500, Encryption::new());
    let t = RawTable::open(1, b.bytes, b.index, b.checksum, read_opts(ChecksumVerificationMode::NoVerification), false)
        .ok()
        .unwrap();
    assert!(t.bloom_filter_usable());
    for i in 0..500 {
        assert!(!t.contains_hash(hash(key(i).as_bytes())));
    }
    let mut ruled_out = 0;
    for i in 500..1500 {
        if t.contains_hash(hash(key(i).as_bytes())) {
            ruled_out += 1;
        }
    }
    assert!(ruled_out > 900);
}

#[test]
fn sst_empty_block_size_with_compression_is_refused() {
    let b = build(10, Encryption::new());
    let mut opts = read_opts(ChecksumVerificationMode::NoVerification);
    opts.block_size = 0;
    opts.compression = Compression { algo: CompressionAlgorithm::Snappy, level: 0 };
    assert!(matches!(opts.validate(), Err(TableError::EmptyBlock)));
    let r = RawTable::open(1, b.bytes, b.index, b.checksum, opts, false);
    assert!(matches!(r, Err(TableError::EmptyBlock)));
    let mut ok_opts = read_opts(ChecksumVerificationMode::NoVerification);
    ok_opts.block_size = 0;
    assert!(ok_opts.validate().is_ok());
}

#[test]
fn sst_corrupt_block_fails_verification() {
    let b = build(1000, Encryption::new());
    let first_len = b.index.offsets[0].len as usize;
    let mut bytes = b.bytes.clone();
    bytes[first_len / 2] ^= 0x55;
    let r = RawTable::open(1, bytes.clone(), b.index.clone(), b.checksum.clone(), read_opts(ChecksumVerificationMode::OnTableRead), false);
    assert!(matches!(r, Err(TableError::BlockOffsetChecksumMismatch { block: 0, .. })));
    let r = RawTable::open(1, bytes.clone(), b.index.clone(), b.checksum.clone(), read_opts(ChecksumVerificationMode::OnTableAndBlockRead), false);
    assert!(matches!(r, Err(TableError::BlockChecksumMismatch { block: 0 })));
    let t = RawTable::open(1, bytes, b.index, b.checksum, read_opts(ChecksumVerificationMode::NoVerification), false)
        .ok()
        .unwrap();
    assert!(t.verify_checksum().is_err());
    assert!(t.block(0).is_ok());
    assert!(t.block(1).is_ok());
    assert!(t.block(t.offsets_length()).is_err());
}

#[test]
fn sst_corrupt_last_block_has_no_biggest_key() {
    let b = build(1000, Encryption::new());
    let last = b.index.offsets.len() - 1;
    let start = b.index.offsets[last].offset as usize;
    let len = b.index.offsets[last].len as usize;
    let mut bytes = b.bytes.clone();
    bytes[start + len - 3] ^= 0xff;
    let r = RawTable::open(1, bytes, b.index, b.checksum, read_opts(ChecksumVerificationMode::OnBlockRead), false);
    assert!(matches!(r, Err(TableError::NoBiggestKey)));
}

#[test]
fn sst_read_index_checks_and_decrypts() {
    let b = build(200, Encryption::new());
    let footer = parse_footer(&b.bytes).ok().unwrap();
    let sum = calculate_checksum(&b.encoded_index, ChecksumAlgorithm::Crc32c).sum;
    let idx = read_index(&b.bytes, &footer, sum, ChecksumAlgorithm::Crc32c, &Encryption::new()).ok().unwrap();
    assert_eq!(idx, b.encoded_index);
    let bad = read_index(&b.bytes, &footer, sum ^ 1, ChecksumAlgorithm::Crc32c, &Encryption::new());
    assert!(matches!(bad, Err(TableError::ChecksumMismatch)));

    let secret = vec![9u8; 16];
    let enc = Encryption::aes(secret.clone());
    let b = build(200, enc.clone());
    let footer = parse_footer(&b.bytes).ok().unwrap();
    let stored = &b.bytes[footer.index_start..footer.index_start + footer.index_len];
    let sum = calculate_checksum(stored, ChecksumAlgorithm::Crc32c).sum;
    let idx = read_index(&b.bytes, &footer, sum, ChecksumAlgorithm::Crc32c, &enc).ok().unwrap();
    assert_eq!(idx.len() + 16, b.encoded_index.len());
    assert_ne!(idx.as_slice(), &b.encoded_index[..idx.len()]);
}
