use vela::checksum::{calculate_checksum, ChecksumAlgorithm};
use vela::compression::{Compression, CompressionAlgorithm};
use vela::encrypt::Encryption;
use vela::iterator::{BlockIter, SeekFrom};
use vela::key::{Key, KeyExt};
use vela::pb::{BlockOffset, TableIndex};
use vela::table::BlockBuilder;
use vela::table_builder::{Builder, BuilderOptions};
use vela::table_reader::{
    block_trailer_is_readable, decode_block, parse_footer, verify_index, ChecksumVerificationMode,
};
use vela::value::{Value, ValueExt};

fn key(i: usize) -> Key {
    Key::from(format!("key{:05}", i).into_bytes()).with_timestamp(i as u64 + 1)
}

fn value(i: usize) -> Value {
    Value::with_all_fields(0, 1, 0, 0, format!("value-{}-{}", i, "x".repeat(i % 17)).into_bytes())
}

fn options(compression: Compression, encryption: Encryption) -> BuilderOptions {
    BuilderOptions {
        block_size: 1024,
        table_capacity: 1 << 20,
        compression,
        encryption,
        checksum: ChecksumAlgorithm::Crc32c,
        bloom_bits_per_key: Some(10),
    }
}

fn build_and_read(compression: Compression, encryption: Encryption, n: usize) {
    let mut b = Builder::new(options(compression, encryption.clone()));
    assert!(b.is_empty());
    for i in 0..n {
        b.insert(&key(i), &value(i), 0);
    }
    let blocks = b.len();
    assert!(blocks > 1);
    let bd = b.build().ok().unwrap().unwrap();
    assert_eq!(bd.block_list.len(), blocks);
    let bytes = bd.to_bytes();
    assert_eq!(bytes.len(), bd.size());

    // the footer points at the index and its checksum
    let footer = parse_footer(&bytes).ok().unwrap();
    assert_eq!(&bytes[footer.index_start..footer.index_start + footer.index_len], bd.index.as_slice());
    assert_eq!(&bytes[footer.checksum_start..footer.checksum_start + footer.checksum_len], bd.checksum.as_slice());
    let sum = calculate_checksum(&bd.index, ChecksumAlgorithm::Crc32c).sum;
    assert!(verify_index(&bytes, &footer, sum, ChecksumAlgorithm::Crc32c).is_ok());
    assert!(verify_index(&bytes, &footer, sum ^ 1, ChecksumAlgorithm::Crc32c).is_err());

    // every block reads back, and together they hold every entry in order
    let mut i = 0;
    let mut offset = 0;
    for blk in &bd.block_list {
        let block = decode_block(
            &blk.data,
            offset,
            compression,
            &encryption,
            ChecksumAlgorithm::Crc32c,
            ChecksumVerificationMode::OnBlockRead,
        )
        .ok()
        .unwrap();
        assert_eq!(block.entry_offsets().len(), blk.entries);
        let mut it = BlockIter::new(block, 1, 0);
        it.seek_to_first();
        assert_eq!(it.get_key().as_bytes(), blk.base_key.as_slice());
        while it.valid() {
            assert_eq!(it.get_key().as_bytes(), key(i).as_slice());
            assert_eq!(it.get_val().parse_value(), value(i).parse_value());
            i += 1;
            it.next();
        }
        offset += blk.data.len();
    }
    assert_eq!(i, n);
}

#[test]
fn table_roundtrip_plain() {
    build_and_read(Compression::new(), Encryption::new(), 500);
}

#[test]
fn table_roundtrip_snappy() {
    build_and_read(Compression { algo: CompressionAlgorithm::Snappy, level: 0 }, Encryption::new(), 500);
}

#[test]
fn table_roundtrip_zstd() {
    build_and_read(Compression { algo: CompressionAlgorithm::Zstd, level: 3 }, Encryption::new(), 500);
}

#[test]
fn table_roundtrip_lz4_encrypted() {
    build_and_read(Compression { algo: CompressionAlgorithm::Lz4, level: 0 }, Encryption::aes(vec![9u8; 32]), 500);
}

#[test]
fn table_roundtrip_encrypted() {
    build_and_read(Compression::new(), Encryption::aes(vec![5u8; 16]), 300);
}

#[test]
fn table_empty_builder_builds_nothing() {
    let b = Builder::new(options(Compression::new(), Encryption::new()));
    assert!(b.build().ok().unwrap().is_none());
}

#[test]
fn table_bad_key_fails_the_build() {
    let mut b = Builder::new(options(Compression::new(), Encryption::aes(vec![1u8; 7])));
    for i in 0..200 {
        b.insert(&key(i), &value(i), 0);
    }
    assert!(b.build().is_err());
}

#[test]
fn table_index_is_the_encoded_index() {
    // a single small block, no bloom filter: the index can be written out by hand
    let mut opts = options(Compression::new(), Encryption::new());
    opts.bloom_bits_per_key = None;
    let mut b = Builder::new(opts);
    let k = key(0);
    let v = value(0);
    b.insert(&k, &v, 0);
    let bd = b.build().ok().unwrap().unwrap();
    assert_eq!(bd.block_list.len(), 1);
    let mut tbi = TableIndex::new();
    tbi.offsets.push(BlockOffset { key: k.as_slice().to_vec(), offset: 0, len: bd.block_list[0].data.len() as u32 });
    tbi.max_version = 1;
    tbi.key_count = 1;
    let mut bb = BlockBuilder::new();
    bb.add(k.as_slice(), &v);
    tbi.uncompressed_size = bb.end() as u32;
    assert_eq!(bd.index, tbi.marshal());
    assert_eq!(bd.checksum, calculate_checksum(&bd.index, ChecksumAlgorithm::Crc32c).marshal());
    assert_eq!(bd.checksum_size as usize, bd.checksum.len());
}

#[test]
fn table_capacity_and_stale_data() {
    let mut opts = options(Compression::new(), Encryption::new());
    opts.table_capacity = 2000;
    let mut b = Builder::new(opts);
    assert!(!b.reached_capacity());
    for i in 0..100 {
        b.insert_stale(&key(i), &value(i), 0);
    }
    assert!(b.reached_capacity());
}

#[test]
fn table_block_trailer_check() {
    assert!(!block_trailer_is_readable(&[0, 0, 0]));
    // a checksum length larger than the block is readable (it is reported on parsing)
    assert!(block_trailer_is_readable(&[0xff, 0xff, 0xff, 0xff]));
    assert!(!block_trailer_is_readable(&[0, 0, 0, 1]));
    // no entries, empty checksum
    assert!(block_trailer_is_readable(&[0, 0, 0, 0, 0, 0, 0, 0]));
}

#[test]
fn table_footer_too_short() {
    assert!(parse_footer(&[1, 2]).is_err());
    assert!(parse_footer(&[0, 0, 0, 9]).is_err());
}

#[test]
fn table_seek_within_decoded_block() {
    let mut b = Builder::new(options(Compression::new(), Encryption::new()));
    for i in 0..30 {
        b.insert(&key(i * 2), &value(i), 0);
    }
    let bd = b.build().ok().unwrap().unwrap();
    let blk = decode_block(
        &bd.block_list[0].data,
        0,
        Compression::new(),
        &Encryption::new(),
        ChecksumAlgorithm::Crc32c,
        ChecksumVerificationMode::NoVerification,
    )
    .ok()
    .unwrap();
    let mut it = BlockIter::new(blk, 0, 0);
    it.seek(key(7).as_slice(), SeekFrom::Origin);
    assert_eq!(it.get_key().as_bytes(), key(8).as_slice());
}
