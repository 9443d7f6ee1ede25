use vela::cache::{BlockKeyBuilder, NoopBlock, NoopIndex};
use vela::checksum::{calculate_checksum, crc32, sea, verify_checksum, xxhash64, Checksum, ChecksumAlgorithm};

#[test]
fn checksum_known_values() {
    // CRC-32 (IEEE) of "hello"
    assert_eq!(crc32(b"hello").sum, 0x3610a686);
    assert_eq!(crc32(b"hello").algo, 0);
    assert_eq!(sea(b"hello").algo, 2);
    assert_eq!(xxhash64(b"hello").algo, 1);
    assert_ne!(sea(b"hello").sum, sea(b"hellp").sum);
    assert_ne!(xxhash64(b"hello").sum, xxhash64(b"hellp").sum);
    for algo in [ChecksumAlgorithm::Crc32c, ChecksumAlgorithm::XxHash64, ChecksumAlgorithm::SeaHash] {
        let c = calculate_checksum(b"data", algo);
        assert!(verify_checksum(b"data", c.sum, algo));
        assert!(!verify_checksum(b"data", c.sum.wrapping_add(1), algo));
    }
}

#[test]
fn checksum_marshal() {
    let c = Checksum { algo: 1, sum: 300 };
    assert_eq!(c.marshal(), vec![0x08, 1, 0x10, 0xac, 0x02]);
    assert!(Checksum::new().marshal().is_empty());
    assert_eq!(Checksum { algo: 0, sum: 1 }.marshal(), vec![0x10, 1]);
    assert_eq!(Checksum { algo: 2, sum: 0 }.algo(), ChecksumAlgorithm::SeaHash);
}

#[test]
fn cache_policies_and_key_hashes() {
    assert!(NoopIndex.should_update());
    assert_eq!(NoopIndex.cost(), 0);
    assert!(NoopBlock.should_update());
    assert_eq!(NoopBlock.cost(), 0);
    let b = BlockKeyBuilder::with_seed(7);
    assert_eq!(b.hash_index(b"key"), sea(b"key").sum);
    assert_eq!(b.hash_index(b"key"), b.hash_index(b"key"));
    assert_ne!(b.hash_conflict(b"key"), BlockKeyBuilder::with_seed(8).hash_conflict(b"key"));
    assert_eq!(BlockKeyBuilder::with_seed(0).hash_conflict(b"key"), xxhash64(b"key").sum);
}
