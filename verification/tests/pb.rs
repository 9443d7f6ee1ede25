use vela::encrypt::EncryptionAlgorithm;
use vela::pb::{BlockOffset, Kind, Kv, ManifestChange, Operation, TableIndex};

#[test]
fn pb_kind_and_operation_numbers() {
    assert_eq!(Kind::from_i32(1), Some(Kind::DataKey));
    assert_eq!(Kind::from_i32(3), None);
    assert!(Kind::try_from_number(7).is_err());
    assert_eq!(Kind::File.as_str_name(), "FILE");
    assert_eq!(Kind::DataKey.to_i32(), 1);
    assert!(Kind::is_valid(2) && !Kind::is_valid(-1));
    assert_eq!(Operation::from_i32(1), Some(Operation::Delete));
    assert_eq!(Operation::from_i32(2), None);
    assert_eq!(Operation::Create.as_str_name(), "CREATE");
    assert!(Operation::try_from_number(5).is_err());
}

#[test]
fn pb_kv_kind_defaults_to_key() {
    let mut kv = Kv::new();
    kv.kind = 42;
    assert_eq!(kv.kind(), Kind::Key);
    kv.set_kind(Kind::File);
    assert_eq!(kv.kind, 2);
    assert_eq!(kv.kind(), Kind::File);
}

#[test]
fn pb_manifest_changes() {
    let c = ManifestChange::new_create_change(7, 3, 11, EncryptionAlgorithm::Aes, 2);
    assert_eq!(c, ManifestChange { id: 7, op: 0, level: 3, key_id: 11, encryption_algo: 1, compression: 2 });
    assert_eq!(c.op(), Operation::Create);
    assert_eq!(c.encryption_algo(), EncryptionAlgorithm::Aes);
    let mut d = ManifestChange::new_delete_change(9, EncryptionAlgorithm::Unencrypted);
    assert_eq!(d.op(), Operation::Delete);
    d.set_op(Operation::Create);
    d.set_encryption_algo(EncryptionAlgorithm::Aes);
    assert_eq!(d, ManifestChange { id: 9, op: 0, level: 0, key_id: 0, encryption_algo: 1, compression: 0 });
    d.op = 9;
    assert_eq!(d.op(), Operation::Create);
}

#[test]
fn pb_encodings() {
    let bo = BlockOffset { key: b"ab".to_vec(), offset: 300, len: 5 };
    // field 1 (bytes), field 2 (varint 300), field 3 (varint 5)
    assert_eq!(bo.marshal(), vec![0x0a, 2, b'a', b'b', 0x10, 0xac, 0x02, 0x18, 5]);
    assert!(BlockOffset::new().marshal().is_empty());
    let mut t = TableIndex::new();
    assert!(t.marshal().is_empty());
    t.offsets.push(bo);
    t.max_version = 1;
    t.key_count = 2;
    assert_eq!(
        t.marshal(),
        vec![0x0a, 9, 0x0a, 2, b'a', b'b', 0x10, 0xac, 0x02, 0x18, 5, 0x20, 1, 0x28, 2]
    );
}
