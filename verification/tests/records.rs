use vela::entry::{Entry, BIT_DELETE, BIT_DISCARD_EARLIER_VERSIONS, BIT_MERGE_ENTRY};
use vela::header::Header;
use vela::key::Key;
use vela::key_range::KeyRange;
use vela::value::{Value, ValueExt, ValueRef};
use vela::value_pointer::ValuePointer;
use vela::varint::{binary_put_uvariant_to_vec, binary_uvarint, binary_uvarint_allocate, size_variant};

#[test]
fn varint_roundtrip_and_sizes() {
    for x in [0u64, 1, 127, 128, 300, 16383, 16384, u32::MAX as u64, u64::MAX] {
        let v = binary_uvarint_allocate(x);
        assert_eq!(v.len(), size_variant(x));
        assert_eq!(binary_uvarint(&v), (x, v.len()));
    }
    assert_eq!(binary_uvarint_allocate(300), vec![0xac, 0x02]);
    let mut buf = vec![9u8];
    assert_eq!(binary_put_uvariant_to_vec(&mut buf, 128), 2);
    assert_eq!(buf, vec![9, 0x80, 0x01]);
    // truncated and overlong input
    assert_eq!(binary_uvarint(&[0x80]), (0, 0));
    assert_eq!(binary_uvarint(&[0xff; 11]), (0, 0));
    assert_eq!(size_variant(u64::MAX), 10);
}

#[test]
fn header_roundtrip() {
    let h = Header::new()
        .set_key_len(10)
        .set_value_len(300)
        .set_meta(1)
        .set_user_meta(2)
        .set_expires_at(1 << 40);
    let (n, bytes) = h.encode_to_vec();
    assert_eq!(n, bytes.len());
    assert_eq!(&bytes[..4], &[1, 2, 10, 0xac]);
    let (m, d) = Header::decode(&bytes);
    assert_eq!(m, n);
    assert_eq!(d.get_key_len(), 10);
    assert_eq!(d.get_value_len(), 300);
    assert_eq!(d.get_meta(), 1);
    assert_eq!(d.get_user_meta(), 2);
    assert_eq!(d.get_expires_at(), 1 << 40);
}

#[test]
fn value_roundtrip() {
    let v = Value::with_all_fields(3, 4, 1000, 77, b"hello".to_vec());
    let enc = v.encode_to_vec();
    assert_eq!(enc, vec![3, 4, 0xe8, 0x07, b'h', b'e', b'l', b'l', b'o']);
    assert_eq!(v.encoded_size() as usize, enc.len());
    let d = Value::decode_value(&enc);
    assert_eq!(d.get_meta(), 3);
    assert_eq!(d.get_user_meta(), 4);
    assert_eq!(d.get_expires_at(), 1000);
    assert_eq!(d.parse_value(), b"hello");
    // the version is not encoded
    assert_eq!(d.get_version(), 0);
    let r = ValueRef::decode_value_ref(&enc);
    assert_eq!(r.to_value().parse_value(), b"hello");
}

#[test]
fn value_pointer_roundtrip_and_order() {
    let p = ValuePointer { fid: 1, len: 2, offset: 3 };
    let enc = p.encode();
    assert_eq!(enc, vec![0, 0, 0, 1, 0, 0, 0, 2, 0, 0, 0, 3]);
    let d = ValuePointer::decode(&enc);
    assert_eq!((d.fid, d.len, d.offset), (1, 2, 3));
    assert!(!p.is_zero());
    assert!(ValuePointer { fid: 0, len: 0, offset: 0 }.is_zero());
    assert!(p.less_than(&ValuePointer { fid: 2, len: 0, offset: 0 }));
    assert!(p.less_than(&ValuePointer { fid: 1, len: 2, offset: 4 }));
    assert!(!p.less_than(&p));
}

#[test]
fn entry_flags_and_sizes() {
    let mut e = Entry::new_from_kv(Key::from(b"k".to_vec()), Value::with_all_fields(0, 0, 0, 0, vec![1; 20]));
    e.mark_discard();
    assert_eq!(e.get_value().get_meta(), BIT_DISCARD_EARLIER_VERSIONS);
    // marking replaces the meta byte
    e.mark_merge();
    assert_eq!(e.get_value().get_meta(), BIT_MERGE_ENTRY);
    e.set_meta(BIT_DELETE);
    assert_eq!(e.get_value().get_meta(), BIT_DELETE);
    // a value shorter than the threshold stays beside the key
    assert_eq!(e.estimate_size_and_set_threshold(100), 1 + 20 + 2);
    let mut f = Entry::new_from_kv(Key::from(b"k".to_vec()), Value::with_all_fields(0, 0, 0, 0, vec![1; 20]));
    assert_eq!(f.estimate_size_and_set_threshold(10), 1 + 12 + 2);
    assert!(!f.skip_vlog_and_set_threshold(5));
    assert_eq!(f.get_value_threshold(), 10);
}

#[test]
fn key_range_extend_and_overlap() {
    let a = Key::from(b"a".to_vec()).with_timestamp(1);
    let c = Key::from(b"c".to_vec()).with_timestamp(1);
    let e = Key::from(b"e".to_vec()).with_timestamp(1);
    let g = Key::from(b"g".to_vec()).with_timestamp(1);
    let r1 = KeyRange::new(a.clone(), c.clone(), 0);
    let r2 = KeyRange::new(e.clone(), g.clone(), 0);
    assert!(!r1.overlaps_with(&r2));
    let mut r3 = KeyRange::new(a.clone(), c.clone(), 0);
    r3.extend(KeyRange::new(e.clone(), g.clone(), 0));
    assert!(r3.overlaps_with(&r2));
    assert!(r3.overlaps_with(&KeyRange::new(c.clone(), e.clone(), 0)));
    let empty = KeyRange::new(Key::new(), Key::new(), 0);
    assert!(empty.is_empty());
    assert!(empty.overlaps_with(&r1));
}
