//! The pieces of the protobuf wire format that the records use: varint
//! fields and length-delimited fields, written by `prost`.
use vstd::prelude::*;
use crate::varint::uvarint_encode;

verus! {

/// The protobuf encoding of a varint field: the key `tag << 3` and the
/// value, as uvarints.
pub open spec fn pb_varint_field(tag: nat, value: nat) -> Seq<u8> {
    uvarint_encode(tag * 8) + uvarint_encode(value)
}

/// The 64-bit two's complement of a 32-bit integer, as protobuf writes an
/// `int32`.
pub open spec fn int32_as_u64(v: i32) -> nat {
    if v >= 0 {
        v as nat
    } else {
        (v + 0x1_0000_0000_0000_0000) as nat
    }
}

/// Calls `prost::encoding::int32::encode(tag, &value, buf)`, which writes
/// the key `tag << 3` (wire type varint) and `value as u64` as LEB128
/// varints.
#[verifier::external_body]
pub(crate) fn pb_put_int32(tag: u32, value: i32, buf: &mut Vec<u8>)
    requires
        1 <= tag <= 0x1FFF_FFFF,
    ensures
        final(buf)@ == old(buf)@ + pb_varint_field(tag as nat, int32_as_u64(value)),
{
    prost::encoding::int32::encode(tag, &value, buf)
}

/// Calls `prost::encoding::uint64::encode(tag, &value, buf)`, which writes
/// the key `tag << 3` (wire type varint) and `value` as LEB128 varints.
#[verifier::external_body]
pub(crate) fn pb_put_uint64(tag: u32, value: u64, buf: &mut Vec<u8>)
    requires
        1 <= tag <= 0x1FFF_FFFF,
    ensures
        final(buf)@ == old(buf)@ + pb_varint_field(tag as nat, value as nat),
{
    prost::encoding::uint64::encode(tag, &value, buf)
}

/// The protobuf encoding of a length-delimited field: the key
/// `tag << 3 | 2`, the length as a uvarint, and the bytes.
pub open spec fn pb_bytes_field(tag: nat, data: Seq<u8>) -> Seq<u8> {
    uvarint_encode(tag * 8 + 2) + uvarint_encode(data.len()) + data
}

/// Calls `prost::encoding::uint32::encode(tag, &value, buf)`, which writes
/// the key `tag << 3` (wire type varint) and `value` as LEB128 varints.
#[verifier::external_body]
pub(crate) fn pb_put_uint32(tag: u32, value: u32, buf: &mut Vec<u8>)
    requires
        1 <= tag <= 0x1FFF_FFFF,
    ensures
        final(buf)@ == old(buf)@ + pb_varint_field(tag as nat, value as nat),
{
    prost::encoding::uint32::encode(tag, &value, buf)
}

/// Calls `prost::encoding::bytes::encode(tag, &value, buf)`, which writes
/// the key `tag << 3 | 2` (wire type length-delimited), the length as a
/// LEB128 varint and the bytes.
#[verifier::external_body]
pub(crate) fn pb_put_bytes(tag: u32, value: &[u8], buf: &mut Vec<u8>)
    requires
        1 <= tag <= 0x1FFF_FFFF,
    ensures
        final(buf)@ == old(buf)@ + pb_bytes_field(tag as nat, value@),
{
    prost::encoding::bytes::encode(tag, &value.to_vec(), buf)
}

} // verus!
