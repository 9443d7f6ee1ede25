//! Pointers to values in the value log.
use vstd::prelude::*;
use vstd::slice::slice_subrange;
use crate::bytes::{
    be_bytes, be_value, lemma_be_bytes_len, lemma_be_roundtrip, lemma_be_value_bound, pow256,
};

verus! {

/// Size of an encoded value pointer.
pub const VP_SIZE: usize = 12;

/// ValuePointer points to the value in value log.
#[derive(Copy, Clone, Debug, PartialEq, Eq, Structural)]
pub struct ValuePointer {
    /// value log fid
    pub fid: u32,
    /// value len
    pub len: u32,
    /// offset of value in the value log
    pub offset: u32,
}

/// The encoding of a value pointer: fid, len and offset, each as four
/// big-endian bytes.
pub open spec fn vp_encoding(p: ValuePointer) -> Seq<u8> {
    be_bytes(p.fid as nat, 4) + be_bytes(p.len as nat, 4) + be_bytes(p.offset as nat, 4)
}

/// The value pointer that twelve bytes encode.
pub open spec fn vp_decoding(s: Seq<u8>) -> ValuePointer {
    ValuePointer {
        fid: be_value(s.take(4)) as u32,
        len: be_value(s.subrange(4, 8)) as u32,
        offset: be_value(s.skip(8)) as u32,
    }
}

/// The order of value pointers: by fid, then offset, then len.
pub open spec fn vp_less(a: ValuePointer, b: ValuePointer) -> bool {
    if a.fid != b.fid {
        a.fid < b.fid
    } else if a.offset != b.offset {
        a.offset < b.offset
    } else {
        a.len < b.len
    }
}

impl Default for ValuePointer {
    fn default() -> (r: Self)
        ensures
            r == (ValuePointer { fid: 0, len: 0, offset: 0 }),
    {
        ValuePointer { fid: 0, len: 0, offset: 0 }
    }
}

fn u32_be(v: u32, out: &mut Vec<u8>)
    ensures
        final(out)@ == old(out)@ + be_bytes(v as nat, 4),
{
    let b0 = (v / 0x100_0000) as u8;
    let b1 = ((v / 0x1_0000) % 256) as u8;
    let b2 = ((v / 0x100) % 256) as u8;
    let b3 = (v % 256) as u8;
    out.push(b0);
    out.push(b1);
    out.push(b2);
    out.push(b3);
    proof {
        reveal_with_fuel(be_bytes, 5);
        assert(v / 256 / 256 / 256 == v / 0x100_0000);
        assert(v / 256 / 256 == v / 0x1_0000);
        assert(v / 256 / 256 / 256 / 256 == 0);
        assert(out@ =~= old(out)@ + be_bytes(v as nat, 4));
    }
}

fn be_u32(s: &[u8]) -> (r: u32)
    requires
        s@.len() == 4,
    ensures
        r as nat == be_value(s@),
{
    proof {
        lemma_be_value_bound(s@);
        reveal_with_fuel(pow256, 5);
        reveal_with_fuel(be_value, 5);
        assert(s@.drop_last().drop_last().drop_last().drop_last() =~= Seq::<u8>::empty());
    }
    ((s[0] as u32 * 256 + s[1] as u32) * 256 + s[2] as u32) * 256 + s[3] as u32
}

impl ValuePointer {
    /// Encodes the pointer into twelve bytes.
    pub fn encode(&self) -> (r: Vec<u8>)
        ensures
            r@ == vp_encoding(*self),
            r@.len() == VP_SIZE,
    {
        let mut data: Vec<u8> = Vec::with_capacity(VP_SIZE);
        u32_be(self.fid, &mut data);
        u32_be(self.len, &mut data);
        u32_be(self.offset, &mut data);
        proof {
            lemma_be_bytes_len(self.fid as nat, 4);
            lemma_be_bytes_len(self.len as nat, 4);
            lemma_be_bytes_len(self.offset as nat, 4);
            assert(data@ =~= vp_encoding(*self));
        }
        data
    }

    /// Returns if the value pointer is zero.
    pub fn is_zero(&self) -> (r: bool)
        ensures
            r == (self.fid == 0 && self.offset == 0 && self.len == 0),
    {
        self.fid == 0 && self.offset == 0 && self.len == 0
    }

    /// Decodes a value pointer from its twelve bytes.
    pub fn decode(data: &[u8]) -> (r: Self)
        requires
            data@.len() == VP_SIZE,
        ensures
            r == vp_decoding(data@),
    {
        let a = slice_subrange(data, 0, 4);
        let b = slice_subrange(data, 4, 8);
        let c = slice_subrange(data, 8, 12);
        proof {
            assert(a@ =~= data@.take(4));
            assert(b@ =~= data@.subrange(4, 8));
            assert(c@ =~= data@.skip(8));
        }
        let fid = be_u32(a);
        let len = be_u32(b);
        let offset = be_u32(c);
        ValuePointer { fid, len, offset }
    }

    /// Whether `self` sorts before `other`: by fid, then offset, then len.
    pub fn less_than(&self, other: &Self) -> (r: bool)
        ensures
            r == vp_less(*self, *other),
    {
        if self.fid != other.fid {
            self.fid < other.fid
        } else if self.offset != other.offset {
            self.offset < other.offset
        } else {
            self.len < other.len
        }
    }
}

/// Decoding the encoding of a value pointer gives it back.
pub proof fn lemma_vp_roundtrip(p: ValuePointer)
    ensures
        vp_decoding(vp_encoding(p)) == p,
{
    let e = vp_encoding(p);
    lemma_be_bytes_len(p.fid as nat, 4);
    lemma_be_bytes_len(p.len as nat, 4);
    lemma_be_bytes_len(p.offset as nat, 4);
    assert(e.take(4) =~= be_bytes(p.fid as nat, 4));
    assert(e.subrange(4, 8) =~= be_bytes(p.len as nat, 4));
    assert(e.skip(8) =~= be_bytes(p.offset as nat, 4));
    reveal_with_fuel(pow256, 5);
    lemma_be_roundtrip(p.fid as nat, 4);
    lemma_be_roundtrip(p.len as nat, 4);
    lemma_be_roundtrip(p.offset as nat, 4);
}

/// The order of value pointers is a strict total order.
pub proof fn lemma_vp_order(a: ValuePointer, b: ValuePointer, c: ValuePointer)
    ensures
        !vp_less(a, a),
        a != b ==> (vp_less(a, b) || vp_less(b, a)),
        vp_less(a, b) ==> !vp_less(b, a),
        vp_less(a, b) && vp_less(b, c) ==> vp_less(a, c),
{
}

/// A value pointer as one number: fid, then offset, then len, each a
/// 32-bit digit.
pub open spec fn vp_rank(p: ValuePointer) -> nat {
    ((p.fid as nat) * 0x1_0000_0000 + (p.offset as nat)) * 0x1_0000_0000 + (p.len as nat)
}

/// Value pointers sort by file first; within a file by offset, whatever
/// their lengths; at one offset by length.
pub proof fn lemma_vp_order_fields(a: ValuePointer, b: ValuePointer)
    ensures
        a.fid < b.fid ==> vp_less(a, b),
        a.fid == b.fid && a.offset < b.offset ==> vp_less(a, b),
        a.fid == b.fid && a.offset == b.offset ==> (vp_less(a, b) <==> a.len < b.len),
{
}

/// The order of value pointers is the order of their numbers, fid being
/// the most significant digit and len the least.
pub proof fn lemma_vp_order_rank(a: ValuePointer, b: ValuePointer)
    ensures
        vp_less(a, b) <==> vp_rank(a) < vp_rank(b),
{
    lemma_digits_order(a.fid as nat, a.offset as nat, b.fid as nat, b.offset as nat);
    lemma_digits_order(
        (a.fid as nat) * 0x1_0000_0000 + (a.offset as nat), a.len as nat,
        (b.fid as nat) * 0x1_0000_0000 + (b.offset as nat), b.len as nat,
    );
    assert((a.fid as nat) * 0x1_0000_0000 + (a.offset as nat) == (b.fid as nat) * 0x1_0000_0000 + (b.offset as nat)
        <==> a.fid == b.fid && a.offset == b.offset) by {
        lemma_digits_order(a.fid as nat, a.offset as nat, b.fid as nat, b.offset as nat);
    }
}

/// Two-digit numbers in base 2^32 compare by their high digits first.
proof fn lemma_digits_order(h1: nat, l1: nat, h2: nat, l2: nat)
    requires
        l1 < 0x1_0000_0000,
        l2 < 0x1_0000_0000,
    ensures
        h1 * 0x1_0000_0000 + l1 < h2 * 0x1_0000_0000 + l2 <==> (h1 < h2 || (h1 == h2 && l1 < l2)),
        h1 * 0x1_0000_0000 + l1 == h2 * 0x1_0000_0000 + l2 <==> (h1 == h2 && l1 == l2),
{
    if h1 < h2 {
        assert(h1 * 0x1_0000_0000 + 0x1_0000_0000 <= h2 * 0x1_0000_0000) by (nonlinear_arith)
            requires h1 < h2;
    } else if h2 < h1 {
        assert(h2 * 0x1_0000_0000 + 0x1_0000_0000 <= h1 * 0x1_0000_0000) by (nonlinear_arith)
            requires h2 < h1;
    }
}

} // verus!
