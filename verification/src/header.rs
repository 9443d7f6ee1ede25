//! The header written in front of every entry of the value log.
use vstd::prelude::*;
use crate::varint::{
    binary_put_uvariant_at, binary_put_uvariant_to_vec, binary_uvarint, lemma_decode_len,
    lemma_encode_len_bound, lemma_encode_len_63, lemma_uvarint_roundtrip, pow128, uvarint_decode, uvarint_encode,
};
use vstd::slice::slice_subrange;

verus! {

/// The size reserved for an encoded header. Two bytes of meta data and two
/// uvarints of at most five bytes for the lengths leave
/// nine bytes for the expiry; an expiry of 2^63 or more takes ten.
pub const MAX_HEADER_SIZE: usize = 21;

/// Header is used in value log as a header before Entry.
#[derive(Copy, Clone, Debug, PartialEq, Eq, Structural)]
pub struct Header {
    pub(crate) meta: u8,
    pub(crate) user_meta: u8,
    pub(crate) k_len: u32,
    pub(crate) v_len: u32,
    pub(crate) expires_at: u64,
}

/// The fields of a [`Header`], as plain values.
pub struct HeaderView {
    pub meta: u8,
    pub user_meta: u8,
    pub k_len: u32,
    pub v_len: u32,
    pub expires_at: u64,
}

impl View for Header {
    type V = HeaderView;

    open(crate) spec fn view(&self) -> HeaderView {
        HeaderView {
            meta: self.meta,
            user_meta: self.user_meta,
            k_len: self.k_len,
            v_len: self.v_len,
            expires_at: self.expires_at,
        }
    }
}

/// The encoding of a header:
/// `meta | user_meta | uvarint(k_len) | uvarint(v_len) | uvarint(expires_at)`.
pub open spec fn header_encoding(h: HeaderView) -> Seq<u8> {
    seq![h.meta, h.user_meta] + uvarint_encode(h.k_len as nat) + uvarint_encode(h.v_len as nat)
        + uvarint_encode(h.expires_at as nat)
}

/// The value and length of the uvarint at the front of `s`, or `(0, 0)`
/// when there is none.
pub open spec fn uvarint_or_zero(s: Seq<u8>) -> (nat, nat) {
    match uvarint_decode(s) {
        Some((v, n)) => (v, n),
        None => (0nat, 0nat),
    }
}

/// What decoding reads from `data`: the number of bytes read and the header.
/// A length that does not fit in 32 bits keeps its low 32 bits; a missing or
/// malformed uvarint reads as zero and consumes no byte.
pub open spec fn header_decoding(data: Seq<u8>) -> (nat, HeaderView) {
    let (k, c1) = uvarint_or_zero(data.skip(2));
    let (v, c2) = uvarint_or_zero(data.skip((2 + c1) as int));
    let (e, c3) = uvarint_or_zero(data.skip((2 + c1 + c2) as int));
    (
        2 + c1 + c2 + c3,
        HeaderView {
            meta: data[0],
            user_meta: data[1],
            k_len: k as u32,
            v_len: v as u32,
            expires_at: e as u64,
        },
    )
}

impl Default for Header {
    fn default() -> (h: Self)
        ensures
            h@ == (HeaderView { meta: 0, user_meta: 0, k_len: 0, v_len: 0, expires_at: 0 }),
    {
        Self::new()
    }
}

fn uvarint_from(data: &[u8], pos: usize) -> (r: (u64, usize))
    requires
        pos <= data@.len(),
    ensures
        r.0 as nat == uvarint_or_zero(data@.skip(pos as int)).0,
        r.1 as nat == uvarint_or_zero(data@.skip(pos as int)).1,
        pos + r.1 <= data@.len(),
        pos + r.1 <= data.len(),
{
    let tail = slice_subrange(data, pos, data.len());
    proof {
        assert(tail@ =~= data@.skip(pos as int));
        lemma_decode_len(tail@, 0);
    }
    binary_uvarint(tail)
}

impl Header {
    /// Create a new header.
    pub fn new() -> (h: Self)
        ensures
            h@ == (HeaderView { meta: 0, user_meta: 0, k_len: 0, v_len: 0, expires_at: 0 }),
    {
        Self { meta: 0, user_meta: 0, k_len: 0, v_len: 0, expires_at: 0 }
    }

    /// Encodes the header into a new vector and returns the number of bytes
    /// written with it.
    pub fn encode_to_vec(&self) -> (r: (usize, Vec<u8>))
        ensures
            r.1@ == header_encoding(self@),
            r.0 == r.1@.len(),
            r.0 <= MAX_HEADER_SIZE + 1,
            self@.expires_at < 0x8000_0000_0000_0000 ==> r.0 <= MAX_HEADER_SIZE,
    {
        let mut buf: Vec<u8> = Vec::with_capacity(MAX_HEADER_SIZE);
        buf.push(self.meta);
        buf.push(self.user_meta);
        let mut index: usize = 2;
        proof {
            lemma_encode_len_bound(self.k_len as nat);
            lemma_encode_len_bound(self.v_len as nat);
            lemma_encode_len_bound(self.expires_at as nat);
            lemma_encode_len_63(self.expires_at as nat);
            lemma_u32_encode_len(self.k_len);
            lemma_u32_encode_len(self.v_len);
        }
        index = index + binary_put_uvariant_to_vec(&mut buf, self.k_len as u64);
        index = index + binary_put_uvariant_to_vec(&mut buf, self.v_len as u64);
        index = index + binary_put_uvariant_to_vec(&mut buf, self.expires_at);
        proof {
            assert(buf@ =~= header_encoding(self@));
        }
        (index, buf)
    }

    /// Encodes the header into the front of `buf` and returns the number of
    /// bytes written; the bytes of `buf` after them stay.
    pub fn encode(&self, buf: &mut [u8]) -> (n: usize)
        requires
            header_encoding(self@).len() <= old(buf)@.len(),
        ensures
            n == header_encoding(self@).len(),
            final(buf)@ == header_encoding(self@) + old(buf)@.skip(n as int),
    {
        proof {
            lemma_u32_encode_len(self.k_len);
            lemma_u32_encode_len(self.v_len);
            lemma_encode_len_bound(self.expires_at as nat);
        }
        let ghost ek = uvarint_encode(self.k_len as nat);
        let ghost ev = uvarint_encode(self.v_len as nat);
        let ghost ee = uvarint_encode(self.expires_at as nat);
        buf[0] = self.meta;
        buf[1] = self.user_meta;
        let mut index: usize = 2;
        let n1 = binary_put_uvariant_at(buf, index, self.k_len as u64);
        index = index + n1;
        let n2 = binary_put_uvariant_at(buf, index, self.v_len as u64);
        index = index + n2;
        let n3 = binary_put_uvariant_at(buf, index, self.expires_at);
        index = index + n3;
        proof {
            assert(buf@ =~= header_encoding(self@) + old(buf)@.skip(index as int));
        }
        index
    }

    /// Decodes a header from the front of `data`; returns the number of
    /// bytes read and the header.
    pub fn decode(data: &[u8]) -> (r: (usize, Self))
        requires
            data@.len() >= 2,
        ensures
            r.0 as nat == header_decoding(data@).0,
            r.1@ == header_decoding(data@).1,
    {
        let mut index: usize = 2;
        let (k_len, ctr) = uvarint_from(data, index);
        index = index + ctr;
        let (v_len, ctr) = uvarint_from(data, index);
        index = index + ctr;
        let (expires_at, ctr) = uvarint_from(data, index);
        (
            index + ctr,
            Self {
                k_len: #[verifier::truncate] (k_len as u32),
                v_len: #[verifier::truncate] (v_len as u32),
                expires_at,
                meta: data[0],
                user_meta: data[1],
            },
        )
    }

    /// Updates the header from the bytes at the front of `data`; returns the
    /// number of bytes read.
    pub fn update(&mut self, data: &[u8]) -> (n: usize)
        requires
            data@.len() >= 2,
        ensures
            n as nat == header_decoding(data@).0,
            final(self)@ == header_decoding(data@).1,
    {
        let (n, h) = Self::decode(data);
        *self = h;
        n
    }

    /// Get the value length
    pub fn get_value_len(&self) -> (r: u32)
        ensures
            r == self@.v_len,
    {
        self.v_len
    }

    /// Set the value length
    pub fn set_value_len(self, vlen: u32) -> (r: Self)
        ensures
            r@ == (HeaderView { v_len: vlen, ..self@ }),
    {
        let mut h = self;
        h.v_len = vlen;
        h
    }

    /// Get the key length
    pub fn get_key_len(&self) -> (r: u32)
        ensures
            r == self@.k_len,
    {
        self.k_len
    }

    /// Set the key length
    pub fn set_key_len(self, klen: u32) -> (r: Self)
        ensures
            r@ == (HeaderView { k_len: klen, ..self@ }),
    {
        let mut h = self;
        h.k_len = klen;
        h
    }

    /// Get the meta
    pub fn get_meta(&self) -> (r: u8)
        ensures
            r == self@.meta,
    {
        self.meta
    }

    /// Set the meta
    pub fn set_meta(self, meta: u8) -> (r: Self)
        ensures
            r@ == (HeaderView { meta: meta, ..self@ }),
    {
        let mut h = self;
        h.meta = meta;
        h
    }

    /// Get the user meta
    pub fn get_user_meta(&self) -> (r: u8)
        ensures
            r == self@.user_meta,
    {
        self.user_meta
    }

    /// Set the user meta
    pub fn set_user_meta(self, user_meta: u8) -> (r: Self)
        ensures
            r@ == (HeaderView { user_meta: user_meta, ..self@ }),
    {
        let mut h = self;
        h.user_meta = user_meta;
        h
    }

    /// Get the expires_at
    pub fn get_expires_at(&self) -> (r: u64)
        ensures
            r == self@.expires_at,
    {
        self.expires_at
    }

    /// Set the expires_at
    pub fn set_expires_at(self, expires_at: u64) -> (r: Self)
        ensures
            r@ == (HeaderView { expires_at: expires_at, ..self@ }),
    {
        let mut h = self;
        h.expires_at = expires_at;
        h
    }
}

/// A 32-bit length takes at most five bytes.
pub proof fn lemma_u32_encode_len(x: u32)
    ensures
        1 <= uvarint_encode(x as nat).len() <= 5,
{
    lemma_encode_len_bound(x as nat);
    reveal_with_fuel(pow128, 6);
    lemma_u32_encode_len_rec(x as nat, 5);
}

proof fn lemma_u32_encode_len_rec(x: nat, k: nat)
    requires
        1 <= k,
        x < pow128(k),
    ensures
        uvarint_encode(x).len() <= k,
    decreases x,
{
    reveal_with_fuel(pow128, 2);
    if x >= 128 {
        if k == 1 {
            assert(false);
        } else {
            assert(x / 128 < pow128((k - 1) as nat)) by (nonlinear_arith)
                requires
                    x < 128 * pow128((k - 1) as nat),
            ;
            lemma_u32_encode_len_rec(x / 128, (k - 1) as nat);
        }
    }
}

/// Decoding an encoded header gives back the header and the length of its
/// encoding, whatever bytes follow it.
pub proof fn lemma_header_roundtrip(h: HeaderView, rest: Seq<u8>)
    ensures
        header_decoding(header_encoding(h) + rest) == (header_encoding(h).len(), h),
{
    let ek = uvarint_encode(h.k_len as nat);
    let ev = uvarint_encode(h.v_len as nat);
    let ee = uvarint_encode(h.expires_at as nat);
    let data = header_encoding(h) + rest;
    assert(data.skip(2) =~= ek + (ev + ee + rest));
    lemma_uvarint_roundtrip(h.k_len as u64, ev + ee + rest);
    assert(data.skip((2 + ek.len()) as int) =~= ev + (ee + rest));
    lemma_uvarint_roundtrip(h.v_len as u64, ee + rest);
    assert(data.skip((2 + ek.len() + ev.len()) as int) =~= ee + rest);
    lemma_uvarint_roundtrip(h.expires_at, rest);
    assert(h.k_len as nat as u32 == h.k_len);
    assert(h.v_len as nat as u32 == h.v_len);
}

} // verus!
