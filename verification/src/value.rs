//! Values of the store and their encoding:
//! `meta | user_meta | uvarint(expires_at) | data`. The version is kept
//! beside the value and never encoded.
use vstd::prelude::*;
use vstd::slice::slice_subrange;
use crate::varint::{
    binary_put_uvariant_to_vec, binary_uvarint, lemma_decode_len, lemma_encode_len_bound,
    lemma_uvarint_roundtrip, size_variant, uvarint_decode, uvarint_encode,
};
use crate::header::uvarint_or_zero;

verus! {

/// Offset of the meta byte in an encoded value.
pub const META_OFFSET: usize = 0;

/// Offset of the user meta byte in an encoded value.
pub const USER_META_OFFSET: usize = 1;

/// Offset of the expiry uvarint in an encoded value.
pub const EXPIRATION_OFFSET: usize = 2;

/// Max size of the value information: meta, user meta and a u64 expiry.
pub const MAX_VALUE_INFO_SIZE: usize = 10;

/// The fields of a value, as plain values.
pub struct ValueView {
    pub meta: u8,
    pub user_meta: u8,
    pub expires_at: u64,
    pub version: u64,
    pub data: Seq<u8>,
}

/// The encoding of a value: `meta | user_meta | uvarint(expires_at) | data`.
pub open spec fn value_encoding(v: ValueView) -> Seq<u8> {
    seq![v.meta, v.user_meta] + uvarint_encode(v.expires_at as nat) + v.data
}

/// What decoding reads from `src`: the meta bytes, the expiry (zero, and no
/// byte consumed, when the uvarint is missing or malformed), the rest as
/// data, and version zero.
pub open spec fn value_decoding(src: Seq<u8>) -> ValueView {
    let (e, n) = uvarint_or_zero(src.skip(2));
    ValueView {
        meta: src[0],
        user_meta: src[1],
        expires_at: e as u64,
        version: 0,
        data: src.skip((2 + n) as int),
    }
}

/// The size of the encoding: data, two meta bytes and the expiry uvarint,
/// truncated to 32 bits.
pub open spec fn encoded_size_of(v: ValueView) -> u32 {
    ((v.data.len() + 2 + uvarint_encode(v.expires_at as nat).len()) % 0x1_0000_0000) as u32
}

/// EncodedValue holds an encoded value and the size of its expiry field.
pub struct EncodedValue {
    pub(crate) data: Vec<u8>,
    pub(crate) expires_sz: u8,
}

impl View for EncodedValue {
    type V = (Seq<u8>, u8);

    closed spec fn view(&self) -> (Seq<u8>, u8) {
        (self.data@, self.expires_sz)
    }
}

impl EncodedValue {
    /// The encoded bytes.
    pub fn as_slice(&self) -> (r: &[u8])
        ensures
            r@ == self@.0,
    {
        self.data.as_slice()
    }

    /// The number of bytes of the expiry field.
    pub fn expires_size(&self) -> (r: u8)
        ensures
            r == self@.1,
    {
        self.expires_sz
    }
}

/// Extensions for values: anything that has meta bytes, an expiry and data.
pub trait ValueExt {
    /// The fields of the value.
    spec fn value_view(&self) -> ValueView;

    /// Returns the value data.
    fn parse_value(&self) -> (r: &[u8])
        ensures
            r@ == self.value_view().data,
    ;

    /// Get the meta of the value.
    fn get_meta(&self) -> (r: u8)
        ensures
            r == self.value_view().meta,
    ;

    /// Get the user meta.
    fn get_user_meta(&self) -> (r: u8)
        ensures
            r == self.value_view().user_meta,
    ;

    /// Returns the expiration time (unix timestamp) for this value.
    fn get_expires_at(&self) -> (r: u64)
        ensures
            r == self.value_view().expires_at,
    ;

    /// Returns the size of the value when encoded.
    fn encoded_size(&self) -> (r: u32)
        ensures
            r == encoded_size_of(self.value_view()),
    {
        let sz = self.parse_value().len();
        let enc = size_variant(self.get_expires_at());
        proof {
            lemma_encode_len_bound(self.value_view().expires_at as nat);
            vstd::arithmetic::div_mod::lemma_add_mod_noop(sz as int, 2 + enc, 0x1_0000_0000);
            vstd::arithmetic::div_mod::lemma_small_mod((2 + enc) as nat, 0x1_0000_0000);
        }
        let low: u64 = (sz as u64) % 0x1_0000_0000;
        ((low + 2 + enc as u64) % 0x1_0000_0000) as u32
    }

    /// Encodes into a new vector.
    fn encode_to_vec(&self) -> (r: Vec<u8>)
        ensures
            r@ == value_encoding(self.value_view()),
    {
        let mut buf: Vec<u8> = Vec::new();
        buf.push(self.get_meta());
        buf.push(self.get_user_meta());
        binary_put_uvariant_to_vec(&mut buf, self.get_expires_at());
        let mut data = vstd::slice::slice_to_vec(self.parse_value());
        buf.append(&mut data);
        proof {
            assert(buf@ =~= value_encoding(self.value_view()));
        }
        buf
    }

    /// Encodes into the front of `buf`; the bytes of `buf` after the
    /// encoding stay.
    fn encode(&self, buf: &mut [u8])
        requires
            value_encoding(self.value_view()).len() <= old(buf)@.len(),
        ensures
            final(buf)@ == value_encoding(self.value_view()) + old(buf)@.skip(
                value_encoding(self.value_view()).len() as int,
            ),
    {
        let enc = self.encode_to_vec();
        let mut i: usize = 0;
        while i < enc.len()
            invariant
                enc@ == value_encoding(self.value_view()),
                enc@.len() <= buf@.len(),
                buf@.len() == old(buf)@.len(),
                i <= enc@.len(),
                buf@ =~= enc@.take(i as int) + old(buf)@.skip(i as int),
            decreases enc@.len() - i,
        {
            assert(buf@.len() == buf.len());
            buf[i] = enc[i];
            i = i + 1;
            proof {
                assert(buf@ =~= enc@.take(i as int) + old(buf)@.skip(i as int));
            }
        }
        proof {
            assert(enc@.take(i as int) =~= enc@);
        }
    }

    /// Encodes to an [`EncodedValue`].
    fn to_encoded(&self) -> (r: EncodedValue)
        ensures
            r@.0 == value_encoding(self.value_view()),
            r@.1 == uvarint_encode(self.value_view().expires_at as nat).len(),
    {
        let data = self.encode_to_vec();
        let sz = size_variant(self.get_expires_at());
        EncodedValue { data, expires_sz: sz as u8 }
    }
}

/// Value represents the value info that can be associated with a key, but
/// also the internal meta field.
#[derive(Debug)]
pub struct Value {
    pub(crate) meta: u8,
    pub(crate) user_meta: u8,
    pub(crate) expires_at: u64,
    pub(crate) version: u64,
    pub(crate) value: Vec<u8>,
}

impl View for Value {
    type V = ValueView;

    closed spec fn view(&self) -> ValueView {
        ValueView {
            meta: self.meta,
            user_meta: self.user_meta,
            expires_at: self.expires_at,
            version: self.version,
            data: self.value@,
        }
    }
}

impl Clone for Value {
    fn clone(&self) -> (r: Self)
        ensures
            r@ == self@,
    {
        Value {
            meta: self.meta,
            user_meta: self.user_meta,
            expires_at: self.expires_at,
            version: self.version,
            value: self.value.clone(),
        }
    }
}

impl Default for Value {
    fn default() -> (r: Self)
        ensures
            r@ == (ValueView { meta: 0, user_meta: 0, expires_at: 0, version: 0, data: Seq::empty() }),
    {
        Self::new()
    }
}

impl From<Vec<u8>> for Value {
    fn from(val: Vec<u8>) -> (r: Self) {
        Value { meta: 0, user_meta: 0, expires_at: 0, version: 0, value: val }
    }
}

impl vstd::std_specs::convert::FromSpecImpl<Vec<u8>> for Value {
    open spec fn obeys_from_spec() -> bool {
        true
    }

    closed spec fn from_spec(v: Vec<u8>) -> Value {
        Value { meta: 0, user_meta: 0, expires_at: 0, version: 0, value: v }
    }
}

impl ValueExt for Value {
    open spec fn value_view(&self) -> ValueView {
        self@
    }

    fn parse_value(&self) -> (r: &[u8]) {
        self.value.as_slice()
    }

    fn get_meta(&self) -> (r: u8) {
        self.meta
    }

    fn get_user_meta(&self) -> (r: u8) {
        self.user_meta
    }

    fn get_expires_at(&self) -> (r: u64) {
        self.expires_at
    }
}

fn decode_parts(src: &[u8]) -> (r: (u8, u8, u64, &[u8]))
    requires
        src@.len() >= 2,
    ensures
        r.0 == value_decoding(src@).meta,
        r.1 == value_decoding(src@).user_meta,
        r.2 == value_decoding(src@).expires_at,
        r.3@ == value_decoding(src@).data,
{
    let tail = slice_subrange(src, EXPIRATION_OFFSET, src.len());
    proof {
        assert(tail@ =~= src@.skip(2));
        lemma_decode_len(tail@, 0);
    }
    let (expires_at, sz) = binary_uvarint(tail);
    let val = slice_subrange(src, EXPIRATION_OFFSET + sz, src.len());
    proof {
        assert(val@ =~= value_decoding(src@).data);
    }
    (src[META_OFFSET], src[USER_META_OFFSET], expires_at, val)
}

impl Value {
    /// Returns an empty value.
    pub fn new() -> (r: Self)
        ensures
            r@ == (ValueView { meta: 0, user_meta: 0, expires_at: 0, version: 0, data: Seq::empty() }),
    {
        Value { meta: 0, user_meta: 0, expires_at: 0, version: 0, value: Vec::new() }
    }

    /// Returns a value with the given meta, user meta, expires_at, version and data.
    pub fn with_all_fields(meta: u8, user_meta: u8, expires_at: u64, version: u64, data: Vec<u8>) -> (r: Self)
        ensures
            r@ == (ValueView { meta, user_meta, expires_at, version, data: data@ }),
    {
        Value { meta, user_meta, expires_at, version, value: data }
    }

    /// Decodes a value from its encoding; the version is zero.
    pub fn decode_bytes(src: Vec<u8>) -> (r: Self)
        requires
            src@.len() >= 2,
        ensures
            r@ == value_decoding(src@),
    {
        Self::decode_value(src.as_slice())
    }

    /// Decodes a value from its encoding, copying the data; the version is
    /// zero.
    pub fn decode_value(src: &[u8]) -> (r: Self)
        requires
            src@.len() >= 2,
        ensures
            r@ == value_decoding(src@),
    {
        let (meta, user_meta, expires_at, val) = decode_parts(src);
        Value { meta, user_meta, expires_at, version: 0, value: vstd::slice::slice_to_vec(val) }
    }

    /// Set the meta for the value
    pub fn set_meta(self, meta: u8) -> (r: Self)
        ensures
            r@ == (ValueView { meta, ..self@ }),
    {
        let mut v = self;
        v.meta = meta;
        v
    }

    /// Set the user meta for the value
    pub fn set_user_meta(self, user_meta: u8) -> (r: Self)
        ensures
            r@ == (ValueView { user_meta, ..self@ }),
    {
        let mut v = self;
        v.user_meta = user_meta;
        v
    }

    /// Set the expires_at for the value
    pub fn set_expires_at(self, expires_at: u64) -> (r: Self)
        ensures
            r@ == (ValueView { expires_at, ..self@ }),
    {
        let mut v = self;
        v.expires_at = expires_at;
        v
    }

    /// Set the version for the value
    pub fn set_version(self, version: u64) -> (r: Self)
        ensures
            r@ == (ValueView { version, ..self@ }),
    {
        let mut v = self;
        v.version = version;
        v
    }

    /// Set the data for the value
    pub fn set_data(self, value: Vec<u8>) -> (r: Self)
        ensures
            r@ == (ValueView { data: value@, ..self@ }),
    {
        let mut v = self;
        v.value = value;
        v
    }

    /// Returns the version for this value
    pub fn get_version(&self) -> (r: u64)
        ensures
            r == self@.version,
    {
        self.version
    }

    /// Returns the number of bytes contained in the value data.
    pub fn len(&self) -> (r: usize)
        ensures
            r == self@.data.len(),
    {
        self.value.len()
    }

    /// Returns true if the value data has a length of 0.
    pub fn is_empty(&self) -> (r: bool)
        ensures
            r == (self@.data.len() == 0),
    {
        self.value.len() == 0
    }

    /// Sets the meta in place.
    pub(crate) fn put_meta(&mut self, meta: u8)
        ensures
            final(self)@ == (ValueView { meta, ..old(self)@ }),
    {
        self.meta = meta;
    }

    /// Sets the expiry in place.
    pub(crate) fn put_expires_at(&mut self, expires_at: u64)
        ensures
            final(self)@ == (ValueView { expires_at, ..old(self)@ }),
    {
        self.expires_at = expires_at;
    }
}

/// ValueRef holds the fields of a value with borrowed data.
#[derive(Debug, Copy, Clone)]
pub struct ValueRef<'a> {
    pub(crate) meta: u8,
    pub(crate) user_meta: u8,
    pub(crate) expires_at: u64,
    pub(crate) version: u64,
    pub(crate) val: &'a [u8],
}

impl<'a> View for ValueRef<'a> {
    type V = ValueView;

    closed spec fn view(&self) -> ValueView {
        ValueView {
            meta: self.meta,
            user_meta: self.user_meta,
            expires_at: self.expires_at,
            version: self.version,
            data: self.val@,
        }
    }
}

impl<'a> ValueExt for ValueRef<'a> {
    open spec fn value_view(&self) -> ValueView {
        self@
    }

    fn parse_value(&self) -> (r: &[u8]) {
        self.val
    }

    fn get_meta(&self) -> (r: u8) {
        self.meta
    }

    fn get_user_meta(&self) -> (r: u8) {
        self.user_meta
    }

    fn get_expires_at(&self) -> (r: u64) {
        self.expires_at
    }
}

/// The characters that decoding `bytes` as UTF-8 gives, each invalid
/// sequence replaced by U+FFFD.
pub uninterp spec fn utf8_lossy(bytes: Seq<u8>) -> Seq<char>;

/// Calls `String::from_utf8_lossy` and takes the result as a `String`. The
/// contract claims only that the result is a function of the bytes, named
/// [`utf8_lossy`].
#[verifier::external_body]
fn string_from_utf8_lossy(bytes: &[u8]) -> (r: String)
    ensures
        r@ == utf8_lossy(bytes@),
{
    String::from_utf8_lossy(bytes).to_string()
}

impl<'a> ValueRef<'a> {
    /// Returns a ValueRef of the given fields and data.
    pub fn new(meta: u8, user_meta: u8, expires_at: u64, version: u64, data: &'a [u8]) -> (r: Self)
        ensures
            r@ == (ValueView { meta, user_meta, expires_at, version, data: data@ }),
    {
        ValueRef { meta, user_meta, expires_at, version, val: data }
    }

    /// Decodes a value ref from its encoding, borrowing the data; the
    /// version is zero.
    pub fn decode_value_ref(src: &'a [u8]) -> (r: Self)
        requires
            src@.len() >= 2,
        ensures
            r@ == value_decoding(src@),
    {
        let (meta, user_meta, expires_at, val) = decode_parts(src);
        ValueRef { meta, user_meta, expires_at, version: 0, val }
    }

    /// Converts the data to a string, replacing invalid characters.
    pub fn to_string(&self) -> (r: String)
        ensures
            r@ == utf8_lossy(self@.data),
    {
        string_from_utf8_lossy(self.val)
    }

    /// Converts the data to a string, replacing invalid characters.
    pub fn to_lossy_string(&self) -> (r: String)
        ensures
            r@ == utf8_lossy(self@.data),
    {
        string_from_utf8_lossy(self.val)
    }

    /// Copies the data to a new value.
    pub fn to_value(&self) -> (r: Value)
        ensures
            r@ == self@,
    {
        Value {
            meta: self.meta,
            user_meta: self.user_meta,
            expires_at: self.expires_at,
            version: self.version,
            value: vstd::slice::slice_to_vec(self.val),
        }
    }

    /// Get the value version.
    pub fn get_version(&self) -> (r: u64)
        ensures
            r == self@.version,
    {
        self.version
    }

    /// Set the value version for this value ref.
    pub fn set_version(&mut self, version: u64)
        ensures
            final(self)@ == (ValueView { version, ..old(self)@ }),
    {
        self.version = version
    }
}

/// Decoding the encoding of a value gives back its meta bytes, expiry and
/// data; the version, which is not encoded, comes back as zero.
pub proof fn lemma_value_roundtrip(v: ValueView)
    ensures
        value_decoding(value_encoding(v)) == (ValueView { version: 0, ..v }),
{
    let e = uvarint_encode(v.expires_at as nat);
    let s = value_encoding(v);
    assert(s.skip(2) =~= e + v.data);
    lemma_uvarint_roundtrip(v.expires_at, v.data);
    assert(uvarint_decode(e + v.data) == Some((v.expires_at as nat, e.len())));
    assert(s.skip((2 + e.len()) as int) =~= v.data);
}

/// A value whose fields and data can be changed in place.
#[derive(Debug, Clone, Default)]
pub struct ValueMut {
    pub(crate) meta: u8,
    pub(crate) user_meta: u8,
    pub(crate) expires_at: u64,
    pub(crate) version: u64,
    pub(crate) value: Vec<u8>,
}

impl View for ValueMut {
    type V = ValueView;

    closed spec fn view(&self) -> ValueView {
        ValueView {
            meta: self.meta,
            user_meta: self.user_meta,
            expires_at: self.expires_at,
            version: self.version,
            data: self.value@,
        }
    }
}

impl ValueExt for ValueMut {
    open spec fn value_view(&self) -> ValueView {
        self@
    }

    fn parse_value(&self) -> (r: &[u8]) {
        self.value.as_slice()
    }

    fn get_meta(&self) -> (r: u8) {
        self.meta
    }

    fn get_user_meta(&self) -> (r: u8) {
        self.user_meta
    }

    fn get_expires_at(&self) -> (r: u64) {
        self.expires_at
    }
}

impl ValueMut {
    /// A changeable value of the given fields.
    pub fn with_all_fields(meta: u8, user_meta: u8, expires_at: u64, version: u64, data: Vec<u8>) -> (r: Self)
        ensures
            r@ == (ValueView { meta, user_meta, expires_at, version, data: data@ }),
    {
        ValueMut { meta, user_meta, expires_at, version, value: data }
    }

    /// The value, no longer to be changed.
    pub fn freeze(self) -> (r: Value)
        ensures
            r@ == self@,
    {
        Value {
            meta: self.meta,
            user_meta: self.user_meta,
            expires_at: self.expires_at,
            version: self.version,
            value: self.value,
        }
    }
}

/// Changing a value in place.
pub trait ValueMutExt {
    /// The fields of the value.
    spec fn value_mut_view(&self) -> ValueView;

    /// The data, to change in place.
    fn parse_value_mut(&mut self) -> (r: &mut [u8])
        ensures
            r@ == old(self).value_mut_view().data,
            final(self).value_mut_view() == (ValueView { data: final(r)@, ..old(self).value_mut_view() }),
    ;

    /// Sets the meta byte.
    fn set_meta(&mut self, meta: u8)
        ensures
            final(self).value_mut_view() == (ValueView { meta, ..old(self).value_mut_view() }),
    ;

    /// Sets the user meta byte.
    fn set_user_meta(&mut self, user_meta: u8)
        ensures
            final(self).value_mut_view() == (ValueView { user_meta, ..old(self).value_mut_view() }),
    ;

    /// Sets the expiry (a unix timestamp).
    fn set_expires_at(&mut self, expires_at: u64)
        ensures
            final(self).value_mut_view() == (ValueView { expires_at, ..old(self).value_mut_view() }),
    ;
}

impl ValueMutExt for ValueMut {
    open spec fn value_mut_view(&self) -> ValueView {
        self@
    }

    fn parse_value_mut(&mut self) -> (r: &mut [u8]) {
        self.value.as_mut_slice()
    }

    fn set_meta(&mut self, meta: u8) {
        self.meta = meta
    }

    fn set_user_meta(&mut self, user_meta: u8) {
        self.user_meta = user_meta
    }

    fn set_expires_at(&mut self, expires_at: u64) {
        self.expires_at = expires_at
    }
}

} // verus!
