//! Keys of the store: user key bytes followed by an 8-byte version
//! timestamp. The timestamp is stored as `u64::MAX - ts` in big-endian so
//! that, for one user key, newer versions sort first.
use vstd::prelude::*;
use vstd::slice::slice_subrange;
use core::cmp::Ordering;
use crate::bytes::{
    be_bytes, be_value, bytes_equal, lemma_be_bytes_len, lemma_be_order, lemma_be_roundtrip,
    lemma_lex_antisym, lemma_lex_trans, lemma_pow256_8, lex_sign, lex_sign_exec, num_sign, ordering_of,
    u64_big_endian, u64_to_be_bytes,
};

verus! {

/// Size of the version timestamp at the end of a key.
pub const TIMESTAMP_SIZE: usize = 8;

/// The user-key part of key bytes: all but the last eight bytes, or the
/// whole key when it is shorter than eight bytes.
pub open spec fn key_part(s: Seq<u8>) -> Seq<u8> {
    if s.len() >= 8 {
        s.take(s.len() - 8)
    } else {
        s
    }
}

/// The version timestamp of key bytes: `u64::MAX` minus the big-endian
/// value of the last eight bytes (zero for fewer bytes, which hold none).
pub open spec fn timestamp_of(s: Seq<u8>) -> nat {
    if s.len() < 8 {
        0
    } else {
        (u64::MAX - be_value(s.skip(s.len() - 8))) as nat
    }
}

/// Key bytes followed by the version timestamp `ts`.
pub open spec fn with_ts(s: Seq<u8>, ts: u64) -> Seq<u8> {
    s + be_bytes((u64::MAX - ts) as nat, 8)
}

/// Where comparison splits key bytes: eight bytes before the end, or at the
/// start when the key is shorter.
pub open spec fn ts_split(s: Seq<u8>) -> int {
    if s.len() >= 8 {
        s.len() - 8
    } else {
        0
    }
}

/// The order of two keys as a sign: the parts before the split compare
/// first, the parts after it break ties.
pub open spec fn key_sign(a: Seq<u8>, b: Seq<u8>) -> int {
    let ka = a.take(ts_split(a));
    let kb = b.take(ts_split(b));
    if lex_sign(ka, kb) != 0 {
        lex_sign(ka, kb)
    } else {
        lex_sign(a.skip(ts_split(a)), b.skip(ts_split(b)))
    }
}

/// Key equality ignoring the version timestamp: same length and same
/// user-key part.
pub open spec fn same_key_spec(a: Seq<u8>, b: Seq<u8>) -> bool {
    a.len() == b.len() && key_part(a) == key_part(b)
}

/// The order of keys is transitive, strictly when one step is strict.
pub proof fn lemma_key_sign_trans(a: Seq<u8>, b: Seq<u8>, c: Seq<u8>)
    requires
        key_sign(a, b) <= 0,
        key_sign(b, c) <= 0,
    ensures
        key_sign(a, c) <= 0,
        (key_sign(a, b) < 0 || key_sign(b, c) < 0) ==> key_sign(a, c) < 0,
{
    let ka = a.take(ts_split(a));
    let kb = b.take(ts_split(b));
    let kc = c.take(ts_split(c));
    let ta = a.skip(ts_split(a));
    let tb = b.skip(ts_split(b));
    let tc = c.skip(ts_split(c));
    lemma_lex_antisym(ka, kb);
    lemma_lex_antisym(kb, kc);
    lemma_lex_antisym(ka, kc);
    lemma_lex_antisym(ta, tb);
    lemma_lex_antisym(tb, tc);
    if lex_sign(ka, kb) <= 0 && lex_sign(kb, kc) <= 0 {
        lemma_lex_trans(ka, kb, kc);
    }
    if ka == kb && kb == kc {
        lemma_lex_trans(ta, tb, tc);
    }
}

fn split_for_compare(s: &[u8]) -> (r: (&[u8], &[u8]))
    ensures
        r.0@ == s@.take(ts_split(s@)),
        r.1@ == s@.skip(ts_split(s@)),
{
    let sb = s.len().saturating_sub(TIMESTAMP_SIZE);
    let a = slice_subrange(s, 0, sb);
    let b = slice_subrange(s, sb, s.len());
    proof {
        assert(a@ =~= s@.take(ts_split(s@)));
        assert(b@ =~= s@.skip(ts_split(s@)));
    }
    (a, b)
}

pub(crate) fn key_sign_exec(me: &[u8], other: &[u8]) -> (r: i8)
    ensures
        r as int == key_sign(me@, other@),
{
    let (mk, mt) = split_for_compare(me);
    let (ok, ot) = split_for_compare(other);
    let s = lex_sign_exec(mk, ok);
    if s != 0 {
        s
    } else {
        lex_sign_exec(mt, ot)
    }
}

/// Compares two keys: the user keys first, the version timestamps on a tie.
/// For one user key a newer version sorts first.
pub(crate) fn compare_key_in(me: &[u8], other: &[u8]) -> (r: Ordering)
    ensures
        r == ordering_of(key_sign(me@, other@)),
{
    let s = key_sign_exec(me, other);
    if s < 0 {
        Ordering::Less
    } else if s > 0 {
        Ordering::Greater
    } else {
        Ordering::Equal
    }
}

fn key_part_of(s: &[u8]) -> (r: &[u8])
    ensures
        r@ == key_part(s@),
{
    if s.len() >= TIMESTAMP_SIZE {
        let r = slice_subrange(s, 0, s.len() - TIMESTAMP_SIZE);
        proof {
            assert(r@ =~= key_part(s@));
        }
        r
    } else {
        s
    }
}

/// Checks for key equality ignoring the version timestamp.
pub(crate) fn same_key_in(me: &[u8], other: &[u8]) -> (r: bool)
    ensures
        r == same_key_spec(me@, other@),
{
    if me.len() != other.len() {
        false
    } else {
        bytes_equal(key_part_of(me), key_part_of(other))
    }
}

fn timestamp_in(data: &[u8]) -> (r: u64)
    requires
        data@.len() >= 8,
    ensures
        r as nat == timestamp_of(data@),
{
    let data_len = data.len();
    let tail = slice_subrange(data, data_len - TIMESTAMP_SIZE, data_len);
    proof {
        assert(tail@ =~= data@.skip(data@.len() - 8));
    }
    let v = u64_big_endian(tail);
    u64::MAX - v
}

/// Extensions for keys: anything that can hand out its key bytes.
pub trait KeyExt {
    /// The key bytes (with timestamp data).
    spec fn key_view(&self) -> Seq<u8>;

    /// Returns the underlying slice of key (with timestamp data).
    fn as_bytes(&self) -> (r: &[u8])
        ensures
            r@ == self.key_view(),
    ;

    /// Returns a KeyRef.
    fn as_key_ref(&self) -> (r: KeyRef<'_>)
        ensures
            r@ == self.key_view(),
    {
        KeyRef::new(self.as_bytes())
    }

    /// Parses the actual key from the key bytes.
    fn parse_key(&self) -> (r: &[u8])
        ensures
            r@ == key_part(self.key_view()),
    {
        key_part_of(self.as_bytes())
    }

    /// Parses the timestamp from the last eight key bytes; a key has at
    /// least eight.
    fn parse_timestamp(&self) -> (r: u64)
        requires
            self.key_view().len() >= 8,
        ensures
            r as nat == timestamp_of(self.key_view()),
    {
        timestamp_in(self.as_bytes())
    }

    /// Checks for key equality ignoring the version timestamp.
    fn same_key(&self, other: &[u8]) -> (r: bool)
        ensures
            r == same_key_spec(self.key_view(), other@),
    {
        same_key_in(self.as_bytes(), other)
    }

    /// Checks the key without timestamp and checks the timestamp if the keys
    /// without timestamp are the same.
    fn compare_key(&self, other: &[u8]) -> (r: Ordering)
        ensures
            r == ordering_of(key_sign(self.key_view(), other@)),
    {
        compare_key_in(self.as_bytes(), other)
    }
}

/// Checks the key without timestamp and checks the timestamp if the keys
/// without timestamp are the same. For one user key a newer version sorts
/// first.
pub fn compare_key<A: KeyExt, B: KeyExt>(a: A, b: B) -> (r: Ordering)
    ensures
        r == ordering_of(key_sign(a.key_view(), b.key_view())),
{
    compare_key_in(a.as_bytes(), b.as_bytes())
}

/// Checks for key equality ignoring the version timestamp.
pub fn same_key<A: KeyExt, B: KeyExt>(a: A, b: B) -> (r: bool)
    ensures
        r == same_key_spec(a.key_view(), b.key_view()),
{
    same_key_in(a.as_bytes(), b.as_bytes())
}

/// A general Key for key-value storage: the key bytes followed by the
/// version timestamp.
#[derive(Debug)]
pub struct Key {
    data: Vec<u8>,
}

impl View for Key {
    type V = Seq<u8>;

    closed spec fn view(&self) -> Seq<u8> {
        self.data@
    }
}

impl Clone for Key {
    fn clone(&self) -> (r: Self)
        ensures
            r@ == self@,
    {
        Key { data: self.data.clone() }
    }
}

impl Default for Key {
    fn default() -> (r: Self)
        ensures
            r@ == Seq::<u8>::empty(),
    {
        Self::new()
    }
}

impl PartialEq for Key {
    fn eq(&self, other: &Self) -> (r: bool) {
        same_key_in(self.data.as_slice(), other.data.as_slice())
    }
}

impl vstd::std_specs::cmp::PartialEqSpecImpl for Key {
    open spec fn obeys_eq_spec() -> bool {
        true
    }

    open spec fn eq_spec(&self, other: &Key) -> bool {
        same_key_spec(self@, other@)
    }
}

impl From<Vec<u8>> for Key {
    fn from(data: Vec<u8>) -> (r: Self)
        ensures
            r@ == data@,
    {
        Key { data }
    }
}

impl vstd::std_specs::convert::FromSpecImpl<Vec<u8>> for Key {
    open spec fn obeys_from_spec() -> bool {
        true
    }

    closed spec fn from_spec(v: Vec<u8>) -> Key {
        Key { data: v }
    }
}

impl KeyExt for Key {
    open spec fn key_view(&self) -> Seq<u8> {
        self@
    }

    fn as_bytes(&self) -> (r: &[u8]) {
        self.data.as_slice()
    }
}

impl Key {
    /// Returns an empty key.
    pub fn new() -> (r: Self)
        ensures
            r@ == Seq::<u8>::empty(),
    {
        Key { data: Vec::new() }
    }

    /// Returns a key of the given bytes.
    pub fn from_vec(data: Vec<u8>) -> (r: Self)
        ensures
            r@ == data@,
    {
        Key { data }
    }

    /// Returns a Key with data and timestamp.
    pub fn from_with_timestamp(data: Vec<u8>, ts: u64) -> (r: Self)
        ensures
            r@ == with_ts(data@, ts),
    {
        Self::from_vec(data).with_timestamp(ts)
    }

    /// Returns a Key by copying the slice data.
    pub fn copy_from_slice(data: &[u8]) -> (r: Self)
        ensures
            r@ == data@,
    {
        Key { data: vstd::slice::slice_to_vec(data) }
    }

    /// Generates a new key by appending timestamp to key.
    pub fn with_timestamp(self, ts: u64) -> (r: Self)
        ensures
            r@ == with_ts(self@, ts),
    {
        let mut data = self.data;
        let mut tsb = u64_to_be_bytes(u64::MAX - ts);
        data.append(&mut tsb);
        Key { data }
    }

    /// Generates a new key by appending `secs` in big-endian, as it is: the
    /// form used for UNIX system times.
    pub fn with_unix_secs(self, secs: u64) -> (r: Self)
        ensures
            r@ == self@ + be_bytes(secs as nat, 8),
    {
        let mut data = self.data;
        let mut tsb = u64_to_be_bytes(secs);
        data.append(&mut tsb);
        Key { data }
    }

    /// Returns a new Key without timestamp.
    pub fn parse_new_key(&self) -> (r: Self)
        ensures
            r@ == key_part(self@),
    {
        Self::copy_from_slice(key_part_of(self.data.as_slice()))
    }

    /// Returns the number of bytes contained in this Key.
    pub fn len(&self) -> (r: usize)
        ensures
            r == self@.len(),
    {
        self.data.len()
    }

    /// Returns true if the Key has a length of 0.
    pub fn is_empty(&self) -> (r: bool)
        ensures
            r == (self@.len() == 0),
    {
        self.data.len() == 0
    }

    /// Returns the underlying bytes
    pub fn as_slice(&self) -> (r: &[u8])
        ensures
            r@ == self@,
    {
        self.data.as_slice()
    }

    /// Removes the timestamp (if exists) from the key.
    pub fn truncate_timestamp(&mut self)
        ensures
            final(self)@ == key_part(old(self)@),
    {
        if self.data.len() >= TIMESTAMP_SIZE {
            let sz = self.data.len() - TIMESTAMP_SIZE;
            self.data.truncate(sz);
            proof {
                assert(self.data@ =~= key_part(old(self)@));
            }
        }
    }
}

/// KeyRef holds the borrowed bytes of a key.
#[derive(Debug, Copy, Clone)]
pub struct KeyRef<'a> {
    data: &'a [u8],
}

impl<'a> View for KeyRef<'a> {
    type V = Seq<u8>;

    closed spec fn view(&self) -> Seq<u8> {
        self.data@
    }
}

impl<'a> KeyExt for KeyRef<'a> {
    open spec fn key_view(&self) -> Seq<u8> {
        self@
    }

    fn as_bytes(&self) -> (r: &[u8]) {
        self.data
    }
}

impl<'a> KeyRef<'a> {
    /// Returns a KeyRef from byte slice
    pub fn new(data: &'a [u8]) -> (r: Self)
        ensures
            r@ == data@,
    {
        KeyRef { data }
    }

    /// Copy KeyRef to a new Key.
    pub fn to_key(&self) -> (r: Key)
        ensures
            r@ == self@,
    {
        Key::copy_from_slice(self.data)
    }

    /// Returns the number of bytes contained in this Key.
    pub fn len(&self) -> (r: usize)
        ensures
            r == self@.len(),
    {
        self.data.len()
    }

    /// Returns true if the Key has a length of 0.
    pub fn is_empty(&self) -> (r: bool)
        ensures
            r == (self@.len() == 0),
    {
        self.data.len() == 0
    }

    /// Returns the underlying bytes
    pub fn as_slice(&self) -> (r: &'a [u8])
        ensures
            r@ == self@,
    {
        self.data
    }
}

impl KeyExt for Vec<u8> {
    open spec fn key_view(&self) -> Seq<u8> {
        self@
    }

    fn as_bytes(&self) -> (r: &[u8]) {
        self.as_slice()
    }
}

impl<'a> KeyExt for &'a [u8] {
    open spec fn key_view(&self) -> Seq<u8> {
        (*self)@
    }

    fn as_bytes(&self) -> (r: &[u8]) {
        *self
    }
}

impl<'a, K: KeyExt> KeyExt for &'a K {
    open spec fn key_view(&self) -> Seq<u8> {
        (**self).key_view()
    }

    fn as_bytes(&self) -> (r: &[u8]) {
        (**self).as_bytes()
    }
}

/// A key with a version timestamp appended holds the key as its user-key
/// part, is eight bytes longer, and gives the timestamp back.
pub proof fn lemma_timestamp_roundtrip(k: Seq<u8>, ts: u64)
    ensures
        key_part(with_ts(k, ts)) == k,
        with_ts(k, ts).len() == k.len() + 8,
        timestamp_of(with_ts(k, ts)) == ts as nat,
{
    lemma_be_bytes_len((u64::MAX - ts) as nat, 8);
    let s = with_ts(k, ts);
    assert(s.take(s.len() - 8) =~= k);
    assert(s.skip(s.len() - 8) =~= be_bytes((u64::MAX - ts) as nat, 8));
    lemma_pow256_8();
    lemma_be_roundtrip((u64::MAX - ts) as nat, 8);
}

/// Two versions of one user key are the same key, and the newer version
/// (the larger timestamp) sorts first.
pub proof fn lemma_versions_order(k: Seq<u8>, t1: u64, t2: u64)
    ensures
        key_sign(with_ts(k, t1), with_ts(k, t2)) == num_sign(t2 as nat, t1 as nat),
        same_key_spec(with_ts(k, t1), with_ts(k, t2)),
{
    let a = with_ts(k, t1);
    let b = with_ts(k, t2);
    lemma_timestamp_roundtrip(k, t1);
    lemma_timestamp_roundtrip(k, t2);
    assert(a.take(ts_split(a)) =~= k);
    assert(b.take(ts_split(b)) =~= k);
    lemma_lex_antisym(k, k);
    assert(a.skip(ts_split(a)) =~= be_bytes((u64::MAX - t1) as nat, 8));
    assert(b.skip(ts_split(b)) =~= be_bytes((u64::MAX - t2) as nat, 8));
    lemma_pow256_8();
    lemma_be_order((u64::MAX - t1) as nat, (u64::MAX - t2) as nat, 8);
}

/// Two keys are the same key exactly when they have the same length and
/// agree on every byte before their last eight (the version timestamp):
/// a difference in any byte of the user key makes them different keys.
pub proof fn lemma_same_key_bytes(a: Seq<u8>, b: Seq<u8>)
    requires
        a.len() >= 8,
    ensures
        same_key_spec(a, b) <==> (a.len() == b.len() && forall|i: int| 0 <= i < a.len() - 8 ==> #[trigger] a[i] == b[i]),
{
    if a.len() == b.len() && (forall|i: int| 0 <= i < a.len() - 8 ==> #[trigger] a[i] == b[i]) {
        assert(key_part(a) =~= key_part(b));
    }
    if same_key_spec(a, b) {
        assert forall|i: int| 0 <= i < a.len() - 8 implies #[trigger] a[i] == b[i] by {
            assert(key_part(a)[i] == a[i]);
            assert(key_part(b)[i] == b[i]);
        }
    }
}

/// Versions of two user keys are the same key exactly when the user keys
/// are equal, whatever the timestamps.
pub proof fn lemma_same_key_versions(k1: Seq<u8>, t1: u64, k2: Seq<u8>, t2: u64)
    ensures
        same_key_spec(with_ts(k1, t1), with_ts(k2, t2)) <==> k1 == k2,
{
    lemma_timestamp_roundtrip(k1, t1);
    lemma_timestamp_roundtrip(k2, t2);
}

/// The key order is antisymmetric, and it calls two keys equal exactly when
/// they hold the same bytes.
pub proof fn lemma_key_order_antisym(a: Seq<u8>, b: Seq<u8>)
    ensures
        key_sign(a, b) == -key_sign(b, a),
        key_sign(a, b) == 0 <==> a == b,
{
    let ka = a.take(ts_split(a));
    let kb = b.take(ts_split(b));
    lemma_lex_antisym(ka, kb);
    lemma_lex_antisym(a.skip(ts_split(a)), b.skip(ts_split(b)));
    if key_sign(a, b) == 0 {
        assert(a =~= ka + a.skip(ts_split(a)));
        assert(b =~= kb + b.skip(ts_split(b)));
    }
}

} // verus!
