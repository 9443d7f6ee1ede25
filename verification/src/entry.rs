//! Entries of the value log: a key, a value and the bookkeeping that the
//! log keeps for them; the borrowed form of an entry; write requests.
use vstd::prelude::*;
use crate::header::{Header, HeaderView, MAX_HEADER_SIZE};
use crate::key::{Key, KeyRef, KeyExt};
use crate::value::{EncodedValue, Value, ValueExt, ValueRef, ValueView, value_encoding};
use crate::value_pointer::ValuePointer;
use crate::varint::uvarint_encode;

verus! {

/// Meta bit: the entry has been deleted.
pub const BIT_DELETE: u8 = 1;

/// Meta bit: the value is a pointer into the value log.
pub const BIT_VALUE_POINTER: u8 = 2;

/// Meta bit: all earlier versions of the key may be discarded.
pub const BIT_DISCARD_EARLIER_VERSIONS: u8 = 4;

/// Meta bit: the entry is a merge entry.
pub const BIT_MERGE_ENTRY: u8 = 8;

/// `n` truncated to its low 32 bits.
pub open spec fn trunc32(n: nat) -> u32 {
    (n % 0x1_0000_0000) as u32
}

fn usize_trunc32(n: usize) -> (r: u32)
    ensures
        r == trunc32(n as nat),
{
    ((n as u64) % 0x1_0000_0000) as u32
}

/// The fields of an entry, as plain values.
pub struct EntryView {
    pub key: Seq<u8>,
    pub val: ValueView,
    pub offset: u32,
    pub h_len: usize,
    pub val_threshold: u64,
}

/// Entry provides Key, Value, UserMeta and ExpiresAt. This struct can be
/// used by the user to set data.
#[derive(Debug)]
pub struct Entry {
    key: Key,
    val: Value,
    offset: u32,
    h_len: usize,
    val_threshold: u64,
}

impl View for Entry {
    type V = EntryView;

    closed spec fn view(&self) -> EntryView {
        EntryView {
            key: self.key@,
            val: self.val@,
            offset: self.offset,
            h_len: self.h_len,
            val_threshold: self.val_threshold,
        }
    }
}

impl Clone for Entry {
    fn clone(&self) -> (r: Self)
        ensures
            r@ == self@,
    {
        Entry {
            key: self.key.clone(),
            val: self.val.clone(),
            offset: self.offset,
            h_len: self.h_len,
            val_threshold: self.val_threshold,
        }
    }
}

impl Default for Entry {
    fn default() -> (r: Self)
        ensures
            r@.key.len() == 0,
            r@.val == (ValueView { meta: 0, user_meta: 0, expires_at: 0, version: 0, data: Seq::empty() }),
            r@.offset == 0 && r@.h_len == 0 && r@.val_threshold == 0,
    {
        Self::new()
    }
}

/// The size that an entry is estimated to take in the LSM tree: key, value
/// and the two meta bytes when the value stays beside the key, or key, a
/// value pointer and the two meta bytes when it goes to the value log.
pub open spec fn estimated_entry_size(klen: nat, vlen: nat, threshold: u64) -> nat {
    if vlen < threshold {
        klen + vlen + 2
    } else {
        klen + 12 + 2
    }
}

impl Entry {
    /// Returns a new empty Entry.
    pub fn new() -> (r: Self)
        ensures
            r@.key.len() == 0,
            r@.val == (ValueView { meta: 0, user_meta: 0, expires_at: 0, version: 0, data: Seq::empty() }),
            r@.offset == 0 && r@.h_len == 0 && r@.val_threshold == 0,
    {
        Entry { key: Key::new(), val: Value::new(), offset: 0, h_len: 0, val_threshold: 0 }
    }

    /// Creates a new entry with key and value.
    pub fn new_from_kv(key: Key, val: Value) -> (r: Self)
        ensures
            r@ == (EntryView { key: key@, val: val@, offset: 0, h_len: 0, val_threshold: 0 }),
    {
        Entry { key, val, offset: 0, h_len: 0, val_threshold: 0 }
    }

    /// Get the key.
    pub fn get_key(&self) -> (r: &Key)
        ensures
            r@ == self@.key,
    {
        &self.key
    }

    /// Get the value.
    pub fn get_value(&self) -> (r: &Value)
        ensures
            r@ == self@.val,
    {
        &self.val
    }

    /// Get the length of the header.
    pub fn get_header_len(&self) -> (r: usize)
        ensures
            r == self@.h_len,
    {
        self.h_len
    }

    /// The header that describes this entry in the value log: the lengths
    /// (each truncated to 32 bits), the expiry and the meta bytes.
    pub fn get_header(&self) -> (r: Header)
        ensures
            r@ == (HeaderView {
                meta: self@.val.meta,
                user_meta: self@.val.user_meta,
                k_len: trunc32(self@.key.len()),
                v_len: trunc32(self@.val.data.len()),
                expires_at: self@.val.expires_at,
            }),
    {
        Header {
            k_len: usize_trunc32(self.key.len()),
            v_len: usize_trunc32(self.val.len()),
            expires_at: self.val.get_expires_at(),
            meta: self.val.get_meta(),
            user_meta: self.val.get_user_meta(),
        }
    }

    /// Get the value threshold.
    pub fn get_value_threshold(&self) -> (r: u64)
        ensures
            r == self@.val_threshold,
    {
        self.val_threshold
    }

    /// Set the length of the header.
    pub fn set_header_len(&mut self, hlen: usize)
        ensures
            final(self)@ == (EntryView { h_len: hlen, ..old(self)@ }),
    {
        self.h_len = hlen
    }

    /// Sets the meta byte of the value.
    pub fn set_meta(&mut self, meta: u8)
        ensures
            final(self)@ == (EntryView { val: ValueView { meta, ..old(self)@.val }, ..old(self)@ }),
    {
        self.val.put_meta(meta);
    }

    /// Sets the expiry of the value.
    pub fn set_ttl(&mut self, dur: u64)
        ensures
            final(self)@ == (EntryView {
                val: ValueView { expires_at: dur, ..old(self)@.val },
                ..old(self)@
            }),
    {
        self.val.put_expires_at(dur);
    }

    /// Set the offset.
    pub fn set_offset(&mut self, offset: u32)
        ensures
            final(self)@ == (EntryView { offset, ..old(self)@ }),
    {
        self.offset = offset;
    }

    /// Returns the offset.
    pub fn get_offset(&self) -> (r: u32)
        ensures
            r == self@.offset,
    {
        self.offset
    }

    /// Marks that all the previous versions of the key may be discarded:
    /// the meta byte becomes the discard bit alone.
    pub fn mark_discard(&mut self)
        ensures
            final(self)@ == (EntryView {
                val: ValueView { meta: BIT_DISCARD_EARLIER_VERSIONS, ..old(self)@.val },
                ..old(self)@
            }),
    {
        self.val.put_meta(BIT_DISCARD_EARLIER_VERSIONS);
    }

    /// Marks a merge entry: the meta byte becomes the merge bit alone.
    pub fn mark_merge(&mut self)
        ensures
            final(self)@ == (EntryView {
                val: ValueView { meta: BIT_MERGE_ENTRY, ..old(self)@.val },
                ..old(self)@
            }),
    {
        self.val.put_meta(BIT_MERGE_ENTRY);
    }

    /// Returns the length of key.
    pub fn key_len(&self) -> (r: usize)
        ensures
            r == self@.key.len(),
    {
        self.key.len()
    }

    /// Returns whether the key is empty.
    pub fn is_key_empty(&self) -> (r: bool)
        ensures
            r == (self@.key.len() == 0),
    {
        self.key.is_empty()
    }

    /// Returns the length of value.
    pub fn value_len(&self) -> (r: usize)
        ensures
            r == self@.val.data.len(),
    {
        self.val.len()
    }

    /// Returns whether the value is empty.
    pub fn is_value_empty(&self) -> (r: bool)
        ensures
            r == (self@.val.data.len() == 0),
    {
        self.val.is_empty()
    }

    /// Sets the value threshold if it is still zero, and estimates the size
    /// of the entry against it.
    pub fn estimate_size_and_set_threshold(&mut self, threshold: u64) -> (r: u64)
        requires
            old(self)@.key.len() + old(self)@.val.data.len() + 14 <= u64::MAX,
        ensures
            final(self)@ == (EntryView {
                val_threshold: if old(self)@.val_threshold == 0 {
                    threshold
                } else {
                    old(self)@.val_threshold
                },
                ..old(self)@
            }),
            r as nat == estimated_entry_size(
                old(self)@.key.len(),
                old(self)@.val.data.len(),
                final(self)@.val_threshold,
            ),
    {
        if self.val_threshold == 0 {
            self.val_threshold = threshold;
        }
        let klen = self.key.len() as u64;
        let vlen = self.val.len() as u64;
        if vlen < self.val_threshold {
            return klen + vlen + 2;
        }
        klen + 12 + 2
    }

    /// Sets the value threshold if it is still zero; returns whether the
    /// value stays beside the key (is shorter than the threshold).
    pub fn skip_vlog_and_set_threshold(&mut self, threshold: u64) -> (r: bool)
        ensures
            final(self)@ == (EntryView {
                val_threshold: if old(self)@.val_threshold == 0 {
                    threshold
                } else {
                    old(self)@.val_threshold
                },
                ..old(self)@
            }),
            r == (old(self)@.val.data.len() < final(self)@.val_threshold),
    {
        if self.val_threshold == 0 {
            self.val_threshold = threshold;
        }
        (self.val.len() as u64) < self.val_threshold
    }

    /// Gives up the entry for its key and value.
    pub fn leak_rawkv(self) -> (r: (Key, Value))
        ensures
            r.0@ == self@.key,
            r.1@ == self@.val,
    {
        (self.key, self.val)
    }

    /// Get the encoded value.
    pub fn encoded_value(&self) -> (r: EncodedValue)
        ensures
            r@.0 == value_encoding(self@.val),
            r@.1 == uvarint_encode(self@.val.expires_at as nat).len(),
    {
        self.val.to_encoded()
    }
}

/// An entry whose key and value are borrowed from elsewhere.
#[derive(Debug, Clone, Copy)]
pub struct RawEntryPointer<'a> {
    key: KeyRef<'a>,
    val: ValueRef<'a>,
    offset: u32,
    h_len: usize,
    val_threshold: u64,
}

impl<'a> View for RawEntryPointer<'a> {
    type V = EntryView;

    closed spec fn view(&self) -> EntryView {
        EntryView {
            key: self.key@,
            val: self.val@,
            offset: self.offset,
            h_len: self.h_len,
            val_threshold: self.val_threshold,
        }
    }
}

impl<'a> RawEntryPointer<'a> {
    /// Returns a new RawEntryPointer.
    pub fn new(key: KeyRef<'a>, val: ValueRef<'a>, offset: u32, h_len: usize, val_threshold: u64) -> (r: Self)
        ensures
            r@ == (EntryView { key: key@, val: val@, offset, h_len, val_threshold }),
    {
        RawEntryPointer { key, val, offset, h_len, val_threshold }
    }

    /// Get the KeyRef.
    pub fn key(&self) -> (r: KeyRef<'a>)
        ensures
            r@ == self@.key,
    {
        self.key
    }

    /// Get the ValueRef.
    pub fn value(&self) -> (r: ValueRef<'a>)
        ensures
            r@ == self@.val,
    {
        self.val
    }

    /// Get the offset of the entry.
    pub fn get_offset(&self) -> (r: u32)
        ensures
            r == self@.offset,
    {
        self.offset
    }

    /// Get the header length of the entry.
    pub fn get_header_len(&self) -> (r: usize)
        ensures
            r == self@.h_len,
    {
        self.h_len
    }

    /// Get the value threshold of the entry.
    pub fn get_value_threshold(&self) -> (r: u64)
        ensures
            r == self@.val_threshold,
    {
        self.val_threshold
    }

    /// Returns the length of key.
    pub fn key_len(&self) -> (r: usize)
        ensures
            r == self@.key.len(),
    {
        self.key.len()
    }

    /// Returns whether the key is empty.
    pub fn is_key_empty(&self) -> (r: bool)
        ensures
            r == (self@.key.len() == 0),
    {
        self.key.is_empty()
    }

    /// Returns the length of value.
    pub fn value_len(&self) -> (r: usize)
        ensures
            r == self@.val.data.len(),
    {
        self.val.parse_value().len()
    }

    /// Returns whether the value is empty.
    pub fn is_value_empty(&self) -> (r: bool)
        ensures
            r == (self@.val.data.len() == 0),
    {
        self.val.parse_value().len() == 0
    }

    /// Get the encoded value.
    pub fn encoded_value(&self) -> (r: EncodedValue)
        ensures
            r@.0 == value_encoding(self@.val),
            r@.1 == uvarint_encode(self@.val.expires_at as nat).len(),
    {
        self.val.to_encoded()
    }
}

/// The size that writing the entries takes, per entry: the largest header,
/// key, value and a 4-byte checksum.
pub open spec fn request_size(entries: Seq<EntryView>) -> nat
    decreases entries.len(),
{
    if entries.len() == 0 {
        0
    } else {
        request_size(entries.drop_last()) + (MAX_HEADER_SIZE + entries.last().key.len()
            + entries.last().val.data.len() + 4) as nat
    }
}

/// A request holds the entries to be written into the LSM tree and, once
/// written, the value pointers of their values.
pub struct Request {
    /// Entries contained in this request
    pub entries: Vec<Entry>,
    /// Offset in vLog (will be updated upon processing the request)
    pub ptrs: Vec<ValuePointer>,
}

impl Request {
    /// The views of the entries.
    pub open spec fn entry_views(&self) -> Seq<EntryView> {
        self.entries@.map_values(|e: Entry| e@)
    }

    /// Returns the size that needs to be written for the request.
    pub fn estimated_size(&self) -> (r: u64)
        requires
            request_size(self.entry_views()) <= u64::MAX,
        ensures
            r as nat == request_size(self.entry_views()),
    {
        let mut total: u64 = 0;
        let mut i: usize = 0;
        while i < self.entries.len()
            invariant
                i <= self.entries@.len(),
                total as nat == request_size(self.entry_views().take(i as int)),
                request_size(self.entry_views()) <= u64::MAX,
            decreases self.entries@.len() - i,
        {
            let e = &self.entries[i];
            proof {
                let es = self.entry_views();
                assert(es.take(i as int + 1).drop_last() =~= es.take(i as int));
                lemma_request_size_prefix(es, i as int + 1);
            }
            let k = e.key_len() as u64;
            let v = e.value_len() as u64;
            proof {
                let es = self.entry_views();
                assert(es[i as int] == e@);
                assert(es.take(i as int + 1).last() == e@);
            }
            total = total + MAX_HEADER_SIZE as u64 + k + v + 4;
            i = i + 1;
        }
        proof {
            assert(self.entry_views().take(i as int) =~= self.entry_views());
        }
        total
    }
}

proof fn lemma_request_size_prefix(es: Seq<EntryView>, k: int)
    requires
        0 <= k <= es.len(),
    ensures
        request_size(es.take(k)) <= request_size(es),
    decreases es.len(),
{
    if k < es.len() {
        assert(es.drop_last().take(k) =~= es.take(k));
        lemma_request_size_prefix(es.drop_last(), k);
    } else {
        assert(es.take(k) =~= es);
    }
}

} // verus!
