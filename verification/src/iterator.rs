//! Iterating over the entries of a block.
use vstd::prelude::*;
use vstd::slice::slice_subrange;
use crate::key::{key_sign, key_sign_exec, lemma_key_sign_trans, KeyRef};
use crate::table::{
    block_base_key, block_base_readable, block_view_readable, block_header_decoding, block_keys_wf, entry_key_readable, decoded_key, entry_end, entry_region,
    entry_value_bytes, Block, BlockView, Header, HEADER_SIZE,
};
use crate::value::{value_decoding, ValueRef};

verus! {

/// Where a seek starts from.
#[derive(Copy, Clone, Debug, PartialEq, Eq, Structural)]
pub enum SeekFrom {
    /// The start position
    Origin,
    /// The current position
    Current,
}

/// Why an iterator holds no entry.
#[derive(Clone, Debug, PartialEq, Eq)]
pub enum IterError {
    /// The position is past either end.
    EOF,
    /// Another error, with its message.
    Other(String),
}

impl IterError {
    /// The message of the error.
    pub fn to_string(&self) -> (r: String)
        ensures
            self is EOF ==> r@ == "EOF"@,
            self matches IterError::Other(m) ==> r@ == m@,
    {
        match self {
            IterError::EOF => "EOF".to_owned(),
            IterError::Other(s) => s.clone(),
        }
    }
}

/// An iterator over the entries of a table.
pub trait BableIterator {
    /// Whether the iterator is well formed, as each operation keeps it.
    spec fn iter_wf(&self) -> bool;

    /// Whether the value at the current position can be decoded.
    spec fn value_readable(&self) -> bool;

    /// Whether there is a current iterator to move forward.
    spec fn steppable(&self) -> bool;

    /// The upper bound of the number of entries, when one is known.
    spec fn entry_bound(&self) -> Option<usize>;

    /// Moves to the next entry.
    fn next(&mut self)
        requires
            old(self).iter_wf(),
            old(self).steppable(),
        ensures
            final(self).iter_wf(),
    ;

    /// Moves to the first entry.
    fn rewind(&mut self)
        requires
            old(self).iter_wf(),
        ensures
            final(self).iter_wf(),
    ;

    /// Moves to the first entry whose key is at least `key`.
    fn seek(&mut self, key: &[u8])
        requires
            old(self).iter_wf(),
        ensures
            final(self).iter_wf(),
    ;

    /// The key and the value at the current position.
    fn entry(&self) -> Option<(KeyRef, ValueRef)>
        requires
            self.iter_wf(),
            self.value_readable(),
    ;

    /// The key at the current position.
    fn key(&self) -> Option<KeyRef>
        requires
            self.iter_wf(),
    ;

    /// The value at the current position.
    fn val(&self) -> Option<ValueRef>
        requires
            self.iter_wf(),
            self.value_readable(),
    ;

    /// Whether the iterator is at an entry.
    fn valid(&self) -> bool
        requires
            self.iter_wf(),
    ;

    /// The bounds of the number of entries: none up to the known bound.
    fn size_hint(&self) -> (r: (usize, Option<usize>))
        requires
            self.iter_wf(),
        ensures
            r == (0usize, self.entry_bound()),
    ;

    /// The number of entries: the upper bound of `size_hint`, `usize::MAX`
    /// when unknown.
    fn count(&self) -> (r: usize)
        requires
            self.iter_wf(),
        ensures
            r == (match self.entry_bound() {
                Some(v) => v,
                None => usize::MAX,
            }),
    {
        match self.size_hint().1 {
            None => usize::MAX,
            Some(v) => v,
        }
    }
}

/// Appends the bytes of `s` to `v`.
fn extend_bytes(v: &mut Vec<u8>, s: &[u8])
    ensures
        final(v)@ == old(v)@ + s@,
{
    let mut i: usize = 0;
    while i < s.len()
        invariant
            i <= s@.len(),
            v@ == old(v)@ + s@.take(i as int),
        decreases s@.len() - i,
    {
        v.push(s[i]);
        proof {
            assert(s@.take(i + 1) =~= s@.take(i as int).push(s@[i as int]));
        }
        i = i + 1;
    }
    proof {
        assert(s@.take(s@.len() as int) =~= s@);
    }
}

/// An iterator over the entries of one block. It decodes the entry at its
/// position into its own key and value buffers; the key buffer keeps the
/// part it shares with the base key from one entry to the next.
pub struct BlockIter {
    block: Block,
    idx: isize,
    err: Option<IterError>,
    base_key: Vec<u8>,
    key: Vec<u8>,
    val: Vec<u8>,
    block_id: isize,
    table_id: u64,
    prev_overlap: u16,
}

impl BlockIter {
    /// The block iterated over.
    pub closed spec fn block_view(&self) -> BlockView {
        self.block@
    }

    /// The bytes of the entries of the block.
    pub open spec fn entries_data(&self) -> Seq<u8> {
        self.block_view().data.take(self.block_view().entries_index_start as int)
    }

    /// The offsets of the entries of the block.
    pub open spec fn offsets(&self) -> Seq<u32> {
        self.block_view().entry_offsets
    }

    /// The current position.
    pub closed spec fn index(&self) -> isize {
        self.idx
    }

    /// The error of the iterator, if any.
    pub closed spec fn error(&self) -> Option<IterError> {
        self.err
    }

    /// The key at the current position.
    pub closed spec fn key_view(&self) -> Seq<u8> {
        self.key@
    }

    /// The encoded value at the current position.
    pub closed spec fn val_view(&self) -> Seq<u8> {
        self.val@
    }

    /// The id of the block in its table.
    pub closed spec fn block_id_view(&self) -> isize {
        self.block_id
    }

    /// The id of the table.
    pub closed spec fn table_id_view(&self) -> u64 {
        self.table_id
    }

    /// The entries of the block lie within its bytes, and the key buffer
    /// holds the part of the base key that the last entry shared.
    pub closed spec fn wf(&self) -> bool {
        &&& block_view_readable(self.block@)
        &&& self.prev_overlap <= self.key@.len()
        &&& self.prev_overlap <= self.base_key@.len()
        &&& self.key@.take(self.prev_overlap as int) == self.base_key@.take(self.prev_overlap as int)
        &&& self.base_key@.len() > 0 ==> self.base_key@ == block_base_key(self.entries_data())
    }

    /// Whether the entry at `i` is the one a seek for `target` stops at:
    /// it is not before `start` and its key is at least `target`.
    pub open spec fn seek_hit(&self, start: int, target: Seq<u8>, i: int) -> bool {
        seek_stops_at(self.entries_data(), self.offsets(), start, target, i)
    }

    /// An iterator over `block`, at the first entry, with nothing decoded
    /// yet.
    pub fn new(block: Block, table_id: u64, block_id: isize) -> (r: Self)
        requires
            block_view_readable(block@),
        ensures
            r.wf(),
            r.block_view() == block@,
            r.index() == 0,
            r.error() is None,
            r.key_view() == Seq::<u8>::empty(),
            r.val_view() == Seq::<u8>::empty(),
            r.table_id_view() == table_id,
            r.block_id_view() == block_id,
    {
        BlockIter {
            block,
            idx: 0,
            err: None,
            base_key: Vec::new(),
            key: Vec::new(),
            val: Vec::new(),
            block_id,
            table_id,
            prev_overlap: 0,
        }
    }

    /// The key at the current position.
    pub fn get_key(&self) -> (r: KeyRef)
        ensures
            r@ == self.key_view(),
    {
        KeyRef::new(self.key.as_slice())
    }

    /// The value at the current position.
    pub fn get_val(&self) -> (r: ValueRef)
        requires
            self.val_view().len() >= 2,
        ensures
            r@ == value_decoding(self.val_view()),
    {
        ValueRef::decode_value_ref(self.val.as_slice())
    }

    /// The key and the value at the current position.
    pub fn entry(&self) -> (r: (KeyRef, ValueRef))
        requires
            self.val_view().len() >= 2,
        ensures
            r.0@ == self.key_view(),
            r.1@ == value_decoding(self.val_view()),
    {
        (KeyRef::new(self.key.as_slice()), ValueRef::decode_value_ref(self.val.as_slice()))
    }

    /// Whether the iterator is at an entry.
    pub fn valid(&self) -> (r: bool)
        ensures
            r == (self.error() is None),
    {
        self.err.is_none()
    }

    /// Replaces the block and forgets everything decoded from the old one.
    pub fn set_block(&mut self, block: Block)
        requires
            block_view_readable(block@),
        ensures
            final(self).wf(),
            final(self).block_view() == block@,
            final(self).index() == 0,
            final(self).error() is None,
            final(self).key_view() == Seq::<u8>::empty(),
            final(self).val_view() == Seq::<u8>::empty(),
            final(self).table_id_view() == old(self).table_id_view(),
            final(self).block_id_view() == old(self).block_id_view(),
    {
        self.err = None;
        self.idx = 0;
        self.base_key = Vec::new();
        self.prev_overlap = 0;
        self.key = Vec::new();
        self.val = Vec::new();
        self.block = block;
        proof {
            assert(self.key@.take(0) =~= self.base_key@.take(0));
        }
    }

    /// Replaces the block by block `block_id` of table `table_id`, and
    /// forgets everything decoded from the old one.
    pub fn set_block_of(&mut self, block: Block, table_id: u64, block_id: isize)
        requires
            block_view_readable(block@),
        ensures
            final(self).wf(),
            final(self).block_view() == block@,
            final(self).index() == 0,
            final(self).error() is None,
            final(self).key_view() == Seq::<u8>::empty(),
            final(self).val_view() == Seq::<u8>::empty(),
            final(self).table_id_view() == table_id,
            final(self).block_id_view() == block_id,
    {
        self.table_id = table_id;
        self.block_id = block_id;
        self.set_block(block);
    }

    /// Moves to the entry at `idx` and decodes its key and value. A
    /// position past either end leaves the decoded entry as it was and
    /// sets the error to `EOF`.
    #[verifier::spinoff_prover]
    #[verifier::rlimit(40)]
    pub fn set_idx(&mut self, idx: isize)
        requires
            old(self).wf(),
            block_base_readable(old(self).entries_data(), old(self).offsets()),
            0 <= idx < old(self).offsets().len() ==> entry_key_readable(old(self).entries_data(), old(self).offsets(), idx as int),
        ensures
            final(self).wf(),
            final(self).block_view() == old(self).block_view(),
            final(self).table_id_view() == old(self).table_id_view(),
            final(self).block_id_view() == old(self).block_id_view(),
            final(self).index() == idx,
            (idx < 0 || idx >= old(self).offsets().len()) ==> {
                &&& final(self).error() matches Some(IterError::EOF)
                &&& final(self).key_view() == old(self).key_view()
                &&& final(self).val_view() == old(self).val_view()
            },
            0 <= idx < old(self).offsets().len() ==> {
                &&& final(self).error() is None
                &&& final(self).key_view() == decoded_key(old(self).entries_data(), old(self).offsets(), idx as int)
                &&& final(self).val_view() == entry_value_bytes(old(self).entries_data(), old(self).offsets(), idx as int)
            },
    {
        self.idx = idx;
        let n = self.block.entry_offsets().len();
        if idx < 0 || idx as usize >= n {
            self.err = Some(IterError::EOF);
            return;
        }
        self.err = None;
        let i = idx as usize;
        let ghost d = self.entries_data();
        let ghost offs = self.offsets();
        let data = self.block.data();
        let start_offset = self.block.entry_offsets()[i] as usize;
        if self.base_key.len() == 0 {
            let h = Header::decode(data);
            self.base_key = vstd::slice::slice_to_vec(slice_subrange(data, HEADER_SIZE, HEADER_SIZE + h.diff() as usize));
            proof {
                assert(self.base_key@ =~= block_base_key(d));
            }
        }
        let end_offset = if i + 1 == n {
            data.len()
        } else {
            self.block.entry_offsets()[i + 1] as usize
        };
        proof {
            assert(end_offset == entry_end(d, offs, i as int));
            assert(offs[i as int] <= entry_end(d, offs, i as int) <= d.len());
        }
        let entry_data = slice_subrange(data, start_offset, end_offset);
        proof {
            assert(entry_data@ =~= entry_region(d, offs, i as int));
        }
        let h = Header::decode(entry_data);
        let overlap = h.overlap();
        if overlap > self.prev_overlap {
            let prev_overlap_len = self.prev_overlap as usize;
            let header_overlap_len = overlap as usize;
            self.key.truncate(prev_overlap_len);
            extend_bytes(&mut self.key, slice_subrange(self.base_key.as_slice(), prev_overlap_len, header_overlap_len));
            proof {
                assert(self.key@ =~= self.base_key@.take(overlap as int));
            }
        }
        let ghost before = self.key@;
        proof {
            assert(before.take(overlap as int) =~= self.base_key@.take(overlap as int));
        }
        self.prev_overlap = overlap;
        let val_offset = HEADER_SIZE + h.diff() as usize;
        let diff_key = slice_subrange(entry_data, HEADER_SIZE, val_offset);
        self.key.truncate(overlap as usize);
        extend_bytes(&mut self.key, diff_key);
        self.val = vstd::slice::slice_to_vec(slice_subrange(entry_data, val_offset, entry_data.len()));
        proof {
            assert(self.key@ =~= decoded_key(d, offs, i as int));
            assert(self.val@ =~= entry_value_bytes(d, offs, i as int));
            assert(self.key@.take(overlap as int) =~= self.base_key@.take(overlap as int));
        }
    }
}

impl BlockIter {
    /// Moves to the first entry, not before the start that `whence` gives,
    /// whose key is at least `key`: a binary search, so when the keys of
    /// the block are sorted it finds the first such entry. Past the last
    /// entry, the error is `EOF`.
    #[verifier::spinoff_prover]
    #[verifier::rlimit(40)]
    pub fn seek(&mut self, key: &[u8], whence: SeekFrom)
        requires
            old(self).wf(),
            block_keys_wf(old(self).entries_data(), old(self).offsets()),
        ensures
            final(self).wf(),
            final(self).block_view() == old(self).block_view(),
            final(self).table_id_view() == old(self).table_id_view(),
            final(self).block_id_view() == old(self).block_id_view(),
            ({
                let start: int = match whence {
                    SeekFrom::Origin => 0,
                    SeekFrom::Current => old(self).index() as int,
                };
                let r = final(self).index() as int;
                let n = old(self).offsets().len() as int;
                &&& 0 <= r <= n
                &&& r < n ==> old(self).seek_hit(start, key@, r)
                &&& r > 0 ==> !old(self).seek_hit(start, key@, r - 1)
                &&& r < n ==> final(self).error() is None
                    && final(self).key_view() == decoded_key(old(self).entries_data(), old(self).offsets(), r)
                    && final(self).val_view() == entry_value_bytes(old(self).entries_data(), old(self).offsets(), r)
                &&& r == n ==> (final(self).error() matches Some(IterError::EOF))
            }),
    {
        let ghost old_self = *self;
        let ghost start: int = match whence {
            SeekFrom::Origin => 0,
            SeekFrom::Current => self.idx as int,
        };
        self.err = None;
        let start_index: isize = match whence {
            SeekFrom::Origin => 0,
            SeekFrom::Current => self.idx,
        };
        let n = self.block.entry_offsets().len() as isize;
        proof {
            assert(old_self.offsets() == self.offsets());
        }
        let mut lo: isize = 0;
        let mut hi: isize = n;
        while lo < hi
            invariant
                self.wf(),
                self.block_view() == old_self.block_view(),
                self.table_id_view() == old_self.table_id_view(),
                self.block_id_view() == old_self.block_id_view(),
                block_keys_wf(old_self.entries_data(), old_self.offsets()),
                n == old_self.offsets().len(),
                0 <= lo <= hi <= n,
                start == start_index,
                lo > 0 ==> !old_self.seek_hit(start, key@, lo - 1),
                hi < n ==> old_self.seek_hit(start, key@, hi as int),
            decreases hi - lo,
        {
            let mid = lo + (hi - lo) / 2;
            let hit = if mid < start_index {
                false
            } else {
                self.set_idx(mid);
                key_sign_exec(self.key.as_slice(), key) >= 0
            };
            if hit {
                hi = mid;
            } else {
                lo = mid + 1;
            }
        }
        self.set_idx(lo);
    }

    /// Moves to the first entry.
    pub fn seek_to_first(&mut self)
        requires
            old(self).wf(),
            block_keys_wf(old(self).entries_data(), old(self).offsets()),
        ensures
            final(self).wf(),
            final(self).block_view() == old(self).block_view(),
            final(self).table_id_view() == old(self).table_id_view(),
            final(self).block_id_view() == old(self).block_id_view(),
            final(self).index() == 0,
            old(self).offsets().len() == 0 ==> (final(self).error() matches Some(IterError::EOF)),
            old(self).offsets().len() > 0 ==> {
                &&& final(self).error() is None
                &&& final(self).key_view() == decoded_key(old(self).entries_data(), old(self).offsets(), 0)
                &&& final(self).val_view() == entry_value_bytes(old(self).entries_data(), old(self).offsets(), 0)
            },
    {
        self.set_idx(0)
    }

    /// Moves to the last entry.
    pub fn seek_to_last(&mut self)
        requires
            old(self).wf(),
            block_keys_wf(old(self).entries_data(), old(self).offsets()),
        ensures
            final(self).wf(),
            final(self).block_view() == old(self).block_view(),
            final(self).table_id_view() == old(self).table_id_view(),
            final(self).block_id_view() == old(self).block_id_view(),
            final(self).index() == old(self).offsets().len() - 1,
            old(self).offsets().len() == 0 ==> (final(self).error() matches Some(IterError::EOF)),
            old(self).offsets().len() > 0 ==> {
                &&& final(self).error() is None
                &&& final(self).key_view() == decoded_key(old(self).entries_data(), old(self).offsets(), old(self).offsets().len() - 1)
                &&& final(self).val_view() == entry_value_bytes(old(self).entries_data(), old(self).offsets(), old(self).offsets().len() - 1)
            },
    {
        let n = self.block.entry_offsets().len() as isize;
        self.set_idx(n - 1)
    }

    /// Moves to the entry before the current one; at the first entry, sets
    /// the error to `EOF` and stays.
    pub fn prev(&mut self)
        requires
            old(self).wf(),
            block_keys_wf(old(self).entries_data(), old(self).offsets()),
            old(self).index() > isize::MIN,
        ensures
            final(self).wf(),
            final(self).block_view() == old(self).block_view(),
            final(self).table_id_view() == old(self).table_id_view(),
            final(self).block_id_view() == old(self).block_id_view(),
            old(self).index() == 0 ==> {
                &&& final(self).index() == 0
                &&& final(self).error() matches Some(IterError::EOF)
                &&& final(self).key_view() == old(self).key_view()
                &&& final(self).val_view() == old(self).val_view()
            },
            old(self).index() != 0 ==> final(self).index() == old(self).index() - 1,
            old(self).index() != 0 && (old(self).index() - 1 < 0 || old(self).index() - 1 >= old(self).offsets().len())
                ==> (final(self).error() matches Some(IterError::EOF)),
            0 < old(self).index() <= old(self).offsets().len() ==> {
                &&& final(self).error() is None
                &&& final(self).key_view() == decoded_key(old(self).entries_data(), old(self).offsets(), old(self).index() - 1)
                &&& final(self).val_view() == entry_value_bytes(old(self).entries_data(), old(self).offsets(), old(self).index() - 1)
            },
    {
        if self.idx == 0 {
            self.err = Some(IterError::EOF);
        } else {
            let i = self.idx - 1;
            self.set_idx(i)
        }
    }

    /// Moves to the entry at `idx` and tells whether there is one.
    pub fn nth(&mut self, idx: usize) -> (r: bool)
        requires
            old(self).wf(),
            block_keys_wf(old(self).entries_data(), old(self).offsets()),
            idx <= isize::MAX,
        ensures
            final(self).wf(),
            final(self).block_view() == old(self).block_view(),
            final(self).table_id_view() == old(self).table_id_view(),
            final(self).block_id_view() == old(self).block_id_view(),
            final(self).index() == idx,
            r == (final(self).error() is None),
            r == (idx < old(self).offsets().len()),
            r ==> final(self).key_view() == decoded_key(old(self).entries_data(), old(self).offsets(), idx as int)
                && final(self).val_view() == entry_value_bytes(old(self).entries_data(), old(self).offsets(), idx as int),
    {
        self.set_idx(idx as isize);
        self.err.is_none()
    }

    /// Moves to the next entry and tells whether there is one.
    pub fn next(&mut self) -> (r: bool)
        requires
            old(self).wf(),
            block_keys_wf(old(self).entries_data(), old(self).offsets()),
            -1 <= old(self).index() < isize::MAX,
        ensures
            final(self).wf(),
            final(self).block_view() == old(self).block_view(),
            final(self).table_id_view() == old(self).table_id_view(),
            final(self).block_id_view() == old(self).block_id_view(),
            final(self).index() == old(self).index() + 1,
            r == (final(self).error() is None),
            r == (old(self).index() + 1 < old(self).offsets().len()),
            r ==> final(self).key_view() == decoded_key(old(self).entries_data(), old(self).offsets(), old(self).index() + 1)
                && final(self).val_view() == entry_value_bytes(old(self).entries_data(), old(self).offsets(), old(self).index() + 1),
    {
        let i = (self.idx + 1) as usize;
        self.nth(i)
    }

    /// The number of entries of the block.
    pub fn count(&self) -> (r: usize)
        ensures
            r == self.offsets().len(),
    {
        self.block.entry_offsets().len()
    }

    /// The bounds of the number of entries: none to all of the block's.
    pub fn size_hint(&self) -> (r: (usize, Option<usize>))
        ensures
            r == (0usize, Some(self.offsets().len() as usize)),
    {
        (0, Some(self.block.entry_offsets().len()))
    }

    /// Moves to `block` of table `table_id`, at its last entry when `prev`
    /// holds and at its first otherwise.
    pub fn seek_to_block(&mut self, block: Block, table_id: u64, block_id: isize, prev: bool)
        requires
            block_view_readable(block@),
            block_keys_wf(block@.data.take(block@.entries_index_start as int), block@.entry_offsets),
        ensures
            final(self).wf(),
            final(self).block_view() == block@,
            final(self).table_id_view() == table_id,
            final(self).block_id_view() == block_id,
            final(self).index() == (if prev { block@.entry_offsets.len() - 1 } else { 0 }),
            ({
                let i: int = if prev { block@.entry_offsets.len() - 1 } else { 0 };
                let d = block@.data.take(block@.entries_index_start as int);
                &&& block@.entry_offsets.len() == 0 ==> (final(self).error() matches Some(IterError::EOF))
                &&& block@.entry_offsets.len() > 0 ==> {
                    &&& final(self).error() is None
                    &&& final(self).key_view() == decoded_key(d, block@.entry_offsets, i)
                    &&& final(self).val_view() == entry_value_bytes(d, block@.entry_offsets, i)
                }
            }),
    {
        self.table_id = table_id;
        self.block_id = block_id;
        self.set_block(block);
        if prev {
            self.seek_to_last();
        } else {
            self.seek_to_first();
        }
    }
}

/// Whether the keys of the entries ascend.
pub open spec fn keys_ascend(d: Seq<u8>, offs: Seq<u32>) -> bool {
    forall|i: int, j: int| 0 <= i <= j < offs.len() ==> key_sign(#[trigger] decoded_key(d, offs, i), #[trigger] decoded_key(d, offs, j)) <= 0
}

/// Whether a seek from `start` for `target` stops at entry `i`.
pub open spec fn seek_stops_at(d: Seq<u8>, offs: Seq<u32>, start: int, target: Seq<u8>, i: int) -> bool {
    i >= start && key_sign(decoded_key(d, offs, i), target) >= 0
}

/// When the keys of a block ascend, the position a seek ends at is the
/// first entry, not before the start, whose key is at least the target:
/// every entry before it is passed over and every one from it on would
/// stop the seek.
pub proof fn lemma_seek_finds_first(d: Seq<u8>, offs: Seq<u32>, start: int, target: Seq<u8>, r: int)
    requires
        keys_ascend(d, offs),
        0 <= r <= offs.len(),
        r < offs.len() ==> seek_stops_at(d, offs, start, target, r),
        r > 0 ==> !seek_stops_at(d, offs, start, target, r - 1),
    ensures
        forall|i: int| 0 <= i < r ==> !#[trigger] seek_stops_at(d, offs, start, target, i),
        forall|i: int| r <= i < offs.len() ==> #[trigger] seek_stops_at(d, offs, start, target, i),
{
    assert forall|i: int| 0 <= i < r implies !#[trigger] seek_stops_at(d, offs, start, target, i) by {
        if seek_stops_at(d, offs, start, target, i) {
            let ki = decoded_key(d, offs, i);
            let kr = decoded_key(d, offs, r - 1);
            assert(key_sign(ki, kr) <= 0);
            if key_sign(kr, target) < 0 {
                lemma_key_sign_trans(ki, kr, target);
            }
        }
    }
    assert forall|i: int| r <= i < offs.len() implies #[trigger] seek_stops_at(d, offs, start, target, i) by {
        let ki = decoded_key(d, offs, i);
        let kr = decoded_key(d, offs, r);
        assert(key_sign(kr, ki) <= 0);
        if key_sign(ki, target) < 0 {
            lemma_key_sign_trans(kr, ki, target);
        }
    }
}

} // verus!
