//! Iterating over the entries of a whole table, block after block, forward
//! or in reverse.
use vstd::prelude::*;
use vstd::slice::slice_subrange;
use crate::checksum::{checksum_encoding, checksum_of, ChecksumAlgorithm};
use crate::compression::Compression;
use crate::encrypt::Encryption;
use crate::iterator::{BableIterator, BlockIter, IterError, SeekFrom};
use crate::bytes::bytes_equal;
use crate::key::{key_sign, key_sign_exec, KeyRef};
use crate::pb::BlockOffset;
use crate::table::{
    block_view_readable, block_wf, built_block, decoded_key, entries_fit, entry_value_bytes, finished_block,
    lemma_built_block_reads_back, lemma_finished_block_parses, parsed_block, Block, BlockView,
};
use crate::table_reader::{decode_block, lemma_stored_block_reads_back, stored_block_of, verifies_blocks, ChecksumVerificationMode, TableError};
use crate::value::{value_decoding, ValueRef, ValueView};
use crate::compression::compressible;
use crate::encrypt::EncryptionAlgorithm;
use crate::entry::trunc32;
use crate::table_builder::{block_stored, blocks_bytes, blocks_size_before, BBlockView};

verus! {

/// A table held in memory: its bytes, the block offsets of its index, and
/// how its blocks are stored.
pub struct TableData {
    pub id: u64,
    pub data: Vec<u8>,
    pub block_offsets: Vec<BlockOffset>,
    pub compression: Compression,
    pub encryption: Encryption,
    pub checksum: ChecksumAlgorithm,
    pub mode: ChecksumVerificationMode,
    pub num_entries: usize,
}

/// The bytes the table stores for block `q`, when its offset and length lie
/// within the table.
pub open spec fn stored_block(t: TableData, q: int) -> Option<Seq<u8>> {
    if 0 <= q < t.block_offsets@.len()
        && t.block_offsets@[q].offset + t.block_offsets@[q].len <= t.data@.len() {
        Some(t.data@.subrange(t.block_offsets@[q].offset as int, t.block_offsets@[q].offset + t.block_offsets@[q].len))
    } else {
        None
    }
}

/// Whether block `q` of the table is what a builder stores for a block of
/// the entries `es`, whose first key is not empty.
pub open spec fn built_block_at(t: TableData, q: int, es: Seq<(Seq<u8>, ValueView)>) -> bool {
    &&& stored_block(t, q) matches Some(s)
    &&& stored_block_of(s, es, t.compression, t.encryption@, t.checksum)
    &&& es.len() > 0 ==> es[0].0.len() > 0
    &&& entries_fit(es)
}

/// The block that reading block `q` of a table built from `es` gives.
pub open spec fn built_block_view(t: TableData, q: int, es: Seq<(Seq<u8>, ValueView)>) -> BlockView {
    parsed_block(finished_block(es, t.checksum), t.block_offsets@[q].offset as usize)
}

/// What reading block `q` of the table may give: a readable block, and
/// for a block a builder stored, exactly the block it finished.
pub open spec fn read_of_block(t: TableData, q: int, r: Result<Block, TableError>) -> bool {
    &&& r matches Ok(blk) ==> block_view_readable(blk@) && 0 <= q < t.block_offsets@.len()
    &&& forall|es: Seq<(Seq<u8>, ValueView)>| #[trigger] built_block_at(t, q, es)
        ==> (r matches Ok(blk) && blk@ == built_block_view(t, q, es))
}

/// The entries of the block a builder stored for `es` are those it wrote:
/// they can be read, and entry `i` has the `i`-th key and value.
pub proof fn lemma_built_block_read(t: TableData, q: int, es: Seq<(Seq<u8>, ValueView)>)
    requires
        built_block_at(t, q, es),
    ensures
        ({
            let bv = built_block_view(t, q, es);
            let d = bv.data.take(bv.entries_index_start as int);
            &&& d == built_block(es).data
            &&& bv.entry_offsets == built_block(es).offsets
            &&& bv.checksum == checksum_encoding(checksum_of(bv.data, t.checksum))
            &&& block_wf(d, bv.entry_offsets)
            &&& bv.entry_offsets.len() == es.len()
            &&& es.len() > 0
            &&& forall|i: int| 0 <= i < es.len() ==> #[trigger] decoded_key(d, bv.entry_offsets, i) == es[i].0
            &&& forall|i: int| 0 <= i < es.len() ==> value_decoding(#[trigger] entry_value_bytes(d, bv.entry_offsets, i))
                == (ValueView { version: 0, ..es[i].1 })
        }),
{
    reveal(stored_block_of);
    let off = t.block_offsets@[q].offset as usize;
    lemma_finished_block_parses(es, t.checksum, off);
    lemma_built_block_reads_back(es);
    let b = built_block(es);
    let bv = built_block_view(t, q, es);
    assert(bv.data.take(bv.entries_index_start as int) =~= b.data);
}

impl TableData {
    /// The number of blocks.
    pub fn offsets_length(&self) -> (r: usize)
        ensures
            r == self.block_offsets@.len(),
    {
        self.block_offsets.len()
    }

    /// Reads block `idx`: the bytes its offset and length give, decoded.
    pub fn block(&self, idx: usize) -> (r: Result<Block, TableError>)
        ensures
            idx >= self.block_offsets@.len() ==> r is Err,
            read_of_block(*self, idx as int, r),
            r matches Ok(blk) ==> (verifies_blocks(self.mode)
                ==> checksum_encoding(checksum_of(blk@.data, self.checksum)) == blk@.checksum),
    {
        if idx >= self.block_offsets.len() {
            return Err(TableError::BlockOutOfRange {
                num_offsets: self.block_offsets.len() as u64,
                index: idx as u64,
            });
        }
        let start = self.block_offsets[idx].offset as usize;
        let len = self.block_offsets[idx].len as usize;
        if start > self.data.len() || len > self.data.len() - start {
            return Err(TableError::BlockBeyondEnd);
        }
        let stored = slice_subrange(self.data.as_slice(), start, start + len);
        let r = decode_block(stored, start, self.compression, &self.encryption, self.checksum, self.mode);
        proof {
            assert forall|es: Seq<(Seq<u8>, ValueView)>| #[trigger] built_block_at(*self, idx as int, es)
                implies (r matches Ok(blk) && blk@ == built_block_view(*self, idx as int, es)) by {
                assert(stored@ == stored_block(*self, idx as int)->0);
                assert(stored_block_of(stored@, es, self.compression, self.encryption@, self.checksum));
            }
        }
        r
    }
}

/// Which way a table iterator runs, and whether it fills the block cache.
#[derive(Copy, Clone, Debug, PartialEq, Eq, Structural)]
pub struct Flag {
    pub bits: u8,
}

impl Flag {
    /// Forward, filling the cache.
    pub fn none() -> (r: Flag)
        ensures
            r.bits == 0,
    {
        Flag { bits: 0 }
    }

    /// In reverse.
    pub fn reversed() -> (r: Flag)
        ensures
            r.bits == 2,
    {
        Flag { bits: 2 }
    }

    /// Without filling the cache.
    pub fn no_cache() -> (r: Flag)
        ensures
            r.bits == 4,
    {
        Flag { bits: 4 }
    }

    /// Whether the flag runs in reverse.
    pub open spec fn is_reversed_spec(&self) -> bool {
        self.bits & 2 != 0
    }

    /// Whether the flag runs in reverse.
    pub fn is_reversed(&self) -> (r: bool)
        ensures
            r == self.is_reversed_spec(),
    {
        self.bits & 2 != 0
    }

    /// Whether the flag fills the cache.
    pub fn use_cache(&self) -> (r: bool)
        ensures
            r == (self.bits & 4 == 0),
    {
        self.bits & 4 == 0
    }

    /// The union of two flags.
    pub fn union(self, other: Flag) -> (r: Flag)
        ensures
            r.bits == self.bits | other.bits,
    {
        Flag { bits: self.bits | other.bits }
    }
}

/// Whether a block iterator is at an entry, with its key and encoded
/// value decoded.
pub open spec fn at_entry(b: BlockIter) -> bool {
    &&& b.error() is None
    &&& 0 <= b.index() < b.offsets().len()
    &&& b.key_view() == decoded_key(b.entries_data(), b.offsets(), b.index() as int)
    &&& b.val_view() == entry_value_bytes(b.entries_data(), b.offsets(), b.index() as int)
    &&& b.val_view().len() >= 2
}

/// Whether `bv` is what reading block `q` of the table gave: a block whose
/// entries can be read, and, for a block a builder stored, the block it
/// finished.
pub open spec fn block_read(t: TableData, q: int, bv: BlockView) -> bool {
    &&& 0 <= q < t.block_offsets@.len()
    &&& block_view_readable(bv)
    &&& block_wf(bv.data.take(bv.entries_index_start as int), bv.entry_offsets)
    &&& forall|es: Seq<(Seq<u8>, ValueView)>| #[trigger] built_block_at(t, q, es) ==> bv == built_block_view(t, q, es)
}

/// Whether the smallest key of block `i` is greater than `key`.
pub open spec fn block_after(t: TableData, key: Seq<u8>, i: int) -> bool {
    key_sign(t.block_offsets@[i].key@, key) > 0
}

/// Whether a binary search for `key` over the smallest keys of the blocks
/// can end at block `p`: the first whose smallest key is greater than
/// `key`, or the number of blocks.
pub open spec fn seek_position(t: TableData, key: Seq<u8>, p: int) -> bool {
    let n = t.block_offsets@.len() as int;
    &&& 0 <= p <= n
    &&& p < n ==> block_after(t, key, p)
    &&& p > 0 ==> !block_after(t, key, p - 1)
}

/// Whether a seek for `key` passes over every entry of the block: its
/// last entry, if any, is less than `key`.
pub open spec fn seeks_past(bv: BlockView, key: Seq<u8>) -> bool {
    let d = bv.data.take(bv.entries_index_start as int);
    let n = bv.entry_offsets.len();
    n > 0 ==> key_sign(decoded_key(d, bv.entry_offsets, n - 1), key) < 0
}

/// An iterator over the entries of a table, block after block.
pub struct UniTableIterator<'a> {
    table: &'a TableData,
    bpos: isize,
    bi: Option<BlockIter>,
    loaded: bool,
    err: Option<IterError>,
    num_entries: usize,
    opt: Flag,
}

impl<'a> UniTableIterator<'a> {
    /// The table.
    pub closed spec fn table_view(&self) -> TableData {
        *self.table
    }

    /// The index of the current block.
    pub closed spec fn block_pos(&self) -> isize {
        self.bpos
    }

    /// The iterator over the last block read, once there is one.
    pub closed spec fn block_iter(&self) -> Option<BlockIter> {
        self.bi
    }

    /// Whether the block iterator holds a block read (and not one left
    /// behind).
    pub closed spec fn loaded_view(&self) -> bool {
        self.loaded
    }

    /// The error of the iterator, if any.
    pub closed spec fn error(&self) -> Option<IterError> {
        self.err
    }

    /// The flag of the iterator.
    pub closed spec fn flag(&self) -> Flag {
        self.opt
    }

    /// The block position lies within the table or just before it; a block
    /// held is one read from the table, with its position within or just
    /// past its entries.
    pub closed spec fn wf(&self) -> bool {
        &&& -1 <= self.bpos <= self.table.block_offsets@.len()
        &&& self.table.block_offsets@.len() < isize::MAX
        &&& self.num_entries == self.table.num_entries
        &&& (self.bi matches Some(b) ==> b.wf() && b.table_id_view() == self.table.id)
        &&& self.loaded ==> (self.bi matches Some(b) && {
            &&& block_read(*self.table, b.block_id_view() as int, b.block_view())
            &&& -1 <= b.index() <= b.offsets().len()
        })
    }

    /// Whether the read of block `q` failed: the error is not `EOF`, and the
    /// block is not one a builder stored.
    pub open spec fn read_failed(&self, q: int) -> bool {
        &&& self.error() matches Some(IterError::Other(_))
        &&& forall|es: Seq<(Seq<u8>, ValueView)>| !#[trigger] built_block_at(self.table_view(), q, es)
    }

    /// Whether the iterator holds block `q` of its table, read.
    pub open spec fn holds_block(&self, q: int) -> bool {
        &&& self.loaded_view()
        &&& self.block_iter() matches Some(b)
        &&& b.block_id_view() == q
        &&& block_read(self.table_view(), q, b.block_view())
    }

    /// Whether the iterator is at the entry of its block at its position,
    /// without an error, or past the ends of the block, with `EOF`.
    pub open spec fn entry_or_end(&self) -> bool {
        self.block_iter() matches Some(b) && {
            &&& (0 <= b.index() < b.offsets().len()) ==> (self.error() is None && at_entry(b))
            &&& !(0 <= b.index() < b.offsets().len()) ==> self.error() == Some(IterError::EOF)
        }
    }

    /// After reading block `q` and moving to its first entry.
    pub open spec fn landed_first(&self, q: int) -> bool {
        &&& self.block_pos() == q
        &&& self.read_failed(q) || (self.holds_block(q) && self.block_iter()->0.index() == 0 && self.entry_or_end())
    }

    /// After reading block `q` and moving to its last entry.
    pub open spec fn landed_last(&self, q: int) -> bool {
        &&& self.block_pos() == q
        &&& self.read_failed(q) || (self.holds_block(q) && self.block_iter()->0.index()
            == self.block_iter()->0.offsets().len() - 1 && self.entry_or_end())
    }

    /// After reading block `q` and seeking in it for `key`: the position is
    /// the first entry at which the seek stopped, or just past the block.
    pub open spec fn landed_seek(&self, q: int, key: Seq<u8>) -> bool {
        &&& self.block_pos() == q
        &&& self.read_failed(q) || (self.holds_block(q) && self.entry_or_end() && ({
            let b = self.block_iter()->0;
            let r = b.index() as int;
            let n = b.offsets().len() as int;
            &&& 0 <= r <= n
            &&& r < n ==> b.seek_hit(0, key, r)
            &&& r > 0 ==> !b.seek_hit(0, key, r - 1)
        }))
    }

    /// Whether the iterator moved to entry `i` of the block `o` held.
    pub open spec fn moved_within(&self, o: Self, i: int) -> bool {
        &&& self.block_pos() == o.block_pos()
        &&& self.loaded_view()
        &&& self.error() is None
        &&& self.block_iter() matches Some(b)
        &&& b.block_view() == o.block_iter()->0.block_view()
        &&& b.block_id_view() == o.block_iter()->0.block_id_view()
        &&& b.index() == i
        &&& at_entry(b)
    }

    /// Whether the iterator stayed where `o` was.
    pub open spec fn same_place(&self, o: Self) -> bool {
        &&& self.block_pos() == o.block_pos()
        &&& self.block_iter() == o.block_iter()
        &&& self.loaded_view() == o.loaded_view()
    }

    /// What moving forward from `self` gives `f`: the next entry of the
    /// block held, or else the first entry of the next block; `EOF` past
    /// the last block.
    pub open spec fn next_in_result(&self, f: Self) -> bool {
        let n = self.table_view().block_offsets@.len();
        &&& f.table_view() == self.table_view()
        &&& f.flag() == self.flag()
        &&& if self.block_pos() >= n || self.block_iter() is None {
            f.error() == Some(IterError::EOF) && f.same_place(*self)
        } else if !self.loaded_view() {
            f.landed_first(self.block_pos() as int)
        } else if self.block_iter()->0.index() + 1 < self.block_iter()->0.offsets().len() {
            f.moved_within(*self, self.block_iter()->0.index() + 1)
        } else if self.block_pos() + 1 >= n {
            f.block_pos() == self.block_pos() + 1 && f.error() == Some(IterError::EOF) && !f.loaded_view()
        } else {
            f.landed_first(self.block_pos() + 1)
        }
    }

    /// What moving backward from `self` gives `f`: the entry before in the
    /// block held, or else the last entry of the block before; `EOF` before
    /// the first block.
    pub open spec fn prev_result(&self, f: Self) -> bool {
        &&& f.table_view() == self.table_view()
        &&& f.flag() == self.flag()
        &&& if self.block_pos() < 0 {
            f.error() == Some(IterError::EOF) && f.same_place(*self)
        } else if self.block_iter() is None {
            f.error() is None && f.same_place(*self)
        } else if !self.loaded_view() {
            f.landed_last(self.block_pos() as int)
        } else if 1 <= self.block_iter()->0.index() <= self.block_iter()->0.offsets().len() {
            f.moved_within(*self, self.block_iter()->0.index() - 1)
        } else if self.block_pos() == 0 {
            f.block_pos() == -1 && f.error() == Some(IterError::EOF) && !f.loaded_view()
        } else {
            f.landed_last(self.block_pos() - 1)
        }
    }

    /// What seeking `key` from `self` gives `f`: with `p` the first block
    /// whose smallest key is greater than `key` (as a binary search over
    /// the index finds it), the seek goes into block `p - 1`, and on into
    /// block `p` when every entry of block `p - 1` is less than `key`.
    pub open spec fn seek_result(&self, f: Self, key: Seq<u8>) -> bool {
        let t = self.table_view();
        let n = t.block_offsets@.len() as int;
        &&& f.table_view() == t
        &&& f.flag() == self.flag()
        &&& exists|p: int| {
            &&& #[trigger] seek_position(t, key, p)
            &&& {
                ||| p == 0 && f.landed_seek(0, key)
                ||| p > 0 && f.landed_seek(p - 1, key) && (p < n ==> f.error() != Some(IterError::EOF))
                ||| p > 0 && p < n && f.landed_seek(p, key)
                    && exists|bv: BlockView| #[trigger] block_read(t, p - 1, bv) && seeks_past(bv, key)
            }
        }
    }

    /// Whether the iterator is at an entry of the block it holds.
    pub open spec fn at_entry_view(&self) -> bool {
        &&& self.error() is None
        &&& self.loaded_view()
        &&& self.block_iter() matches Some(b)
        &&& at_entry(b)
    }

    /// An iterator over `table`, before its first entry.
    pub fn new(table: &'a TableData, opt: Flag) -> (r: Self)
        requires
            table.block_offsets@.len() < isize::MAX,
        ensures
            r.wf(),
            r.table_view() == *table,
            r.block_pos() == -1,
            r.block_iter() is None,
            !r.loaded_view(),
            r.error() is None,
            r.flag() == opt,
    {
        UniTableIterator { table, bpos: -1, bi: None, loaded: false, err: None, num_entries: table.num_entries, opt }
    }

    /// The id of the table.
    pub fn get_table_id(&self) -> (r: u64)
        ensures
            r == self.table_view().id,
    {
        self.table.id
    }

    /// Puts the block read for the current block position under the block
    /// iterator, before its first entry, and tells whether it could: a
    /// failed read, or a block whose entries cannot be read, sets the error
    /// and leaves the rest as it was.
    fn install(&mut self, block: Result<Block, TableError>, table_id: u64) -> (ok: bool)
        requires
            old(self).wf(),
            0 <= old(self).bpos,
            read_of_block(*old(self).table, old(self).bpos as int, block),
            table_id == old(self).table.id,
        ensures
            final(self).wf(),
            final(self).table == old(self).table,
            final(self).bpos == old(self).bpos,
            final(self).opt == old(self).opt,
            ok ==> (final(self).bi matches Some(b) && {
                &&& !final(self).loaded
                &&& b.index() == 0
                &&& b.block_id_view() == old(self).bpos
                &&& block_read(*old(self).table, old(self).bpos as int, b.block_view())
            }),
            !ok ==> final(self).read_failed(old(self).bpos as int),
    {
        match block {
            Ok(blk) => {
                if !blk.entries_readable() {
                    proof {
                        assert forall|es: Seq<(Seq<u8>, ValueView)>| !#[trigger] built_block_at(*self.table, self.bpos as int, es) by {
                            if built_block_at(*self.table, self.bpos as int, es) {
                                lemma_built_block_read(*self.table, self.bpos as int, es);
                            }
                        }
                    }
                    self.err = Some(IterError::Other(TableError::InvalidBlock.to_string()));
                    return false;
                }
                let pos = self.bpos;
                match self.bi.take() {
                    Some(mut bi) => {
                        bi.set_block_of(blk, table_id, pos);
                        self.bi = Some(bi);
                    },
                    None => {
                        self.bi = Some(BlockIter::new(blk, table_id, pos));
                    },
                }
                self.loaded = false;
                self.err = None;
                true
            },
            Err(e) => {
                self.err = Some(IterError::Other(e.to_string()));
                false
            },
        }
    }

    /// Moves into the block read for the current block position, at its
    /// first entry.
    fn seek_to_first_block_handle(&mut self, block: Result<Block, TableError>, table_id: u64)
        requires
            old(self).wf(),
            0 <= old(self).bpos,
            read_of_block(*old(self).table, old(self).bpos as int, block),
            table_id == old(self).table.id,
        ensures
            final(self).wf(),
            final(self).table == old(self).table,
            final(self).opt == old(self).opt,
            final(self).landed_first(old(self).bpos as int),
    {
        if self.install(block, table_id) {
            let mut bi = self.bi.take().unwrap();
            bi.seek_to_first();
            self.err = if bi.valid() { None } else { Some(IterError::EOF) };
            self.bi = Some(bi);
            self.loaded = true;
        }
    }

    /// Moves into the block read for the current block position, at its
    /// last entry.
    fn seek_to_last_block_handle(&mut self, block: Result<Block, TableError>, table_id: u64)
        requires
            old(self).wf(),
            0 <= old(self).bpos,
            read_of_block(*old(self).table, old(self).bpos as int, block),
            table_id == old(self).table.id,
        ensures
            final(self).wf(),
            final(self).table == old(self).table,
            final(self).opt == old(self).opt,
            final(self).landed_last(old(self).bpos as int),
    {
        if self.install(block, table_id) {
            let mut bi = self.bi.take().unwrap();
            bi.seek_to_last();
            self.err = if bi.valid() { None } else { Some(IterError::EOF) };
            self.bi = Some(bi);
            self.loaded = true;
        }
    }

    /// Moves into the block read for the current block position, at its
    /// first entry whose key is at least `key`.
    fn seek_helper_block_handle(&mut self, block: Result<Block, TableError>, table_id: u64, key: &[u8])
        requires
            old(self).wf(),
            0 <= old(self).bpos,
            read_of_block(*old(self).table, old(self).bpos as int, block),
            table_id == old(self).table.id,
        ensures
            final(self).wf(),
            final(self).table == old(self).table,
            final(self).opt == old(self).opt,
            final(self).landed_seek(old(self).bpos as int, key@),
    {
        if self.install(block, table_id) {
            let mut bi = self.bi.take().unwrap();
            bi.seek(key, SeekFrom::Origin);
            self.err = if bi.valid() { None } else { Some(IterError::EOF) };
            self.bi = Some(bi);
            self.loaded = true;
        }
    }

    /// Reads block `block_idx` and moves to its first entry whose key is at
    /// least `key`.
    fn seek_helper(&mut self, block_idx: isize, key: &[u8])
        requires
            old(self).wf(),
            0 <= block_idx <= old(self).table.block_offsets@.len(),
        ensures
            final(self).wf(),
            final(self).table == old(self).table,
            final(self).opt == old(self).opt,
            final(self).landed_seek(block_idx as int, key@),
    {
        self.bpos = block_idx;
        let block = self.table.block(block_idx as usize);
        let table_id = self.get_table_id();
        self.seek_helper_block_handle(block, table_id, key)
    }

    /// The first block whose smallest key is greater than `key`, by a
    /// binary search over the index; from the origin, the iterator moves
    /// to the first block first.
    fn get_seek_position(&mut self, key: &[u8], from: SeekFrom) -> (r: isize)
        requires
            old(self).wf(),
        ensures
            final(self).wf(),
            final(self).table == old(self).table,
            final(self).opt == old(self).opt,
            seek_position(*old(self).table, key@, r as int),
    {
        self.err = None;
        match from {
            SeekFrom::Origin => self.reset(),
            SeekFrom::Current => {},
        }
        let t = self.table;
        let n = t.offsets_length() as isize;
        let mut lo: isize = 0;
        let mut hi: isize = n;
        while lo < hi
            invariant
                n == t.block_offsets@.len(),
                0 <= lo <= hi <= n,
                lo > 0 ==> !block_after(*t, key@, lo - 1),
                hi < n ==> block_after(*t, key@, hi as int),
            decreases hi - lo,
        {
            let mid = lo + (hi - lo) / 2;
            if key_sign_exec(t.block_offsets[mid as usize].key.as_slice(), key) > 0 {
                hi = mid;
            } else {
                lo = mid + 1;
            }
        }
        lo
    }

    /// Moves to the first entry whose key is at least `key`: into the last
    /// block whose smallest key is not greater than `key`, and on into the
    /// next block when every entry of that one is less.
    fn seek_from_key(&mut self, key: &[u8], from: SeekFrom)
        requires
            old(self).wf(),
        ensures
            final(self).wf(),
            old(self).seek_result(*final(self), key@),
    {
        let ghost t = *self.table;
        let idx = self.get_seek_position(key, from);
        if idx == 0 {
            self.seek_helper(0, key);
            proof {
                assert(seek_position(t, key@, 0));
            }
            return;
        }
        self.seek_helper(idx - 1, key);
        let ghost mid = *self;
        let is_eof = match &self.err {
            Some(IterError::EOF) => true,
            _ => false,
        };
        if is_eof {
            if idx == self.table.offsets_length() as isize {
                proof {
                    assert(seek_position(t, key@, idx as int));
                }
            } else {
                self.seek_helper(idx, key);
                proof {
                    let bv = mid.bi->0.block_view();
                    assert(block_read(t, idx - 1, bv));
                    assert(seeks_past(bv, key@));
                    assert(seek_position(t, key@, idx as int));
                }
            }
        } else {
            proof {
                assert(seek_position(t, key@, idx as int));
            }
        }
    }

    /// Moves to the next entry: within the block held, or else into the
    /// next block, at its first entry.
    fn next_in(&mut self)
        requires
            old(self).wf(),
            old(self).bpos >= 0,
        ensures
            final(self).wf(),
            old(self).next_in_result(*final(self)),
        decreases (if old(self).loaded { 1int } else { 0int }),
    {
        self.err = None;
        if self.bpos >= self.table.offsets_length() as isize {
            self.err = Some(IterError::EOF);
            return;
        }
        let table_id = self.get_table_id();
        if self.bi.is_none() {
            self.err = Some(IterError::EOF);
            return;
        }
        if !self.loaded {
            let block = self.table.block(self.bpos as usize);
            self.seek_to_first_block_handle(block, table_id);
        } else {
            let mut bi = self.bi.take().unwrap();
            let ok = bi.next();
            self.bi = Some(bi);
            if !ok {
                self.bpos = self.bpos + 1;
                self.loaded = false;
                self.next_in();
            }
        }
    }

    /// Moves to the entry before: within the block held, or else into the
    /// block before, at its last entry.
    pub fn prev(&mut self)
        requires
            old(self).wf(),
        ensures
            final(self).wf(),
            old(self).prev_result(*final(self)),
        decreases (if old(self).loaded_view() { 1int } else { 0int }),
    {
        self.err = None;
        if self.bpos < 0 {
            self.err = Some(IterError::EOF);
            return;
        }
        let table_id = self.get_table_id();
        if self.bi.is_some() {
            if !self.loaded {
                let block = self.table.block(self.bpos as usize);
                self.seek_to_last_block_handle(block, table_id);
            } else {
                let mut bi = self.bi.take().unwrap();
                bi.prev();
                let ok = bi.valid();
                self.bi = Some(bi);
                if !ok {
                    self.bpos = self.bpos - 1;
                    self.loaded = false;
                    self.prev();
                }
            }
        }
    }

    /// Moves to the first entry of the table; `EOF` when it has no block.
    pub fn seek_to_first(&mut self)
        requires
            old(self).wf(),
        ensures
            final(self).wf(),
            final(self).table_view() == old(self).table_view(),
            final(self).flag() == old(self).flag(),
            old(self).table_view().block_offsets@.len() == 0 ==> final(self).error() == Some(IterError::EOF)
                && final(self).same_place(*old(self)),
            old(self).table_view().block_offsets@.len() > 0 ==> final(self).landed_first(0),
    {
        let num_blocks = self.table.offsets_length();
        if num_blocks == 0 {
            self.err = Some(IterError::EOF);
            return;
        }
        self.bpos = 0;
        let block = self.table.block(0);
        let table_id = self.get_table_id();
        self.seek_to_first_block_handle(block, table_id)
    }

    /// Moves to the last entry of the table; `EOF` when it has no block.
    pub fn seek_to_last(&mut self)
        requires
            old(self).wf(),
        ensures
            final(self).wf(),
            final(self).table_view() == old(self).table_view(),
            final(self).flag() == old(self).flag(),
            old(self).table_view().block_offsets@.len() == 0 ==> final(self).error() == Some(IterError::EOF)
                && final(self).same_place(*old(self)),
            old(self).table_view().block_offsets@.len() > 0
                ==> final(self).landed_last(old(self).table_view().block_offsets@.len() - 1),
    {
        let num_blocks = self.table.offsets_length() as isize;
        if num_blocks == 0 {
            self.err = Some(IterError::EOF);
            return;
        }
        self.bpos = num_blocks - 1;
        let block = self.table.block(self.bpos as usize);
        let table_id = self.get_table_id();
        self.seek_to_last_block_handle(block, table_id)
    }

    /// Moves to the last entry whose key is at most `key`: seeks the first
    /// entry at least `key`, and steps back unless its key is `key`.
    pub fn seek_to_key(&mut self, key: &[u8])
        requires
            old(self).wf(),
        ensures
            final(self).wf(),
            exists|mid: Self| {
                &&& #[trigger] old(self).seek_result(mid, key@)
                &&& mid.wf()
                &&& if mid.block_iter() matches Some(b) && b.key_view() != key@ {
                    mid.prev_result(*final(self))
                } else {
                    *final(self) == mid
                }
            },
    {
        self.seek_from_key(key, SeekFrom::Origin);
        let ghost mid = *self;
        if let Some(k) = self.key() {
            if !bytes_equal(k.as_slice(), key) {
                self.prev();
            }
        }
        proof {
            assert(old(self).seek_result(mid, key@));
        }
    }

    /// What moving to the first entry in the direction of the flag gives.
    pub open spec fn rewind_result(&self, f: Self) -> bool {
        let n = self.table_view().block_offsets@.len();
        &&& f.table_view() == self.table_view()
        &&& f.flag() == self.flag()
        &&& n == 0 ==> f.error() == Some(IterError::EOF) && f.same_place(*self)
        &&& n > 0 && !self.flag().is_reversed_spec() ==> f.landed_first(0)
        &&& n > 0 && self.flag().is_reversed_spec() ==> f.landed_last(n - 1)
    }

    /// What moving to the next entry in the direction of the flag gives:
    /// from before the first block, the first entry in that direction.
    pub open spec fn step_result(&self, f: Self) -> bool {
        if self.block_pos() == -1 {
            self.rewind_result(f)
        } else if !self.flag().is_reversed_spec() {
            self.next_in_result(f)
        } else {
            self.prev_result(f)
        }
    }

    /// What seeking `key` in the direction of the flag gives: forward, the
    /// first entry at least `key`; in reverse, that seek followed by a step
    /// back unless the key found is `key`.
    pub open spec fn seek_dir_result(&self, f: Self, key: Seq<u8>) -> bool {
        if !self.flag().is_reversed_spec() {
            self.seek_result(f, key)
        } else {
            exists|mid: Self| {
                &&& #[trigger] self.seek_result(mid, key)
                &&& mid.wf()
                &&& if mid.block_iter() matches Some(b) && b.key_view() != key {
                    mid.prev_result(f)
                } else {
                    f == mid
                }
            }
        }
    }

    /// Moves to the first block, without reading it.
    pub fn reset(&mut self)
        requires
            old(self).wf(),
        ensures
            final(self).wf(),
            final(self).table_view() == old(self).table_view(),
            final(self).flag() == old(self).flag(),
            final(self).block_pos() == 0,
            final(self).block_iter() == old(self).block_iter(),
            final(self).loaded_view() == old(self).loaded_view(),
            final(self).error() is None,
    {
        self.bpos = 0;
        self.err = None;
    }
}

/// At an entry of a block that a builder stored for the entries `es`, a
/// table iterator has that entry's key and value as they were added (the
/// version is zero, which a block does not store); and the block holds
/// exactly as many entries.
pub proof fn lemma_iterator_reads_built_block(it: UniTableIterator, es: Seq<(Seq<u8>, ValueView)>)
    requires
        it.at_entry_view(),
        it.holds_block(it.block_iter()->0.block_id_view() as int),
        built_block_at(it.table_view(), it.block_iter()->0.block_id_view() as int, es),
    ensures
        it.block_iter()->0.offsets().len() == es.len(),
        it.block_iter()->0.key_view() == es[it.block_iter()->0.index() as int].0,
        value_decoding(it.block_iter()->0.val_view()) == (ValueView { version: 0, ..es[it.block_iter()->0.index() as int].1 }),
{
    let b = it.block_iter()->0;
    let q = b.block_id_view() as int;
    lemma_built_block_read(it.table_view(), q, es);
    assert(b.block_view() == built_block_view(it.table_view(), q, es));
    let i = b.index() as int;
    assert(decoded_key(b.entries_data(), b.offsets(), i) == es[i].0);
    assert(value_decoding(entry_value_bytes(b.entries_data(), b.offsets(), i)) == (ValueView { version: 0, ..es[i].1 }));
}

/// Reading a block a builder stored never fails: landing in it puts the
/// iterator at an entry (the block has entries) at the position it went
/// to.
pub proof fn lemma_built_block_lands(it: UniTableIterator, q: int, es: Seq<(Seq<u8>, ValueView)>)
    requires
        it.landed_first(q),
        built_block_at(it.table_view(), q, es),
    ensures
        it.holds_block(q),
        it.at_entry_view(),
        it.block_iter()->0.index() == 0,
{
    lemma_built_block_read(it.table_view(), q, es);
}

/// Whether the entries `es` of a block can be stored and read back: at
/// least one, with a non-empty first key, fewer than 2^32, within 32-bit
/// offsets, small enough to compress, and the key fits the cipher.
pub open spec fn block_entries_readable(
    es: Seq<(Seq<u8>, ValueView)>,
    compression: Compression,
    encryption: (EncryptionAlgorithm, Seq<u8>),
    algo: ChecksumAlgorithm,
) -> bool {
    &&& es.len() > 0
    &&& es[0].0.len() > 0
    &&& es.len() < 0x1_0000_0000
    &&& entries_fit(es)
    &&& built_block(es).data.len() + 4 * es.len() + 34 <= usize::MAX
    &&& compressible(finished_block(es, algo), compression)
    &&& encryption.0 == EncryptionAlgorithm::Aes ==> encryption.1.len() == 16 || encryption.1.len() == 24 || encryption.1.len() == 32
}

proof fn lemma_size_before_drop_last(bs: Seq<BBlockView>, k: int)
    requires
        0 <= k < bs.len(),
    ensures
        blocks_size_before(bs.drop_last(), k) == blocks_size_before(bs, k),
    decreases k,
{
    if k > 0 {
        lemma_size_before_drop_last(bs, k - 1);
    }
}

proof fn lemma_blocks_bytes_len(bs: Seq<BBlockView>)
    ensures
        blocks_bytes(bs).len() == blocks_size_before(bs, bs.len() as int),
    decreases bs.len(),
{
    if bs.len() > 0 {
        lemma_blocks_bytes_len(bs.drop_last());
        lemma_size_before_drop_last(bs, bs.len() - 1);
    }
}

/// Block `i` lies in the bytes of the blocks where the sizes of the blocks
/// before it end.
proof fn lemma_blocks_bytes_at(bs: Seq<BBlockView>, i: int)
    requires
        0 <= i < bs.len(),
    ensures
        blocks_size_before(bs, i) + bs[i].data.len() <= blocks_bytes(bs).len(),
        blocks_bytes(bs).subrange(blocks_size_before(bs, i) as int, (blocks_size_before(bs, i) + bs[i].data.len()) as int) == bs[i].data,
    decreases bs.len(),
{
    let last = bs.len() - 1;
    let pre = blocks_bytes(bs.drop_last());
    lemma_blocks_bytes_len(bs.drop_last());
    lemma_size_before_drop_last(bs, last);
    assert(blocks_bytes(bs) == pre + bs[last].data);
    if i == last {
        assert(blocks_bytes(bs).subrange(pre.len() as int, (pre.len() + bs[last].data.len()) as int) =~= bs[last].data);
    } else {
        lemma_blocks_bytes_at(bs.drop_last(), i);
        lemma_size_before_drop_last(bs, i);
        let a = blocks_size_before(bs, i) as int;
        let b = a + bs[i].data.len();
        assert(blocks_bytes(bs).subrange(a, b) =~= pre.subrange(a, b));
    }
}

/// A table read from what a builder built holds, block by block, what the
/// builder stored for the entries added: when the table's bytes start with
/// the stored blocks, within 32-bit offsets, and its index gives each
/// block's offset and length, every block is the one stored for its
/// entries.
pub proof fn lemma_built_table_blocks(
    t: TableData,
    bs: Seq<BBlockView>,
    es: Seq<Seq<(Seq<u8>, ValueView)>>,
    rest: Seq<u8>,
)
    requires
        t.data@ == blocks_bytes(bs) + rest,
        blocks_bytes(bs).len() < 0x1_0000_0000,
        t.block_offsets@.len() == bs.len(),
        forall|i: int| 0 <= i < bs.len() ==> {
            &&& (#[trigger] t.block_offsets@[i]).offset == trunc32(blocks_size_before(bs, i))
            &&& t.block_offsets@[i].len == trunc32(bs[i].data.len())
        },
        es.len() == bs.len(),
        forall|i: int| 0 <= i < bs.len() ==> block_stored(#[trigger] bs[i], es[i], t.compression, t.encryption@, t.checksum),
        forall|i: int| 0 <= i < es.len() ==> block_entries_readable(#[trigger] es[i], t.compression, t.encryption@, t.checksum),
    ensures
        forall|i: int| 0 <= i < bs.len() ==> #[trigger] built_block_at(t, i, es[i]),
{
    assert forall|i: int| 0 <= i < bs.len() implies #[trigger] built_block_at(t, i, es[i]) by {
        lemma_built_table_block(t, bs, es[i], rest, i);
    }
}

#[verifier::spinoff_prover]
#[verifier::rlimit(40)]
proof fn lemma_built_table_block(
    t: TableData,
    bs: Seq<BBlockView>,
    e: Seq<(Seq<u8>, ValueView)>,
    rest: Seq<u8>,
    i: int,
)
    requires
        0 <= i < bs.len(),
        t.data@ == blocks_bytes(bs) + rest,
        blocks_bytes(bs).len() < 0x1_0000_0000,
        t.block_offsets@.len() == bs.len(),
        t.block_offsets@[i].offset == trunc32(blocks_size_before(bs, i)),
        t.block_offsets@[i].len == trunc32(bs[i].data.len()),
        block_stored(bs[i], e, t.compression, t.encryption@, t.checksum),
        block_entries_readable(e, t.compression, t.encryption@, t.checksum),
    ensures
        built_block_at(t, i, e),
{
    lemma_blocks_bytes_at(bs, i);
    let a = blocks_size_before(bs, i) as int;
    let b = a + bs[i].data.len();
    assert(a < 0x1_0000_0000 && bs[i].data.len() < 0x1_0000_0000);
    assert(t.block_offsets@[i].offset == a);
    assert(t.block_offsets@[i].len == bs[i].data.len());
    assert(t.data@.subrange(a, b) =~= bs[i].data) by {
        assert(t.data@.subrange(a, b) =~= blocks_bytes(bs).subrange(a, b));
    }
    assert(stored_block(t, i) == Some(bs[i].data));
    lemma_stored_block_reads_back(bs[i], e, t.compression, t.encryption@, t.checksum);
}

/// What an iterator reads from a table a builder built is what was added:
/// at an entry of block `q`, the key and the value are those of the
/// entry at its position among the entries added to that block (the
/// version is zero, which a block does not store).
pub proof fn lemma_table_reads_back(
    it: UniTableIterator,
    bs: Seq<BBlockView>,
    es: Seq<Seq<(Seq<u8>, ValueView)>>,
    rest: Seq<u8>,
)
    requires
        it.at_entry_view(),
        it.holds_block(it.block_iter()->0.block_id_view() as int),
        it.table_view().data@ == blocks_bytes(bs) + rest,
        blocks_bytes(bs).len() < 0x1_0000_0000,
        it.table_view().block_offsets@.len() == bs.len(),
        forall|i: int| 0 <= i < bs.len() ==> {
            &&& (#[trigger] it.table_view().block_offsets@[i]).offset == trunc32(blocks_size_before(bs, i))
            &&& it.table_view().block_offsets@[i].len == trunc32(bs[i].data.len())
        },
        es.len() == bs.len(),
        forall|i: int| 0 <= i < bs.len() ==> block_stored(#[trigger] bs[i], es[i], it.table_view().compression, it.table_view().encryption@, it.table_view().checksum),
        forall|i: int| 0 <= i < es.len() ==> block_entries_readable(#[trigger] es[i], it.table_view().compression, it.table_view().encryption@, it.table_view().checksum),
    ensures
        ({
            let q = it.block_iter()->0.block_id_view() as int;
            let i = it.block_iter()->0.index() as int;
            &&& 0 <= q < es.len()
            &&& 0 <= i < es[q].len()
            &&& it.block_iter()->0.key_view() == es[q][i].0
            &&& value_decoding(it.block_iter()->0.val_view()) == (ValueView { version: 0, ..es[q][i].1 })
        }),
{
    let t = it.table_view();
    let q = it.block_iter()->0.block_id_view() as int;
    lemma_built_table_blocks(t, bs, es, rest);
    assert(built_block_at(t, q, es[q]));
    lemma_iterator_reads_built_block(it, es[q]);
}

/// A bound above every position within a block: more than any number of
/// entries a block can hold, plus two.
pub open spec fn position_bound() -> nat {
    usize::MAX as nat + 2
}

impl<'a> UniTableIterator<'a> {
    /// How far the iterator is from its end in the direction of the flag,
    /// in two parts: blocks, then entries within a block.
    pub open spec fn progress_parts(&self) -> (int, int) {
        let n = self.table_view().block_offsets@.len() as int;
        let m = position_bound() as int;
        let p = self.block_pos() as int;
        let i = match self.block_iter() {
            Some(b) => b.index() as int,
            None => 0,
        };
        if p < 0 {
            (n + 2, 0)
        } else if !self.flag().is_reversed_spec() {
            (n - p, if self.loaded_view() { m - 2 - i } else { m - 1 })
        } else {
            (p + 1, if self.loaded_view() { i + 1 } else { m - 1 })
        }
    }

    /// How far the iterator is from its end in the direction of the flag:
    /// each step that leaves it at an entry makes this smaller.
    pub open spec fn progress(&self) -> nat {
        (self.progress_parts().0 * position_bound() + self.progress_parts().1) as nat
    }

    /// Whether an iterator within the table without an error holds a block:
    /// it does unless it was only moved to the first block by hand.
    pub open spec fn positioned(&self) -> bool {
        self.block_pos() >= 0 && self.error() is None ==> self.block_iter() is Some
    }

    /// Stepping from an entry, rewinding and seeking leave an iterator
    /// positioned.
    pub proof fn lemma_positioned_kept(&self, f: Self, key: Seq<u8>)
        requires
            self.positioned(),
            (self.step_result(f) && self.error() is None) || self.rewind_result(f) || self.seek_dir_result(f, key),
        ensures
            f.positioned(),
    {
        if self.seek_dir_result(f, key) && self.flag().is_reversed_spec() {
            let mid = choose|mid: Self| {
                &&& #[trigger] self.seek_result(mid, key)
                &&& mid.wf()
                &&& if mid.block_iter() matches Some(b) && b.key_view() != key {
                    mid.prev_result(f)
                } else {
                    f == mid
                }
            };
            assert(mid.positioned());
        }
    }

    /// A well formed iterator keeps its measure of progress within bounds.
    pub proof fn lemma_progress_bounded(&self)
        requires
            self.wf(),
        ensures
            self.table_view().block_offsets@.len() < isize::MAX,
            0 <= self.progress_parts().0 <= self.table_view().block_offsets@.len() + 2,
            0 <= self.progress_parts().1 < position_bound(),
            self.progress() < (self.table_view().block_offsets@.len() + 3) * position_bound(),
    {
        let n = self.table_view().block_offsets@.len() as int;
        if self.loaded {
            let b = self.bi->0;
            assert(4 * b.offsets().len() <= usize::MAX);
        }
        let (a, x) = self.progress_parts();
        lemma_lex_measure(a, x, n + 3, 0, position_bound() as int);
    }
}

/// The measure `a * m + x`, with `x` below `m`, orders lexicographically.
pub proof fn lemma_lex_measure(a: int, x: int, b: int, y: int, m: int)
    by (nonlinear_arith)
    requires
        0 <= a,
        0 <= x < m,
        0 <= y,
        a < b || (a == b && x < y),
    ensures
        a * m + x < b * m + y,
        0 <= a * m + x,
{
}

/// A step from an entry that leaves the iterator at an entry brings it
/// closer to its end: its measure of progress decreases.
pub proof fn lemma_step_progresses(o: UniTableIterator, f: UniTableIterator)
    requires
        o.wf(),
        f.wf(),
        o.positioned(),
        o.error() is None,
        o.step_result(f),
        f.error() is None,
    ensures
        f.progress() < o.progress(),
{
    o.lemma_progress_bounded();
    f.lemma_progress_bounded();
    assert(f.table_view() == o.table_view());
    let (a, x) = f.progress_parts();
    let (b, y) = o.progress_parts();
    let n = o.table_view().block_offsets@.len() as int;
    let p = o.block_pos() as int;
    let rev = o.flag().is_reversed_spec();
    assert(f.flag() == o.flag());
    if p == -1 {
        assert(o.rewind_result(f));
        assert(n > 0);
        if !rev {
            assert(f.landed_first(0));
            assert(f.holds_block(0));
            assert(a == n);
        } else {
            assert(f.landed_last(n - 1));
            assert(f.holds_block(n - 1));
            assert(a == n);
        }
    } else if !rev {
        assert(o.next_in_result(f));
        assert(p < n);
        assert(o.block_iter() is Some);
        if !o.loaded_view() {
            assert(f.landed_first(p));
            assert(f.holds_block(p));
            assert(a == b);
        } else if o.block_iter()->0.index() + 1 < o.block_iter()->0.offsets().len() {
            assert(f.moved_within(o, o.block_iter()->0.index() + 1));
            assert(a == b);
        } else {
            assert(p + 1 < n);
            assert(f.landed_first(p + 1));
            assert(f.holds_block(p + 1));
            assert(a < b);
        }
    } else {
        assert(o.prev_result(f));
        assert(o.block_iter() is Some);
        if !o.loaded_view() {
            assert(f.landed_last(p));
            assert(f.holds_block(p));
            assert(a == b);
        } else if 1 <= o.block_iter()->0.index() <= o.block_iter()->0.offsets().len() {
            assert(f.moved_within(o, o.block_iter()->0.index() - 1));
            assert(a == b);
        } else {
            assert(p != 0);
            assert(f.landed_last(p - 1));
            assert(f.holds_block(p - 1));
            assert(a < b);
        }
    }
    lemma_lex_measure(a, x, b, y, position_bound() as int);
}

impl<'a> BableIterator for UniTableIterator<'a> {
    open spec fn iter_wf(&self) -> bool {
        self.wf()
    }

    open spec fn value_readable(&self) -> bool {
        self.block_iter() matches Some(b) ==> b.val_view().len() >= 2
    }

    open spec fn steppable(&self) -> bool {
        true
    }

    open spec fn entry_bound(&self) -> Option<usize> {
        Some(self.table_view().num_entries)
    }

    /// The key at the current position, once a block has been read.
    fn key(&self) -> (r: Option<KeyRef>)
        ensures
            self.block_iter() is None ==> r is None,
            self.block_iter() matches Some(b) ==> (r matches Some(k) && k@ == b.key_view()),
    {
        match &self.bi {
            Some(bi) => Some(bi.get_key()),
            None => None,
        }
    }

    /// The value at the current position, once a block has been read.
    fn val(&self) -> (r: Option<ValueRef>)
        ensures
            self.block_iter() is None ==> r is None,
            self.block_iter() matches Some(b) ==> (r matches Some(v) && v@ == value_decoding(b.val_view())),
    {
        match &self.bi {
            Some(bi) => Some(bi.get_val()),
            None => None,
        }
    }

    /// The key and the value at the current position, once a block has
    /// been read.
    fn entry(&self) -> (r: Option<(KeyRef, ValueRef)>)
        ensures
            self.block_iter() is None ==> r is None,
            self.block_iter() matches Some(b) ==> (r matches Some(e) && e.0@ == b.key_view()
                && e.1@ == value_decoding(b.val_view())),
    {
        match &self.bi {
            Some(bi) => Some(bi.entry()),
            None => None,
        }
    }

    /// Whether there is no error.
    fn valid(&self) -> (r: bool)
        ensures
            r == (self.error() is None),
    {
        self.err.is_none()
    }

    /// The bounds of the number of entries: none to all of the table's.
    fn size_hint(&self) -> (r: (usize, Option<usize>))
        ensures
            r == (0usize, Some(self.table_view().num_entries)),
    {
        (0, Some(self.num_entries))
    }

    /// The number of entries of the table.
    fn count(&self) -> (r: usize)
        ensures
            r == self.table_view().num_entries,
    {
        self.num_entries
    }

    /// Moves to the next entry in the direction of the flag; from before
    /// the first block, to the first entry in that direction.
    fn next(&mut self)
        ensures
            old(self).step_result(*final(self)),
    {
        if self.bpos == -1 {
            self.rewind();
        } else if !self.opt.is_reversed() {
            self.next_in();
        } else {
            self.prev();
        }
    }

    /// Moves to the first entry in the direction of the flag.
    fn rewind(&mut self)
        ensures
            old(self).rewind_result(*final(self)),
    {
        if !self.opt.is_reversed() {
            self.seek_to_first()
        } else {
            self.seek_to_last()
        }
    }

    /// Seeks `key` in the direction of the flag: forward, the first entry
    /// at least `key`; in reverse, the last entry at most `key`.
    fn seek(&mut self, key: &[u8])
        ensures
            old(self).seek_dir_result(*final(self), key@),
    {
        if !self.opt.is_reversed() {
            self.seek_from_key(key, SeekFrom::Origin)
        } else {
            self.seek_to_key(key)
        }
    }
}

} // verus!
