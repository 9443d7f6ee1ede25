//! A table opened from its bytes and its decoded index: the smallest and
//! biggest keys, the figures of the index, the bloom filter, verifying
//! every block, and iterating.
use vstd::prelude::*;
use crate::bloom::{may_contain_defined, may_contain_is_defined, may_contain_spec, MayContain};
use crate::bytes::has_prefix;
use crate::checksum::{checksum_encoding, checksum_of, ChecksumAlgorithm};
use crate::compression::{Compression, CompressionAlgorithm};
use crate::encrypt::Encryption;
use crate::iterator::BableIterator;
use crate::key::{key_part, Key, KeyExt};
use crate::pb::{BlockOffset, TableIndex};
use crate::table::{block_view_readable, decoded_key, Block, BlockView};
use crate::table_iter::{block_read, built_block_at, built_block_view, lemma_built_block_read, read_of_block, Flag, TableData, UniTableIterator};
use crate::table_reader::{verifies_blocks, ChecksumVerificationMode, TableError};
use crate::value::ValueView;

verus! {

/// How a table is read.
pub struct ReadOptions {
    /// The size of a block before compression.
    pub block_size: u64,
    /// How blocks are compressed.
    pub compression: Compression,
    /// How blocks and the index are encrypted.
    pub encryption: Encryption,
    /// The checksum algorithm.
    pub checksum: ChecksumAlgorithm,
    /// When checksums are verified.
    pub checksum_verification_mode: ChecksumVerificationMode,
}

impl ReadOptions {
    /// Refuses a block size of zero for compressed blocks: the size is what
    /// a block is expected to decompress to.
    pub fn validate(&self) -> (r: Result<(), TableError>)
        ensures
            r is Ok <==> !(self.block_size == 0 && self.compression.algo != CompressionAlgorithm::Uncompressed),
            r matches Err(e) ==> e is EmptyBlock,
    {
        if self.block_size == 0 && self.compression.is_some() {
            Err(TableError::EmptyBlock)
        } else {
            Ok(())
        }
    }
}

/// Whether block `i` of the table reads, with a checksum that matches its
/// data.
pub open spec fn block_checks(t: TableData, i: int) -> bool {
    exists|bv: BlockView| {
        &&& #[trigger] block_view_readable(bv)
        &&& forall|es: Seq<(Seq<u8>, ValueView)>| #[trigger] built_block_at(t, i, es) ==> bv == built_block_view(t, i, es)
        &&& checksum_encoding(checksum_of(bv.data, t.checksum)) == bv.checksum
    }
}

/// The table an iterator reads, from the bytes, the index and the options
/// a table is opened with.
pub open spec fn opened_data(id: u64, data: Vec<u8>, index: TableIndex, opts: ReadOptions) -> TableData {
    TableData {
        id,
        data,
        block_offsets: index.offsets,
        compression: opts.compression,
        encryption: opts.encryption,
        checksum: opts.checksum,
        mode: opts.checksum_verification_mode,
        num_entries: index.key_count as usize,
    }
}

/// Whether block `i` of the table is one a builder stored.
pub open spec fn block_is_built(t: TableData, i: int) -> bool {
    exists|es: Seq<(Seq<u8>, ValueView)>| #[trigger] built_block_at(t, i, es)
}

/// Whether `k` is the key at the last entry of the last block of the table,
/// as it reads.
pub open spec fn last_key_of(t: TableData, k: Seq<u8>) -> bool {
    let n = t.block_offsets@.len() as int;
    exists|bv: BlockView| {
        &&& #[trigger] block_read(t, n - 1, bv)
        &&& bv.entry_offsets.len() > 0
        &&& k == decoded_key(bv.data.take(bv.entries_index_start as int), bv.entry_offsets, bv.entry_offsets.len() - 1)
    }
}

/// A table opened from its bytes and its decoded index.
pub struct RawTable {
    data: TableData,
    smallest: Key,
    biggest: Key,
    bloom_filter: Vec<u8>,
    estimated_size: u32,
    max_version: u64,
    key_count: u32,
    uncompressed_size: u32,
    stale_data_size: u32,
    checksum: Vec<u8>,
    in_memory: bool,
}

impl RawTable {
    /// The table as its iterators read it.
    pub closed spec fn table_data(&self) -> TableData {
        self.data
    }

    /// The decoded index.
    pub closed spec fn index_view(&self) -> TableIndex {
        TableIndex {
            offsets: self.data.block_offsets,
            bloom_filter: self.bloom_filter,
            estimated_size: self.estimated_size,
            max_version: self.max_version,
            key_count: self.key_count,
            uncompressed_size: self.uncompressed_size,
            stale_data_size: self.stale_data_size,
        }
    }

    /// The smallest key.
    pub closed spec fn smallest_view(&self) -> Seq<u8> {
        self.smallest@
    }

    /// The biggest key.
    pub closed spec fn biggest_view(&self) -> Seq<u8> {
        self.biggest@
    }

    /// The stored checksum of the index.
    pub closed spec fn checksum_view(&self) -> Seq<u8> {
        self.checksum@
    }

    /// Whether the table lives in memory only.
    pub closed spec fn in_memory_view(&self) -> bool {
        self.in_memory
    }

    /// The blocks are those of the index, there is at least one, and the
    /// smallest key is the first key of the first block.
    pub closed spec fn wf(&self) -> bool {
        &&& 0 < self.data.block_offsets@.len() < isize::MAX
        &&& self.data.num_entries == self.key_count
        &&& self.smallest@ == self.data.block_offsets@[0].key@
    }

    /// Opens a table from its bytes, the index decoded from them and the
    /// stored checksum of the index: the smallest key is the first key of
    /// the index, the biggest is the last key of the last block, and when
    /// the mode asks for it every block is verified.
    pub fn open(
        id: u64,
        data: Vec<u8>,
        index: TableIndex,
        checksum: Vec<u8>,
        opts: ReadOptions,
        in_memory: bool,
    ) -> (r: Result<RawTable, TableError>)
        requires
            0 < index.offsets@.len() < isize::MAX,
        ensures
            opts.block_size == 0 && opts.compression.algo != CompressionAlgorithm::Uncompressed
                ==> (r matches Err(e) && e is EmptyBlock),
            r matches Ok(t) ==> {
                &&& t.wf()
                &&& t.table_data() == opened_data(id, data, index, opts)
                &&& t.index_view() == index
                &&& t.checksum_view() == checksum@
                &&& t.in_memory_view() == in_memory
                &&& last_key_of(t.table_data(), t.biggest_view())
                &&& (opts.checksum_verification_mode == ChecksumVerificationMode::OnTableRead
                    || opts.checksum_verification_mode == ChecksumVerificationMode::OnTableAndBlockRead)
                    ==> forall|i: int| 0 <= i < t.table_data().block_offsets@.len() ==> #[trigger] block_checks(t.table_data(), i)
            },
            (r matches Err(e) && e is NoBiggestKey) ==> forall|es: Seq<(Seq<u8>, ValueView)>|
                !#[trigger] built_block_at(opened_data(id, data, index, opts), index.offsets@.len() - 1, es),
            r matches Err(TableError::BlockChecksumMismatch { block })
                ==> !block_is_built(opened_data(id, data, index, opts), block as int),
            r matches Err(TableError::BlockOffsetChecksumMismatch { block, offset: _ })
                ==> !block_is_built(opened_data(id, data, index, opts), block as int),
            r matches Err(e) ==> (e is EmptyBlock || e is NoBiggestKey || e is BlockChecksumMismatch
                || e is BlockOffsetChecksumMismatch),
            (r matches Err(e) && e is EmptyBlock) ==> opts.block_size == 0 && opts.compression.algo != CompressionAlgorithm::Uncompressed,
            !(opts.block_size == 0 && opts.compression.algo != CompressionAlgorithm::Uncompressed)
                && (forall|i: int| 0 <= i < index.offsets@.len() ==> #[trigger] block_is_built(opened_data(id, data, index, opts), i))
                ==> r is Ok,
    {
        match opts.validate() {
            Ok(()) => {},
            Err(e) => return Err(e),
        }
        let smallest = Key::copy_from_slice(index.offsets[0].key.as_slice());
        let ReadOptions { block_size: _, compression, encryption, checksum: algo, checksum_verification_mode: mode } = opts;
        let TableIndex { offsets, bloom_filter, estimated_size, max_version, key_count, uncompressed_size, stale_data_size } = index;
        let table_data = TableData {
            id,
            data,
            block_offsets: offsets,
            compression,
            encryption,
            checksum: algo,
            mode,
            num_entries: key_count as usize,
        };
        let biggest = match init_biggest(&table_data) {
            Some(k) => k,
            None => {
                proof {
                    let last = table_data.block_offsets@.len() - 1;
                    if block_is_built(table_data, last) {
                        let es = choose|es: Seq<(Seq<u8>, ValueView)>| built_block_at(table_data, last, es);
                        assert(built_block_at(table_data, last, es));
                    }
                }
                return Err(TableError::NoBiggestKey);
            },
        };
        let t = RawTable {
            data: table_data,
            smallest,
            biggest,
            bloom_filter,
            estimated_size,
            max_version,
            key_count,
            uncompressed_size,
            stale_data_size,
            checksum,
            in_memory,
        };
        if mode == ChecksumVerificationMode::OnTableRead || mode == ChecksumVerificationMode::OnTableAndBlockRead {
            match t.verify_checksum() {
                Ok(()) => {},
                Err(e) => return Err(e),
            }
        }
        Ok(t)
    }

    /// Verifies every block: each must read, and when blocks are not
    /// verified as they are read, its checksum must match.
    pub fn verify_checksum(&self) -> (r: Result<(), TableError>)
        requires
            self.wf(),
        ensures
            r is Ok ==> forall|i: int| 0 <= i < self.table_data().block_offsets@.len() ==> #[trigger] block_checks(self.table_data(), i),
            r matches Err(TableError::BlockChecksumMismatch { block }) ==> !block_is_built(self.table_data(), block as int),
            r matches Err(TableError::BlockOffsetChecksumMismatch { block, offset: _ }) ==> !block_is_built(self.table_data(), block as int),
            r matches Err(TableError::BlockChecksumMismatch { block }) ==> block < self.table_data().block_offsets@.len(),
            r matches Err(TableError::BlockOffsetChecksumMismatch { block, offset: _ }) ==> block < self.table_data().block_offsets@.len(),
            r matches Err(e) ==> e is BlockChecksumMismatch || e is BlockOffsetChecksumMismatch,
    {
        let n = self.data.offsets_length();
        let mut i: usize = 0;
        while i < n
            invariant
                n == self.data.block_offsets@.len(),
                i <= n,
                forall|j: int| 0 <= j < i ==> #[trigger] block_checks(self.data, j),
            decreases n - i,
        {
            let r = self.data.block(i);
            proof {
                if block_is_built(self.data, i as int) {
                    let es = choose|es: Seq<(Seq<u8>, ValueView)>| built_block_at(self.data, i as int, es);
                    lemma_built_block_read(self.data, i as int, es);
                }
            }
            let blk = match r {
                Ok(b) => b,
                Err(_) => {
                    return Err(TableError::BlockChecksumMismatch { block: i as u64 });
                },
            };
            if !verifies_blocks_exec(self.data.mode) {
                match blk.verify_checksum(self.data.checksum) {
                    Ok(()) => {},
                    Err(_) => {
                        return Err(TableError::BlockOffsetChecksumMismatch { block: i as u64, offset: blk.offset() as u64 });
                    },
                }
            }
            proof {
                assert(block_view_readable(blk@));
                assert(block_checks(self.data, i as int));
            }
            i = i + 1;
        }
        Ok(())
    }

    /// The smallest key.
    pub fn smallest(&self) -> (r: &Key)
        ensures
            r@ == self.smallest_view(),
    {
        &self.smallest
    }

    /// The biggest key.
    pub fn biggest(&self) -> (r: &Key)
        ensures
            r@ == self.biggest_view(),
    {
        &self.biggest
    }

    /// The id of the table.
    pub fn id(&self) -> (r: u64)
        ensures
            r == self.table_data().id,
    {
        self.data.id
    }

    /// The largest version in the table.
    pub fn max_version(&self) -> (r: u64)
        ensures
            r == self.index_view().max_version,
    {
        self.max_version
    }

    /// The length of the bloom filter.
    pub fn bloom_filter_size(&self) -> (r: usize)
        ensures
            r == self.index_view().bloom_filter@.len(),
    {
        self.bloom_filter.len()
    }

    /// The size of the blocks before compression.
    pub fn uncompressed_size(&self) -> (r: u32)
        ensures
            r == self.index_view().uncompressed_size,
    {
        self.uncompressed_size
    }

    /// The number of keys.
    pub fn key_count(&self) -> (r: u32)
        ensures
            r == self.index_view().key_count,
    {
        self.key_count
    }

    /// The number of entries, as the index counts them.
    pub fn num_entries(&self) -> (r: usize)
        ensures
            r == self.index_view().key_count,
    {
        self.key_count as usize
    }

    /// The size of the stale data.
    pub fn stale_data_size(&self) -> (r: usize)
        ensures
            r == self.index_view().stale_data_size,
    {
        self.stale_data_size as usize
    }

    /// The size of the table, in 32 bits.
    pub fn on_disk_size(&self) -> (r: u32)
        ensures
            r == self.table_data().data@.len() as u32,
    {
        self.data.data.len() as u32
    }

    /// The secret of the encryption.
    pub fn secret(&self) -> (r: &[u8])
        ensures
            r@ == self.table_data().encryption@.1,
    {
        self.data.encryption.secret()
    }

    /// The compression of the blocks.
    pub fn compression(&self) -> (r: Compression)
        ensures
            r == self.table_data().compression,
    {
        self.data.compression
    }

    /// The stored checksum of the index.
    pub fn checksum(&self) -> (r: &[u8])
        ensures
            r@ == self.checksum_view(),
    {
        self.checksum.as_slice()
    }

    /// Whether the table lives in memory only.
    pub fn in_memory(&self) -> (r: bool)
        ensures
            r == self.in_memory_view(),
    {
        self.in_memory
    }

    /// The number of blocks.
    pub fn offsets_length(&self) -> (r: usize)
        ensures
            r == self.table_data().block_offsets@.len(),
    {
        self.data.offsets_length()
    }

    /// Reads block `idx`.
    pub fn block(&self, idx: usize) -> (r: Result<Block, TableError>)
        ensures
            idx >= self.table_data().block_offsets@.len() ==> r is Err,
            read_of_block(self.table_data(), idx as int, r),
    {
        self.data.block(idx)
    }

    /// Whether the bloom filter can be probed: it is empty, or its probes
    /// are defined.
    pub fn bloom_filter_usable(&self) -> (r: bool)
        ensures
            r == (self.index_view().bloom_filter@.len() > 0 ==> may_contain_defined(self.index_view().bloom_filter@)),
    {
        self.bloom_filter.len() == 0 || may_contain_is_defined(self.bloom_filter.as_slice())
    }

    /// Whether the table certainly lacks the key hash: it has a bloom
    /// filter and the filter rules the hash out.
    pub fn contains_hash(&self, hash: u32) -> (r: bool)
        requires
            self.index_view().bloom_filter@.len() > 0 ==> may_contain_defined(self.index_view().bloom_filter@),
        ensures
            r == (self.index_view().bloom_filter@.len() > 0 && !may_contain_spec(self.index_view().bloom_filter@, hash)),
    {
        if self.bloom_filter.len() == 0 {
            return false;
        }
        !self.bloom_filter.may_contain(hash)
    }

    /// Whether every key of the table starts with `prefix`: the biggest
    /// and the smallest do.
    pub fn covered_by_prefix(&self, prefix: &[u8]) -> (r: bool)
        ensures
            r == (starts_with(key_part(self.biggest_view()), prefix@) && starts_with(key_part(self.smallest_view()), prefix@)),
    {
        has_prefix(self.biggest.parse_key(), prefix) && has_prefix(self.smallest.parse_key(), prefix)
    }

    /// Splits the table into at least `n` ranges by its blocks: the first
    /// keys that start with `prefix` of every `max(1, m / n)`-th block of
    /// the `m`, from the first; none when `n` is zero.
    pub fn key_splits(&self, n: usize, prefix: &[u8]) -> (r: Vec<Key>)
        requires
            self.wf(),
        ensures
            n == 0 ==> r@.len() == 0,
            n != 0 ==> r@.map_values(|k: Key| k@) == split_keys(
                self.index_view().offsets@,
                split_step(self.index_view().offsets@.len(), n as nat),
                prefix@,
                0,
            ),
    {
        let mut res: Vec<Key> = Vec::new();
        if n == 0 {
            return res;
        }
        let offsets_len = self.offsets_length();
        let step: usize = if offsets_len / n == 0 { 1 } else { offsets_len / n };
        let ghost offs = self.data.block_offsets@;
        proof {
            assert(res@.map_values(|k: Key| k@) =~= Seq::<Seq<u8>>::empty());
        }
        let mut i: usize = 0;
        while i < offsets_len
            invariant
                offsets_len == offs.len(),
                offs == self.data.block_offsets@,
                step >= 1,
                i <= offsets_len,
                res@.map_values(|k: Key| k@) + split_keys(offs, step as nat, prefix@, i as nat)
                    == split_keys(offs, step as nat, prefix@, 0),
            decreases offsets_len - i,
        {
            let ghost before = res@.map_values(|k: Key| k@);
            let bo = &self.data.block_offsets[i];
            let next: usize = if step >= offsets_len - i { offsets_len } else { i + step };
            proof {
                lemma_split_keys_step(offs, step as nat, prefix@, i as nat);
                if step >= offsets_len - i {
                    assert(split_keys(offs, step as nat, prefix@, (i + step) as nat) == Seq::<Seq<u8>>::empty());
                    assert(split_keys(offs, step as nat, prefix@, offsets_len as nat) == Seq::<Seq<u8>>::empty());
                }
            }
            if has_prefix(bo.key.as_slice(), prefix) {
                res.push(Key::copy_from_slice(bo.key.as_slice()));
                proof {
                    assert(res@.map_values(|k: Key| k@) =~= before.push(offs[i as int].key@));
                    assert(before.push(offs[i as int].key@) + split_keys(offs, step as nat, prefix@, next as nat)
                        =~= before + (seq![offs[i as int].key@] + split_keys(offs, step as nat, prefix@, next as nat)));
                }
            } else {
                proof {
                    assert(seq![] + split_keys(offs, step as nat, prefix@, next as nat) =~= split_keys(offs, step as nat, prefix@, next as nat));
                }
            }
            i = next;
        }
        proof {
            assert(split_keys(offs, step as nat, prefix@, i as nat) == Seq::<Seq<u8>>::empty());
            assert(res@.map_values(|k: Key| k@) + Seq::<Seq<u8>>::empty() =~= res@.map_values(|k: Key| k@));
        }
        res
    }

    /// An iterator over the table.
    pub fn iter(&self, opt: Flag) -> (r: UniTableIterator<'_>)
        requires
            self.wf(),
        ensures
            r.iter_wf(),
            r.table_view() == self.table_data(),
            r.block_pos() == -1,
            r.block_iter() is None,
            r.error() is None,
            r.flag() == opt,
    {
        UniTableIterator::new(&self.data, opt)
    }
}

/// The step between the blocks that split a table of `m` blocks into at
/// least `n` ranges: `m / n`, and at least one.
pub open spec fn split_step(m: nat, n: nat) -> nat {
    if n == 0 || m / n == 0 {
        1
    } else {
        m / n
    }
}

/// The first keys that start with `prefix` of the blocks at `from`,
/// `from + step`, and so on.
pub open spec fn split_keys(offs: Seq<BlockOffset>, step: nat, prefix: Seq<u8>, from: nat) -> Seq<Seq<u8>>
    decreases offs.len() - from,
    when step >= 1
{
    if from >= offs.len() {
        Seq::empty()
    } else {
        (if starts_with(offs[from as int].key@, prefix) {
            seq![offs[from as int].key@]
        } else {
            Seq::empty()
        }) + (if from + step < offs.len() { split_keys(offs, step, prefix, from + step) } else { Seq::empty() })
    }
}

proof fn lemma_split_keys_step(offs: Seq<BlockOffset>, step: nat, prefix: Seq<u8>, from: nat)
    requires
        step >= 1,
        from < offs.len(),
    ensures
        split_keys(offs, step, prefix, from) == (if starts_with(offs[from as int].key@, prefix) {
            seq![offs[from as int].key@]
        } else {
            Seq::<Seq<u8>>::empty()
        }) + split_keys(offs, step, prefix, from + step),
        from + step >= offs.len() ==> split_keys(offs, step, prefix, from + step) == Seq::<Seq<u8>>::empty(),
{
}

/// Whether `s` starts with `prefix`.
pub open spec fn starts_with(s: Seq<u8>, prefix: Seq<u8>) -> bool {
    prefix.len() <= s.len() && s.take(prefix.len() as int) == prefix
}

/// Whether blocks are verified when read, computed.
fn verifies_blocks_exec(m: ChecksumVerificationMode) -> (r: bool)
    ensures
        r == verifies_blocks(m),
{
    m == ChecksumVerificationMode::OnBlockRead || m == ChecksumVerificationMode::OnTableAndBlockRead
}

/// The biggest key of a table: the key at the last entry of its last
/// block, read by an iterator in reverse; `None` when that block cannot be
/// read or has no entry.
fn init_biggest(t: &TableData) -> (r: Option<Key>)
    requires
        0 < t.block_offsets@.len() < isize::MAX,
    ensures
        r matches Some(k) ==> last_key_of(*t, k@),
        r is None ==> forall|es: Seq<(Seq<u8>, ValueView)>|
            !#[trigger] built_block_at(*t, t.block_offsets@.len() - 1, es),
{
    let flag = Flag::reversed().union(Flag::no_cache());
    proof {
        assert((2u8 | 4u8) & 2u8 != 0) by (bit_vector);
    }
    let mut iter = UniTableIterator::new(t, flag);
    iter.rewind();
    let ghost n = t.block_offsets@.len() as int;
    if !iter.valid() {
        proof {
            assert forall|es: Seq<(Seq<u8>, ValueView)>| !#[trigger] built_block_at(*t, n - 1, es) by {
                if built_block_at(*t, n - 1, es) {
                    lemma_built_block_read(*t, n - 1, es);
                }
            }
        }
        return None;
    }
    match iter.key() {
        Some(k) => {
            let r = k.to_key();
            proof {
                let bv = iter.block_iter()->0.block_view();
                assert(block_read(*t, n - 1, bv));
            }
            Some(r)
        },
        None => None,
    }
}

} // verus!
