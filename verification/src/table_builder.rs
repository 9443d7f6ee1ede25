//! Building a table. Entries fill blocks of about the configured size;
//! each finished block is compressed, then encrypted with a fresh IV that
//! follows it, as configured. The table is its blocks, its index, the
//! index's length (four big-endian bytes), the index's checksum and the
//! checksum's length (four big-endian bytes).
use vstd::prelude::*;
use crate::bloom::{filter_bytes_for, hash, hash_spec, is_filter_of, Filter};
use crate::checksum::{calculate_checksum, checksum_encoding, checksum_of, lemma_checksum_encoding_len, ChecksumAlgorithm};
use crate::compression::{compress_into_vec, compresses_to, snappy_max_len, Compression, CompressionAlgorithm, CompressionError};
use crate::encrypt::{encrypt_to_vec, encryption_of, random_iv, Encryption, EncryptError, EncryptionAlgorithm};
use crate::entry::trunc32;
use crate::key::{key_part, timestamp_of, Key, KeyExt};
use crate::pb::{table_index_encoding, BlockOffset, TableIndex};
use crate::table::{be32, built_block, finished_block, push_be32, BlockBuilder};
use crate::value::{encoded_size_of, Value, ValueExt, ValueView};

verus! {

/// What a table builder is configured with. The sizes that the store
/// derives from its floating-point settings (the capacity, a share of the
/// table size, and the bloom filter's bits per key, from its false
/// positive rate) arrive here computed.
pub struct BuilderOptions {
    /// The size a block is finished at.
    pub block_size: usize,
    /// The size a table counts as full at.
    pub table_capacity: u64,
    /// How blocks are compressed.
    pub compression: Compression,
    /// How blocks and the index are encrypted.
    pub encryption: Encryption,
    /// The algorithm of the block and index checksums.
    pub checksum: ChecksumAlgorithm,
    /// The bits per key of the bloom filter, when there is one.
    pub bloom_bits_per_key: Option<usize>,
}

/// Why building a table failed.
pub enum BuilderError {
    /// Compressing a block failed.
    Compression(CompressionError),
    /// Encrypting a block or the index failed.
    Encryption(EncryptError),
}

/// A finished block as the table stores it, with its first key and its
/// number of entries.
pub struct BBlock {
    pub data: Vec<u8>,
    pub base_key: Vec<u8>,
    pub entries: usize,
}

/// Whether `out` is what the table stores for the finished block `raw`:
/// its compression, and with encryption, the compression encrypted with
/// the IV that follows it.
pub open spec fn processed_block(
    raw: Seq<u8>,
    out: Seq<u8>,
    compression: Compression,
    encryption: (EncryptionAlgorithm, Seq<u8>),
) -> bool {
    if encryption.0 == EncryptionAlgorithm::Unencrypted {
        compresses_to(raw, out, compression)
    } else {
        exists|c: Seq<u8>| {
            &&& #[trigger] compresses_to(raw, c, compression)
            &&& out.len() == c.len() + 16
            &&& encryption_of(c, encryption.1, out.skip(c.len() as int), EncryptionAlgorithm::Aes) == Some(out.take(c.len() as int))
        }
    }
}

/// Whether compressing `raw` as configured cannot fail: without
/// compression, with LZ4, or with Snappy on few enough bytes. Zstd's
/// outcome rests with the outside encoder.
pub open spec fn compression_owed(raw: Seq<u8>, compression: Compression) -> bool {
    ||| compression.algo == CompressionAlgorithm::Uncompressed
    ||| compression.algo == CompressionAlgorithm::Lz4
    ||| (compression.algo == CompressionAlgorithm::Snappy && snappy_max_len(raw.len() as usize) != 0)
}

/// Whether the key fits the encryption: no encryption, or an AES key of
/// 16, 24 or 32 bytes.
pub open spec fn encryption_key_fits(encryption: (EncryptionAlgorithm, Seq<u8>)) -> bool {
    encryption.0 == EncryptionAlgorithm::Unencrypted || encryption.1.len() == 16 || encryption.1.len() == 24
        || encryption.1.len() == 32
}

/// Encrypts `data` with a fresh random IV and appends the IV; without
/// encryption the data stays.
fn encrypt_with_fresh_iv(data: Vec<u8>, encryption: &Encryption) -> (r: Result<Vec<u8>, EncryptError>)
    ensures
        encryption@.0 == EncryptionAlgorithm::Unencrypted ==> (r matches Ok(v) && v@ == data@),
        encryption@.0 == EncryptionAlgorithm::Aes ==> (r matches Ok(v) ==> {
            &&& v@.len() == data@.len() + 16
            &&& encryption_of(data@, encryption@.1, v@.skip(data@.len() as int), EncryptionAlgorithm::Aes) == Some(v@.take(data@.len() as int))
        }),
        encryption@.0 == EncryptionAlgorithm::Aes ==> (r is Ok <==> (encryption@.1.len() == 16 || encryption@.1.len() == 24 || encryption@.1.len() == 32)),
{
    match encryption.algorithm() {
        EncryptionAlgorithm::Unencrypted => Ok(data),
        EncryptionAlgorithm::Aes => {
            let iv = random_iv();
            let ghost ivs = iv@;
            match encrypt_to_vec(data.as_slice(), encryption.secret(), &iv, EncryptionAlgorithm::Aes) {
                Ok(mut out) => {
                    let ghost enc = out@;
                    let mut i: usize = 0;
                    while i < 16
                        invariant
                            i <= 16,
                            ivs.len() == 16,
                            iv@ == ivs,
                            out@ == enc + ivs.take(i as int),
                        decreases 16 - i,
                    {
                        out.push(iv[i]);
                        proof {
                            assert(ivs.take(i + 1) =~= ivs.take(i as int).push(ivs[i as int]));
                        }
                        i = i + 1;
                    }
                    proof {
                        assert(ivs.take(16) =~= ivs);
                        assert(out@.skip(data@.len() as int) =~= ivs);
                        assert(out@.take(data@.len() as int) =~= enc);
                    }
                    Ok(out)
                },
                Err(e) => Err(e),
            }
        },
    }
}

/// Compresses and encrypts a finished block as configured.
fn process_block(raw: &[u8], compression: Compression, encryption: &Encryption) -> (r: Result<Vec<u8>, BuilderError>)
    ensures
        r matches Ok(out) ==> processed_block(raw@, out@, compression, encryption@),
        compression_owed(raw@, compression) && encryption_key_fits(encryption@) ==> r is Ok,
        compression_owed(raw@, compression) && !encryption_key_fits(encryption@) ==> (r matches Err(BuilderError::Encryption(_))),
        r matches Err(BuilderError::Compression(e)) ==> !compression_owed(raw@, compression) && (match compression.algo {
            CompressionAlgorithm::Snappy => e is Snappy,
            _ => e is Zstd,
        }),
        r matches Err(BuilderError::Encryption(_)) ==> !encryption_key_fits(encryption@),
{
    let c = match compress_into_vec(raw, compression) {
        Ok(c) => c,
        Err(e) => return Err(BuilderError::Compression(e)),
    };
    match encrypt_with_fresh_iv(c, encryption) {
        Ok(out) => Ok(out),
        Err(e) => Err(BuilderError::Encryption(e)),
    }
}

/// The concatenation of the sequences, in order.
pub open spec fn flatten<T>(s: Seq<Seq<T>>) -> Seq<T>
    decreases s.len(),
{
    if s.len() == 0 {
        Seq::empty()
    } else {
        flatten(s.drop_last()) + s.last()
    }
}

/// What a finished block holds.
pub struct BBlockView {
    pub data: Seq<u8>,
    pub base_key: Seq<u8>,
    pub entries: nat,
}

impl View for BBlock {
    type V = BBlockView;

    open spec fn view(&self) -> BBlockView {
        BBlockView { data: self.data@, base_key: self.base_key@, entries: self.entries as nat }
    }
}

/// Whether `b` is what the table stores for a block of the entries `es`:
/// the processed bytes of the finished block, its base key and its number
/// of entries.
#[verifier::opaque]
pub open spec fn block_stored(
    b: BBlockView,
    es: Seq<(Seq<u8>, ValueView)>,
    compression: Compression,
    encryption: (EncryptionAlgorithm, Seq<u8>),
    algo: ChecksumAlgorithm,
) -> bool {
    &&& processed_block(finished_block(es, algo), b.data, compression, encryption)
    &&& b.base_key == built_block(es).base
    &&& b.entries == es.len()
}

/// The bytes an IV adds to a block.
pub open spec fn iv_size(algo: EncryptionAlgorithm) -> nat {
    if algo == EncryptionAlgorithm::Aes {
        16
    } else {
        0
    }
}

/// The estimated size of a block of `len` entries ending at `end` once an
/// entry of a key of `key_size` bytes and a value of `val_size` encoded
/// bytes is added: a 6-byte header, the entry offsets, their count, a
/// checksum of 12 bytes and the IV (the end and the count taken to 32
/// bits).
pub open spec fn estimated_block_size(end: nat, len: nat, key_size: nat, val_size: nat, iv: nat) -> int {
    trunc32(end) as int + 6 + key_size + val_size + (trunc32(len) + 1) * 4 + 4 + 12 + iv
}

/// Whether the current block is finished before the next entry: it has
/// entries, and the estimate exceeds the block size (taken to 32 bits).
pub open spec fn block_is_full(end: nat, len: nat, key_size: nat, val_size: nat, iv: nat, block_size: usize) -> bool {
    len > 0 && estimated_block_size(end, len, key_size, val_size, iv) > trunc32(block_size as nat)
}

/// Whether the estimate of a block stays within 32 bits, as the builder
/// requires.
pub open spec fn block_estimate_fits(end: nat, len: nat, key_size: nat, val_size: nat, iv: nat) -> bool {
    len == 0 || {
        &&& (trunc32(len) + 1) * 4 + 4 + 12 < u32::MAX
        &&& estimated_block_size(end, len, key_size, val_size, iv) <= u32::MAX
        &&& trunc32(end) + estimated_block_size(end, len, key_size, val_size, iv) < u32::MAX
    }
}

/// Builds a table.
pub struct Builder {
    opts: BuilderOptions,
    cur_block: BlockBuilder,
    block_list: Vec<BBlock>,
    key_hashes: Vec<u32>,
    max_version: u64,
    on_disk_size: u32,
    stale_data_size: usize,
    uncompressed_size: u32,
    compressed_size: u32,
    len_offsets: u32,
    error: Option<BuilderError>,
    block_entries: Ghost<Seq<Seq<(Seq<u8>, ValueView)>>>,
    entries: Ghost<Seq<(Seq<u8>, ValueView)>>,
}

impl Builder {
    /// The options.
    pub closed spec fn options(&self) -> BuilderOptions {
        self.opts
    }

    /// The entries inserted, in order.
    pub closed spec fn entries(&self) -> Seq<(Seq<u8>, ValueView)> {
        self.entries@
    }

    /// The entries of each finished block.
    pub closed spec fn block_entries(&self) -> Seq<Seq<(Seq<u8>, ValueView)>> {
        self.block_entries@
    }

    /// The finished blocks.
    pub closed spec fn blocks(&self) -> Seq<BBlockView> {
        self.block_list@.map_values(|b: BBlock| b@)
    }

    /// The entries of the current block.
    pub closed spec fn cur_entries(&self) -> Seq<(Seq<u8>, ValueView)> {
        self.cur_block.entries()
    }

    /// The hashes of the user keys inserted.
    pub closed spec fn key_hashes(&self) -> Seq<u32> {
        self.key_hashes@
    }

    /// The largest version inserted.
    pub closed spec fn max_version(&self) -> u64 {
        self.max_version
    }

    /// The size on disk of the values outside the table.
    pub closed spec fn on_disk_size(&self) -> u32 {
        self.on_disk_size
    }

    /// The estimated size of stale data.
    pub closed spec fn stale_data_size(&self) -> usize {
        self.stale_data_size
    }

    /// The size of the finished blocks before processing (wrapping at 32
    /// bits).
    pub closed spec fn uncompressed_size(&self) -> u32 {
        self.uncompressed_size
    }

    /// The size of the finished blocks after processing (wrapping at 32
    /// bits).
    pub closed spec fn compressed_size(&self) -> u32 {
        self.compressed_size
    }

    /// The estimated size of the block offsets in the index.
    pub closed spec fn len_offsets(&self) -> u32 {
        self.len_offsets
    }

    /// Whether processing a block failed.
    pub closed spec fn failed(&self) -> bool {
        self.error is Some
    }

    /// Whether finishing the current block cannot fail: compressing it
    /// cannot, and the key fits the encryption.
    pub open spec fn finish_owed(&self) -> bool {
        &&& compression_owed(finished_block(self.cur_entries(), self.options().checksum), self.options().compression)
        &&& encryption_key_fits(self.options().encryption@)
    }

    /// Whether the current block is finished before an entry of a key of
    /// `key_size` bytes and a value of `val_size` encoded bytes.
    pub open spec fn should_finish(&self, key_size: nat, val_size: nat) -> bool {
        block_is_full(
            built_block(self.cur_entries()).data.len(),
            self.cur_entries().len(),
            key_size,
            val_size,
            iv_size(self.options().encryption@.0),
            self.options().block_size,
        )
    }

    /// Whether the estimate for the next entry stays within 32 bits.
    pub open spec fn estimate_fits(&self, key_size: nat, val_size: nat) -> bool {
        block_estimate_fits(
            built_block(self.cur_entries()).data.len(),
            self.cur_entries().len(),
            key_size,
            val_size,
            iv_size(self.options().encryption@.0),
        )
    }

    /// The builder holds its current block, and, unless processing failed,
    /// every finished block is stored as its entries give, and the blocks
    /// and the current block hold the entries inserted, in order.
    pub closed spec fn wf(&self) -> bool {
        &&& self.cur_block.wf()
        &&& forall|i: int| 0 <= i < self.block_entries@.len() ==> #[trigger] self.block_entries@[i].len() > 0
        &&& self.error is None ==> {
            &&& self.block_list@.len() == self.block_entries@.len()
            &&& flatten(self.block_entries@) + self.cur_block.entries() == self.entries@
            &&& forall|i: int| 0 <= i < self.block_list@.len() ==> block_stored(
                #[trigger] self.block_list@[i]@,
                self.block_entries@[i],
                self.opts.compression,
                self.opts.encryption@,
                self.opts.checksum,
            )
        }
    }

    /// A builder with no entries.
    pub fn new(opts: BuilderOptions) -> (r: Self)
        ensures
            r.wf(),
            r.options() == opts,
            r.entries().len() == 0,
            r.block_entries().len() == 0,
            r.cur_entries().len() == 0,
            r.key_hashes().len() == 0,
            r.max_version() == 0,
            r.on_disk_size() == 0,
            r.stale_data_size() == 0,
            r.uncompressed_size() == 0,
            r.compressed_size() == 0,
            r.len_offsets() == 0,
            !r.failed(),
    {
        let r = Builder {
            opts,
            cur_block: BlockBuilder::new(),
            block_list: Vec::new(),
            key_hashes: Vec::new(),
            max_version: 0,
            on_disk_size: 0,
            stale_data_size: 0,
            uncompressed_size: 0,
            compressed_size: 0,
            len_offsets: 0,
            error: None,
            block_entries: Ghost(Seq::empty()),
            entries: Ghost(Seq::empty()),
        };
        proof {
            assert(flatten(r.block_entries@) + r.cur_block.entries() =~= r.entries@);
        }
        r
    }
}

impl Builder {
    /// Finishes the current block, if it has entries: appends its offsets,
    /// their count, its checksum and the checksum's length, processes it
    /// as configured and adds it to the finished blocks. A failure of
    /// processing is kept for `build` to report.
    #[verifier::spinoff_prover]
    #[verifier::rlimit(40)]
    fn finish_block(&mut self)
        requires
            old(self).wf(),
        ensures
            final(self).wf(),
            final(self).options() == old(self).options(),
            final(self).entries() == old(self).entries(),
            final(self).key_hashes() == old(self).key_hashes(),
            final(self).max_version() == old(self).max_version(),
            final(self).on_disk_size() == old(self).on_disk_size(),
            final(self).stale_data_size() == old(self).stale_data_size(),
            final(self).cur_entries().len() == 0,
            old(self).failed() ==> final(self).failed(),
            old(self).cur_entries().len() == 0 ==> {
                &&& final(self).block_entries() == old(self).block_entries()
                &&& final(self).failed() == old(self).failed()
                &&& final(self).uncompressed_size() == old(self).uncompressed_size()
                &&& final(self).compressed_size() == old(self).compressed_size()
                &&& final(self).len_offsets() == old(self).len_offsets()
            },
            old(self).cur_entries().len() > 0 && !old(self).failed()
                && compression_owed(finished_block(old(self).cur_entries(), old(self).options().checksum), old(self).options().compression)
                && encryption_key_fits(old(self).options().encryption@) ==> !final(self).failed(),
            old(self).cur_entries().len() > 0 && !old(self).failed()
                && compression_owed(finished_block(old(self).cur_entries(), old(self).options().checksum), old(self).options().compression)
                && !encryption_key_fits(old(self).options().encryption@) ==> final(self).failed(),
            final(self).failed() ==> old(self).failed() || (old(self).cur_entries().len() > 0 && !(
                compression_owed(finished_block(old(self).cur_entries(), old(self).options().checksum), old(self).options().compression)
                && encryption_key_fits(old(self).options().encryption@))),
            old(self).cur_entries().len() > 0 ==> {
                &&& final(self).block_entries() == old(self).block_entries().push(old(self).cur_entries())
                &&& final(self).uncompressed_size() == trunc32((old(self).uncompressed_size() + built_block(old(self).cur_entries()).data.len()) as nat)
                &&& final(self).len_offsets() == trunc32((trunc32((old(self).len_offsets() + built_block(old(self).cur_entries()).base.len()) as nat) + 40) as nat)
            },
    {
        let n = self.cur_block.len();
        if n == 0 {
            return;
        }
        let ghost es = self.cur_block.entries();
        let ghost old_blocks = self.block_entries@;
        let ghost old_list = self.block_list@;
        let end = self.cur_block.end();
        let mut blk = BlockBuilder::new();
        core::mem::swap(&mut blk, &mut self.cur_block);
        let base_len = blk.base_key().len();
        self.uncompressed_size = add_trunc32(self.uncompressed_size, end);
        self.len_offsets = add_trunc32(add_trunc32(self.len_offsets, base_len), 40);
        let processed = finish_and_process(blk, &self.opts);
        self.block_entries = Ghost(old_blocks.push(es));
        match processed {
            Ok(b) => {
                if self.opts.compression.is_some() || self.opts.encryption.is_some() {
                    self.compressed_size = add_trunc32(self.compressed_size, b.data.len());
                }
                self.block_list.push(b);
            },
            Err(e) => {
                self.error = Some(e);
            },
        }
        proof {
            let be = self.block_entries@;
            assert(be.drop_last() =~= old_blocks);
            if self.error is None {
                assert(flatten(be) + self.cur_block.entries() =~= flatten(old_blocks) + es);
                assert forall|i: int| 0 <= i < self.block_list@.len() implies block_stored(
                    #[trigger] self.block_list@[i]@,
                    be[i],
                    self.opts.compression,
                    self.opts.encryption@,
                    self.opts.checksum,
                ) by {
                    if i < old_list.len() {
                        assert(self.block_list@[i] == old_list[i]);
                    }
                }
            }
        }
    }
}

impl Builder {
    /// Whether the current block is finished before the entry of a key of
    /// `key_size` bytes and a value of `val_encoded_size` encoded bytes.
    fn should_finish_block(&self, key_size: usize, val_encoded_size: u32) -> (r: bool)
        requires
            self.wf(),
            key_size <= u16::MAX,
            self.estimate_fits(key_size as nat, val_encoded_size as nat),
        ensures
            r == self.should_finish(key_size as nat, val_encoded_size as nat),
    {
        let len = self.cur_block.len();
        if len == 0 {
            return false;
        }
        let current_block_end = add_trunc32(0, self.cur_block.end());
        let len32 = add_trunc32(0, len);
        let entries_offset_size = (len32 + 1) * 4 + 4 + 12;
        let iv = crate::encrypt::block_size(self.opts.encryption.algorithm()) as u32;
        let estimated_size = current_block_end + 6 + key_size as u32 + val_encoded_size + entries_offset_size + iv;
        estimated_size > add_trunc32(0, self.opts.block_size)
    }

    /// Adds the entry to the current block, its key's hash to the hashes
    /// and its version to the largest version.
    fn insert_helper(&mut self, key: &Key, val: &Value, vplen: u32)
        requires
            old(self).wf(),
            8 <= key@.len() <= u16::MAX,
            old(self).on_disk_size() + vplen <= u32::MAX,
        ensures
            final(self).wf(),
            final(self).options() == old(self).options(),
            final(self).entries() == old(self).entries().push((key@, val@)),
            final(self).cur_entries() == old(self).cur_entries().push((key@, val@)),
            final(self).block_entries() == old(self).block_entries(),
            final(self).key_hashes() == old(self).key_hashes().push(hash_spec(key_part(key@))),
            final(self).max_version() == (if timestamp_of(key@) > old(self).max_version() { timestamp_of(key@) } else { old(self).max_version() as nat }),
            final(self).on_disk_size() == old(self).on_disk_size() + vplen,
            final(self).stale_data_size() == old(self).stale_data_size(),
            final(self).uncompressed_size() == old(self).uncompressed_size(),
            final(self).compressed_size() == old(self).compressed_size(),
            final(self).len_offsets() == old(self).len_offsets(),
            final(self).failed() == old(self).failed(),
    {
        self.key_hashes.push(hash(key.parse_key()));
        let version = key.parse_timestamp();
        if version > self.max_version {
            self.max_version = version;
        }
        let ghost old_entries = self.entries@;
        self.cur_block.add(key.as_slice(), val);
        self.entries = Ghost(old_entries.push((key@, val@)));
        self.on_disk_size = self.on_disk_size + vplen;
        proof {
            if self.error is None {
                assert(flatten(self.block_entries@) + self.cur_block.entries() =~= self.entries@);
            }
        }
    }

    fn insert_in(&mut self, key: &Key, val: &Value, value_len: u32, is_stale: bool)
        requires
            old(self).wf(),
            8 <= key@.len() <= u16::MAX,
            old(self).estimate_fits(key@.len(), encoded_size_of(val@) as nat),
            old(self).on_disk_size() + value_len <= u32::MAX,
            is_stale ==> old(self).stale_data_size() + key@.len() + 8 <= usize::MAX,
        ensures
            final(self).wf(),
            final(self).options() == old(self).options(),
            final(self).entries() == old(self).entries().push((key@, val@)),
            final(self).key_hashes() == old(self).key_hashes().push(hash_spec(key_part(key@))),
            final(self).max_version() == (if timestamp_of(key@) > old(self).max_version() { timestamp_of(key@) } else { old(self).max_version() as nat }),
            final(self).on_disk_size() == old(self).on_disk_size() + value_len,
            old(self).failed() ==> final(self).failed(),
            old(self).should_finish(key@.len(), encoded_size_of(val@) as nat) ==> {
                &&& final(self).block_entries() == old(self).block_entries().push(old(self).cur_entries())
                &&& final(self).cur_entries() == seq![(key@, val@)]
                &&& final(self).stale_data_size() == old(self).stale_data_size() + (if is_stale { key@.len() + 8 } else { 0 })
                &&& !old(self).failed() && old(self).finish_owed() ==> !final(self).failed()
                &&& !old(self).failed() && compression_owed(finished_block(old(self).cur_entries(), old(self).options().checksum), old(self).options().compression)
                    && !encryption_key_fits(old(self).options().encryption@) ==> final(self).failed()
                &&& final(self).failed() ==> old(self).failed() || !old(self).finish_owed()
            },
            !old(self).should_finish(key@.len(), encoded_size_of(val@) as nat) ==> {
                &&& final(self).block_entries() == old(self).block_entries()
                &&& final(self).cur_entries() == old(self).cur_entries().push((key@, val@))
                &&& final(self).stale_data_size() == old(self).stale_data_size()
                &&& final(self).failed() == old(self).failed()
            },
    {
        if self.should_finish_block(key.len(), val.encoded_size()) {
            if is_stale {
                self.stale_data_size = self.stale_data_size + key.len() + 4 + 4;
            }
            self.finish_block();
            proof {
                assert(self.cur_entries() =~= Seq::<(Seq<u8>, ValueView)>::empty());
                assert(Seq::<(Seq<u8>, ValueView)>::empty().push((key@, val@)) =~= seq![(key@, val@)]);
            }
        }
        self.insert_helper(key, val, value_len)
    }

    /// Inserts an entry; `value_len` is the size on disk of the value when
    /// it lies outside the table. The current block is finished first when
    /// the entry would make it too large.
    pub fn insert(&mut self, key: &Key, val: &Value, value_len: u32)
        requires
            old(self).wf(),
            8 <= key@.len() <= u16::MAX,
            old(self).estimate_fits(key@.len(), encoded_size_of(val@) as nat),
            old(self).on_disk_size() + value_len <= u32::MAX,
        ensures
            final(self).wf(),
            final(self).options() == old(self).options(),
            final(self).entries() == old(self).entries().push((key@, val@)),
            final(self).key_hashes() == old(self).key_hashes().push(hash_spec(key_part(key@))),
            final(self).max_version() == (if timestamp_of(key@) > old(self).max_version() { timestamp_of(key@) } else { old(self).max_version() as nat }),
            final(self).on_disk_size() == old(self).on_disk_size() + value_len,
            final(self).stale_data_size() == old(self).stale_data_size(),
            old(self).failed() ==> final(self).failed(),
            old(self).should_finish(key@.len(), encoded_size_of(val@) as nat) ==> {
                &&& final(self).block_entries() == old(self).block_entries().push(old(self).cur_entries())
                &&& final(self).cur_entries() == seq![(key@, val@)]
                &&& !old(self).failed() && old(self).finish_owed() ==> !final(self).failed()
                &&& !old(self).failed() && compression_owed(finished_block(old(self).cur_entries(), old(self).options().checksum), old(self).options().compression)
                    && !encryption_key_fits(old(self).options().encryption@) ==> final(self).failed()
                &&& final(self).failed() ==> old(self).failed() || !old(self).finish_owed()
            },
            !old(self).should_finish(key@.len(), encoded_size_of(val@) as nat) ==> {
                &&& final(self).block_entries() == old(self).block_entries()
                &&& final(self).cur_entries() == old(self).cur_entries().push((key@, val@))
                &&& final(self).failed() == old(self).failed()
            },
    {
        self.insert_in(key, val, value_len, false)
    }

    /// Inserts an entry that is stale: as `insert`, and counts its size
    /// (key, value, offset and header) as stale data, with the size of its
    /// key, offset and length again when it starts a block.
    pub fn insert_stale(&mut self, key: &Key, val: &Value, value_len: u32)
        requires
            old(self).wf(),
            8 <= key@.len() <= u16::MAX,
            old(self).estimate_fits(key@.len(), encoded_size_of(val@) as nat),
            old(self).on_disk_size() + value_len <= u32::MAX,
            old(self).stale_data_size() + 2 * key@.len() + val@.data.len() + 16 <= usize::MAX,
        ensures
            final(self).wf(),
            final(self).options() == old(self).options(),
            final(self).entries() == old(self).entries().push((key@, val@)),
            final(self).key_hashes() == old(self).key_hashes().push(hash_spec(key_part(key@))),
            final(self).max_version() == (if timestamp_of(key@) > old(self).max_version() { timestamp_of(key@) } else { old(self).max_version() as nat }),
            final(self).on_disk_size() == old(self).on_disk_size() + value_len,
            old(self).failed() ==> final(self).failed(),
            old(self).should_finish(key@.len(), encoded_size_of(val@) as nat) ==> {
                &&& final(self).block_entries() == old(self).block_entries().push(old(self).cur_entries())
                &&& final(self).cur_entries() == seq![(key@, val@)]
                &&& final(self).stale_data_size() == old(self).stale_data_size() + 2 * key@.len() + val@.data.len() + 16
                &&& !old(self).failed() && old(self).finish_owed() ==> !final(self).failed()
                &&& !old(self).failed() && compression_owed(finished_block(old(self).cur_entries(), old(self).options().checksum), old(self).options().compression)
                    && !encryption_key_fits(old(self).options().encryption@) ==> final(self).failed()
                &&& final(self).failed() ==> old(self).failed() || !old(self).finish_owed()
            },
            !old(self).should_finish(key@.len(), encoded_size_of(val@) as nat) ==> {
                &&& final(self).block_entries() == old(self).block_entries()
                &&& final(self).cur_entries() == old(self).cur_entries().push((key@, val@))
                &&& final(self).stale_data_size() == old(self).stale_data_size() + key@.len() + val@.data.len() + 8
                &&& final(self).failed() == old(self).failed()
            },
    {
        self.stale_data_size = self.stale_data_size + key.len() + val.len() + 4 + 4;
        self.insert_in(key, val, value_len, true)
    }

    /// Whether no entry has been inserted.
    pub fn is_empty(&self) -> (r: bool)
        ensures
            r == (self.key_hashes().len() == 0),
    {
        self.key_hashes.len() == 0
    }

    /// The number of blocks in the builder: the finished ones, and the
    /// current one when it holds an entry.
    pub fn len(&self) -> (r: usize)
        requires
            self.wf(),
            self.blocks().len() < usize::MAX,
        ensures
            r == self.blocks().len() + (if self.cur_entries().len() > 0 { 1int } else { 0int }),
    {
        let n = self.block_list.len();
        if self.cur_block.is_empty() {
            n
        } else {
            n + 1
        }
    }

    /// Whether the table has roughly reached its capacity: the size of the
    /// finished blocks (after processing, when blocks are compressed or
    /// encrypted), the offsets of the current block, their count, a
    /// checksum, the index length and the estimated size of the index's
    /// block offsets exceed the capacity.
    pub fn reached_capacity(&self) -> (r: bool)
        requires
            self.wf(),
        ensures
            r == ((if self.options().compression.algo == crate::compression::CompressionAlgorithm::Uncompressed
                && self.options().encryption@.0 == EncryptionAlgorithm::Unencrypted {
                self.uncompressed_size()
            } else {
                self.compressed_size()
            }) + trunc32(self.cur_entries().len() * 4) + 4 + 12 + 4 + self.len_offsets() > self.options().table_capacity),
    {
        let sum: u32 = if self.opts.compression.is_none() && self.opts.encryption.is_none() {
            self.uncompressed_size
        } else {
            self.compressed_size
        };
        let n = self.cur_block.len();
        let offsets: u64 = ((n as u128 * 4) % 0x1_0000_0000) as u64;
        let estimated: u64 = sum as u64 + offsets + 4 + 12 + 4 + self.len_offsets as u64;
        estimated > self.opts.table_capacity
    }
}

/// What building a table gives: its blocks as stored, its index (with
/// encryption, encrypted with the IV that follows it), the index's
/// checksum, and the size of the table.
pub struct BuildData {
    pub block_list: Vec<BBlock>,
    pub index: Vec<u8>,
    pub checksum: Vec<u8>,
    pub checksum_size: u32,
    pub size: u32,
}

/// The total size of the first `i` blocks.
pub open spec fn blocks_size_before(bs: Seq<BBlockView>, i: int) -> nat
    decreases i,
{
    if i <= 0 {
        0
    } else {
        blocks_size_before(bs, i - 1) + bs[i - 1].data.len()
    }
}

/// Whether `t` is the index of the blocks `bs`: each block's first key,
/// where it starts and how long it is (in 32 bits); the bloom filter of
/// the key hashes, when there is one; and the counters.
pub open spec fn index_of_blocks(
    t: TableIndex,
    bs: Seq<BBlockView>,
    hashes: Seq<u32>,
    bits: Option<usize>,
    max_version: u64,
    uncompressed_size: u32,
    stale_data_size: usize,
) -> bool {
    &&& t.offsets@.len() == bs.len()
    &&& forall|i: int| 0 <= i < bs.len() ==> {
        &&& (#[trigger] t.offsets@[i]).key@ == bs[i].base_key
        &&& t.offsets@[i].offset == trunc32(blocks_size_before(bs, i))
        &&& t.offsets@[i].len == trunc32(bs[i].data.len())
    }
    &&& match bits {
        Some(b) => is_filter_of(t.bloom_filter@, hashes, b as nat),
        None => t.bloom_filter@.len() == 0,
    }
    &&& t.estimated_size == 0
    &&& t.max_version == max_version
    &&& t.key_count == trunc32(hashes.len())
    &&& t.uncompressed_size == uncompressed_size
    &&& t.stale_data_size == trunc32(stale_data_size as nat)
}

/// Whether `index` is what the table stores for the encoded index `enc`:
/// the encoding itself, or with encryption, the encoding encrypted with
/// the IV that follows it.
pub open spec fn stored_index(index: Seq<u8>, enc: Seq<u8>, encryption: (EncryptionAlgorithm, Seq<u8>)) -> bool {
    if encryption.0 == EncryptionAlgorithm::Unencrypted {
        index == enc
    } else {
        &&& index.len() == enc.len() + 16
        &&& encryption_of(enc, encryption.1, index.skip(enc.len() as int), EncryptionAlgorithm::Aes) == Some(index.take(enc.len() as int))
    }
}

impl Builder {
    /// The entries of the blocks once the current one is finished.
    pub open spec fn final_block_entries(&self) -> Seq<Seq<(Seq<u8>, ValueView)>> {
        if self.cur_entries().len() == 0 {
            self.block_entries()
        } else {
            self.block_entries().push(self.cur_entries())
        }
    }

    /// Whether the bloom filter of the key hashes can be built.
    pub open spec fn bloom_fits(&self) -> bool {
        match self.options().bloom_bits_per_key {
            Some(b) => {
                &&& self.key_hashes().len() * b + 8 <= usize::MAX
                &&& trunc32(filter_bytes_for(self.key_hashes().len(), b as nat) * 8) != 0
            },
            None => true,
        }
    }

    /// Finishes the current block and builds the index: each block's first
    /// key, offset and length, the bloom filter of the key hashes (when
    /// configured), the largest version, the number of keys, the size of
    /// the blocks before processing and the size of stale data. The index
    /// is encrypted as the blocks are, and checksummed. Without entries
    /// there is no table.
    pub fn build(self) -> (r: Result<Option<BuildData>, BuilderError>)
        requires
            self.wf(),
            self.bloom_fits(),
        ensures
            self.failed() ==> r is Err,
            self.entries().len() == 0 && !self.failed() ==> (r matches Ok(None)),
            self.entries().len() > 0 && !self.failed() && encryption_key_fits(self.options().encryption@)
                && (self.cur_entries().len() > 0 ==> compression_owed(finished_block(self.cur_entries(), self.options().checksum), self.options().compression))
                ==> (r matches Ok(Some(_))),
            self.entries().len() > 0 && !encryption_key_fits(self.options().encryption@) ==> r is Err,
            r matches Ok(Some(bd)) ==> {
                let bs = bd.block_list@.map_values(|b: BBlock| b@);
                let es = self.final_block_entries();
                &&& flatten(es) == self.entries()
                &&& bs.len() == es.len()
                &&& forall|i: int| 0 <= i < bs.len() ==> block_stored(#[trigger] bs[i], es[i], self.options().compression, self.options().encryption@, self.options().checksum)
                &&& exists|t: TableIndex| {
                    &&& index_of_blocks(t, bs, self.key_hashes(), self.options().bloom_bits_per_key, self.max_version(), trunc32((self.uncompressed_size() + (if self.cur_entries().len() == 0 { 0 } else { built_block(self.cur_entries()).data.len() })) as nat), self.stale_data_size())
                    &&& stored_index(bd.index@, table_index_encoding(t), self.options().encryption@)
                }
                &&& bd.checksum@ == checksum_encoding(checksum_of(bd.index@, self.options().checksum))
                &&& bd.checksum_size == bd.checksum@.len()
                &&& bd.size == trunc32(blocks_size_before(bs, bs.len() as int) + bd.index@.len() + bd.checksum@.len() + 8)
            },
    {
        let mut this = self;
        let ghost pre = this;
        this.finish_block();
        let Builder {
            opts,
            cur_block: _,
            block_list,
            key_hashes,
            max_version,
            on_disk_size: _,
            stale_data_size,
            uncompressed_size,
            compressed_size: _,
            len_offsets: _,
            error,
            block_entries,
            entries: _,
        } = this;
        match error {
            Some(e) => return Err(e),
            None => {},
        }
        proof {
            if pre.entries().len() > 0 {
                lemma_flatten_nonempty(block_entries@);
            }
        }
        if block_list.len() == 0 {
            return Ok(None);
        }
        let ghost bs = block_list@.map_values(|b: BBlock| b@);
        let mut tbi = TableIndex::new();
        match opts.bloom_bits_per_key {
            Some(bits) => {
                tbi.bloom_filter = Filter::new(key_hashes.as_slice(), bits).into_vec();
            },
            None => {},
        }
        let mut offsets: Vec<BlockOffset> = Vec::new();
        let mut data_sz: u32 = 0;
        let n = block_list.len();
        let mut i: usize = 0;
        while i < n
            invariant
                i <= n,
                n == block_list@.len(),
                bs == block_list@.map_values(|b: BBlock| b@),
                offsets@.len() == i,
                data_sz == trunc32(blocks_size_before(bs, i as int)),
                forall|j: int| 0 <= j < i ==> {
                    &&& (#[trigger] offsets@[j]).key@ == bs[j].base_key
                    &&& offsets@[j].offset == trunc32(blocks_size_before(bs, j))
                    &&& offsets@[j].len == trunc32(bs[j].data.len())
                },
            decreases n - i,
        {
            let end = add_trunc32(0, block_list[i].data.len());
            let key = block_list[i].base_key.clone();
            offsets.push(BlockOffset { key, offset: data_sz, len: end });
            proof {
                assert(bs[i as int] == block_list@[i as int]@);
                lemma_trunc32_add(blocks_size_before(bs, i as int), bs[i as int].data.len());
            }
            data_sz = add_trunc32(data_sz, block_list[i].data.len());
            i = i + 1;
        }
        tbi.offsets = offsets;
        tbi.uncompressed_size = uncompressed_size;
        tbi.key_count = add_trunc32(0, key_hashes.len());
        tbi.max_version = max_version;
        tbi.stale_data_size = add_trunc32(0, stale_data_size);
        let data = tbi.marshal();
        let index = match encrypt_with_fresh_iv(data, &opts.encryption) {
            Ok(v) => v,
            Err(e) => return Err(BuilderError::Encryption(e)),
        };
        let cks = calculate_checksum(index.as_slice(), opts.checksum).marshal();
        proof {
            lemma_checksum_encoding_len(checksum_of(index@, opts.checksum));
        }
        let cks_size = cks.len() as u32;
        let size = add_trunc32(add_trunc32(add_trunc32(data_sz, index.len()), cks.len()), 8);
        proof {
            lemma_trunc32_add(blocks_size_before(bs, n as int), index@.len());
            lemma_trunc32_add((blocks_size_before(bs, n as int) + index@.len()) as nat, cks@.len());
            lemma_trunc32_add((blocks_size_before(bs, n as int) + index@.len() + cks@.len()) as nat, 8);
            assert(index_of_blocks(tbi, bs, pre.key_hashes(), pre.options().bloom_bits_per_key, pre.max_version(),
                trunc32((pre.uncompressed_size() + (if pre.cur_entries().len() == 0 { 0 } else { built_block(pre.cur_entries()).data.len() })) as nat),
                pre.stale_data_size()));
            reveal(block_stored);
        }
        Ok(Some(BuildData { block_list, index, checksum: cks, checksum_size: cks_size, size }))
    }
}

proof fn lemma_flatten_nonempty<T>(s: Seq<Seq<T>>)
    ensures
        flatten(s).len() > 0 ==> s.len() > 0,
{
}

proof fn lemma_trunc32_add(a: nat, b: nat)
    ensures
        trunc32((trunc32(a) + b) as nat) == trunc32(a + b),
{
    vstd::arithmetic::div_mod::lemma_add_mod_noop(a as int, b as int, 0x1_0000_0000);
    vstd::arithmetic::div_mod::lemma_mod_twice(b as int, 0x1_0000_0000);
    vstd::arithmetic::div_mod::lemma_add_mod_noop(trunc32(a) as int, b as int, 0x1_0000_0000);
    vstd::arithmetic::div_mod::lemma_mod_twice(a as int, 0x1_0000_0000);
}

/// The bytes of the blocks, in order.
pub open spec fn blocks_bytes(bs: Seq<BBlockView>) -> Seq<u8>
    decreases bs.len(),
{
    if bs.len() == 0 {
        Seq::empty()
    } else {
        blocks_bytes(bs.drop_last()) + bs.last().data
    }
}

/// The bytes of a table: its blocks, its index, the index's length, the
/// index's checksum and the checksum's length.
pub open spec fn table_bytes(bs: Seq<BBlockView>, index: Seq<u8>, checksum: Seq<u8>, checksum_size: u32) -> Seq<u8> {
    blocks_bytes(bs) + index + be32(trunc32(index.len())) + checksum + be32(checksum_size)
}

impl BuildData {
    /// The size of the table.
    pub fn size(&self) -> (r: usize)
        ensures
            r == self.size,
    {
        self.size as usize
    }

    /// The bytes of the table, as they are written to its file.
    pub fn to_bytes(&self) -> (r: Vec<u8>)
        ensures
            r@ == table_bytes(self.block_list@.map_values(|b: BBlock| b@), self.index@, self.checksum@, self.checksum_size),
    {
        let ghost bs = self.block_list@.map_values(|b: BBlock| b@);
        let mut out: Vec<u8> = Vec::new();
        let n = self.block_list.len();
        let mut i: usize = 0;
        proof {
            assert(bs.take(0) =~= Seq::<BBlockView>::empty());
        }
        while i < n
            invariant
                i <= n,
                n == self.block_list@.len(),
                bs == self.block_list@.map_values(|b: BBlock| b@),
                out@ == blocks_bytes(bs.take(i as int)),
            decreases n - i,
        {
            let mut d = self.block_list[i].data.clone();
            out.append(&mut d);
            proof {
                assert(bs.take(i + 1).drop_last() =~= bs.take(i as int));
                assert(bs[i as int] == self.block_list@[i as int]@);
            }
            i = i + 1;
        }
        proof {
            assert(bs.take(n as int) =~= bs);
        }
        let mut idx = self.index.clone();
        out.append(&mut idx);
        push_be32(add_trunc32(0, self.index.len()), &mut out);
        let mut cks = self.checksum.clone();
        out.append(&mut cks);
        push_be32(self.checksum_size, &mut out);
        out
    }
}

/// `a + b` taken to 32 bits.
fn add_trunc32(a: u32, b: usize) -> (r: u32)
    ensures
        r == trunc32((a + b) as nat),
{
    let s: u64 = (a as u64 + ((b as u64) % 0x1_0000_0000)) % 0x1_0000_0000;
    proof {
        vstd::arithmetic::div_mod::lemma_add_mod_noop(a as int, b as int, 0x1_0000_0000);
        vstd::arithmetic::div_mod::lemma_mod_twice(b as int, 0x1_0000_0000);
    }
    s as u32
}

/// Finishes a block with the configured checksum and processes it as
/// configured.
fn finish_and_process(blk: BlockBuilder, opts: &BuilderOptions) -> (r: Result<BBlock, BuilderError>)
    requires
        blk.wf(),
        blk.entries().len() > 0,
    ensures
        r matches Ok(b) ==> block_stored(b@, blk.entries(), opts.compression, opts.encryption@, opts.checksum),
        compression_owed(finished_block(blk.entries(), opts.checksum), opts.compression)
            && encryption_key_fits(opts.encryption@) ==> r is Ok,
        compression_owed(finished_block(blk.entries(), opts.checksum), opts.compression)
            && !encryption_key_fits(opts.encryption@) ==> (r matches Err(BuilderError::Encryption(_))),
        r matches Err(BuilderError::Compression(e)) ==> !compression_owed(finished_block(blk.entries(), opts.checksum), opts.compression)
            && (match opts.compression.algo {
                CompressionAlgorithm::Snappy => e is Snappy,
                _ => e is Zstd,
            }),
        r matches Err(BuilderError::Encryption(_)) ==> !encryption_key_fits(opts.encryption@),
{
    let ghost es = blk.entries();
    proof {
        reveal(block_stored);
    }
    let n = blk.len();
    let base_key = vstd::slice::slice_to_vec(blk.base_key());
    let raw = blk.finish(opts.checksum);
    if opts.compression.is_none() && opts.encryption.is_none() {
        Ok(BBlock { data: raw, base_key, entries: n })
    } else {
        match process_block(raw.as_slice(), opts.compression, &opts.encryption) {
            Ok(out) => Ok(BBlock { data: out, base_key, entries: n }),
            Err(e) => Err(e),
        }
    }
}

} // verus!
