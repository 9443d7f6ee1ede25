//! Reading a table: a block is read from the bytes the table stores for it
//! by decrypting (its IV is its last sixteen bytes), decompressing,
//! parsing its trailer and, when asked, verifying its checksum. A block
//! that the builder stored reads back as it was finished.
use vstd::prelude::*;
use crate::checksum::{checksum_encoding, checksum_of, ChecksumAlgorithm};
use crate::compression::{compresses_to, compressible, decompressed_bytes, decompress_into_vec, Compression, CompressionError};
use crate::encrypt::{encrypt_to_vec, encryption_of, lemma_encrypt_twice, Encryption, EncryptError, EncryptionAlgorithm, BLOCK_SIZE};
use crate::table::{be32_value, block_trailer_readable, block_view_readable, finished_block, lemma_finished_block_parses, parsed_block, read_be32, Block, BlockError, built_block};
use crate::table_builder::{block_stored, blocks_bytes, processed_block, table_bytes, BBlockView};
use crate::entry::trunc32;
use crate::table::{be32, lemma_be32_roundtrip};
use crate::checksum::verify_checksum;
use crate::value::ValueView;

verus! {

/// When checksums are verified.
#[derive(Copy, Clone, Debug, PartialEq, Eq, Hash, Structural)]
pub enum ChecksumVerificationMode {
    /// Never.
    NoVerification,
    /// When a table is opened.
    OnTableRead,
    /// When a block is read.
    OnBlockRead,
    /// Both.
    OnTableAndBlockRead,
}

/// Whether blocks are verified when read.
pub open spec fn verifies_blocks(m: ChecksumVerificationMode) -> bool {
    m == ChecksumVerificationMode::OnBlockRead || m == ChecksumVerificationMode::OnTableAndBlockRead
}

/// Why reading a table failed.
pub enum TableError {
    /// A checksum does not match its data.
    ChecksumMismatch,
    /// A checksum length exceeds its block.
    InvalidChecksumLength,
    /// A block is too short for its trailer.
    InvalidBlock,
    /// Decryption failed.
    EncryptError(EncryptError),
    /// Decompression failed.
    Compression(CompressionError),
    /// The table is too short for the lengths its footer gives.
    InvalidFooter,
    /// There is no block of this index.
    BlockOutOfRange { num_offsets: u64, index: u64 },
    /// A block lies beyond the end of the table.
    BlockBeyondEnd,
    /// The block size is zero while blocks are compressed.
    EmptyBlock,
    /// The biggest key could not be read from the last block.
    NoBiggestKey,
    /// A block could not be read while the table was verified.
    BlockChecksumMismatch { block: u64 },
    /// The checksum of a block does not match while the table was verified.
    BlockOffsetChecksumMismatch { block: u64, offset: u64 },
}

impl TableError {
    /// The message of the error.
    pub fn to_string(&self) -> (r: String)
        ensures
            r@ == (match *self {
                TableError::ChecksumMismatch => "checksum mismatch"@,
                TableError::InvalidChecksumLength => "invalid checksum length: either the data is corrupted or the table options are incorrectly set"@,
                TableError::InvalidBlock => "invalid block"@,
                TableError::EncryptError(_) => "encryption error"@,
                TableError::Compression(_) => "compression/decompression error"@,
                TableError::InvalidFooter => "invalid table footer"@,
                TableError::BlockOutOfRange { .. } => "block out of range"@,
                TableError::BlockBeyondEnd => "block beyond the end of the table"@,
                TableError::EmptyBlock => "block size cannot be zero for a compressed table"@,
                TableError::NoBiggestKey => "failed to initialize biggest key for table"@,
                TableError::BlockChecksumMismatch { .. } => "block checksum mismatch"@,
                TableError::BlockOffsetChecksumMismatch { .. } => "block offset checksum mismatch"@,
            }),
    {
        match self {
            TableError::ChecksumMismatch => "checksum mismatch".to_owned(),
            TableError::InvalidChecksumLength => "invalid checksum length: either the data is corrupted or the table options are incorrectly set".to_owned(),
            TableError::InvalidBlock => "invalid block".to_owned(),
            TableError::EncryptError(_) => "encryption error".to_owned(),
            TableError::Compression(_) => "compression/decompression error".to_owned(),
            TableError::InvalidFooter => "invalid table footer".to_owned(),
            TableError::BlockOutOfRange { .. } => "block out of range".to_owned(),
            TableError::BlockBeyondEnd => "block beyond the end of the table".to_owned(),
            TableError::EmptyBlock => "block size cannot be zero for a compressed table".to_owned(),
            TableError::NoBiggestKey => "failed to initialize biggest key for table".to_owned(),
            TableError::BlockChecksumMismatch { .. } => "block checksum mismatch".to_owned(),
            TableError::BlockOffsetChecksumMismatch { .. } => "block offset checksum mismatch".to_owned(),
        }
    }
}

/// What decrypting the bytes a table stores gives: the bytes themselves
/// without encryption; otherwise the bytes before the last sixteen,
/// decrypted with those sixteen as the IV (`None` when there are fewer,
/// or the key does not fit).
pub open spec fn decrypted(stored: Seq<u8>, encryption: (EncryptionAlgorithm, Seq<u8>)) -> Option<Seq<u8>> {
    if encryption.0 == EncryptionAlgorithm::Unencrypted {
        Some(stored)
    } else if stored.len() < 16 {
        None
    } else {
        encryption_of(stored.take(stored.len() - 16), encryption.1, stored.skip(stored.len() - 16), EncryptionAlgorithm::Aes)
    }
}

/// Decrypts the bytes a table stores.
pub fn decrypt_stored(stored: &[u8], encryption: &Encryption) -> (r: Result<Vec<u8>, TableError>)
    ensures
        match decrypted(stored@, encryption@) {
            Some(d) => r matches Ok(v) && v@ == d,
            None => r is Err,
        },
{
    if encryption.is_none() {
        return Ok(vstd::slice::slice_to_vec(stored));
    }
    if stored.len() < BLOCK_SIZE {
        return Err(TableError::InvalidBlock);
    }
    let split = stored.len() - BLOCK_SIZE;
    let iv = vstd::slice::slice_subrange(stored, split, stored.len());
    let data = vstd::slice::slice_subrange(stored, 0, split);
    proof {
        assert(iv@ =~= stored@.skip(split as int));
        assert(data@ =~= stored@.take(split as int));
    }
    match encrypt_to_vec(data, encryption.secret(), iv, EncryptionAlgorithm::Aes) {
        Ok(v) => Ok(v),
        Err(e) => Err(TableError::EncryptError(e)),
    }
}

/// Whether the trailer of a block can be read, computed.
pub fn block_trailer_is_readable(b: &[u8]) -> (r: bool)
    ensures
        r == block_trailer_readable(b@),
{
    let len = b.len();
    if len < 4 {
        return false;
    }
    let cks_len = read_be32(b, len - 4) as usize;
    if cks_len > len {
        return true;
    }
    if len - cks_len < 8 {
        return false;
    }
    let num_pos = len - 4 - cks_len - 4;
    let n = read_be32(b, num_pos) as u64;
    n * 4 <= num_pos as u64
}

/// Whether `stored` is what a builder stores for a block of the entries
/// `es`, with a checksum of `algo`, and small enough to read back: the
/// entries are fewer than 2^32 and fit in memory, the finished block can
/// be compressed and decompressed, and the key fits the cipher.
#[verifier::opaque]
pub open spec fn stored_block_of(
    stored: Seq<u8>,
    es: Seq<(Seq<u8>, ValueView)>,
    compression: Compression,
    encryption: (EncryptionAlgorithm, Seq<u8>),
    algo: ChecksumAlgorithm,
) -> bool {
    &&& processed_block(finished_block(es, algo), stored, compression, encryption)
    &&& es.len() > 0
    &&& es.len() < 0x1_0000_0000
    &&& built_block(es).data.len() + 4 * es.len() + 34 <= usize::MAX
    &&& compressible(finished_block(es, algo), compression)
    &&& (encryption.0 == EncryptionAlgorithm::Aes ==> encryption.1.len() == 16 || encryption.1.len() == 24 || encryption.1.len() == 32)
}

/// What decrypting and then decompressing the bytes a table stores for a
/// block gives, `None` when either fails (Zstd's failures aside).
pub open spec fn decoded_stored(
    stored: Seq<u8>,
    compression: Compression,
    encryption: (EncryptionAlgorithm, Seq<u8>),
) -> Option<Seq<u8>> {
    match decrypted(stored, encryption) {
        Some(d) => decompressed_bytes(d, compression),
        None => None,
    }
}

/// Decrypts and decompresses the bytes a table stores for a block.
fn decode_raw(stored: &[u8], compression: Compression, encryption: &Encryption) -> (r: Result<Vec<u8>, TableError>)
    ensures
        r matches Ok(raw) ==> decoded_stored(stored@, compression, encryption@) == Some(raw@),
        decoded_stored(stored@, compression, encryption@) is None ==> r is Err,
        forall|es: Seq<(Seq<u8>, ValueView)>, algo: ChecksumAlgorithm| #[trigger] stored_block_of(stored@, es, compression, encryption@, algo)
            ==> (r matches Ok(raw) && raw@ == finished_block(es, algo)),
{
    proof {
        lemma_stored_block_decrypts(stored@, compression, encryption@);
    }
    let decrypted = match decrypt_stored(stored, encryption) {
        Ok(d) => d,
        Err(e) => return Err(e),
    };
    match decompress_into_vec(decrypted.as_slice(), compression) {
        Ok(v) => Ok(v),
        Err(e) => Err(TableError::Compression(e)),
    }
}

/// Parses a block and verifies its checksum when `mode` verifies blocks.
fn parse_and_verify(raw: Vec<u8>, offset: usize, algo: ChecksumAlgorithm, mode: ChecksumVerificationMode) -> (r: Result<Block, TableError>)
    ensures
        r matches Ok(blk) ==> {
            &&& block_trailer_readable(raw@)
            &&& block_view_readable(blk@)
            &&& blk@ == parsed_block(raw@, offset)
            &&& verifies_blocks(mode) ==> checksum_encoding(checksum_of(blk@.data, algo)) == blk@.checksum
        },
        forall|es: Seq<(Seq<u8>, ValueView)>| #[trigger] finished_block(es, algo) == raw@
            && es.len() > 0
            && es.len() < 0x1_0000_0000
            && built_block(es).data.len() + 4 * es.len() + 34 <= usize::MAX
            ==> (r matches Ok(blk) && blk@ == parsed_block(raw@, offset)),
{
    proof {
        assert forall|es: Seq<(Seq<u8>, ValueView)>| #[trigger] finished_block(es, algo) == raw@
            && es.len() > 0
            && es.len() < 0x1_0000_0000
            && built_block(es).data.len() + 4 * es.len() + 34 <= usize::MAX
            implies block_trailer_readable(raw@)
                && be32_value(raw@.subrange(raw@.len() - 4, raw@.len() as int)) <= raw@.len()
                && checksum_encoding(checksum_of(parsed_block(raw@, offset).data, algo)) == parsed_block(raw@, offset).checksum by {
            lemma_finished_block_parses(es, algo, offset);
        }
    }
    if !block_trailer_is_readable(raw.as_slice()) {
        return Err(TableError::InvalidBlock);
    }
    let blk = match Block::parse(raw, offset) {
        Ok(b) => b,
        Err(_) => return Err(TableError::InvalidChecksumLength),
    };
    if mode == ChecksumVerificationMode::OnBlockRead || mode == ChecksumVerificationMode::OnTableAndBlockRead {
        match blk.verify_checksum(algo) {
            Ok(()) => {},
            Err(_) => return Err(TableError::ChecksumMismatch),
        }
    }
    Ok(blk)
}

/// Reads a block from the bytes a table stores for it: decrypts and
/// decompresses them as configured, parses the trailer, and verifies the
/// checksum with `algo` when `mode` verifies blocks. What a builder stored
/// for a block reads back as the block was finished.
pub fn decode_block(
    stored: &[u8],
    offset: usize,
    compression: Compression,
    encryption: &Encryption,
    algo: ChecksumAlgorithm,
    mode: ChecksumVerificationMode,
) -> (r: Result<Block, TableError>)
    ensures
        r matches Ok(blk) ==> block_view_readable(blk@),
        r matches Ok(blk) ==> {
            &&& decoded_stored(stored@, compression, encryption@) matches Some(raw)
            &&& block_trailer_readable(raw)
            &&& blk@ == parsed_block(raw, offset)
            &&& verifies_blocks(mode) ==> checksum_encoding(checksum_of(blk@.data, algo)) == blk@.checksum
        },
        decoded_stored(stored@, compression, encryption@) is None ==> r is Err,
        (decoded_stored(stored@, compression, encryption@) matches Some(raw) && !block_trailer_readable(raw)) ==> r is Err,
        r matches Ok(blk) ==> exists|raw: Seq<u8>| {
            &&& block_trailer_readable(raw)
            &&& blk@ == parsed_block(raw, offset)
            &&& verifies_blocks(mode) ==> checksum_encoding(checksum_of(blk@.data, algo)) == blk@.checksum
        },
        forall|es: Seq<(Seq<u8>, ValueView)>| #[trigger] stored_block_of(stored@, es, compression, encryption@, algo)
            ==> (r matches Ok(blk) && blk@ == parsed_block(finished_block(es, algo), offset)),
{
    let raw = match decode_raw(stored, compression, encryption) {
        Ok(v) => v,
        Err(e) => return Err(e),
    };
    let ghost rawv = raw@;
    proof {
        assert forall|es: Seq<(Seq<u8>, ValueView)>| #[trigger] stored_block_of(stored@, es, compression, encryption@, algo)
            implies finished_block(es, algo) == rawv
                && es.len() > 0
                && es.len() < 0x1_0000_0000
                && built_block(es).data.len() + 4 * es.len() + 34 <= usize::MAX by {
            reveal(stored_block_of);
        }
    }
    parse_and_verify(raw, offset, algo, mode)
}

/// What a builder stored for a block decrypts to a compression of the
/// block.
proof fn lemma_stored_block_decrypts(
    stored: Seq<u8>,
    compression: Compression,
    encryption: (EncryptionAlgorithm, Seq<u8>),
)
    ensures
        forall|es: Seq<(Seq<u8>, ValueView)>, algo: ChecksumAlgorithm| #[trigger] stored_block_of(stored, es, compression, encryption, algo)
            ==> {
                &&& decrypted(stored, encryption) is Some
                &&& compresses_to(finished_block(es, algo), decrypted(stored, encryption).unwrap(), compression)
                &&& compressible(finished_block(es, algo), compression)
            },
{
    reveal(stored_block_of);
    assert forall|es: Seq<(Seq<u8>, ValueView)>, algo: ChecksumAlgorithm| #[trigger] stored_block_of(stored, es, compression, encryption, algo)
        implies decrypted(stored, encryption) is Some
            && compresses_to(finished_block(es, algo), decrypted(stored, encryption).unwrap(), compression) by {
        let raw = finished_block(es, algo);
        if encryption.0 == EncryptionAlgorithm::Aes {
            let c = choose|c: Seq<u8>| {
                &&& #[trigger] compresses_to(raw, c, compression)
                &&& stored.len() == c.len() + 16
                &&& encryption_of(c, encryption.1, stored.skip(c.len() as int), EncryptionAlgorithm::Aes) == Some(stored.take(c.len() as int))
            };
            let iv = stored.skip(c.len() as int);
            assert(stored.len() - 16 == c.len());
            lemma_encrypt_twice(c, encryption.1, iv, EncryptionAlgorithm::Aes);
            assert(decrypted(stored, encryption) == Some(c));
        }
    }
}

/// A block that a builder stored reads back as it was finished, when it
/// is small enough to read back.
pub proof fn lemma_stored_block_reads_back(
    b: BBlockView,
    es: Seq<(Seq<u8>, ValueView)>,
    compression: Compression,
    encryption: (EncryptionAlgorithm, Seq<u8>),
    algo: ChecksumAlgorithm,
)
    requires
        block_stored(b, es, compression, encryption, algo),
        es.len() > 0,
        es.len() < 0x1_0000_0000,
        built_block(es).data.len() + 4 * es.len() + 34 <= usize::MAX,
        compressible(finished_block(es, algo), compression),
        encryption.0 == EncryptionAlgorithm::Aes ==> encryption.1.len() == 16 || encryption.1.len() == 24 || encryption.1.len() == 32,
    ensures
        stored_block_of(b.data, es, compression, encryption, algo),
{
    reveal(block_stored);
    reveal(stored_block_of);
}

/// Where the parts of a table lie: the index and its checksum.
#[derive(Copy, Clone, Debug, PartialEq, Eq, Structural)]
pub struct TableFooter {
    pub index_start: usize,
    pub index_len: usize,
    pub checksum_start: usize,
    pub checksum_len: usize,
}

/// The footer of the table bytes `t`, read from the end: the checksum's
/// length, the checksum, the index's length and the index. `None` when a
/// length exceeds what is before it.
pub open spec fn footer_of(t: Seq<u8>) -> Option<TableFooter> {
    if t.len() < 4 {
        None
    } else {
        let cks_len = be32_value(t.subrange(t.len() - 4, t.len() as int));
        let cks_start = t.len() - 4 - cks_len;
        if cks_start < 4 {
            None
        } else {
            let index_len = be32_value(t.subrange(cks_start - 4, cks_start));
            let index_start = cks_start - 4 - index_len;
            if index_start < 0 {
                None
            } else {
                Some(TableFooter {
                    index_start: index_start as usize,
                    index_len: index_len as usize,
                    checksum_start: cks_start as usize,
                    checksum_len: cks_len as usize,
                })
            }
        }
    }
}

/// Reads the footer of a table.
pub fn parse_footer(table: &[u8]) -> (r: Result<TableFooter, TableError>)
    ensures
        match footer_of(table@) {
            Some(f) => r == Ok::<TableFooter, TableError>(f),
            None => r is Err,
        },
{
    let len = table.len();
    if len < 4 {
        return Err(TableError::InvalidFooter);
    }
    let mut read_pos = len - 4;
    let cks_len = read_be32(table, read_pos) as usize;
    if cks_len > read_pos || read_pos - cks_len < 4 {
        return Err(TableError::InvalidFooter);
    }
    read_pos = read_pos - cks_len;
    let checksum_start = read_pos;
    read_pos = read_pos - 4;
    let index_len = read_be32(table, read_pos) as usize;
    if index_len > read_pos {
        return Err(TableError::InvalidFooter);
    }
    read_pos = read_pos - index_len;
    Ok(TableFooter { index_start: read_pos, index_len, checksum_start, checksum_len: cks_len })
}

/// Checks the index of a table against the sum of its stored checksum.
pub fn verify_index(table: &[u8], footer: &TableFooter, expected: u64, algo: ChecksumAlgorithm) -> (r: Result<(), TableError>)
    requires
        footer.index_start + footer.index_len <= table.len(),
    ensures
        r is Ok <==> checksum_of(table@.subrange(footer.index_start as int, footer.index_start + footer.index_len), algo).sum == expected,
{
    let data = vstd::slice::slice_subrange(table, footer.index_start, footer.index_start + footer.index_len);
    if verify_checksum(data, expected, algo) {
        Ok(())
    } else {
        Err(TableError::ChecksumMismatch)
    }
}

/// Reads the index of the table bytes: checks it against the sum that its
/// stored checksum gives, and decrypts it.
pub fn read_index(
    table: &[u8],
    footer: &TableFooter,
    expected: u64,
    algo: ChecksumAlgorithm,
    encryption: &Encryption,
) -> (r: Result<Vec<u8>, TableError>)
    requires
        footer.index_start + footer.index_len <= table.len(),
    ensures
        ({
            let stored = table@.subrange(footer.index_start as int, footer.index_start + footer.index_len);
            &&& checksum_of(stored, algo).sum != expected ==> (r matches Err(e) && e is ChecksumMismatch)
            &&& checksum_of(stored, algo).sum == expected ==> match decrypted(stored, encryption@) {
                Some(d) => r matches Ok(v) && v@ == d,
                None => r is Err,
            }
        }),
{
    match verify_index(table, footer, expected, algo) {
        Ok(()) => {},
        Err(_) => return Err(TableError::ChecksumMismatch),
    }
    let stored = vstd::slice::slice_subrange(table, footer.index_start, footer.index_start + footer.index_len);
    decrypt_stored(stored, encryption)
}

/// The footer of a built table points at its index and at the index's
/// checksum.
#[verifier::spinoff_prover]
#[verifier::rlimit(40)]
pub proof fn lemma_table_footer(bs: Seq<BBlockView>, index: Seq<u8>, checksum: Seq<u8>)
    requires
        index.len() < 0x1_0000_0000,
        checksum.len() < 0x1_0000_0000,
        blocks_bytes(bs).len() + index.len() + checksum.len() + 8 <= usize::MAX,
    ensures
        footer_of(table_bytes(bs, index, checksum, checksum.len() as u32)) == Some(TableFooter {
            index_start: blocks_bytes(bs).len() as usize,
            index_len: index.len() as usize,
            checksum_start: (blocks_bytes(bs).len() + index.len() + 4) as usize,
            checksum_len: checksum.len() as usize,
        }),
        table_bytes(bs, index, checksum, checksum.len() as u32).subrange(
            blocks_bytes(bs).len() as int,
            (blocks_bytes(bs).len() + index.len()) as int,
        ) == index,
        table_bytes(bs, index, checksum, checksum.len() as u32).subrange(
            (blocks_bytes(bs).len() + index.len() + 4) as int,
            (blocks_bytes(bs).len() + index.len() + 4 + checksum.len()) as int,
        ) == checksum,
{
    let b = blocks_bytes(bs);
    let il = trunc32(index.len());
    let cl = checksum.len() as u32;
    let t = table_bytes(bs, index, checksum, cl);
    lemma_be32_roundtrip(il);
    lemma_be32_roundtrip(cl);
    assert(t.subrange(t.len() - 4, t.len() as int) =~= be32(cl));
    let cks_start = t.len() - 4 - cl;
    assert(cks_start == b.len() + index.len() + 4);
    assert(t.subrange(cks_start - 4, cks_start) =~= be32(il));
    assert(t.subrange(b.len() as int, (b.len() + index.len()) as int) =~= index);
    assert(t.subrange(cks_start, cks_start + checksum.len()) =~= checksum);
}

} // verus!
