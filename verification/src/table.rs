//! The block format of a table. A block holds its entries, then the offset
//! of every entry (four little-endian bytes each), the number of entries
//! (four big-endian bytes), the protobuf-encoded checksum of everything
//! before it, and the length of that checksum (four big-endian bytes).
//! An entry is a 4-byte header (overlap and diff, little-endian `u16`s),
//! the part of its key after the prefix it shares with the block's first
//! key, and the encoded value.
use vstd::prelude::*;
use vstd::slice::slice_subrange;
use crate::checksum::{calculate_checksum, checksum_encoding, checksum_of, lemma_checksum_encoding_len, ChecksumAlgorithm};
use crate::bytes::bytes_equal;
use crate::entry::trunc32;
use crate::value::{lemma_value_roundtrip, value_decoding, value_encoding, Value, ValueExt, ValueView};

verus! {

/// Size of an entry header.
pub const HEADER_SIZE: usize = 4;

/// The little-endian bytes of a `u16`.
pub open spec fn le16(v: u16) -> Seq<u8> {
    seq![(v % 256) as u8, (v / 256) as u8]
}

/// The value of two little-endian bytes.
pub open spec fn le16_value(b0: u8, b1: u8) -> u16 {
    (b0 + 256 * b1) as u16
}

/// The little-endian bytes of a `u32`.
pub open spec fn le32(v: u32) -> Seq<u8> {
    seq![(v % 256) as u8, ((v / 256) % 256) as u8, ((v / 0x1_0000) % 256) as u8, (v / 0x100_0000) as u8]
}

/// The value of four little-endian bytes.
pub open spec fn le32_value(s: Seq<u8>) -> u32 {
    (s[0] + 256 * s[1] + 0x1_0000 * s[2] + 0x100_0000 * s[3]) as u32
}

/// The big-endian bytes of a `u32`.
pub open spec fn be32(v: u32) -> Seq<u8> {
    seq![(v / 0x100_0000) as u8, ((v / 0x1_0000) % 256) as u8, ((v / 256) % 256) as u8, (v % 256) as u8]
}

/// The value of four big-endian bytes.
pub open spec fn be32_value(s: Seq<u8>) -> u32 {
    (0x100_0000 * s[0] + 0x1_0000 * s[1] + 256 * s[2] + s[3]) as u32
}

/// Reading back four little-endian bytes gives the value written.
pub proof fn lemma_le32_roundtrip(v: u32)
    ensures
        le32_value(le32(v)) == v,
        le32(v).len() == 4,
{
}

/// Reading back four big-endian bytes gives the value written.
pub proof fn lemma_be32_roundtrip(v: u32)
    ensures
        be32_value(be32(v)) == v,
        be32(v).len() == 4,
{
}

/// Reading back two little-endian bytes gives the value written.
pub proof fn lemma_le16_roundtrip(v: u16)
    ensures
        le16_value(le16(v)[0], le16(v)[1]) == v,
        le16(v).len() == 2,
{
}

pub(crate) fn push_le32(v: u32, out: &mut Vec<u8>)
    ensures
        final(out)@ == old(out)@ + le32(v),
{
    out.push((v % 256) as u8);
    out.push(((v / 256) % 256) as u8);
    out.push(((v / 0x1_0000) % 256) as u8);
    out.push((v / 0x100_0000) as u8);
    proof {
        assert(out@ =~= old(out)@ + le32(v));
    }
}

pub(crate) fn push_be32(v: u32, out: &mut Vec<u8>)
    ensures
        final(out)@ == old(out)@ + be32(v),
{
    out.push((v / 0x100_0000) as u8);
    out.push(((v / 0x1_0000) % 256) as u8);
    out.push(((v / 256) % 256) as u8);
    out.push((v % 256) as u8);
    proof {
        assert(out@ =~= old(out)@ + be32(v));
    }
}

pub(crate) fn read_le32(s: &[u8], pos: usize) -> (r: u32)
    requires
        pos + 4 <= s@.len(),
    ensures
        r == le32_value(s@.subrange(pos as int, pos + 4)),
{
    (s[pos] as u32) + 256 * (s[pos + 1] as u32) + 0x1_0000 * (s[pos + 2] as u32) + 0x100_0000 * (
    s[pos + 3] as u32)
}

pub(crate) fn read_be32(s: &[u8], pos: usize) -> (r: u32)
    requires
        pos + 4 <= s@.len(),
    ensures
        r == be32_value(s@.subrange(pos as int, pos + 4)),
{
    0x100_0000 * (s[pos] as u32) + 0x1_0000 * (s[pos + 1] as u32) + 256 * (s[pos + 2] as u32) + (
    s[pos + 3] as u32)
}

/// The header of an entry in a block: how many bytes of the key it shares
/// with the block's first key (the overlap), and how many follow (the diff).
#[derive(Copy, Clone, Debug, PartialEq, Eq, Structural)]
pub struct Header {
    overlap: u16,
    diff: u16,
}

impl View for Header {
    type V = (u16, u16);

    closed spec fn view(&self) -> (u16, u16) {
        (self.overlap, self.diff)
    }
}

/// The encoding of an entry header.
pub open spec fn block_header_encoding(overlap: u16, diff: u16) -> Seq<u8> {
    le16(overlap) + le16(diff)
}

/// The header that four bytes encode.
pub open spec fn block_header_decoding(s: Seq<u8>) -> (u16, u16) {
    (le16_value(s[0], s[1]), le16_value(s[2], s[3]))
}

impl Header {
    /// A header of the given overlap and diff.
    pub fn new(overlap: u16, diff: u16) -> (r: Self)
        ensures
            r@ == (overlap, diff),
    {
        Header { overlap, diff }
    }

    /// Encodes the header into four bytes.
    pub fn encode(&self) -> (r: Vec<u8>)
        ensures
            r@ == block_header_encoding(self.overlap_spec(), self.diff_spec()),
    {
        let mut buf: Vec<u8> = Vec::with_capacity(HEADER_SIZE);
        self.encode_to_buf(&mut buf);
        proof {
            assert(buf@ =~= block_header_encoding(self.overlap_spec(), self.diff_spec()));
        }
        buf
    }

    /// Appends the encoding of the header to `buf`.
    pub fn encode_to_buf(&self, buf: &mut Vec<u8>)
        ensures
            final(buf)@ == old(buf)@ + block_header_encoding(self.overlap_spec(), self.diff_spec()),
    {
        buf.push((self.overlap % 256) as u8);
        buf.push((self.overlap / 256) as u8);
        buf.push((self.diff % 256) as u8);
        buf.push((self.diff / 256) as u8);
        proof {
            assert(buf@ =~= old(buf)@ + block_header_encoding(self.overlap_spec(), self.diff_spec()));
        }
    }

    /// Decodes a header from the first four bytes of `buf`.
    pub fn decode(buf: &[u8]) -> (r: Self)
        requires
            buf@.len() >= 4,
        ensures
            r@ == block_header_decoding(buf@),
    {
        Header {
            overlap: (buf[0] as u16) + 256 * (buf[1] as u16),
            diff: (buf[2] as u16) + 256 * (buf[3] as u16),
        }
    }

    /// The overlap with the base key.
    pub closed spec fn overlap_spec(&self) -> u16 {
        self.overlap
    }

    /// The length of the diff.
    pub closed spec fn diff_spec(&self) -> u16 {
        self.diff
    }

    /// The overlap with the base key.
    pub fn overlap(&self) -> (r: u16)
        ensures
            r == self@.0,
            r == self.overlap_spec(),
    {
        self.overlap
    }

    /// The length of the diff.
    pub fn diff(&self) -> (r: u16)
        ensures
            r == self@.1,
            r == self.diff_spec(),
    {
        self.diff
    }
}

/// Decoding an encoded header gives it back.
pub proof fn lemma_block_header_roundtrip(overlap: u16, diff: u16)
    ensures
        block_header_decoding(block_header_encoding(overlap, diff)) == (overlap, diff),
        block_header_encoding(overlap, diff).len() == 4,
{
}

/// The parts of a block: its offset in the table, the bytes that the
/// checksum covers (entries, entry offsets, count), the checksum, where the
/// entry offsets start, and the entry offsets.
#[verifier::ext_equal]
pub struct BlockView {
    pub offset: usize,
    pub data: Seq<u8>,
    pub checksum: Seq<u8>,
    pub entries_index_start: usize,
    pub entry_offsets: Seq<u32>,
}

/// A block read from a table.
pub struct Block {
    offset: usize,
    data: Vec<u8>,
    checksum: Vec<u8>,
    entries_index_start: usize,
    entry_offsets: Vec<u32>,
}

impl View for Block {
    type V = BlockView;

    closed spec fn view(&self) -> BlockView {
        BlockView {
            offset: self.offset,
            data: self.data@,
            checksum: self.checksum@,
            entries_index_start: self.entries_index_start,
            entry_offsets: self.entry_offsets@,
        }
    }
}

/// Errors of reading a block.
#[derive(Debug, Copy, Clone, PartialEq, Eq, Structural)]
pub enum BlockError {
    /// The checksum length is larger than the block.
    InvalidChecksumLength,
    /// The checksum does not match the data.
    ChecksumMismatch,
}

/// Whether the trailer of `b` can be read: four bytes of checksum length,
/// room for the checksum and four bytes of entry count before it, and room
/// for the entry offsets before those. A checksum length larger than the
/// block is reported as an error rather than left out.
pub open spec fn block_trailer_readable(b: Seq<u8>) -> bool {
    &&& b.len() >= 4
    &&& {
        let cks_len = be32_value(b.subrange(b.len() - 4, b.len() as int));
        cks_len > b.len() || (cks_len + 8 <= b.len() && {
            let num_pos = b.len() - 4 - cks_len - 4;
            let n = be32_value(b.subrange(num_pos, num_pos + 4));
            n * 4 <= num_pos
        })
    }
}

/// What reading the block bytes `b` at `offset` gives, when the checksum
/// length fits.
pub open spec fn parsed_block(b: Seq<u8>, offset: usize) -> BlockView {
    let cks_len = be32_value(b.subrange(b.len() - 4, b.len() as int));
    let cks_pos = b.len() - 4 - cks_len;
    let num_pos = cks_pos - 4;
    let n = be32_value(b.subrange(num_pos, num_pos + 4));
    let start = num_pos - n * 4;
    BlockView {
        offset,
        data: b.take(num_pos + 4),
        checksum: b.subrange(cks_pos, cks_pos + cks_len),
        entries_index_start: start as usize,
        entry_offsets: Seq::new(n as nat, |i: int| le32_value(b.subrange(start + 4 * i, start + 4 * i + 4))),
    }
}

/// Whether the entries of a block view lie within its bytes, and the
/// number of its entry offsets fits four bytes each in memory.
pub open spec fn block_view_readable(bv: BlockView) -> bool {
    &&& bv.entries_index_start <= bv.data.len()
    &&& 4 * bv.entry_offsets.len() <= usize::MAX
}

impl Block {
    /// Reads a block from its bytes, as a table holds them after
    /// decompression and decryption.
    pub fn parse(b: Vec<u8>, offset: usize) -> (r: Result<Block, BlockError>)
        requires
            block_trailer_readable(b@),
        ensures
            be32_value(b@.subrange(b@.len() - 4, b@.len() as int)) > b@.len() ==> r == Err::<Block, BlockError>(BlockError::InvalidChecksumLength),
            be32_value(b@.subrange(b@.len() - 4, b@.len() as int)) <= b@.len() ==> (r matches Ok(blk) && blk@ == parsed_block(b@, offset)),
            r matches Ok(blk) ==> block_view_readable(blk@),
    {
        let ghost bv = b@;
        let len = b.len();
        let mut read_pos = len - 4;
        let cks_len = read_be32(b.as_slice(), read_pos) as usize;
        if cks_len > len {
            return Err(BlockError::InvalidChecksumLength);
        }
        read_pos = read_pos - cks_len;
        let checksum = vstd::slice::slice_to_vec(slice_subrange(b.as_slice(), read_pos, read_pos + cks_len));
        read_pos = read_pos - 4;
        let num_entries = read_be32(b.as_slice(), read_pos) as usize;
        let entries_index_start = read_pos - num_entries * 4;
        let mut entry_offsets: Vec<u32> = Vec::with_capacity(num_entries);
        let mut i: usize = 0;
        while i < num_entries
            invariant
                i <= num_entries,
                entries_index_start + num_entries * 4 == read_pos,
                read_pos + 4 <= b@.len(),
                entry_offsets@.len() == i,
                forall|j: int| 0 <= j < i ==> entry_offsets@[j] == le32_value(
                    b@.subrange(entries_index_start + 4 * j, entries_index_start + 4 * j + 4),
                ),
            decreases num_entries - i,
        {
            let v = read_le32(b.as_slice(), entries_index_start + 4 * i);
            entry_offsets.push(v);
            i = i + 1;
        }
        let mut data = b;
        data.truncate(read_pos + 4);
        let blk = Block { offset, data, checksum, entries_index_start, entry_offsets };
        proof {
            let pv = parsed_block(bv, offset);
            assert(blk@.data =~= pv.data);
            assert(blk@.checksum =~= pv.checksum);
            assert(blk@.entry_offsets =~= pv.entry_offsets);
        }
        Ok(blk)
    }
}


impl Block {
    /// The offset of the block in its table.
    pub fn offset(&self) -> (r: usize)
        ensures
            r == self@.offset,
    {
        self.offset
    }

    /// The entries of the block: the bytes before the entry offsets.
    pub fn data(&self) -> (r: &[u8])
        requires
            self@.entries_index_start <= self@.data.len(),
        ensures
            r@ == self@.data.take(self@.entries_index_start as int),
    {
        slice_subrange(self.data.as_slice(), 0, self.entries_index_start)
    }

    /// The offsets of the entries.
    pub fn entry_offsets(&self) -> (r: &[u32])
        ensures
            r@ == self@.entry_offsets,
    {
        self.entry_offsets.as_slice()
    }

    /// The memory the block takes: three words, the data, the checksum and
    /// four bytes per entry offset.
    pub fn size(&self) -> (r: u64)
        requires
            24 + self@.data.len() + self@.checksum.len() + 4 * self@.entry_offsets.len() <= u64::MAX,
        ensures
            r as nat == 24 + self@.data.len() + self@.checksum.len() + 4 * self@.entry_offsets.len(),
    {
        24 + self.data.len() as u64 + self.checksum.len() as u64 + 4 * (self.entry_offsets.len() as u64)
    }

    /// Checks the checksum of the block: the encoding of the checksum of
    /// its data with `algo` must be the stored checksum.
    pub fn verify_checksum(&self, algo: ChecksumAlgorithm) -> (r: Result<(), BlockError>)
        ensures
            r is Ok <==> checksum_encoding(checksum_of(self@.data, algo)) == self@.checksum,
            r is Err ==> r == Err::<(), BlockError>(BlockError::ChecksumMismatch),
    {
        let enc = calculate_checksum(self.data.as_slice(), algo).marshal();
        if !bytes_equal(enc.as_slice(), self.checksum.as_slice()) {
            return Err(BlockError::ChecksumMismatch);
        }
        Ok(())
    }
}

/// The length of the longest common prefix of `a` and `b`.
pub open spec fn common_prefix_len(a: Seq<u8>, b: Seq<u8>) -> nat
    decreases a.len(),
{
    if a.len() == 0 || b.len() == 0 || a[0] != b[0] {
        0
    } else {
        1 + common_prefix_len(a.drop_first(), b.drop_first())
    }
}

pub proof fn lemma_common_prefix(a: Seq<u8>, b: Seq<u8>)
    ensures
        common_prefix_len(a, b) <= a.len(),
        common_prefix_len(a, b) <= b.len(),
        a.take(common_prefix_len(a, b) as int) == b.take(common_prefix_len(a, b) as int),
    decreases a.len(),
{
    if !(a.len() == 0 || b.len() == 0 || a[0] != b[0]) {
        lemma_common_prefix(a.drop_first(), b.drop_first());
        let n = common_prefix_len(a, b) as int;
        assert(a.take(n) =~= seq![a[0]] + a.drop_first().take(n - 1));
        assert(b.take(n) =~= seq![b[0]] + b.drop_first().take(n - 1));
    } else {
        assert(a.take(0) =~= b.take(0));
    }
}

/// The length of the common prefix of `a` and `b`.
pub fn common_prefix_length(a: &[u8], b: &[u8]) -> (r: usize)
    ensures
        r == common_prefix_len(a@, b@),
{
    let mut idx: usize = 0;
    proof {
        assert(a@.skip(0) =~= a@);
        assert(b@.skip(0) =~= b@);
    }
    while idx < a.len() && idx < b.len() && a[idx] == b[idx]
        invariant
            idx <= a@.len(),
            idx <= b@.len(),
            common_prefix_len(a@, b@) == idx + common_prefix_len(a@.skip(idx as int), b@.skip(idx as int)),
        decreases a@.len() - idx,
    {
        proof {
            assert(a@.skip(idx as int).drop_first() =~= a@.skip(idx + 1));
            assert(b@.skip(idx as int).drop_first() =~= b@.skip(idx + 1));
        }
        idx = idx + 1;
    }
    proof {
        if idx < a@.len() && idx < b@.len() {
            assert(a@.skip(idx as int)[0] == a@[idx as int]);
            assert(b@.skip(idx as int)[0] == b@[idx as int]);
        }
    }
    idx
}

/// The encoding of one entry against the base key `base`.
pub open spec fn entry_encoding(base: Seq<u8>, key: Seq<u8>, v: ValueView) -> Seq<u8> {
    let ov = common_prefix_len(base, key);
    block_header_encoding(ov as u16, (key.len() - ov) as u16) + key.skip(ov as int) + value_encoding(v)
}

/// The state of a block under construction: its bytes, its base key and
/// the offsets of its entries.
pub struct BuiltBlock {
    pub data: Seq<u8>,
    pub base: Seq<u8>,
    pub offsets: Seq<u32>,
}

/// The state after adding an entry: the first non-empty key becomes the
/// base key (an entry added while the base key is empty is written whole),
/// the entry's offset is the current length (in 32 bits), and its encoding
/// is appended.
pub open spec fn add_entry(st: BuiltBlock, key: Seq<u8>, v: ValueView) -> BuiltBlock {
    let base = if st.base.len() == 0 { key } else { st.base };
    let enc = if st.base.len() == 0 { entry_encoding(Seq::empty(), key, v) } else { entry_encoding(st.base, key, v) };
    BuiltBlock { data: st.data + enc, base, offsets: st.offsets.push(trunc32(st.data.len())) }
}

/// The state after adding the entries in order to an empty block.
pub open spec fn built_block(entries: Seq<(Seq<u8>, ValueView)>) -> BuiltBlock
    decreases entries.len(),
{
    if entries.len() == 0 {
        BuiltBlock { data: Seq::empty(), base: Seq::empty(), offsets: Seq::empty() }
    } else {
        add_entry(built_block(entries.drop_last()), entries.last().0, entries.last().1)
    }
}

/// Where entry `i` ends: where the next one starts, or at the end.
pub open spec fn entry_end(d: Seq<u8>, offs: Seq<u32>, i: int) -> int {
    if i + 1 < offs.len() {
        offs[i + 1] as int
    } else {
        d.len() as int
    }
}

/// The bytes of entry `i`.
pub open spec fn entry_region(d: Seq<u8>, offs: Seq<u32>, i: int) -> Seq<u8> {
    d.subrange(offs[i] as int, entry_end(d, offs, i))
}

/// The base key of a block: the diff of its first entry.
pub open spec fn block_base_key(d: Seq<u8>) -> Seq<u8> {
    d.subrange(4, 4 + le16_value(d[2], d[3]))
}

/// The key of entry `i`: the overlap taken from the base key, then the diff.
pub open spec fn decoded_key(d: Seq<u8>, offs: Seq<u32>, i: int) -> Seq<u8> {
    let r = entry_region(d, offs, i);
    let (ov, df) = block_header_decoding(r);
    block_base_key(d).take(ov as int) + r.subrange(4, 4 + df)
}

/// The encoded value of entry `i`: what follows its diff.
pub open spec fn entry_value_bytes(d: Seq<u8>, offs: Seq<u32>, i: int) -> Seq<u8> {
    let r = entry_region(d, offs, i);
    r.skip(4 + block_header_decoding(r).1)
}

/// Whether the base key of a block can be read: with entries, the header
/// of the first and its diff lie within the bytes.
pub open spec fn block_base_readable(d: Seq<u8>, offs: Seq<u32>) -> bool {
    &&& offs.len() > 0 ==> (d.len() >= 4 && 4 + le16_value(d[2], d[3]) <= d.len())
    &&& offs.len() < 0x8000_0000_0000_0000
}

/// Whether the key of entry `i` can be read: the entry lies within the
/// bytes, holds its header and its diff, and its overlap does not exceed
/// the base key.
pub open spec fn entry_key_readable(d: Seq<u8>, offs: Seq<u32>, i: int) -> bool {
    &&& offs[i] <= entry_end(d, offs, i) <= d.len()
    &&& entry_end(d, offs, i) - offs[i] >= 4
    &&& 4 + block_header_decoding(entry_region(d, offs, i)).1 <= entry_region(d, offs, i).len()
    &&& block_header_decoding(entry_region(d, offs, i)).0 <= block_base_key(d).len()
}

/// Whether the keys of a block's entries can be read: the base key and the
/// key of every entry can.
pub open spec fn block_keys_wf(d: Seq<u8>, offs: Seq<u32>) -> bool {
    &&& block_base_readable(d, offs)
    &&& forall|i: int| 0 <= i < offs.len() ==> #[trigger] entry_key_readable(d, offs, i)
}

/// Whether the entries of a block can be read: their keys can, and every
/// entry holds at least the two meta bytes of a value after its diff.
pub open spec fn block_wf(d: Seq<u8>, offs: Seq<u32>) -> bool {
    &&& block_keys_wf(d, offs)
    &&& forall|i: int| 0 <= i < offs.len() ==>
        4 + block_header_decoding(#[trigger] entry_region(d, offs, i)).1 + 2 <= entry_region(d, offs, i).len()
}

impl Block {
    /// Whether the entries of the block can be read: computes
    /// [`block_wf`] of its entries and offsets.
    pub fn entries_readable(&self) -> (r: bool)
        requires
            block_view_readable(self@),
        ensures
            r == block_wf(self@.data.take(self@.entries_index_start as int), self@.entry_offsets),
    {
        let d = self.data();
        let offs = self.entry_offsets();
        let ghost dv = d@;
        let ghost ov = offs@;
        let n = offs.len();
        if n as u64 >= 0x8000_0000_0000_0000 {
            return false;
        }
        let mut base_len: usize = 0;
        if n > 0 {
            if d.len() < 4 {
                return false;
            }
            base_len = d[2] as usize + 256 * (d[3] as usize);
            if base_len + 4 > d.len() {
                return false;
            }
            proof {
                assert(block_base_key(dv).len() == base_len);
            }
        }
        let mut i: usize = 0;
        while i < n
            invariant
                i <= n,
                n == ov.len(),
                d@ == dv,
                offs@ == ov,
                dv == self@.data.take(self@.entries_index_start as int),
                ov == self@.entry_offsets,
                n > 0 ==> (dv.len() >= 4 && 4 + le16_value(dv[2], dv[3]) <= dv.len() && block_base_key(dv).len() == base_len),
                forall|j: int| 0 <= j < i ==> {
                    &&& #[trigger] ov[j] <= entry_end(dv, ov, j) <= dv.len()
                    &&& entry_end(dv, ov, j) - ov[j] >= 4
                    &&& 4 + block_header_decoding(entry_region(dv, ov, j)).1 + 2 <= entry_region(dv, ov, j).len()
                    &&& block_header_decoding(entry_region(dv, ov, j)).0 <= block_base_key(dv).len()
                },
            decreases n - i,
        {
            let start = offs[i] as usize;
            let end = if i + 1 < n {
                offs[i + 1] as usize
            } else {
                d.len()
            };
            proof {
                assert(end == entry_end(dv, ov, i as int));
            }
            if start > end || end > d.len() || end - start < 4 {
                proof {
                    let ii = i as int;
                    assert(ov[ii] == start);
                    assert(!(ov[ii] <= entry_end(dv, ov, ii) <= dv.len() && entry_end(dv, ov, ii) - ov[ii] >= 4));
                    assert(!entry_key_readable(dv, ov, ii));
                    assert(!block_wf(dv, ov));
                }
                return false;
            }
            let entry = slice_subrange(d, start, end);
            proof {
                assert(entry@ =~= entry_region(dv, ov, i as int));
            }
            let h = Header::decode(entry);
            if 4 + (h.diff() as usize) + 2 > end - start || (h.overlap() as usize) > base_len {
                proof {
                    let ii = i as int;
                    assert(ov[ii] == start);
                    assert(entry_region(dv, ov, ii).len() == end - start);
                    assert(block_header_decoding(entry_region(dv, ov, ii)) == h@);
                    if h@.0 > base_len {
                        assert(!entry_key_readable(dv, ov, ii));
                    } else {
                        assert(!(4 + block_header_decoding(entry_region(dv, ov, ii)).1 + 2 <= entry_region(dv, ov, ii).len()));
                    }
                    assert(!block_wf(dv, ov));
                }
                return false;
            }
            i = i + 1;
        }
        true
    }
}

/// Whether the entries can be written into a block: keys of at most
/// `u16::MAX` bytes, and everything within 32-bit offsets.
pub open spec fn entries_fit(entries: Seq<(Seq<u8>, ValueView)>) -> bool {
    &&& forall|i: int| 0 <= i < entries.len() ==> #[trigger] entries[i].0.len() <= u16::MAX
    &&& built_block(entries).data.len() < 0x1_0000_0000
}

/// The builder of a block.
pub struct BlockBuilder {
    data: Vec<u8>,
    base_key: Vec<u8>,
    entry_offsets: Vec<u32>,
    entries: Ghost<Seq<(Seq<u8>, ValueView)>>,
}

impl BlockBuilder {
    /// The entries added so far.
    pub closed spec fn entries(&self) -> Seq<(Seq<u8>, ValueView)> {
        self.entries@
    }

    /// The bytes of the entries added so far.
    pub closed spec fn bytes(&self) -> Seq<u8> {
        self.data@
    }

    /// The offsets of the entries added so far.
    pub closed spec fn offsets(&self) -> Seq<u32> {
        self.entry_offsets@
    }

    /// The base key: the first non-empty key added.
    pub closed spec fn base(&self) -> Seq<u8> {
        self.base_key@
    }

    /// The builder holds exactly what adding its entries in order writes.
    pub closed spec fn wf(&self) -> bool {
        &&& self.data@ == built_block(self.entries@).data
        &&& self.base_key@ == built_block(self.entries@).base
        &&& self.entry_offsets@ == built_block(self.entries@).offsets
    }

    /// An empty block builder.
    pub fn new() -> (r: Self)
        ensures
            r.wf(),
            r.entries() == Seq::<(Seq<u8>, ValueView)>::empty(),
    {
        BlockBuilder { data: Vec::new(), base_key: Vec::new(), entry_offsets: Vec::new(), entries: Ghost(Seq::empty()) }
    }

    /// Whether no entry has been added.
    pub fn is_empty(&self) -> (r: bool)
        requires
            self.wf(),
        ensures
            r == (self.entries().len() == 0),
    {
        proof {
            lemma_built_offsets_len(self.entries@);
        }
        self.entry_offsets.len() == 0
    }

    /// The number of entries added.
    pub fn len(&self) -> (r: usize)
        requires
            self.wf(),
        ensures
            r == self.entries().len(),
    {
        proof {
            lemma_built_offsets_len(self.entries@);
        }
        self.entry_offsets.len()
    }

    /// The number of bytes of the entries.
    pub fn end(&self) -> (r: usize)
        requires
            self.wf(),
        ensures
            r == built_block(self.entries()).data.len(),
    {
        self.data.len()
    }

    /// The bytes of the entries.
    pub fn as_slice(&self) -> (r: &[u8])
        requires
            self.wf(),
        ensures
            r@ == built_block(self.entries()).data,
    {
        self.data.as_slice()
    }

    /// The base key: the first non-empty key added.
    pub fn base_key(&self) -> (r: &[u8])
        requires
            self.wf(),
        ensures
            r@ == built_block(self.entries()).base,
    {
        self.base_key.as_slice()
    }

    /// Returns the suffix of `new_key` after its common prefix with the
    /// base key.
    pub fn key_diff<'a>(&self, new_key: &'a [u8]) -> (r: &'a [u8])
        ensures
            r@ == new_key@.skip(common_prefix_len(self.base(), new_key@) as int),
    {
        let idx = common_prefix_length(self.base_key.as_slice(), new_key);
        proof {
            lemma_common_prefix(self.base_key@, new_key@);
        }
        slice_subrange(new_key, idx, new_key.len())
    }

    /// Adds an entry: its header (overlap with the base key and diff
    /// length), the diff and the encoded value.
    pub fn add(&mut self, key: &[u8], val: &Value)
        requires
            old(self).wf(),
            key@.len() <= u16::MAX,
        ensures
            final(self).wf(),
            final(self).entries() == old(self).entries().push((key@, val@)),
    {
        let ghost old_entries = self.entries@;
        let offset = ((self.data.len() as u64) % 0x1_0000_0000) as u32;
        if self.base_key.len() == 0 {
            self.base_key = vstd::slice::slice_to_vec(key);
            let h = Header { overlap: 0, diff: key.len() as u16 };
            self.entry_offsets.push(offset);
            h.encode_to_buf(&mut self.data);
            let mut k = vstd::slice::slice_to_vec(key);
            self.data.append(&mut k);
            let mut v = val.encode_to_vec();
            self.data.append(&mut v);
            proof {
                assert(common_prefix_len(Seq::<u8>::empty(), key@) == 0);
                assert(key@.skip(0) =~= key@);
            }
        } else {
            let diff = self.key_diff(key);
            proof {
                lemma_common_prefix(self.base_key@, key@);
            }
            let overlap = key.len() - diff.len();
            let h = Header { overlap: overlap as u16, diff: diff.len() as u16 };
            self.entry_offsets.push(offset);
            h.encode_to_buf(&mut self.data);
            let mut k = vstd::slice::slice_to_vec(diff);
            self.data.append(&mut k);
            let mut v = val.encode_to_vec();
            self.data.append(&mut v);
        }
        self.entries = Ghost(old_entries.push((key@, val@)));
        proof {
            let es = self.entries@;
            assert(es.drop_last() =~= old_entries);
            assert(self.data@ =~= built_block(es).data);
            assert(self.entry_offsets@ =~= built_block(es).offsets);
        }
    }
}

/// The entry offsets as a block stores them: four little-endian bytes each.
pub open spec fn offsets_encoding(offs: Seq<u32>) -> Seq<u8>
    decreases offs.len(),
{
    if offs.len() == 0 {
        Seq::empty()
    } else {
        offsets_encoding(offs.drop_last()) + le32(offs.last())
    }
}

/// What the checksum of a block covers: the entries, their offsets and
/// their number.
pub open spec fn block_body(entries: Seq<(Seq<u8>, ValueView)>) -> Seq<u8> {
    let b = built_block(entries);
    b.data + offsets_encoding(b.offsets) + be32(trunc32(b.offsets.len()))
}

/// The checksum that a finished block stores.
pub open spec fn block_checksum(entries: Seq<(Seq<u8>, ValueView)>, algo: ChecksumAlgorithm) -> Seq<u8> {
    checksum_encoding(checksum_of(block_body(entries), algo))
}

/// The bytes of a finished block: the body, its checksum and the length of
/// the checksum. A block without entries is not written.
pub open spec fn finished_block(entries: Seq<(Seq<u8>, ValueView)>, algo: ChecksumAlgorithm) -> Seq<u8> {
    if entries.len() == 0 {
        Seq::empty()
    } else {
        let cks = block_checksum(entries, algo);
        block_body(entries) + cks + be32(cks.len() as u32)
    }
}

pub proof fn lemma_offsets_encoding(offs: Seq<u32>)
    ensures
        offsets_encoding(offs).len() == 4 * offs.len(),
        forall|i: int| 0 <= i < offs.len() ==> #[trigger] offsets_encoding(offs).subrange(4 * i, 4 * i + 4) == le32(offs[i]),
    decreases offs.len(),
{
    if offs.len() > 0 {
        let p = offs.drop_last();
        lemma_offsets_encoding(p);
        let e = offsets_encoding(offs);
        assert forall|i: int| 0 <= i < offs.len() implies #[trigger] e.subrange(4 * i, 4 * i + 4) == le32(offs[i]) by {
            if i < p.len() {
                assert(e.subrange(4 * i, 4 * i + 4) =~= offsets_encoding(p).subrange(4 * i, 4 * i + 4));
            } else {
                assert(e.subrange(4 * i, 4 * i + 4) =~= le32(offs.last()));
            }
        }
    }
}

impl BlockBuilder {
    /// Finishes the block: appends the entry offsets, their number, the
    /// checksum of all that with `algo`, and the checksum's length. A
    /// builder without entries gives no bytes.
    pub fn finish(self, algo: ChecksumAlgorithm) -> (r: Vec<u8>)
        requires
            self.wf(),
        ensures
            r@ == finished_block(self.entries(), algo),
    {
        let ghost entries = self.entries@;
        proof {
            lemma_built_offsets_len(entries);
        }
        let BlockBuilder { data, base_key, entry_offsets, entries: _ } = self;
        let n = entry_offsets.len();
        if n == 0 {
            return Vec::new();
        }
        let mut out = data;
        let ghost d = out@;
        let mut i: usize = 0;
        proof {
            assert(entry_offsets@.take(0) =~= Seq::<u32>::empty());
            assert(out@ =~= d + offsets_encoding(entry_offsets@.take(0)));
        }
        while i < n
            invariant
                i <= n,
                n == entry_offsets@.len(),
                out@ == d + offsets_encoding(entry_offsets@.take(i as int)),
            decreases n - i,
        {
            push_le32(entry_offsets[i], &mut out);
            proof {
                assert(entry_offsets@.take(i + 1).drop_last() =~= entry_offsets@.take(i as int));
                assert(out@ =~= d + offsets_encoding(entry_offsets@.take(i + 1)));
            }
            i = i + 1;
        }
        proof {
            assert(entry_offsets@.take(n as int) =~= entry_offsets@);
        }
        let count = ((n as u64) % 0x1_0000_0000) as u32;
        push_be32(count, &mut out);
        proof {
            assert(out@ =~= block_body(entries));
        }
        let mut cks = calculate_checksum(out.as_slice(), algo).marshal();
        proof {
            lemma_checksum_encoding_len(checksum_of(block_body(entries), algo));
        }
        let cl = cks.len() as u32;
        out.append(&mut cks);
        push_be32(cl, &mut out);
        out
    }
}

proof fn lemma_trailer_offsets(d: Seq<u8>, offs: Seq<u32>, tail: Seq<u8>)
    ensures
        ({
            let f = d + offsets_encoding(offs) + tail;
            Seq::new(offs.len(), |i: int| le32_value(f.subrange(d.len() + 4 * i, d.len() + 4 * i + 4))) == offs
        }),
{
    lemma_offsets_encoding(offs);
    let oe = offsets_encoding(offs);
    let f = d + oe + tail;
    let start = d.len() as int;
    let decoded = Seq::new(offs.len(), |i: int| le32_value(f.subrange(start + 4 * i, start + 4 * i + 4)));
    assert forall|i: int| 0 <= i < offs.len() implies decoded[i] == offs[i] by {
        assert forall|k: int| 0 <= k < 4 implies #[trigger] f[start + 4 * i + k] == oe[4 * i + k] by {
            assert((d + oe + tail)[start + 4 * i + k] == (d + oe)[start + 4 * i + k]);
        }
        assert(f.subrange(start + 4 * i, start + 4 * i + 4) =~= oe.subrange(4 * i, 4 * i + 4));
        lemma_le32_roundtrip(offs[i]);
    }
    assert(decoded =~= offs);
}

#[verifier::spinoff_prover]
#[verifier::rlimit(40)]
proof fn lemma_trailer(d: Seq<u8>, offs: Seq<u32>, cks: Seq<u8>, offset: usize)
    requires
        offs.len() < 0x1_0000_0000,
        cks.len() <= 22,
        d.len() + 4 * offs.len() + 34 <= usize::MAX,
    ensures
        ({
            let body = d + offsets_encoding(offs) + be32(offs.len() as u32);
            let f = body + cks + be32(cks.len() as u32);
            &&& block_trailer_readable(f)
            &&& be32_value(f.subrange(f.len() - 4, f.len() as int)) <= f.len()
            &&& parsed_block(f, offset) == (BlockView {
                offset,
                data: body,
                checksum: cks,
                entries_index_start: d.len() as usize,
                entry_offsets: offs,
            })
        }),
{
    lemma_offsets_encoding(offs);
    let n = offs.len();
    let oe = offsets_encoding(offs);
    let body = d + oe + be32(n as u32);
    let cl = cks.len() as u32;
    let f = body + cks + be32(cl);
    lemma_be32_roundtrip(cl);
    lemma_be32_roundtrip(n as u32);
    assert(f.subrange(f.len() - 4, f.len() as int) =~= be32(cl));
    let num_pos = body.len() - 4;
    assert(f.subrange(num_pos, num_pos + 4) =~= be32(n as u32));
    let tail = be32(n as u32) + cks + be32(cl);
    assert(f =~= d + oe + tail);
    lemma_trailer_offsets(d, offs, tail);
    let pv = parsed_block(f, offset);
    assert(pv.data =~= body);
    assert(pv.checksum =~= cks);
}

/// A finished block reads back as it was written: its checksum length
/// fits, its body is what the checksum covers, its entry offsets are those
/// of the entries, and they start where the entries end.
pub proof fn lemma_finished_block_parses(entries: Seq<(Seq<u8>, ValueView)>, algo: ChecksumAlgorithm, offset: usize)
    requires
        entries.len() > 0,
        entries.len() < 0x1_0000_0000,
        built_block(entries).data.len() + 4 * entries.len() + 34 <= usize::MAX,
    ensures
        block_trailer_readable(finished_block(entries, algo)),
        be32_value(finished_block(entries, algo).subrange(finished_block(entries, algo).len() - 4, finished_block(entries, algo).len() as int)) <= finished_block(entries, algo).len(),
        parsed_block(finished_block(entries, algo), offset) == (BlockView {
            offset,
            data: block_body(entries),
            checksum: block_checksum(entries, algo),
            entries_index_start: built_block(entries).data.len() as usize,
            entry_offsets: built_block(entries).offsets,
        }),
{
    let b = built_block(entries);
    lemma_built_offsets_len(entries);
    let n = b.offsets.len();
    assert(trunc32(n) == n);
    lemma_checksum_encoding_len(checksum_of(block_body(entries), algo));
    lemma_trailer(b.data, b.offsets, block_checksum(entries, algo), offset);
}

proof fn lemma_entry_decodes(base: Seq<u8>, key: Seq<u8>, v: ValueView)
    requires
        key.len() <= u16::MAX,
    ensures
        ({
            let r = entry_encoding(base, key, v);
            let ov = common_prefix_len(base, key);
            &&& block_header_decoding(r) == (ov as u16, (key.len() - ov) as u16)
            &&& ov <= base.len()
            &&& ov <= key.len()
            &&& base.take(ov as int) == key.take(ov as int)
            &&& 4 + (key.len() - ov) + 2 <= r.len()
            &&& r.subrange(4, 4 + (key.len() - ov)) == key.skip(ov as int)
            &&& r.skip(4 + (key.len() - ov)) == value_encoding(v)
        }),
{
    let ov = common_prefix_len(base, key);
    lemma_common_prefix(base, key);
    let df = (key.len() - ov) as u16;
    lemma_block_header_roundtrip(ov as u16, df);
    let h = block_header_encoding(ov as u16, df);
    let r = entry_encoding(base, key, v);
    crate::varint::lemma_encode_len_bound(v.expires_at as nat);
    assert(r.subrange(0, 4) =~= h);
    assert(r.subrange(4, 4 + df) =~= key.skip(ov as int));
    assert(r.skip(4 + df) =~= value_encoding(v));
}

/// The base that entry `i` is written against: nothing for the first,
/// the first key for the others.
pub open spec fn entry_base(entries: Seq<(Seq<u8>, ValueView)>, i: int) -> Seq<u8> {
    if i == 0 {
        Seq::empty()
    } else {
        entries[0].0
    }
}

proof fn lemma_built_base(entries: Seq<(Seq<u8>, ValueView)>)
    requires
        entries.len() > 0,
        entries[0].0.len() > 0,
    ensures
        built_block(entries).base == entries[0].0,
    decreases entries.len(),
{
    let p = entries.drop_last();
    if entries.len() > 1 {
        assert(p[0] == entries[0]);
        lemma_built_base(p);
    } else {
        assert(entries.last() == entries[0]);
        assert(p.len() == 0);
        assert(built_block(p).base.len() == 0);
    }
    assert(built_block(entries) == add_entry(built_block(p), entries.last().0, entries.last().1));
}

proof fn lemma_built_layout(entries: Seq<(Seq<u8>, ValueView)>)
    requires
        entries.len() > 0 ==> entries[0].0.len() > 0,
        entries_fit(entries),
    ensures
        ({
            let b = built_block(entries);
            &&& b.offsets.len() == entries.len()
            &&& b.data.len() >= entries.len()
            &&& entries.len() > 0 ==> b.data.len() >= entry_encoding(Seq::empty(), entries[0].0, entries[0].1).len()
            &&& entries.len() > 0 ==> b.data.take(entry_encoding(Seq::empty(), entries[0].0, entries[0].1).len() as int)
                == entry_encoding(Seq::empty(), entries[0].0, entries[0].1)
            &&& forall|i: int| 0 <= i < entries.len() ==> {
                &&& #[trigger] b.offsets[i] <= entry_end(b.data, b.offsets, i) <= b.data.len()
                &&& entry_region(b.data, b.offsets, i) == entry_encoding(entry_base(entries, i), entries[i].0, entries[i].1)
            }
        }),
    decreases entries.len(),
{
    if entries.len() > 0 {
        let p = entries.drop_last();
        let bp = built_block(p);
        let b = built_block(entries);
        let n = entries.len() as int;
        assert(p.len() > 0 ==> p[0] == entries[0]);
        assert forall|i: int| 0 <= i < p.len() implies #[trigger] p[i].0.len() <= u16::MAX by {
            assert(p[i] == entries[i]);
        }
        assert(entries_fit(p));
        lemma_built_layout(p);
        if p.len() > 0 {
            lemma_built_base(p);
        }
        let k = entries.last().0;
        let v = entries.last().1;
        let enc = entry_encoding(entry_base(entries, n - 1), k, v);
        assert(b.data == bp.data + enc);
        assert(trunc32(bp.data.len()) == bp.data.len());
        assert(b.offsets == bp.offsets.push(bp.data.len() as u32));
        lemma_entry_decodes(entry_base(entries, n - 1), k, v);
        if p.len() > 0 {
            let e0 = entry_encoding(Seq::empty(), entries[0].0, entries[0].1);
            assert(b.data.take(e0.len() as int) =~= bp.data.take(e0.len() as int));
        } else {
            assert(b.data.take(enc.len() as int) =~= enc);
        }
        assert forall|i: int| 0 <= i < n implies {
            &&& #[trigger] b.offsets[i] <= entry_end(b.data, b.offsets, i) <= b.data.len()
            &&& entry_region(b.data, b.offsets, i) == entry_encoding(entry_base(entries, i), entries[i].0, entries[i].1)
        } by {
            if i < n - 1 {
                assert(p[i] == entries[i]);
                assert(bp.offsets[i] <= entry_end(bp.data, bp.offsets, i) <= bp.data.len());
                assert(entry_end(b.data, b.offsets, i) == entry_end(bp.data, bp.offsets, i));
                assert(entry_region(b.data, b.offsets, i) =~= entry_region(bp.data, bp.offsets, i));
                assert(entry_base(p, i) == entry_base(entries, i));
            } else {
                assert(entry_region(b.data, b.offsets, i) =~= enc);
            }
        }
    }
}

/// What a block reader decodes from a block the builder wrote is what was
/// added: the block is readable, the key of entry `i` is the `i`-th key
/// added and its value decodes to the `i`-th value (with version zero,
/// which a block does not store). This holds when the first key is not
/// empty, as every key with a timestamp is.
pub proof fn lemma_built_block_reads_back(entries: Seq<(Seq<u8>, ValueView)>)
    requires
        entries.len() > 0 ==> entries[0].0.len() > 0,
        entries_fit(entries),
    ensures
        block_wf(built_block(entries).data, built_block(entries).offsets),
        built_block(entries).offsets.len() == entries.len(),
        forall|i: int| 0 <= i < entries.len() ==> #[trigger] decoded_key(built_block(entries).data, built_block(entries).offsets, i) == entries[i].0,
        forall|i: int| 0 <= i < entries.len() ==> value_decoding(#[trigger] entry_value_bytes(built_block(entries).data, built_block(entries).offsets, i))
            == (ValueView { version: 0, ..entries[i].1 }),
{
    let b = built_block(entries);
    let d = b.data;
    let offs = b.offsets;
    lemma_built_layout(entries);
    if entries.len() > 0 {
        let k0 = entries[0].0;
        let e0 = entry_encoding(Seq::empty(), k0, entries[0].1);
        lemma_entry_decodes(Seq::empty(), k0, entries[0].1);
        assert(common_prefix_len(Seq::<u8>::empty(), k0) == 0);
        assert(d[2] == e0[2] && d[3] == e0[3]) by {
            assert(d.take(e0.len() as int)[2] == d[2]);
            assert(d.take(e0.len() as int)[3] == d[3]);
        }
        assert(le16_value(d[2], d[3]) == k0.len()) by {
            assert(e0.subrange(0, 4)[2] == e0[2]);
            assert(e0.subrange(0, 4)[3] == e0[3]);
        }
        assert(block_base_key(d) =~= k0) by {
            assert(block_base_key(d) =~= e0.subrange(4, 4 + k0.len() as int)) by {
                assert forall|j: int| 0 <= j < k0.len() implies block_base_key(d)[j] == e0[4 + j] by {
                    assert(d.take(e0.len() as int)[4 + j] == d[4 + j]);
                }
            }
            assert(k0.skip(0) =~= k0);
        }
        assert forall|i: int| 0 <= i < entries.len() implies {
            &&& entry_end(d, offs, i) - offs[i] >= 4
            &&& 4 + block_header_decoding(#[trigger] entry_region(d, offs, i)).1 + 2 <= entry_region(d, offs, i).len()
            &&& block_header_decoding(entry_region(d, offs, i)).0 <= block_base_key(d).len()
            &&& decoded_key(d, offs, i) == entries[i].0
            &&& value_decoding(entry_value_bytes(d, offs, i)) == (ValueView { version: 0, ..entries[i].1 })
        } by {
            lemma_entry_reads_back(d, offs, entry_base(entries, i), entries[i].0, entries[i].1, i);
        }
    }
}

proof fn lemma_entry_reads_back(d: Seq<u8>, offs: Seq<u32>, base: Seq<u8>, key: Seq<u8>, v: ValueView, i: int)
    requires
        0 <= i < offs.len(),
        key.len() <= u16::MAX,
        offs[i] <= entry_end(d, offs, i) <= d.len(),
        entry_region(d, offs, i) == entry_encoding(base, key, v),
        base.len() == 0 || base == block_base_key(d),
    ensures
        entry_end(d, offs, i) - offs[i] >= 4,
        4 + block_header_decoding(entry_region(d, offs, i)).1 + 2 <= entry_region(d, offs, i).len(),
        block_header_decoding(entry_region(d, offs, i)).0 <= block_base_key(d).len(),
        decoded_key(d, offs, i) == key,
        value_decoding(entry_value_bytes(d, offs, i)) == (ValueView { version: 0, ..v }),
{
    let ov = common_prefix_len(base, key);
    lemma_entry_decodes(base, key, v);
    if base.len() == 0 {
        assert(common_prefix_len(base, key) == 0);
    }
    assert(key.take(ov as int) + key.skip(ov as int) =~= key);
    assert(decoded_key(d, offs, i) =~= key);
    lemma_value_roundtrip(v);
}

proof fn lemma_built_offsets_len(entries: Seq<(Seq<u8>, ValueView)>)
    ensures
        built_block(entries).offsets.len() == entries.len(),
    decreases entries.len(),
{
    if entries.len() > 0 {
        lemma_built_offsets_len(entries.drop_last());
    }
}

} // verus!
