//! Compression of blocks: none, Snappy, Zstd or LZ4 (with the uncompressed
//! size prepended). Decompressing what was compressed with the same
//! algorithm gives the data back.
use vstd::prelude::*;
use vstd::slice::SliceAdditionalExecFns;

verus! {

/// Error of the Snappy codec.
#[verifier::external_type_specification]
#[verifier::external_body]
pub struct ExSnapError(snap::Error);

/// Error of the Zstd codec, an I/O error.
#[verifier::external_type_specification]
#[verifier::external_body]
pub struct ExIoError(std::io::Error);

/// Error of LZ4 decompression.
#[verifier::external_type_specification]
#[verifier::external_body]
pub struct ExLz4DecompressError(lz4_flex::block::DecompressError);

/// Error of LZ4 compression.
#[verifier::external_type_specification]
#[verifier::external_body]
pub struct ExLz4CompressError(lz4_flex::block::CompressError);

/// The algorithm that compresses a block.
#[derive(Copy, Clone, Debug, PartialEq, Eq, Hash, PartialOrd, Ord, Structural)]
pub enum CompressionAlgorithm {
    /// The block is not compressed.
    Uncompressed,
    /// The block is compressed with Snappy.
    Snappy,
    /// The block is compressed with Zstd.
    Zstd,
    /// The block is compressed with LZ4, its size prepended.
    Lz4,
}

/// The protobuf number of an algorithm.
pub open spec fn compression_algorithm_number(a: CompressionAlgorithm) -> i32 {
    match a {
        CompressionAlgorithm::Uncompressed => 0,
        CompressionAlgorithm::Snappy => 1,
        CompressionAlgorithm::Zstd => 2,
        CompressionAlgorithm::Lz4 => 3,
    }
}

/// The algorithm of a number: one of the numbers of the algorithms, no
/// compression for any other.
pub open spec fn compression_algorithm_of(v: int) -> CompressionAlgorithm {
    if v == 1 {
        CompressionAlgorithm::Snappy
    } else if v == 2 {
        CompressionAlgorithm::Zstd
    } else if v == 3 {
        CompressionAlgorithm::Lz4
    } else {
        CompressionAlgorithm::Uncompressed
    }
}

impl Default for CompressionAlgorithm {
    fn default() -> (r: Self)
        ensures
            r == CompressionAlgorithm::Uncompressed,
    {
        CompressionAlgorithm::Uncompressed
    }
}

impl CompressionAlgorithm {
    /// The name of the algorithm in the protobuf definition.
    pub fn as_str_name(&self) -> (r: &'static str)
        ensures
            r@ == (match *self {
                CompressionAlgorithm::Uncompressed => "None"@,
                CompressionAlgorithm::Snappy => "Snappy"@,
                CompressionAlgorithm::Zstd => "Zstd"@,
                CompressionAlgorithm::Lz4 => "Lz4"@,
            }),
    {
        match self {
            CompressionAlgorithm::Uncompressed => "None",
            CompressionAlgorithm::Snappy => "Snappy",
            CompressionAlgorithm::Zstd => "Zstd",
            CompressionAlgorithm::Lz4 => "Lz4",
        }
    }

    /// The protobuf number of the algorithm.
    pub fn to_i32(&self) -> (r: i32)
        ensures
            r == compression_algorithm_number(*self),
    {
        match self {
            CompressionAlgorithm::Uncompressed => 0,
            CompressionAlgorithm::Snappy => 1,
            CompressionAlgorithm::Zstd => 2,
            CompressionAlgorithm::Lz4 => 3,
        }
    }

    /// Whether `value` is the number of an algorithm.
    pub fn is_valid(value: i32) -> (r: bool)
        ensures
            r == (0 <= value <= 3),
    {
        0 <= value && value <= 3
    }

    /// The algorithm of a number, if there is one.
    pub fn from_i32(value: i32) -> (r: Option<Self>)
        ensures
            r == (if 0 <= value <= 3 { Some(compression_algorithm_of(value as int)) } else { None::<Self> }),
    {
        if 0 <= value && value <= 3 {
            Some(Self::from_number(value as i64))
        } else {
            None
        }
    }

    /// The algorithm of a number, no compression for a number that is not
    /// that of an algorithm.
    pub fn from_number(value: i64) -> (r: Self)
        ensures
            r == compression_algorithm_of(value as int),
    {
        if value == 1 {
            CompressionAlgorithm::Snappy
        } else if value == 2 {
            CompressionAlgorithm::Zstd
        } else if value == 3 {
            CompressionAlgorithm::Lz4
        } else {
            CompressionAlgorithm::Uncompressed
        }
    }
}

impl From<i32> for CompressionAlgorithm {
    fn from(value: i32) -> (r: Self) {
        Self::from_number(value as i64)
    }
}

impl vstd::std_specs::convert::FromSpecImpl<i32> for CompressionAlgorithm {
    open spec fn obeys_from_spec() -> bool {
        true
    }

    open spec fn from_spec(v: i32) -> Self {
        compression_algorithm_of(v as int)
    }
}

/// How a block is compressed: the algorithm, and for Zstd the level
/// (zero or less for the default level, above the largest level for the
/// largest).
#[derive(Copy, Clone, Debug, PartialEq, Eq, Hash, Structural)]
pub struct Compression {
    /// The algorithm.
    pub algo: CompressionAlgorithm,
    /// The Zstd level.
    pub level: i32,
}

impl Default for Compression {
    fn default() -> (r: Self)
        ensures
            r == (Compression { algo: CompressionAlgorithm::Uncompressed, level: 0 }),
    {
        Self::new()
    }
}

impl Compression {
    /// No compression.
    pub fn new() -> (r: Self)
        ensures
            r == (Compression { algo: CompressionAlgorithm::Uncompressed, level: 0 }),
    {
        Compression { algo: CompressionAlgorithm::Uncompressed, level: 0 }
    }

    /// Whether blocks are left uncompressed.
    pub fn is_none(&self) -> (r: bool)
        ensures
            r == (self.algo == CompressionAlgorithm::Uncompressed),
    {
        match self.algo {
            CompressionAlgorithm::Uncompressed => true,
            _ => false,
        }
    }

    /// Whether blocks are compressed.
    pub fn is_some(&self) -> (r: bool)
        ensures
            r == (self.algo != CompressionAlgorithm::Uncompressed),
    {
        !self.is_none()
    }

    /// The algorithm.
    pub fn algo(&self) -> (r: CompressionAlgorithm)
        ensures
            r == self.algo,
    {
        self.algo
    }

    /// Sets the algorithm.
    pub fn set_algo(&mut self, algo: CompressionAlgorithm)
        ensures
            *final(self) == (Compression { algo, ..*old(self) }),
    {
        self.algo = algo;
    }
}

/// Error of compressing or decompressing.
pub enum CompressionError {
    /// Snappy failed.
    Snappy(snap::Error),
    /// Zstd failed.
    Zstd(std::io::Error),
    /// LZ4 decompression failed.
    Lz4(lz4_flex::block::DecompressError),
    /// LZ4 compression failed.
    Lz4Compress(lz4_flex::block::CompressError),
    /// The buffer is smaller than what goes into it.
    BufferTooSmall { given: u64, min: u64 },
}

/// The largest input that Snappy compresses, `u32::MAX`.
pub const SNAPPY_MAX_INPUT_SIZE: u64 = 0xFFFF_FFFF;

/// The largest size that Snappy compresses `n` bytes into, zero when `n`
/// or that size exceeds `u32::MAX`.
pub open spec fn snappy_max_len(n: usize) -> usize {
    if n > SNAPPY_MAX_INPUT_SIZE || 32 + n + n / 6 > SNAPPY_MAX_INPUT_SIZE {
        0
    } else {
        (32 + n + n / 6) as usize
    }
}

/// What Snappy compresses the bytes into.
pub uninterp spec fn snappy_compressed(data: Seq<u8>) -> Seq<u8>;

/// What Snappy decompresses the bytes into, `None` when they are not valid
/// Snappy data.
pub uninterp spec fn snappy_decompressed(data: Seq<u8>) -> Option<Seq<u8>>;

/// What Zstd compresses the bytes into at a level.
pub uninterp spec fn zstd_compressed(data: Seq<u8>, level: i32) -> Seq<u8>;

/// What decoding the bytes as Zstd frames gives, when it succeeds.
pub uninterp spec fn zstd_decoded(data: Seq<u8>) -> Seq<u8>;

/// What LZ4 decompression of bytes that start with the uncompressed
/// length (four little-endian bytes) gives, `None` when it fails on them.
pub uninterp spec fn lz4_prepended_decompressed(data: Seq<u8>) -> Option<Seq<u8>>;

/// The largest size that LZ4 compresses the given number of bytes into.
pub uninterp spec fn lz4_max_output_size(input_len: usize) -> usize;

/// Whether `r` holds the bytes `x` back for every `x` small enough for
/// Snappy whose compression `data` is.
pub open spec fn snappy_gives_back(r: Result<Vec<u8>, snap::Error>, data: Seq<u8>) -> bool {
    forall|x: Seq<u8>| #[trigger] snappy_compressed(x) == data && snappy_max_len(x.len() as usize) != 0 && x.len() <= u32::MAX
        ==> (r matches Ok(v) && v@ == x)
}

/// Whether `r` holds the bytes `x` back for every `x` and level whose Zstd
/// frame `data` is.
pub open spec fn zstd_gives_back(r: Result<Vec<u8>, std::io::Error>, data: Seq<u8>) -> bool {
    forall|x: Seq<u8>, l: i32| #[trigger] zstd_compressed(x, l) == data ==> (r matches Ok(v) && v@ == x)
}

/// Calls `snap::raw::max_compress_len`, which returns
/// `32 + n + n / 6`, or zero when `n` or that exceeds `u32::MAX`.
#[verifier::external_body]
fn snappy_max_compress_len(n: usize) -> (r: usize)
    ensures
        r == snappy_max_len(n),
{
    snap::raw::max_compress_len(n)
}

/// Calls `snap::raw::Encoder::compress_vec`, which fails exactly when the
/// largest compressed size is zero (the input is too large), and otherwise
/// returns the Snappy compression of the input.
#[verifier::external_body]
fn snappy_compress(data: &[u8]) -> (r: Result<Vec<u8>, snap::Error>)
    ensures
        r is Ok <==> snappy_max_len(data@.len() as usize) != 0,
        r matches Ok(v) ==> v@ == snappy_compressed(data@),
{
    snap::raw::Encoder::new().compress_vec(data)
}

/// Calls `snap::raw::Decoder::decompress_vec`, which fails on input that is
/// not valid Snappy data, and decompresses what `compress_vec` wrote back
/// into its input.
#[verifier::external_body]
fn snappy_decompress(data: &[u8]) -> (r: Result<Vec<u8>, snap::Error>)
    ensures
        r matches Ok(v) ==> snappy_decompressed(data@) == Some(v@),
        r is Err ==> snappy_decompressed(data@) is None,
        snappy_gives_back(r, data@),
{
    snap::raw::Decoder::new().decompress_vec(data)
}

/// Calls `zstd::compression_level_range`, whose last level is
/// `ZSTD_maxCLevel()`, 22 in the bundled Zstd.
#[verifier::external_body]
fn zstd_max_level() -> (r: i32)
    ensures
        r == 22,
{
    *zstd::compression_level_range().end()
}

/// Calls `zstd::encode_all` on the bytes at a level. Whether it fails is
/// left unsaid; when it does not, it returns the Zstd frame of the input.
#[verifier::external_body]
fn zstd_encode(data: &[u8], level: i32) -> (r: Result<Vec<u8>, std::io::Error>)
    ensures
        r matches Ok(v) ==> v@ == zstd_compressed(data@, level),
{
    zstd::encode_all(data, level)
}

/// Calls `zstd::decode_all`, which decodes what `encode_all` wrote back
/// into its input; what it decodes is named [`zstd_decoded`]. When it
/// fails is left unsaid.
#[verifier::external_body]
fn zstd_decode(data: &[u8]) -> (r: Result<Vec<u8>, std::io::Error>)
    ensures
        zstd_gives_back(r, data@),
        r matches Ok(v) ==> v@ == zstd_decoded(data@),
{
    zstd::decode_all(data)
}

/// Calls `lz4_flex::compress_prepend_size`, which returns the LZ4
/// compression of the input after its length as a little-endian `u32`;
/// `decompress_size_prepended` gives an input of at most `u32::MAX` bytes
/// back. Which compression it picks depends on the machine (its hash table
/// follows the pointer width), so the bytes themselves are left unsaid.
#[verifier::external_body]
fn lz4_compress(data: &[u8]) -> (r: Vec<u8>)
    ensures
        data@.len() <= u32::MAX ==> lz4_prepended_decompressed(r@) == Some(data@),
{
    lz4_flex::compress_prepend_size(data)
}

/// Calls `lz4_flex::decompress_size_prepended`, which reads the length
/// from the first four bytes and decompresses the rest; the result is
/// named [`lz4_prepended_decompressed`].
#[verifier::external_body]
fn lz4_decompress(data: &[u8]) -> (r: Result<Vec<u8>, lz4_flex::block::DecompressError>)
    ensures
        r matches Ok(v) ==> lz4_prepended_decompressed(data@) == Some(v@),
        r is Err ==> lz4_prepended_decompressed(data@) is None,
{
    lz4_flex::decompress_size_prepended(data)
}

/// Calls `lz4_flex::block::get_maximum_output_size`, which returns
/// `20 + (n as f64 * 1.1) as usize`: at most `20 + 2 * n` while that fits.
#[verifier::external_body]
fn lz4_max_output(n: usize) -> (r: usize)
    ensures
        r == lz4_max_output_size(n),
        n <= usize::MAX / 4 ==> r <= 20 + 2 * n,
{
    lz4_flex::block::get_maximum_output_size(n)
}

/// What Zstd's one-shot compression turns the bytes into at a level.
pub uninterp spec fn zstd_bulk_compressed(data: Seq<u8>, level: i32) -> Seq<u8>;

/// What Zstd's one-shot decompression turns the bytes into, `None` when it
/// fails on them.
pub uninterp spec fn zstd_bulk_decompressed(data: Seq<u8>) -> Option<Seq<u8>>;

/// What LZ4 block decompression turns the bytes into, `None` when it fails
/// on them.
pub uninterp spec fn lz4_block_decompressed(data: Seq<u8>) -> Option<Seq<u8>>;

/// Calls `snap::raw::Encoder::compress`, which fails exactly when the input
/// is too large or the buffer is shorter than the largest compressed size,
/// and otherwise writes the Snappy compression of the input at the start
/// of the buffer and returns its length.
#[verifier::external_body]
fn snappy_compress_into(data: &[u8], dst: &mut [u8]) -> (r: Result<usize, snap::Error>)
    ensures
        final(dst)@.len() == old(dst)@.len(),
        r is Ok <==> (snappy_max_len(data@.len() as usize) != 0 && old(dst)@.len() >= snappy_max_len(data@.len() as usize)),
        r matches Ok(n) ==> n <= old(dst)@.len() && final(dst)@.take(n as int) == snappy_compressed(data@),
{
    snap::raw::Encoder::new().compress(data, dst)
}

/// Calls `snap::raw::Decoder::decompress`, which writes the decompressed
/// bytes at the start of the buffer and returns their number; when it
/// fails is left unsaid.
#[verifier::external_body]
fn snappy_decompress_into(data: &[u8], dst: &mut [u8]) -> (r: Result<usize, snap::Error>)
    ensures
        final(dst)@.len() == old(dst)@.len(),
        r matches Ok(n) ==> n <= old(dst)@.len() && snappy_decompressed(data@) == Some(final(dst)@.take(n as int)),
{
    snap::raw::Decoder::new().decompress(data, dst)
}

/// Calls `zstd::bulk::compress_to_buffer`, which writes the one-shot Zstd
/// compression of the input at the start of the buffer and returns its
/// length; when it fails (a buffer too small among others) is left unsaid.
#[verifier::external_body]
fn zstd_compress_into(data: &[u8], dst: &mut [u8], level: i32) -> (r: Result<usize, std::io::Error>)
    ensures
        final(dst)@.len() == old(dst)@.len(),
        r matches Ok(n) ==> n <= old(dst)@.len() && final(dst)@.take(n as int) == zstd_bulk_compressed(data@, level),
{
    zstd::bulk::compress_to_buffer(data, dst, level)
}

/// Calls `zstd::bulk::decompress_to_buffer`, which writes the decompressed
/// bytes at the start of the buffer and returns their number; when it
/// fails is left unsaid.
#[verifier::external_body]
fn zstd_decompress_into(data: &[u8], dst: &mut [u8]) -> (r: Result<usize, std::io::Error>)
    ensures
        final(dst)@.len() == old(dst)@.len(),
        r matches Ok(n) ==> n <= old(dst)@.len() && zstd_bulk_decompressed(data@) == Some(final(dst)@.take(n as int)),
{
    zstd::bulk::decompress_to_buffer(data, dst)
}

/// Calls `lz4_flex::compress_into` on the buffer after its first four
/// bytes, which it leaves alone: it writes there an LZ4 block that block
/// decompression turns back into the input, and returns its length. It
/// fails exactly when the rest of the buffer is shorter than the largest
/// output size, which it checks first. Which block it writes depends on
/// the machine (its hash table follows the pointer width), so the bytes
/// themselves are left unsaid.
#[verifier::external_body]
fn lz4_compress_into(data: &[u8], dst: &mut [u8]) -> (r: Result<usize, lz4_flex::block::CompressError>)
    requires
        old(dst)@.len() >= 4,
    ensures
        final(dst)@.len() == old(dst)@.len(),
        final(dst)@.take(4) == old(dst)@.take(4),
        r is Ok <==> old(dst)@.len() - 4 >= lz4_max_output_size(data@.len() as usize),
        r matches Ok(n) ==> n <= old(dst)@.len() - 4 && lz4_block_decompressed(final(dst)@.subrange(4, 4 + n)) == Some(data@),
{
    lz4_flex::compress_into(data, &mut dst[4..])
}

/// Calls `lz4_flex::decompress_into`, which writes the decompressed bytes at
/// the start of the buffer and returns their number; when it fails is left
/// unsaid.
#[verifier::external_body]
fn lz4_decompress_into(data: &[u8], dst: &mut [u8]) -> (r: Result<usize, lz4_flex::block::DecompressError>)
    ensures
        final(dst)@.len() == old(dst)@.len(),
        r matches Ok(n) ==> n <= old(dst)@.len() && lz4_block_decompressed(data@) == Some(final(dst)@.take(n as int)),
{
    lz4_flex::decompress_into(data, dst)
}

/// Copies `data` to the start of `dst`.
fn copy_to_front(data: &[u8], dst: &mut [u8])
    requires
        data@.len() <= old(dst)@.len(),
    ensures
        final(dst)@.len() == old(dst)@.len(),
        final(dst)@.take(data@.len() as int) == data@,
        final(dst)@.skip(data@.len() as int) == old(dst)@.skip(data@.len() as int),
{
    let mut i: usize = 0;
    while i < data.len()
        invariant
            i <= data@.len(),
            data@.len() <= dst@.len(),
            dst@.len() == old(dst)@.len(),
            dst@.take(i as int) == data@.take(i as int),
            dst@.skip(i as int) == old(dst)@.skip(i as int),
        decreases data@.len() - i,
    {
        let ghost pre = dst@;
        dst.set(i, data[i]);
        proof {
            assert(dst@.take(i + 1) =~= data@.take(i + 1));
            assert forall|j: int| 0 <= j < dst@.len() - (i + 1) implies #[trigger] dst@.skip(i + 1)[j] == old(dst)@.skip(i + 1)[j] by {
                assert(pre.skip(i as int)[j + 1] == old(dst)@.skip(i as int)[j + 1]);
            }
            assert(dst@.skip(i + 1) =~= old(dst)@.skip(i + 1));
        }
        i = i + 1;
    }
    proof {
        assert(data@.take(data@.len() as int) =~= data@);
    }
}

/// Compresses the bytes into the start of `dst` and returns how many it
/// wrote: with Snappy or Zstd their compression; with LZ4 the length of the
/// compression in four little-endian bytes, then the compression (the
/// length returned leaves out those four bytes); without compression the
/// bytes themselves, when they fit.
pub fn compress_to(data: &[u8], dst: &mut [u8], compression: Compression) -> (r: Result<usize, CompressionError>)
    requires
        compression.algo == CompressionAlgorithm::Lz4 ==> old(dst)@.len() >= 4,
    ensures
        final(dst)@.len() == old(dst)@.len(),
        compression.algo == CompressionAlgorithm::Uncompressed ==> {
            &&& data@.len() <= old(dst)@.len() ==> (r matches Ok(n) && n == data@.len()
                && final(dst)@.take(data@.len() as int) == data@)
            &&& data@.len() > old(dst)@.len() ==> (r matches Err(e) && e == (CompressionError::BufferTooSmall {
                given: old(dst)@.len() as u64,
                min: data@.len() as u64,
            }))
        },
        compression.algo == CompressionAlgorithm::Snappy ==> {
            &&& r is Ok <==> (snappy_max_len(data@.len() as usize) != 0
                && old(dst)@.len() >= snappy_max_len(data@.len() as usize))
            &&& r matches Ok(n) ==> n <= old(dst)@.len() && final(dst)@.take(n as int) == snappy_compressed(data@)
            &&& r matches Err(e) ==> e is Snappy
        },
        compression.algo == CompressionAlgorithm::Zstd ==> {
            &&& r matches Ok(n) ==> n <= old(dst)@.len() && final(dst)@.take(n as int)
                == zstd_bulk_compressed(data@, zstd_effective_level(compression.level, 22))
            &&& r matches Err(e) ==> e is Zstd
        },
        compression.algo == CompressionAlgorithm::Lz4 ==> {
            &&& r is Ok <==> old(dst)@.len() - 4 >= lz4_max_output_size(data@.len() as usize)
            &&& r matches Ok(n) ==> n <= old(dst)@.len() - 4
                && final(dst)@.take(4) == le32_bytes(n as u32)
                && lz4_block_decompressed(final(dst)@.subrange(4, 4 + n)) == Some(data@)
            &&& r matches Err(e) ==> e is Lz4Compress
        },
{
    match compression.algo {
        CompressionAlgorithm::Snappy => match snappy_compress_into(data, dst) {
            Ok(n) => Ok(n),
            Err(e) => Err(CompressionError::Snappy(e)),
        },
        CompressionAlgorithm::Zstd => {
            let max = zstd_max_level();
            let level = if compression.level <= 0 {
                0
            } else if compression.level > max {
                max
            } else {
                compression.level
            };
            match zstd_compress_into(data, dst, level) {
                Ok(n) => Ok(n),
                Err(e) => Err(CompressionError::Zstd(e)),
            }
        },
        CompressionAlgorithm::Lz4 => match lz4_compress_into(data, dst) {
            Ok(size) => {
                let ghost mid = dst@;
                let s = size as u32;
                dst.set(0, (s & 0xff) as u8);
                dst.set(1, ((s >> 8) & 0xff) as u8);
                dst.set(2, ((s >> 16) & 0xff) as u8);
                dst.set(3, ((s >> 24) & 0xff) as u8);
                proof {
                    assert(dst@.take(4) =~= le32_bytes(s));
                    assert(dst@.subrange(4, 4 + size) =~= mid.subrange(4, 4 + size));
                }
                Ok(size)
            },
            Err(e) => Err(CompressionError::Lz4Compress(e)),
        },
        CompressionAlgorithm::Uncompressed => {
            if data.len() > dst.len() {
                return Err(CompressionError::BufferTooSmall { given: dst.len() as u64, min: data.len() as u64 });
            }
            copy_to_front(data, dst);
            Ok(data.len())
        },
    }
}

/// The four little-endian bytes of `v`.
pub open spec fn le32_bytes(v: u32) -> Seq<u8> {
    seq![(v & 0xff) as u8, ((v >> 8) & 0xff) as u8, ((v >> 16) & 0xff) as u8, ((v >> 24) & 0xff) as u8]
}

/// Decompresses the bytes into the start of `dst` and returns how many it
/// wrote: with LZ4 the bytes after the first four (the length that
/// `compress_to` wrote) are decompressed; without compression the bytes
/// are copied, when they fit.
pub fn decompress_to(data: &[u8], dst: &mut [u8], compression: Compression) -> (r: Result<usize, CompressionError>)
    requires
        compression.algo == CompressionAlgorithm::Lz4 ==> data@.len() >= 4,
    ensures
        final(dst)@.len() == old(dst)@.len(),
        compression.algo == CompressionAlgorithm::Uncompressed ==> {
            &&& data@.len() <= old(dst)@.len() ==> (r matches Ok(n) && n == data@.len()
                && final(dst)@.take(data@.len() as int) == data@)
            &&& data@.len() > old(dst)@.len() ==> (r matches Err(e) && e == (CompressionError::BufferTooSmall {
                given: old(dst)@.len() as u64,
                min: data@.len() as u64,
            }))
        },
        compression.algo == CompressionAlgorithm::Snappy ==> {
            &&& r matches Ok(n) ==> n <= old(dst)@.len() && snappy_decompressed(data@) == Some(final(dst)@.take(n as int))
            &&& r matches Err(e) ==> e is Snappy
        },
        compression.algo == CompressionAlgorithm::Zstd ==> {
            &&& r matches Ok(n) ==> n <= old(dst)@.len() && zstd_bulk_decompressed(data@) == Some(final(dst)@.take(n as int))
            &&& r matches Err(e) ==> e is Zstd
        },
        compression.algo == CompressionAlgorithm::Lz4 ==> {
            &&& r matches Ok(n) ==> n <= old(dst)@.len() && lz4_block_decompressed(data@.skip(4)) == Some(final(dst)@.take(n as int))
            &&& r matches Err(e) ==> e is Lz4
        },
{
    match compression.algo {
        CompressionAlgorithm::Snappy => match snappy_decompress_into(data, dst) {
            Ok(n) => Ok(n),
            Err(e) => Err(CompressionError::Snappy(e)),
        },
        CompressionAlgorithm::Zstd => match zstd_decompress_into(data, dst) {
            Ok(n) => Ok(n),
            Err(e) => Err(CompressionError::Zstd(e)),
        },
        CompressionAlgorithm::Lz4 => {
            let body = vstd::slice::slice_subrange(data, 4, data.len());
            proof {
                assert(body@ =~= data@.skip(4));
            }
            match lz4_decompress_into(body, dst) {
                Ok(n) => Ok(n),
                Err(e) => Err(CompressionError::Lz4(e)),
            }
        },
        CompressionAlgorithm::Uncompressed => {
            if data.len() > dst.len() {
                return Err(CompressionError::BufferTooSmall { given: dst.len() as u64, min: data.len() as u64 });
            }
            copy_to_front(data, dst);
            Ok(data.len())
        },
    }
}

/// The Zstd level that a configured level stands for: the default (zero)
/// for zero or less, the largest level above it, the level itself
/// otherwise.
pub open spec fn zstd_effective_level(level: i32, max: i32) -> i32 {
    if level <= 0 {
        0
    } else if level > max {
        max
    } else {
        level
    }
}

/// Whether `c` is what compressing `data` gives: the bytes themselves
/// without compression, their Snappy or Zstd compression, and with LZ4
/// (for at most `u32::MAX` bytes) bytes that LZ4 decompression turns back
/// into them.
pub open spec fn compresses_to(data: Seq<u8>, c: Seq<u8>, compression: Compression) -> bool {
    match compression.algo {
        CompressionAlgorithm::Uncompressed => c == data,
        CompressionAlgorithm::Snappy => c == snappy_compressed(data),
        CompressionAlgorithm::Zstd => c == zstd_compressed(data, zstd_effective_level(compression.level, 22)),
        CompressionAlgorithm::Lz4 => data.len() <= u32::MAX ==> lz4_prepended_decompressed(c) == Some(data),
    }
}

/// What decompressing the bytes gives: the bytes themselves without
/// compression, `None` where Snappy or LZ4 fails on them, and for Zstd
/// what decoding gives when it succeeds.
pub open spec fn decompressed_bytes(data: Seq<u8>, compression: Compression) -> Option<Seq<u8>> {
    match compression.algo {
        CompressionAlgorithm::Uncompressed => Some(data),
        CompressionAlgorithm::Snappy => snappy_decompressed(data),
        CompressionAlgorithm::Zstd => Some(zstd_decoded(data)),
        CompressionAlgorithm::Lz4 => lz4_prepended_decompressed(data),
    }
}

/// Whether the bytes are few enough to compress and decompress: at most
/// `u32::MAX`, and few enough for Snappy's bound to fit too.
pub open spec fn compressible(data: Seq<u8>, compression: Compression) -> bool {
    &&& data.len() <= u32::MAX
    &&& compression.algo == CompressionAlgorithm::Snappy ==> snappy_max_len(data.len() as usize) != 0
}

/// Compresses the bytes into a new vector. Snappy fails on more than
/// `u32::MAX` bytes, LZ4 never fails, and without compression the bytes
/// are copied.
pub fn compress_into_vec(data: &[u8], compression: Compression) -> (r: Result<Vec<u8>, CompressionError>)
    ensures
        r matches Ok(v) ==> compresses_to(data@, v@, compression),
        compression.algo == CompressionAlgorithm::Snappy ==> (r is Ok <==> snappy_max_len(data@.len() as usize) != 0),
        compression.algo == CompressionAlgorithm::Lz4 ==> r is Ok,
        compression.algo == CompressionAlgorithm::Uncompressed ==> r is Ok,
        r matches Err(e) ==> (match compression.algo {
            CompressionAlgorithm::Snappy => e is Snappy,
            CompressionAlgorithm::Zstd => e is Zstd,
            _ => false,
        }),
{
    match compression.algo {
        CompressionAlgorithm::Snappy => match snappy_compress(data) {
            Ok(v) => Ok(v),
            Err(e) => Err(CompressionError::Snappy(e)),
        },
        CompressionAlgorithm::Zstd => {
            let max = zstd_max_level();
            let level = if compression.level <= 0 {
                0
            } else if compression.level > max {
                max
            } else {
                compression.level
            };
            match zstd_encode(data, level) {
                Ok(v) => Ok(v),
                Err(e) => Err(CompressionError::Zstd(e)),
            }
        },
        CompressionAlgorithm::Lz4 => Ok(lz4_compress(data)),
        CompressionAlgorithm::Uncompressed => Ok(vstd::slice::slice_to_vec(data)),
    }
}

/// Decompresses the bytes into a new vector; without compression they are
/// copied.
pub fn decompress_into_vec(data: &[u8], compression: Compression) -> (r: Result<Vec<u8>, CompressionError>)
    ensures
        compression.algo == CompressionAlgorithm::Uncompressed ==> (r matches Ok(v) && v@ == data@),
        compression.algo == CompressionAlgorithm::Snappy ==> (match r {
            Ok(v) => snappy_decompressed(data@) == Some(v@),
            Err(e) => snappy_decompressed(data@) is None && e is Snappy,
        }),
        r matches Err(e) ==> (match compression.algo {
            CompressionAlgorithm::Snappy => e is Snappy,
            CompressionAlgorithm::Zstd => e is Zstd,
            CompressionAlgorithm::Lz4 => e is Lz4,
            _ => false,
        }),
        compression.algo == CompressionAlgorithm::Lz4 ==> (match r {
            Ok(v) => lz4_prepended_decompressed(data@) == Some(v@),
            Err(e) => lz4_prepended_decompressed(data@) is None && e is Lz4,
        }),
        forall|x: Seq<u8>| compressible(x, compression) && #[trigger] compresses_to(x, data@, compression) ==> (r matches Ok(v) && v@ == x),
        r matches Ok(v) ==> decompressed_bytes(data@, compression) == Some(v@),
        decompressed_bytes(data@, compression) is None ==> r is Err,
{
    match compression.algo {
        CompressionAlgorithm::Snappy => match snappy_decompress(data) {
            Ok(v) => Ok(v),
            Err(e) => Err(CompressionError::Snappy(e)),
        },
        CompressionAlgorithm::Zstd => match zstd_decode(data) {
            Ok(v) => Ok(v),
            Err(e) => Err(CompressionError::Zstd(e)),
        },
        CompressionAlgorithm::Lz4 => match lz4_decompress(data) {
            Ok(v) => Ok(v),
            Err(e) => Err(CompressionError::Lz4(e)),
        },
        CompressionAlgorithm::Uncompressed => Ok(vstd::slice::slice_to_vec(data)),
    }
}

/// The largest size that compressing `sz` bytes can give: Snappy's bound,
/// Zstd's (the size, a 256th of it, and a margin below 128 KiB), LZ4's
/// bound and four bytes of length, or the size itself.
pub fn max_encoded_len(compression: Compression, sz: usize) -> (r: usize)
    requires
        compression.algo == CompressionAlgorithm::Zstd ==> sz + sz / 256 + 64 <= usize::MAX,
        compression.algo == CompressionAlgorithm::Lz4 ==> sz <= usize::MAX / 4,
    ensures
        r == (match compression.algo {
            CompressionAlgorithm::Snappy => snappy_max_len(sz),
            CompressionAlgorithm::Zstd => (sz + sz / 256 + (if sz < 0x2_0000 { (0x2_0000 - sz) / 2048 } else { 0 })) as usize,
            CompressionAlgorithm::Lz4 => (lz4_max_output_size(sz) + 4) as usize,
            CompressionAlgorithm::Uncompressed => sz,
        }),
{
    match compression.algo {
        CompressionAlgorithm::Snappy => snappy_max_compress_len(sz),
        CompressionAlgorithm::Zstd => {
            let low_limit: usize = 0x2_0000;
            let margin = if sz < low_limit {
                (low_limit - sz) / 2048
            } else {
                0
            };
            sz + sz / 256 + margin
        },
        CompressionAlgorithm::Lz4 => lz4_max_output(sz) + 4,
        CompressionAlgorithm::Uncompressed => sz,
    }
}

} // verus!
