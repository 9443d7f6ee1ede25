//! Checksums of blocks and indexes, and their protobuf encoding.
use vstd::prelude::*;
use core::hash::{BuildHasher, Hasher};
use crate::varint::uvarint_encode;
use crate::proto::{int32_as_u64, pb_put_int32, pb_put_uint64, pb_varint_field};

verus! {

/// The checksum algorithms.
#[derive(Copy, Clone, Debug, PartialEq, Eq, Structural)]
pub enum ChecksumAlgorithm {
    Crc32c,
    XxHash64,
    SeaHash,
}

/// The protobuf number of an algorithm.
pub open spec fn checksum_algorithm_number(a: ChecksumAlgorithm) -> i32 {
    match a {
        ChecksumAlgorithm::Crc32c => 0,
        ChecksumAlgorithm::XxHash64 => 1,
        ChecksumAlgorithm::SeaHash => 2,
    }
}

impl Default for ChecksumAlgorithm {
    fn default() -> (r: Self)
        ensures
            r == ChecksumAlgorithm::Crc32c,
    {
        ChecksumAlgorithm::Crc32c
    }
}

impl ChecksumAlgorithm {
    /// The name of the algorithm in the protobuf definition.
    pub fn as_str_name(&self) -> (r: &'static str)
        ensures
            r@ == (match *self {
                ChecksumAlgorithm::Crc32c => "CRC32C"@,
                ChecksumAlgorithm::XxHash64 => "XXHash64"@,
                ChecksumAlgorithm::SeaHash => "SeaHash"@,
            }),
    {
        match self {
            ChecksumAlgorithm::Crc32c => "CRC32C",
            ChecksumAlgorithm::XxHash64 => "XXHash64",
            ChecksumAlgorithm::SeaHash => "SeaHash",
        }
    }

    /// The protobuf number of the algorithm.
    pub fn to_i32(&self) -> (r: i32)
        ensures
            r == checksum_algorithm_number(*self),
    {
        match self {
            ChecksumAlgorithm::Crc32c => 0,
            ChecksumAlgorithm::XxHash64 => 1,
            ChecksumAlgorithm::SeaHash => 2,
        }
    }

    /// Whether `value` is the number of an algorithm.
    pub fn is_valid(value: i32) -> (r: bool)
        ensures
            r == (0 <= value <= 2),
    {
        0 <= value && value <= 2
    }

    /// The algorithm of a number, if there is one.
    pub fn from_i32(value: i32) -> (r: Option<Self>)
        ensures
            r == (if value == 0 {
                Some(ChecksumAlgorithm::Crc32c)
            } else if value == 1 {
                Some(ChecksumAlgorithm::XxHash64)
            } else if value == 2 {
                Some(ChecksumAlgorithm::SeaHash)
            } else {
                None::<ChecksumAlgorithm>
            }),
    {
        if value == 0 {
            Some(ChecksumAlgorithm::Crc32c)
        } else if value == 1 {
            Some(ChecksumAlgorithm::XxHash64)
        } else if value == 2 {
            Some(ChecksumAlgorithm::SeaHash)
        } else {
            None
        }
    }

    /// The algorithm of a number, CRC32C for any other number.
    pub fn from_number(value: i64) -> (r: Self)
        ensures
            r == (if value == 1 {
                ChecksumAlgorithm::XxHash64
            } else if value == 2 {
                ChecksumAlgorithm::SeaHash
            } else {
                ChecksumAlgorithm::Crc32c
            }),
    {
        if value == 1 {
            ChecksumAlgorithm::XxHash64
        } else if value == 2 {
            ChecksumAlgorithm::SeaHash
        } else {
            ChecksumAlgorithm::Crc32c
        }
    }
}

/// A checksum: the number of its algorithm and the sum.
#[derive(Copy, Clone, Debug, PartialEq, Eq, Structural)]
pub struct Checksum {
    /// For storing type of Checksum algorithm used
    pub algo: i32,
    pub sum: u64,
}

/// The CRC-32 (IEEE) of the bytes.
pub uninterp spec fn crc32_of(data: Seq<u8>) -> u32;

/// What a `seahash::SeaHasher` gives after `prefix` and then `data` are
/// written to it.
pub uninterp spec fn sea_hash_of(prefix: Seq<u8>, data: Seq<u8>) -> u64;

/// What a hasher of `xxhash_rust::xxh64::Xxh64Builder::new(seed)` gives
/// after `prefix` and then `data` are written to it.
pub uninterp spec fn xxh64_of(prefix: Seq<u8>, data: Seq<u8>, seed: u64) -> u64;

/// The eight bytes of `v`, least significant first.
pub open spec fn le64(v: u64) -> Seq<u8> {
    le_digits(v as nat, 8)
}

/// The `n` lowest base-256 digits of `v`, least significant first.
pub open spec fn le_digits(v: nat, n: nat) -> Seq<u8>
    decreases n,
{
    if n == 0 {
        Seq::empty()
    } else {
        seq![(v % 256) as u8] + le_digits(v / 256, (n - 1) as nat)
    }
}

/// The length prefix that a slice is hashed with: its length as eight
/// little-endian bytes, so that the hash is the same on every machine.
pub open spec fn length_prefix(data: Seq<u8>) -> Seq<u8> {
    le64(data.len() as u64)
}

/// The eight little-endian bytes of `v`.
pub fn le64_bytes(v: u64) -> (r: Vec<u8>)
    ensures
        r@ == le64(v),
{
    let mut out: Vec<u8> = Vec::new();
    let mut x: u64 = v;
    let mut i: u64 = 0;
    while i < 8
        invariant
            i <= 8,
            out@ + le_digits(x as nat, (8 - i) as nat) == le_digits(v as nat, 8),
        decreases 8 - i,
    {
        proof {
            assert(le_digits(x as nat, (8 - i) as nat) == seq![(x % 256) as u8] + le_digits((x / 256) as nat, (8 - i - 1) as nat));
            assert(out@.push((x % 256) as u8) + le_digits((x / 256) as nat, (8 - i - 1) as nat)
                =~= out@ + (seq![(x % 256) as u8] + le_digits((x / 256) as nat, (8 - i - 1) as nat)));
        }
        out.push((x % 256) as u8);
        x = x / 256;
        i = i + 1;
    }
    proof {
        assert(le_digits(x as nat, 0) =~= Seq::<u8>::empty());
        assert(out@ + Seq::<u8>::empty() =~= out@);
    }
    out
}

/// Calls `crc32fast::hash`; the result is named [`crc32_of`].
#[verifier::external_body]
fn crc32fast_hash(data: &[u8]) -> (r: u32)
    ensures
        r == crc32_of(data@),
{
    crc32fast::hash(data)
}

/// Writes `prefix` and then `data` to a `seahash::SeaHasher` built by
/// `BuildHasherDefault` (no seed) and finishes it; the result is named
/// [`sea_hash_of`]. Only these bytes reach the hasher, so the result does
/// not depend on the machine.
#[verifier::external_body]
pub(crate) fn seahash_of_parts(prefix: &[u8], data: &[u8]) -> (r: u64)
    ensures
        r == sea_hash_of(prefix@, data@),
{
    let mut h = core::hash::BuildHasherDefault::<seahash::SeaHasher>::default().build_hasher();
    h.write(prefix);
    h.write(data);
    h.finish()
}

/// Writes `prefix` and then `data` to a hasher of
/// `xxhash_rust::xxh64::Xxh64Builder::new(seed)` and finishes it; the
/// result is named [`xxh64_of`]. Only these bytes reach the hasher, so the
/// result does not depend on the machine.
#[verifier::external_body]
pub(crate) fn xxh64_of_parts(prefix: &[u8], data: &[u8], seed: u64) -> (r: u64)
    ensures
        r == xxh64_of(prefix@, data@, seed),
{
    let mut h = xxhash_rust::xxh64::Xxh64Builder::new(seed).build_hasher();
    h.write(prefix);
    h.write(data);
    h.finish()
}

/// The SeaHash of a slice: its length prefix, then its bytes.
pub fn sea_hash_slice(data: &[u8]) -> (r: u64)
    ensures
        r == sea_hash_of(length_prefix(data@), data@),
{
    let prefix = le64_bytes(data.len() as u64);
    seahash_of_parts(prefix.as_slice(), data)
}

/// The XXH64 with `seed` of a slice: its length prefix, then its bytes.
pub fn xxh64_slice(data: &[u8], seed: u64) -> (r: u64)
    ensures
        r == xxh64_of(length_prefix(data@), data@, seed),
{
    let prefix = le64_bytes(data.len() as u64);
    xxh64_of_parts(prefix.as_slice(), data, seed)
}

/// The seed of XXHash64 checksums: one fixed value, so that a checksum
/// written by one process verifies in any other.
pub const XXHASH64_SEED: u64 = 0;

/// The checksum of `data` with `algo`.
pub open spec fn checksum_of(data: Seq<u8>, algo: ChecksumAlgorithm) -> Checksum {
    match algo {
        ChecksumAlgorithm::Crc32c => Checksum { algo: 0, sum: crc32_of(data) as u64 },
        ChecksumAlgorithm::XxHash64 => Checksum { algo: 1, sum: xxh64_of(length_prefix(data), data, XXHASH64_SEED) },
        ChecksumAlgorithm::SeaHash => Checksum { algo: 2, sum: sea_hash_of(length_prefix(data), data) },
    }
}

/// Calculate crc32 checksum.
pub fn crc32(data: &[u8]) -> (r: Checksum)
    ensures
        r == checksum_of(data@, ChecksumAlgorithm::Crc32c),
{
    Checksum { algo: 0, sum: crc32fast_hash(data) as u64 }
}

/// Calculate sea hash checksum.
pub fn sea(data: &[u8]) -> (r: Checksum)
    ensures
        r == checksum_of(data@, ChecksumAlgorithm::SeaHash),
{
    Checksum { algo: 2, sum: sea_hash_slice(data) }
}

/// Calculate xxhash64 checksum.
pub fn xxhash64(data: &[u8]) -> (r: Checksum)
    ensures
        r == checksum_of(data@, ChecksumAlgorithm::XxHash64),
{
    Checksum { algo: 1, sum: xxh64_slice(data, XXHASH64_SEED) }
}

/// Calculates checksum for data using the algorithm.
pub fn calculate_checksum(data: &[u8], algorithm: ChecksumAlgorithm) -> (r: Checksum)
    ensures
        r == checksum_of(data@, algorithm),
{
    match algorithm {
        ChecksumAlgorithm::XxHash64 => xxhash64(data),
        ChecksumAlgorithm::SeaHash => sea(data),
        ChecksumAlgorithm::Crc32c => crc32(data),
    }
}

/// Validates the checksum for the data against the given expected
/// checksum.
pub fn verify_checksum(data: &[u8], expected: u64, algo: ChecksumAlgorithm) -> (r: bool)
    ensures
        r == (checksum_of(data@, algo).sum == expected),
{
    calculate_checksum(data, algo).sum == expected
}

/// The protobuf encoding of a checksum: the fields that are not zero.
pub open spec fn checksum_encoding(c: Checksum) -> Seq<u8> {
    (if c.algo != 0 {
        pb_varint_field(1, int32_as_u64(c.algo))
    } else {
        Seq::empty()
    }) + (if c.sum != 0 {
        pb_varint_field(2, c.sum as nat)
    } else {
        Seq::empty()
    })
}

/// The protobuf encoding of a checksum takes at most 22 bytes.
pub proof fn lemma_checksum_encoding_len(c: Checksum)
    ensures
        checksum_encoding(c).len() <= 22,
{
    crate::varint::lemma_encode_len_bound(8);
    crate::varint::lemma_encode_len_bound(16);
    crate::varint::lemma_encode_len_bound(int32_as_u64(c.algo));
    crate::varint::lemma_encode_len_bound(c.sum as nat);
    assert(uvarint_encode(8).len() == 1) by {
        reveal_with_fuel(uvarint_encode, 2);
    }
    assert(uvarint_encode(16).len() == 1) by {
        reveal_with_fuel(uvarint_encode, 2);
    }
}

impl Default for Checksum {
    fn default() -> (r: Self)
        ensures
            r == (Checksum { algo: 0, sum: 0 }),
    {
        Self::new()
    }
}

impl Checksum {
    /// The size of the checksum value in memory.
    pub const ENCODED_SIZE: usize = 12;

    /// A zero checksum of CRC32C.
    pub fn new() -> (r: Self)
        ensures
            r == (Checksum { algo: 0, sum: 0 }),
    {
        Checksum { algo: 0, sum: 0 }
    }

    /// The algorithm, CRC32C when the number is not that of one.
    pub fn algo(&self) -> (r: ChecksumAlgorithm)
        ensures
            r == (if self.algo == 1 {
                ChecksumAlgorithm::XxHash64
            } else if self.algo == 2 {
                ChecksumAlgorithm::SeaHash
            } else {
                ChecksumAlgorithm::Crc32c
            }),
    {
        match ChecksumAlgorithm::from_i32(self.algo) {
            Some(a) => a,
            None => ChecksumAlgorithm::Crc32c,
        }
    }

    /// Sets the algorithm.
    pub fn set_algo(&mut self, value: ChecksumAlgorithm)
        ensures
            final(self).algo == checksum_algorithm_number(value),
            final(self).sum == old(self).sum,
    {
        self.algo = value.to_i32();
    }

    /// The protobuf encoding of the checksum.
    pub fn marshal(&self) -> (r: Vec<u8>)
        ensures
            r@ == checksum_encoding(*self),
    {
        let mut buf: Vec<u8> = Vec::new();
        if self.algo != 0 {
            pb_put_int32(1, self.algo, &mut buf);
        }
        if self.sum != 0 {
            pb_put_uint64(2, self.sum, &mut buf);
        }
        proof {
            assert(buf@ =~= checksum_encoding(*self));
        }
        buf
    }
}

/// Bytes that can be checksummed.
pub trait Checksumer {
    /// The bytes.
    spec fn checksum_view(&self) -> Seq<u8>;

    /// The bytes.
    fn checksum_bytes(&self) -> (r: &[u8])
        ensures
            r@ == self.checksum_view(),
    ;

    /// Calculates checksum of the bytes.
    fn checksum(&self, algorithm: ChecksumAlgorithm) -> (r: Checksum)
        ensures
            r == checksum_of(self.checksum_view(), algorithm),
    {
        calculate_checksum(self.checksum_bytes(), algorithm)
    }

    /// Validates the checksum of the bytes against the expected one.
    fn verify_checksum(&self, expected: u64, algo: ChecksumAlgorithm) -> (r: bool)
        ensures
            r == (checksum_of(self.checksum_view(), algo).sum == expected),
    {
        verify_checksum(self.checksum_bytes(), expected, algo)
    }
}

impl Checksumer for Vec<u8> {
    open spec fn checksum_view(&self) -> Seq<u8> {
        self@
    }

    fn checksum_bytes(&self) -> (r: &[u8]) {
        self.as_slice()
    }
}

} // verus!
