//! The policies of the block and index caches: nothing is rejected, every
//! entry costs nothing, and a block's key is hashed twice, with SeaHash to
//! pick its slot and with seeded XXH64 to tell conflicts apart.
use vstd::prelude::*;
use crate::checksum::{length_prefix, sea_hash_of, sea_hash_slice, xxh64_of, xxh64_slice};

verus! {

/// The policy of the index cache.
#[derive(Debug, Copy, Clone, PartialEq, Eq, Hash, PartialOrd, Ord, Structural)]
pub struct NoopIndex;

impl NoopIndex {
    /// Whether an entry replaces the one before it: always.
    pub fn should_update(&self) -> (r: bool)
        ensures
            r,
    {
        true
    }

    /// The cost of an entry: nothing.
    pub fn cost(&self) -> (r: i64)
        ensures
            r == 0,
    {
        0
    }

    /// What happens when an entry leaves: nothing.
    pub fn on_exit(&self) {
    }
}

/// The policy of the block cache.
#[derive(Debug, Copy, Clone, PartialEq, Eq, Hash, PartialOrd, Ord, Structural)]
pub struct NoopBlock;

impl NoopBlock {
    /// Whether an entry replaces the one before it: always.
    pub fn should_update(&self) -> (r: bool)
        ensures
            r,
    {
        true
    }

    /// The cost of an entry: nothing.
    pub fn cost(&self) -> (r: i64)
        ensures
            r == 0,
    {
        0
    }

    /// What happens when an entry leaves: nothing.
    pub fn on_exit(&self) {
    }
}

/// Draws a `u64` from `rand::thread_rng()`. Nothing is claimed of it.
#[verifier::external_body]
fn random_seed() -> u64 {
    rand::Rng::gen::<u64>(&mut rand::thread_rng())
}

/// Hashes the keys of the block cache.
#[derive(Debug, Copy, Clone)]
pub struct BlockKeyBuilder {
    seed: u64,
}

impl BlockKeyBuilder {
    /// A builder whose conflict hash uses `seed`.
    pub fn with_seed(seed: u64) -> (r: Self)
        ensures
            r.seed() == seed,
    {
        BlockKeyBuilder { seed }
    }

    /// The seed of the conflict hash.
    pub closed spec fn seed(&self) -> u64 {
        self.seed
    }

    /// The slot hash of a key: the SeaHash of its length prefix and bytes.
    pub fn hash_index(&self, key: &[u8]) -> (r: u64)
        ensures
            r == sea_hash_of(length_prefix(key@), key@),
    {
        sea_hash_slice(key)
    }

    /// The conflict hash of a key: the XXH64 with the seed of its length
    /// prefix and bytes.
    pub fn hash_conflict(&self, key: &[u8]) -> (r: u64)
        ensures
            r == xxh64_of(length_prefix(key@), key@, self.seed()),
    {
        xxh64_slice(key, self.seed)
    }
}

impl Default for BlockKeyBuilder {
    /// A builder with a random seed.
    fn default() -> Self {
        BlockKeyBuilder { seed: random_seed() }
    }
}

} // verus!
