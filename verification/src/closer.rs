//! What the threads of the store are told when they are to stop.
use vstd::prelude::*;

verus! {

/// The signal that a closer has been closed.
#[derive(Debug, Copy, Clone, PartialEq, Eq, Structural)]
pub struct Canceled;

/// A source of read timestamps for transactions.
pub trait Oracle {
    /// The timestamp that a new read sees.
    fn read_timestamp(&self) -> u64;
}

} // verus!
