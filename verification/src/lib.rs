//! Verified building blocks of a log-structured key-value store: the
//! encodings of keys, values, headers and value pointers, the bloom filter,
//! the options types and the protobuf-shaped records; the compression,
//! encryption and checksum layers; sorted-string tables, from the block
//! builder and the table builder to the block and table readers and their
//! iterators, over one table, over tables one after the other, and merged;
//! and the watermark that tracks finished work.
use vstd::prelude::*;

pub mod varint;
pub mod header;
pub mod bytes;
pub mod key;
pub mod key_range;
pub mod value;
pub mod value_pointer;
pub mod entry;
pub mod bloom;
pub mod search;
pub mod encrypt;
pub mod proto;
pub mod checksum;
pub mod table;
pub mod iterator;
pub mod compression;
pub mod options;
pub mod pb;
pub mod cache;
pub mod table_builder;
pub mod table_reader;
pub mod table_iter;
pub mod sst;
pub mod multi_iter;
pub mod merge_iter;
pub mod watermark;
pub mod closer;
pub mod file_name;

verus! {

} // verus!
