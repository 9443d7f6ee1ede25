# vela

The storage layer of a log-structured key-value store, written in Verus.

- `src/` is the verified library. Its modules cover the byte encodings
  (`varint`, `header`, `key`, `value`, `value_pointer`, `entry`), the bloom
  filter, the checksum, compression and encryption layers (each outside
  crate reached through a small trusted wrapper whose contract is stated in
  its doc comment), the sorted-string table format (`table`, `table_builder`,
  `table_reader`, `sst`), the iterators over one table, over tables in turn
  and over two merged streams (`table_iter`, `multi_iter`, `merge_iter`), the
  options records and the watermark.
- `tests/` holds the tests, run against the compiled library with the real
  outside crates linked.
- `app/` is ordinary Rust around the library: file access, protobuf message
  types with their derives, thread-based closers and the environment.
