[package]
name = "vela"
version = "0.1.0"
edition = "2021"
publish = false

[dependencies]
aes = "0.8"
ctr = "0.9"
crc32fast = "1"
seahash = "4"
xxhash-rust = { version = "0.8", features = ["xxh64"] }
snap = "1"
lz4_flex = "0.10"
zstd = "0.12"
rand = "0.8"
prost = "0.11"
bytes = "1"
