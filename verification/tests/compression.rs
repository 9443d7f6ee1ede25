use vela::compression::{
    compress_into_vec, compress_to, decompress_into_vec, decompress_to, max_encoded_len, Compression,
    CompressionAlgorithm, CompressionError,
};

fn sample() -> Vec<u8> {
    let mut v = Vec::new();
    for i in 0..2000u32 {
        v.extend_from_slice(format!("line {} of a rather repetitive text\n", i % 50).as_bytes());
    }
    v
}

#[test]
fn compression_roundtrip_every_algorithm() {
    let data = sample();
    for algo in [
        CompressionAlgorithm::Uncompressed,
        CompressionAlgorithm::Snappy,
        CompressionAlgorithm::Zstd,
        CompressionAlgorithm::Lz4,
    ] {
        let c = Compression { algo, level: 0 };
        let packed = compress_into_vec(&data, c).ok().unwrap();
        if algo != CompressionAlgorithm::Uncompressed {
            assert!(packed.len() < data.len() / 4, "{:?} should shrink repetitive text", algo);
        } else {
            assert_eq!(packed, data);
        }
        assert!(packed.len() <= max_encoded_len(c, data.len()));
        let back = decompress_into_vec(&packed, c).ok().unwrap();
        assert_eq!(back, data);
    }
}

#[test]
fn compression_zstd_levels() {
    let data = sample();
    for level in [-5, 0, 1, 19, 22, 100] {
        let c = Compression { algo: CompressionAlgorithm::Zstd, level };
        let packed = compress_into_vec(&data, c).ok().unwrap();
        assert_eq!(decompress_into_vec(&packed, c).ok().unwrap(), data);
    }
    // levels above the largest behave as the largest
    let a = compress_into_vec(&data, Compression { algo: CompressionAlgorithm::Zstd, level: 22 }).ok().unwrap();
    let b = compress_into_vec(&data, Compression { algo: CompressionAlgorithm::Zstd, level: 500 }).ok().unwrap();
    assert_eq!(a, b);
    // levels at or below zero behave as the default
    let a = compress_into_vec(&data, Compression { algo: CompressionAlgorithm::Zstd, level: 0 }).ok().unwrap();
    let b = compress_into_vec(&data, Compression { algo: CompressionAlgorithm::Zstd, level: -7 }).ok().unwrap();
    assert_eq!(a, b);
}

#[test]
fn compression_invalid_snappy_input_fails() {
    let c = Compression { algo: CompressionAlgorithm::Snappy, level: 0 };
    assert!(decompress_into_vec(&[0xff, 0xff, 0xff, 0xff, 0xff, 0xff], c).is_err());
}

#[test]
fn compression_max_encoded_len_values() {
    assert_eq!(max_encoded_len(Compression::new(), 1000), 1000);
    assert_eq!(max_encoded_len(Compression { algo: CompressionAlgorithm::Snappy, level: 0 }, 600), 32 + 600 + 100);
    // zstd: size, a 256th of it, and (128 KiB - size) / 2048 below 128 KiB
    assert_eq!(max_encoded_len(Compression { algo: CompressionAlgorithm::Zstd, level: 0 }, 1024), 1024 + 4 + 63);
    assert_eq!(max_encoded_len(Compression { algo: CompressionAlgorithm::Zstd, level: 0 }, 1 << 20), (1 << 20) + (1 << 12));
    assert!(max_encoded_len(Compression { algo: CompressionAlgorithm::Lz4, level: 0 }, 1000) >= 1000 + 4);
}

#[test]
fn compression_algorithm_numbers() {
    assert_eq!(CompressionAlgorithm::from_i32(2), Some(CompressionAlgorithm::Zstd));
    assert_eq!(CompressionAlgorithm::from_i32(4), None);
    assert_eq!(CompressionAlgorithm::from_number(9), CompressionAlgorithm::Uncompressed);
    assert_eq!(CompressionAlgorithm::from(3), CompressionAlgorithm::Lz4);
    assert_eq!(CompressionAlgorithm::Snappy.as_str_name(), "Snappy");
    assert_eq!(CompressionAlgorithm::Uncompressed.as_str_name(), "None");
    assert_eq!(CompressionAlgorithm::Lz4.to_i32(), 3);
    assert!(CompressionAlgorithm::is_valid(0));
    assert!(!CompressionAlgorithm::is_valid(-1));
    let mut c = Compression::default();
    assert!(c.is_none());
    c.set_algo(CompressionAlgorithm::Zstd);
    assert!(c.is_some());
    assert_eq!(c.algo(), CompressionAlgorithm::Zstd);
}

fn sample_rows() -> Vec<u8> {
    let mut v = Vec::new();
    for i in 0..5000u32 {
        v.extend_from_slice(format!("row-{}-{}", i % 97, i % 13).as_bytes());
    }
    v
}

#[test]
fn compress_to_and_decompress_to_round_trip() {
    let data = sample_rows();
    for algo in [CompressionAlgorithm::Snappy, CompressionAlgorithm::Zstd, CompressionAlgorithm::Lz4, CompressionAlgorithm::Uncompressed] {
        let c = Compression { algo, level: 3 };
        let mut buf = vec![0u8; data.len() * 2 + 64];
        let n = compress_to(&data, &mut buf, c).ok().unwrap();
        let stored = if algo == CompressionAlgorithm::Lz4 {
            // the length of the compression comes first
            assert_eq!(u32::from_le_bytes([buf[0], buf[1], buf[2], buf[3]]) as usize, n);
            buf[..n + 4].to_vec()
        } else {
            buf[..n].to_vec()
        };
        if algo != CompressionAlgorithm::Uncompressed {
            assert!(n < data.len());
        }
        let mut out = vec![0u8; data.len() + 16];
        let m = decompress_to(&stored, &mut out, c).ok().unwrap();
        assert_eq!(m, data.len());
        assert_eq!(&out[..m], data.as_slice());
    }
}

#[test]
fn compress_to_refuses_small_buffers() {
    let data = sample_rows();
    let mut small = vec![0u8; 10];
    let plain = Compression { algo: CompressionAlgorithm::Uncompressed, level: 0 };
    match compress_to(&data, &mut small, plain) {
        Err(CompressionError::BufferTooSmall { given, min }) => {
            assert_eq!(given, 10);
            assert_eq!(min, data.len() as u64);
        },
        _ => panic!("expected a buffer too small"),
    }
    assert!(matches!(decompress_to(&data, &mut small, plain), Err(CompressionError::BufferTooSmall { .. })));
    let snappy = Compression { algo: CompressionAlgorithm::Snappy, level: 0 };
    assert!(matches!(compress_to(&data, &mut small, snappy), Err(CompressionError::Snappy(_))));
    let lz4 = Compression { algo: CompressionAlgorithm::Lz4, level: 0 };
    assert!(matches!(compress_to(&data, &mut small, lz4), Err(CompressionError::Lz4Compress(_))));
}
