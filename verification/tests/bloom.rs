use std::collections::HashMap;
use vela::bloom::{hash, Filter, MayContain};

fn filter_to_string(f: &Filter) -> String {
    let bytes = f.as_slice();
    let mut s = vec!["."; 8 * f.len()];
    for (i, x) in bytes.iter().enumerate() {
        for j in 0..8 {
            if *x & (1 << j) != 0 {
                s[8 * i + j] = "1";
            }
        }
    }
    s.join("")
}

#[test]
fn test_small_filter() {
    let mut hashes = Vec::new();
    for word in &["hello".as_bytes(), "world".as_bytes()] {
        hashes.push(hash(word));
    }

    let f = Filter::new(hashes.as_slice(), 10);
    assert_eq!(
        "1...1.........1.........1.....1...1...1.....1.........1.....1....11.....",
        filter_to_string(&f)
    );

    let mut m = HashMap::new();
    m.insert("hello", true);
    m.insert("world", true);
    m.insert("x", false);
    m.insert("foo", false);

    for (k, v) in m {
        assert_eq!(f.may_contain_key(k.as_bytes()), v);
    }
}

#[test]
fn test_filter() {
    fn nxt_len(x: usize) -> usize {
        if x < 10 {
            return x + 1;
        }

        if x < 100 {
            return x + 10;
        }

        if x < 1000 {
            return x + 100;
        }
        x + 1000
    }

    fn le32(i: usize) -> Vec<u8> {
        let mut b = Vec::new();
        let i = i as u32;
        b.push(i as u8);
        b.push((i >> 8) as u8);
        b.push((i >> 16) as u8);
        b.push((i >> 24) as u8);
        b
    }

    let (mut num_mediocre_filters, mut num_good_filters) = (0, 0);
    'outer: loop {
        let mut len = 1;
        while len <= 10_000 {
            let keys = (0..len).map(le32).collect::<Vec<_>>();

            let hashes = keys
                .iter()
                .map(|key| hash(key.as_slice()))
                .collect::<Vec<_>>();

            let f = Filter::new(hashes.as_slice(), 10);
            if f.len() > (len * 10 / 8) + 40 {
                println!("len={}: f.len()={} is too large", len, f.len());
                continue;
            }

            // All added keys must match.
            for k in &keys {
                if !f.may_contain_key(k.as_slice()) {
                    println!("len={}: did not contain key {:?}", len, k);
                    continue 'outer;
                }
            }

            // check false positive rate.
            let mut num_false_positive = 0;
            for i in 0..10000 {
                if f.may_contain_key(le32(1e9 as usize + i).as_slice()) {
                    num_false_positive += 1;
                }
            }

            if num_false_positive > (0.02 * 10_000f64) as usize {
                println!("len={}: {} false positives in 10000", len, num_false_positive);
                continue;
            }

            if num_false_positive > (0.0125 * 10_000f64) as usize {
                num_mediocre_filters += 1;
            } else {
                num_good_filters += 1;
            }

            len = nxt_len(len);
        }
        break;
    }

    assert!(
        num_mediocre_filters <= num_good_filters / 5,
        "{} mediocre filters but only {} good filters",
        num_mediocre_filters,
        num_good_filters
    );
}

#[test]
fn test_hash() {
    // The expected numbers are those of the C++ leveldb hash.
    let mut m = HashMap::new();
    m.insert("", 3164544308);
    m.insert("r", 1499315714);
    m.insert("ru", 2735451247);
    m.insert("rus", 1743522570);
    m.insert("rust", 3428276233);
    m.insert("rusta", 2505947263);
    m.insert("rustac", 1658958784);
    m.insert("rustace", 1755101662);
    m.insert("rustacea", 2293694788);
    m.insert("rustacean", 2757417412);
    m.insert("I had a dream it would end this way.", 0xe14a9db9);
    for (k, v) in m {
        assert_eq!(hash(k.as_bytes()), v, "key: {}", k);
    }
}

#[test]
fn bloom_added_keys_are_always_found() {
    let keys: Vec<Vec<u8>> = (0u32..500).map(|i| format!("key{}", i).into_bytes()).collect();
    let hashes: Vec<u32> = keys.iter().map(|k| hash(k)).collect();
    let f = Filter::new(&hashes, 7);
    for k in &keys {
        assert!(f.may_contain_key(k));
    }
}

#[test]
fn bloom_empty_filter_sizes() {
    let f = Filter::new(&[], 10);
    // 64 bits at least, and the probe count byte.
    assert_eq!(f.len(), 9);
    assert_eq!(f.as_slice()[8], 6);
    let f = Filter::new(&[1, 2, 3], 0);
    // one bit per key is the floor; one probe.
    assert_eq!(f.as_slice()[f.len() - 1], 1);
}
