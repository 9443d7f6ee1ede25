//! The bloom filter of a table: a bit array built from the 32-bit hashes of
//! the keys, each hash setting `k` bits along a double-hashing probe
//! sequence, with `k` stored in the last byte.
use vstd::prelude::*;
use vstd::wrapping::u32_specs::{wrapping_add, wrapping_mul};
use crate::entry::trunc32;

verus! {

/// The seed of the hash.
pub const SEED: u32 = 0xbc9f1d34;

/// The multiplier of the hash.
pub const M: u32 = 0xc6a4a793;

/// The little-endian 32-bit word of four bytes.
pub open spec fn le_word(b0: u8, b1: u8, b2: u8, b3: u8) -> u32 {
    (b0 as u32) | ((b1 as u32) << 8u32) | ((b2 as u32) << 16u32) | ((b3 as u32) << 24u32)
}

/// One round of the hash over a 4-byte word.
pub open spec fn mix(h: u32, w: u32) -> u32 {
    let h1 = wrapping_mul(wrapping_add(h, w), M);
    h1 ^ (h1 >> 16u32)
}

/// The hash over the last one to three bytes.
pub open spec fn hash_tail(h: u32, c: Seq<u8>) -> u32 {
    if c.len() == 3 {
        let h1 = wrapping_add(h, (c[2] as u32) << 16u32);
        let h2 = wrapping_add(h1, (c[1] as u32) << 8u32);
        let h3 = wrapping_mul(wrapping_add(h2, c[0] as u32), M);
        h3 ^ (h3 >> 24u32)
    } else if c.len() == 2 {
        let h1 = wrapping_add(h, (c[1] as u32) << 8u32);
        let h2 = wrapping_mul(wrapping_add(h1, c[0] as u32), M);
        h2 ^ (h2 >> 24u32)
    } else if c.len() == 1 {
        let h1 = wrapping_mul(wrapping_add(h, c[0] as u32), M);
        h1 ^ (h1 >> 24u32)
    } else {
        h
    }
}

/// The hash over `c` from the state `h`: whole words first, then the tail.
pub open spec fn hash_body(h: u32, c: Seq<u8>) -> u32
    decreases c.len(),
{
    if c.len() < 4 {
        hash_tail(h, c)
    } else {
        hash_body(mix(h, le_word(c[0], c[1], c[2], c[3])), c.skip(4))
    }
}

/// The hash of `b`, a variant of the Murmur hash with 32-bit wrapping
/// arithmetic.
pub open spec fn hash_spec(b: Seq<u8>) -> u32 {
    hash_body(SEED ^ wrapping_mul(M, trunc32(b.len())), b)
}

/// Hashes `b` with a variant of the Murmur hash.
pub fn hash(b: &[u8]) -> (r: u32)
    ensures
        r == hash_spec(b@),
{
    let n = b.len();
    let n32: u32 = ((n as u64) % 0x1_0000_0000) as u32;
    let mut h: u32 = SEED ^ M.wrapping_mul(n32);
    let mut i: usize = 0;
    proof {
        assert(b@.skip(0) =~= b@);
    }
    while n - i >= 4
        invariant
            i <= n,
            n == b@.len(),
            hash_body(h, b@.skip(i as int)) == hash_spec(b@),
        decreases n - i,
    {
        let w: u32 = (b[i] as u32) | ((b[i + 1] as u32) << 8u32) | ((b[i + 2] as u32) << 16u32)
            | ((b[i + 3] as u32) << 24u32);
        proof {
            let c = b@.skip(i as int);
            assert(c[0] == b@[i as int] && c[1] == b@[i + 1] && c[2] == b@[i + 2] && c[3] == b@[i + 3]);
            assert(c.skip(4) =~= b@.skip(i + 4));
        }
        let h1 = h.wrapping_add(w).wrapping_mul(M);
        h = h1 ^ (h1 >> 16u32);
        i = i + 4;
    }
    let ghost c = b@.skip(i as int);
    let rem = n - i;
    if rem == 3 {
        proof {
            assert(c[0] == b@[i as int] && c[1] == b@[i + 1] && c[2] == b@[i + 2]);
        }
        let h1 = h.wrapping_add((b[i + 2] as u32) << 16u32);
        let h2 = h1.wrapping_add((b[i + 1] as u32) << 8u32);
        let h3 = h2.wrapping_add(b[i] as u32).wrapping_mul(M);
        h = h3 ^ (h3 >> 24u32);
    } else if rem == 2 {
        proof {
            assert(c[0] == b@[i as int] && c[1] == b@[i + 1]);
        }
        let h1 = h.wrapping_add((b[i + 1] as u32) << 8u32);
        let h2 = h1.wrapping_add(b[i] as u32).wrapping_mul(M);
        h = h2 ^ (h2 >> 24u32);
    } else if rem == 1 {
        proof {
            assert(c[0] == b@[i as int]);
        }
        let h1 = h.wrapping_add(b[i] as u32).wrapping_mul(M);
        h = h1 ^ (h1 >> 24u32);
    }
    h
}

/// The number of probes per key for `bits_per_key` bits per key:
/// `0.69 * bits_per_key`, at least one and at most thirty.
pub open spec fn probes_for(bits_per_key: nat) -> nat {
    let k = (69 * bits_per_key) / 100;
    if k < 1 {
        1
    } else if k > 30 {
        30
    } else {
        k
    }
}

/// The number of bytes of the bit array for `n` keys: at least 64 bits,
/// rounded up to whole bytes.
pub open spec fn filter_bytes_for(n: nat, bits_per_key: nat) -> nat {
    let nbs = if n * bits_per_key < 64 {
        64
    } else {
        n * bits_per_key
    };
    (nbs + 7) / 8
}

/// The step of the probe sequence of a hash: the hash rotated right by 17.
pub open spec fn probe_delta(h: u32) -> u32 {
    (h >> 17u32) | (h << 15u32)
}

/// The hash after `j` steps of its probe sequence.
pub open spec fn probe_hash(h: u32, j: nat) -> u32
    decreases j,
{
    if j == 0 {
        h
    } else {
        wrapping_add(probe_hash(h, (j - 1) as nat), probe_delta(h))
    }
}

/// The bit that the `j`-th probe of `h` reaches in a bit array of `m` bits.
pub open spec fn probe_bit(h: u32, j: nat, m: u32) -> nat {
    (probe_hash(h, j) % m) as nat
}

/// Whether bit `p` of the bytes `f` is set (bit `p % 8` of byte `p / 8`).
pub open spec fn bit_set(f: Seq<u8>, p: nat) -> bool {
    f[(p / 8) as int] & (1u8 << ((p % 8) as u8)) != 0
}

/// Whether some probe `j < k` of one of the first `n` hashes reaches bit `p`.
pub open spec fn covered(keys: Seq<u32>, n: int, k: nat, m: u32, p: nat) -> bool {
    exists|i: int, j: nat| 0 <= i < n && j < k && #[trigger] probe_bit(keys[i], j, m) == p
}

/// The bytes of a filter built from `keys` with `bits_per_key`: the bit
/// array, whose bits are exactly those that a probe of some key reaches,
/// followed by one byte holding the number of probes.
pub open spec fn is_filter_of(f: Seq<u8>, keys: Seq<u32>, bits_per_key: nat) -> bool {
    let nbytes = filter_bytes_for(keys.len(), bits_per_key);
    let k = probes_for(bits_per_key);
    let m = trunc32(nbytes * 8);
    &&& f.len() == nbytes + 1
    &&& f[nbytes as int] == k as u8
    &&& forall|p: nat| p < nbytes * 8 ==> (#[trigger] bit_set(f, p) <==> covered(keys, keys.len() as int, k, m, p))
}

/// Whether the filter bytes `f` may contain the hash `h`: false for fewer
/// than two bytes, true when the stored probe count exceeds thirty, and
/// otherwise whether every probe of `h` reaches a set bit.
pub open spec fn may_contain_spec(f: Seq<u8>, h: u32) -> bool {
    if f.len() < 2 {
        false
    } else if f[f.len() - 1] > 30 {
        true
    } else {
        let m = trunc32(8 * (f.len() - 1) as nat);
        forall|j: nat| j < f[f.len() - 1] ==> #[trigger] bit_set(f, probe_bit(h, j, m))
    }
}

/// Whether testing `f` is free of a division by zero and of an overflow of
/// the bit count.
pub open spec fn may_contain_defined(f: Seq<u8>) -> bool {
    f.len() < 2 || f[f.len() - 1] > 30 || (8 * (f.len() - 1) <= usize::MAX && trunc32(
        8 * (f.len() - 1) as nat,
    ) != 0)
}

proof fn lemma_or_bit(x: u8, r: u8, q: u8)
    requires
        r < 8,
        q < 8,
    ensures
        ((x | (1u8 << r)) & (1u8 << q)) != 0 <==> ((x & (1u8 << q)) != 0 || r == q),
        (0u8 & (1u8 << q)) == 0,
{
    assert(((x | (1u8 << r)) & (1u8 << q)) != 0 <==> ((x & (1u8 << q)) != 0 || r == q))
        by (bit_vector)
        requires
            r < 8,
            q < 8,
    ;
    assert((0u8 & (1u8 << q)) == 0) by (bit_vector);
}

fn probes_exec(bits_per_key: usize) -> (k: u32)
    ensures
        k as nat == probes_for(bits_per_key as nat),
        1 <= k <= 30,
{
    if bits_per_key >= 44 {
        30
    } else {
        let k = (69 * bits_per_key) / 100;
        if k < 1 {
            1
        } else if k > 30 {
            30
        } else {
            k as u32
        }
    }
}

/// Filter is an encoded set of key hashes.
#[derive(Debug)]
pub struct Filter(Vec<u8>);

impl View for Filter {
    type V = Seq<u8>;

    closed spec fn view(&self) -> Seq<u8> {
        self.0@
    }
}

impl Default for Filter {
    fn default() -> (r: Self)
        ensures
            r@.len() == 0,
    {
        Filter(Vec::new())
    }
}

impl Filter {
    /// Builds the filter of the key hashes `keys` with `bits_per_key` bits
    /// per key.
    pub fn new(keys: &[u32], bits_per_key: usize) -> (r: Self)
        requires
            keys@.len() * bits_per_key + 8 <= usize::MAX,
            trunc32(filter_bytes_for(keys@.len(), bits_per_key as nat) * 8) != 0,
        ensures
            is_filter_of(r@, keys@, bits_per_key as nat),
    {
        let k = probes_exec(bits_per_key);
        let prod = keys.len() * bits_per_key;
        let nbs0: usize = if prod < 64 { 64 } else { prod };
        let nbytes = (nbs0 + 7) / 8;
        let nbs = nbytes * 8;
        let m: u32 = ((nbs as u64) % 0x1_0000_0000) as u32;
        let ghost kn = k as nat;
        let ghost ks = keys@;
        let mut filter: Vec<u8> = Vec::new();
        while filter.len() < nbytes
            invariant
                filter@.len() <= nbytes,
                forall|i: int| 0 <= i < filter@.len() ==> filter@[i] == 0u8,
            decreases nbytes - filter@.len(),
        {
            filter.push(0u8);
        }
        proof {
            assert forall|p: nat| p < nbytes * 8 implies !#[trigger] bit_set(filter@, p) by {
                lemma_or_bit(0u8, 0, (p % 8) as u8);
            }
        }
        let mut i: usize = 0;
        while i < keys.len()
            invariant
                i <= ks.len(),
                ks == keys@,
                kn == k,
                1 <= k <= 30,
                m == trunc32(nbytes as nat * 8),
                m != 0,
                nbs == nbytes * 8,
                filter@.len() == nbytes,
                forall|p: nat| p < nbytes * 8 ==> (#[trigger] bit_set(filter@, p) <==> covered(ks, i as int, kn, m, p)),
            decreases ks.len() - i,
        {
            let key = keys[i];
            let mut h = key;
            let delta = (h >> 17u32) | (h << 15u32);
            let mut j: u32 = 0;
            while j < k
                invariant
                    i < ks.len(),
                    ks == keys@,
                    key == ks[i as int],
                    delta == probe_delta(key),
                    h == probe_hash(key, j as nat),
                    j <= k,
                    kn == k,
                    1 <= k <= 30,
                    m == trunc32(nbytes as nat * 8),
                    m != 0,
                    nbs == nbytes * 8,
                    filter@.len() == nbytes,
                    forall|p: nat| p < nbytes * 8 ==> (#[trigger] bit_set(filter@, p) <==> (covered(ks, i as int, kn, m, p)
                        || exists|jj: nat| jj < j && #[trigger] probe_bit(key, jj, m) == p)),
                decreases k - j,
            {
                let bit_pos = h % m;
                let idx = (bit_pos / 8) as usize;
                let sh: u32 = bit_pos % 8;
                let ghost old_f = filter@;
                proof {
                    assert(bit_pos < m);
                    assert((m as nat) <= nbs) by {
                        assert(m as nat == (nbytes as nat * 8) % 0x1_0000_0000);
                    }
                    assert(idx < nbytes);
                }
                let cur = filter[idx];
                filter.set(idx, cur | (1u8 << sh));
                proof {
                    let q = bit_pos as nat;
                    assert(q == probe_bit(key, j as nat, m));
                    assert forall|p: nat| p < nbytes * 8 implies (#[trigger] bit_set(filter@, p) <==> (
                    covered(ks, i as int, kn, m, p) || exists|jj: nat|
                        jj < j + 1 && #[trigger] probe_bit(key, jj, m) == p)) by {
                        lemma_or_bit(cur, sh as u8, (p % 8) as u8);
                        if p / 8 == idx as nat {
                            assert(bit_set(filter@, p) == (bit_set(old_f, p) || p == q));
                        } else {
                            assert(filter@[(p / 8) as int] == old_f[(p / 8) as int]);
                            assert(bit_set(filter@, p) == bit_set(old_f, p));
                            assert(p != q);
                        }
                        if p == q {
                            assert(probe_bit(key, j as nat, m) == p);
                        }
                        if exists|jj: nat| jj < j + 1 && #[trigger] probe_bit(key, jj, m) == p {
                            let jj = choose|jj: nat| jj < j + 1 && #[trigger] probe_bit(key, jj, m) == p;
                            if jj < j {
                                assert(exists|jj2: nat| jj2 < j && #[trigger] probe_bit(key, jj2, m) == p);
                            }
                        }
                    }
                }
                h = h.wrapping_add(delta);
                j = j + 1;
            }
            proof {
                assert forall|p: nat| p < nbytes * 8 implies (#[trigger] bit_set(filter@, p) <==> covered(ks, i + 1, kn, m, p)) by {
                    if covered(ks, i + 1, kn, m, p) {
                        let (ii, jj) = choose|ii: int, jj: nat| 0 <= ii < i + 1 && jj < kn && #[trigger] probe_bit(ks[ii], jj, m) == p;
                        if ii < i {
                            assert(covered(ks, i as int, kn, m, p));
                        } else {
                            assert(probe_bit(key, jj, m) == p);
                        }
                    }
                    if exists|jj: nat| jj < k && #[trigger] probe_bit(key, jj, m) == p {
                        let jj = choose|jj: nat| jj < k && #[trigger] probe_bit(key, jj, m) == p;
                        assert(probe_bit(ks[i as int], jj, m) == p);
                    }
                    if covered(ks, i as int, kn, m, p) {
                        let (ii, jj) = choose|ii: int, jj: nat| 0 <= ii < i && jj < kn && #[trigger] probe_bit(ks[ii], jj, m) == p;
                        assert(probe_bit(ks[ii], jj, m) == p);
                    }
                }
            }
            i = i + 1;
        }
        let ghost bits = filter@;
        filter.push(k as u8);
        proof {
            assert forall|p: nat| p < nbytes * 8 implies (#[trigger] bit_set(filter@, p) == bit_set(bits, p)) by {
                assert(filter@[(p / 8) as int] == bits[(p / 8) as int]);
            }
        }
        Filter(filter)
    }

    /// The number of bytes of the filter.
    pub fn len(&self) -> (r: usize)
        ensures
            r == self@.len(),
    {
        self.0.len()
    }

    /// The number of bytes of the filter.
    pub fn cap(&self) -> (r: usize)
        ensures
            r == self@.len(),
    {
        self.0.len()
    }

    /// The bytes of the filter.
    pub fn into_vec(self) -> (r: Vec<u8>)
        ensures
            r@ == self@,
    {
        self.0
    }

    /// The bytes of the filter.
    pub fn as_slice(&self) -> (r: &[u8])
        ensures
            r@ == self@,
    {
        self.0.as_slice()
    }
}

/// Whether a probe of the filter bytes is defined: computes
/// [`may_contain_defined`].
pub fn may_contain_is_defined(f: &[u8]) -> (r: bool)
    ensures
        r == may_contain_defined(f@),
{
    let len = f.len();
    if len < 2 || f[len - 1] > 30 {
        return true;
    }
    if len - 1 > usize::MAX / 8 {
        return false;
    }
    let m: u64 = (8 * (len - 1)) as u64;
    m % 0x1_0000_0000u64 != 0
}

/// Tests a hash against filter bytes.
pub fn may_contain_in(f: &[u8], h: u32) -> (r: bool)
    requires
        may_contain_defined(f@),
    ensures
        r == may_contain_spec(f@, h),
{
    let len = f.len();
    if len < 2 {
        return false;
    }
    let k = f[len - 1];
    if k > 30 {
        return true;
    }
    let nbs: u32 = (((8 * (len - 1)) as u64) % 0x1_0000_0000) as u32;
    let ghost m = nbs;
    let delta = (h >> 17u32) | (h << 15u32);
    let mut g = h;
    let mut j: u8 = 0;
    while j < k
        invariant
            len == f@.len(),
            len >= 2,
            k == f@[len - 1],
            k <= 30,
            m == nbs,
            nbs == trunc32(8 * (len - 1) as nat),
            nbs != 0,
            8 * (len - 1) <= usize::MAX,
            delta == probe_delta(h),
            g == probe_hash(h, j as nat),
            j <= k,
            forall|jj: nat| jj < j ==> #[trigger] bit_set(f@, probe_bit(h, jj, m)),
        decreases k - j,
    {
        let bit_pos = g % nbs;
        proof {
            assert(bit_pos < nbs);
            assert((nbs as nat) <= 8 * (len - 1) as nat) by {
                assert(nbs as nat == (8 * (len - 1) as nat) % 0x1_0000_0000);
            }
        }
        let idx = (bit_pos / 8) as usize;
        let sh: u32 = bit_pos % 8;
        if f[idx] & (1u8 << sh) == 0 {
            proof {
                assert(!bit_set(f@, probe_bit(h, j as nat, m)));
            }
            return false;
        }
        proof {
            assert(bit_set(f@, probe_bit(h, j as nat, m)));
        }
        g = g.wrapping_add(delta);
        j = j + 1;
    }
    true
}

/// Filters that can tell whether they may contain a hash.
pub trait MayContain {
    /// The filter bytes.
    spec fn filter_view(&self) -> Seq<u8>;

    /// The filter bytes.
    fn filter_bytes(&self) -> (r: &[u8])
        ensures
            r@ == self.filter_view(),
    ;

    /// Returns whether the filter may contain the hash. False positives
    /// are possible, where it returns true for hashes not in the original
    /// set.
    fn may_contain(&self, h: u32) -> (r: bool)
        requires
            may_contain_defined(self.filter_view()),
        ensures
            r == may_contain_spec(self.filter_view(), h),
    {
        may_contain_in(self.filter_bytes(), h)
    }

    /// Returns whether the filter may contain the key.
    fn may_contain_key(&self, k: &[u8]) -> (r: bool)
        requires
            may_contain_defined(self.filter_view()),
        ensures
            r == may_contain_spec(self.filter_view(), hash_spec(k@)),
    {
        may_contain_in(self.filter_bytes(), hash(k))
    }
}

impl MayContain for Filter {
    open spec fn filter_view(&self) -> Seq<u8> {
        self@
    }

    fn filter_bytes(&self) -> (r: &[u8]) {
        self.0.as_slice()
    }
}

impl MayContain for Vec<u8> {
    open spec fn filter_view(&self) -> Seq<u8> {
        self@
    }

    fn filter_bytes(&self) -> (r: &[u8]) {
        self.as_slice()
    }
}

/// A filter built from key hashes has no false negatives: it may contain
/// every hash that it was built from.
pub proof fn lemma_no_false_negatives(f: Seq<u8>, keys: Seq<u32>, bits_per_key: nat, i: int)
    requires
        is_filter_of(f, keys, bits_per_key),
        trunc32(filter_bytes_for(keys.len(), bits_per_key) * 8) != 0,
        0 <= i < keys.len(),
    ensures
        may_contain_spec(f, keys[i]),
{
    let nbytes = filter_bytes_for(keys.len(), bits_per_key);
    let k = probes_for(bits_per_key);
    let m = trunc32(nbytes * 8);
    assert(f[f.len() - 1] == k as u8);
    assert forall|j: nat| j < f[f.len() - 1] implies #[trigger] bit_set(f, probe_bit(keys[i], j, m)) by {
        let p = probe_bit(keys[i], j, m);
        assert(covered(keys, keys.len() as int, k, m, p));
        assert(p < m);
        assert((m as nat) <= nbytes * 8) by {
            assert(m as nat == (nbytes * 8) % 0x1_0000_0000);
        }
    }
}

} // verus!
