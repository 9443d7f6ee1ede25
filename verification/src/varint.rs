//! Unsigned LEB128 ("uvarint") encoding, in the form used throughout the
//! store: seven bits per byte, least significant group first, the high bit
//! set on every byte but the last, and at most ten bytes for a `u64`.
use vstd::prelude::*;

verus! {

/// `128^n`.
pub open spec fn pow128(n: nat) -> nat
    decreases n,
{
    if n == 0 {
        1
    } else {
        128 * pow128((n - 1) as nat)
    }
}

/// The uvarint encoding of `x`.
pub open spec fn uvarint_encode(x: nat) -> Seq<u8>
    decreases x,
{
    if x < 128 {
        seq![x as u8]
    } else {
        seq![(x % 128 + 128) as u8] + uvarint_encode(x / 128)
    }
}

/// Decodes a uvarint from the front of `s`, where `i` bytes have already
/// been read. Returns the value and the number of bytes that this call
/// reads. `None` when `s` ends before the last byte, or when the value
/// would not fit in 64 bits (more than ten bytes, or a tenth byte above 1).
pub open spec fn uvarint_decode_from(s: Seq<u8>, i: nat) -> Option<(nat, nat)>
    decreases s.len(),
{
    if i >= 10 || s.len() == 0 {
        None
    } else if s[0] < 128 {
        if i == 9 && s[0] > 1 {
            None
        } else {
            Some((s[0] as nat, 1nat))
        }
    } else {
        match uvarint_decode_from(s.drop_first(), i + 1) {
            Some((v, n)) => Some((((s[0] - 128) + 128 * v) as nat, n + 1)),
            None => None,
        }
    }
}

/// Decodes a uvarint from the front of `s`.
pub open spec fn uvarint_decode(s: Seq<u8>) -> Option<(nat, nat)> {
    uvarint_decode_from(s, 0)
}

/// The largest value (exclusive) that the bytes from position `i` on can
/// still contribute without overflowing 64 bits.
pub open spec fn uvarint_cap(i: nat) -> nat
    decreases 9 - i,
{
    if i >= 9 {
        2
    } else {
        128 * uvarint_cap(i + 1)
    }
}

proof fn lemma_cap_zero()
    ensures
        uvarint_cap(0) == 0x1_0000_0000_0000_0000,
{
    reveal_with_fuel(uvarint_cap, 10);
}

proof fn lemma_cap_ge(i: nat)
    requires
        i <= 9,
    ensures
        uvarint_cap(i) >= 2,
    decreases 9 - i,
{
    if i < 9 {
        lemma_cap_ge(i + 1);
    }
}

/// The encoding is never empty, is at most ten bytes for a `u64`, and every
/// byte but the last has its high bit set.
pub proof fn lemma_encode_shape(x: nat)
    ensures
        uvarint_encode(x).len() >= 1,
        x < 128 ==> uvarint_encode(x).len() == 1,
        x >= 128 ==> uvarint_encode(x).len() == 1 + uvarint_encode(x / 128).len(),
    decreases x,
{
}

proof fn lemma_roundtrip_from(x: nat, i: nat, rest: Seq<u8>)
    requires
        i <= 9,
        x < uvarint_cap(i),
    ensures
        uvarint_decode_from(uvarint_encode(x) + rest, i) == Some((x, uvarint_encode(x).len())),
    decreases x,
{
    let e = uvarint_encode(x);
    let s = e + rest;
    if x < 128 {
        assert(s[0] == x as u8);
        if i == 9 {
            assert(uvarint_cap(9) == 2);
        }
    } else {
        let q = x / 128;
        assert(i < 9) by {
            if i == 9 {
                assert(uvarint_cap(9) == 2);
            }
        }
        assert(q < uvarint_cap(i + 1)) by {
            assert(uvarint_cap(i) == 128 * uvarint_cap(i + 1));
            assert(x < 128 * uvarint_cap(i + 1));
            assert(x / 128 < uvarint_cap(i + 1)) by (nonlinear_arith)
                requires
                    x < 128 * uvarint_cap(i + 1),
            ;
        }
        lemma_roundtrip_from(q, i + 1, rest);
        assert(s[0] == (x % 128 + 128) as u8);
        assert(s.drop_first() =~= uvarint_encode(q) + rest);
        assert((x % 128) + 128 * q == x);
    }
}

/// Decoding the encoding of a 64-bit value, followed by any bytes, gives
/// back the value and the length of its encoding.
pub proof fn lemma_uvarint_roundtrip(x: u64, rest: Seq<u8>)
    ensures
        uvarint_decode(uvarint_encode(x as nat) + rest) == Some((x as nat, uvarint_encode(
            x as nat,
        ).len())),
{
    lemma_cap_zero();
    lemma_roundtrip_from(x as nat, 0, rest);
}

/// A successful decode reads at least one and at most `s.len()` bytes.
pub proof fn lemma_decode_len(s: Seq<u8>, i: nat)
    ensures
        uvarint_decode_from(s, i) matches Some((v, n)) ==> 1 <= n <= s.len(),
    decreases s.len(),
{
    if i < 10 && s.len() > 0 && s[0] >= 128 {
        lemma_decode_len(s.drop_first(), i + 1);
    }
}


/// Appends the uvarint encoding of `x` to `buf` and returns the number of
/// bytes written.
pub fn binary_put_uvariant_to_vec(buf: &mut Vec<u8>, x: u64) -> (n: usize)
    ensures
        final(buf)@ == old(buf)@ + uvarint_encode(x as nat),
        n == uvarint_encode(x as nat).len(),
        1 <= n <= 10,
{
    proof {
        lemma_encode_len_bound(x as nat);
    }
    let mut v = x;
    let mut n: usize = 0;
    let ghost start = buf@;
    while v >= 128
        invariant
            start + uvarint_encode(x as nat) == buf@ + uvarint_encode(v as nat),
            n + uvarint_encode(v as nat).len() == uvarint_encode(x as nat).len(),
            uvarint_encode(x as nat).len() <= 10,
        decreases v,
    {
        let b: u8 = (v % 128) as u8 + 128;
        let ghost before = buf@;
        buf.push(b);
        proof {
            assert(uvarint_encode(v as nat) =~= seq![b] + uvarint_encode((v / 128) as nat));
            assert(before + uvarint_encode(v as nat) =~= buf@ + uvarint_encode((v / 128) as nat));
        }
        v = v / 128;
        n = n + 1;
    }
    buf.push(v as u8);
    proof {
        assert(uvarint_encode(v as nat) =~= seq![v as u8]);
    }
    n + 1
}

/// The uvarint encoding of `x`, in a vector of its own.
pub fn binary_uvarint_allocate(x: u64) -> (v: Vec<u8>)
    ensures
        v@ == uvarint_encode(x as nat),
{
    let mut v: Vec<u8> = Vec::new();
    binary_put_uvariant_to_vec(&mut v, x);
    proof {
        assert(v@ =~= Seq::<u8>::empty() + uvarint_encode(x as nat));
    }
    v
}

/// The number of bytes of the uvarint encoding of `x`.
pub fn size_variant(x: u64) -> (n: usize)
    ensures
        n == uvarint_encode(x as nat).len(),
        1 <= n <= 10,
{
    proof {
        lemma_encode_len_bound(x as nat);
    }
    let mut v = x;
    let mut n: usize = 1;
    while v >= 128
        invariant
            n + uvarint_encode(v as nat).len() == uvarint_encode(x as nat).len() + 1,
            uvarint_encode(x as nat).len() <= 10,
        decreases v,
    {
        v = v / 128;
        n = n + 1;
    }
    n
}

/// Encodings of values below `128^k` take at most `k` bytes; a `u64` takes
/// at most ten.
pub proof fn lemma_encode_len_bound(x: nat)
    ensures
        x < 0x1_0000_0000_0000_0000 ==> uvarint_encode(x).len() <= 10,
        1 <= uvarint_encode(x).len(),
{
    lemma_encode_len_pow(x, 10);
    reveal_with_fuel(pow128, 11);
}

/// A number below 2^63 takes at most nine bytes.
pub proof fn lemma_encode_len_63(x: nat)
    ensures
        x < 0x8000_0000_0000_0000 ==> uvarint_encode(x).len() <= 9,
{
    lemma_encode_len_pow(x, 9);
    reveal_with_fuel(pow128, 10);
}

proof fn lemma_encode_len_pow(x: nat, k: nat)
    ensures
        k >= 1 && x < pow128(k) ==> uvarint_encode(x).len() <= k,
        1 <= uvarint_encode(x).len(),
    decreases x,
{
    reveal_with_fuel(pow128, 2);
    if x >= 128 {
        if k > 0 {
            lemma_encode_len_pow(x / 128, (k - 1) as nat);
            if x < pow128(k) {
                assert(x / 128 < pow128((k - 1) as nat)) by (nonlinear_arith)
                    requires
                        x < 128 * pow128((k - 1) as nat),
                ;
            }
        } else {
            lemma_encode_len_pow(x / 128, 0);
        }
    }
}

/// Decodes a uvarint from the front of `buf`. Returns the value and the
/// number of bytes read, or `(0, 0)` when `buf` holds no complete 64-bit
/// uvarint at its front.
pub fn binary_uvarint(buf: &[u8]) -> (r: (u64, usize))
    ensures
        match uvarint_decode(buf@) {
            Some((v, n)) => r.0 == v && r.1 == n,
            None => r.0 == 0 && r.1 == 0,
        },
{
    let mut x: u64 = 0;
    let mut idx: usize = 0;
    let ghost s = buf@;
    proof {
        assert(s.skip(0) =~= s);
        reveal_with_fuel(pow128, 1);
        match uvarint_decode_from(s, 0) {
            Some((v, n)) => { assert(pow128(0) == 1); assert(0 + pow128(0) * v == v); }
            None => {}
        }
    }
    while idx < buf.len() && idx < 10
        invariant
            0 <= idx <= 10,
            idx <= buf.len(),
            s == buf@,
            x < pow128(idx as nat),
            uvarint_decode_from(s, 0) == lift(uvarint_decode_from(s.skip(idx as int), idx as nat), x as nat, idx as nat),
        decreases 10 - idx,
    {
        let b = buf[idx];
        let ghost rest = s.skip(idx as int);
        assert(rest[0] == b);
        if b < 128 {
            if idx == 9 && b > 1 {
                return (0, 0);
            }
            proof {
                assert(x as nat + pow128(idx as nat) * (b as nat) < 0x1_0000_0000_0000_0000) by {
                    lemma_pow128_9();
                    if idx == 9 {
                        assert(pow128(idx as nat) * (b as nat) <= pow128(9) * 1) by (nonlinear_arith)
                            requires b <= 1, idx == 9;
                    } else {
                        lemma_pow128_mono(idx as nat, 8);
                        assert(pow128(idx as nat) * (b as nat) <= pow128(8) * 127) by (nonlinear_arith)
                            requires b <= 127, pow128(idx as nat) <= pow128(8);
                    }
                }
            }
            let p = pow128_exec(idx);
            return (x + p * (b as u64), idx + 1);
        }
        if idx == 9 {
            proof {
                assert(rest.drop_first() =~= s.skip(10));
            }
            return (0, 0);
        }
        proof {
            lemma_pow128_9();
            lemma_pow128_mono(idx as nat, 9);
            assert(rest.drop_first() =~= s.skip(idx as int + 1));
            assert(pow128(idx as nat + 1) == 128 * pow128(idx as nat));
            assert(x as nat + pow128(idx as nat) * ((b - 128) as nat) < pow128(idx as nat + 1)) by (nonlinear_arith)
                requires x < pow128(idx as nat), b < 256, b >= 128, pow128(idx as nat + 1) == 128 * pow128(idx as nat);
            if idx + 1 <= 9 {
                lemma_pow128_mono(idx as nat + 1, 9);
            }
            match uvarint_decode_from(s.skip(idx as int + 1), idx as nat + 1) {
                Some((v, n)) => {
                    assert(x as nat + pow128(idx as nat) * ((b - 128) + 128 * v) == x as nat + pow128(idx as nat) * ((b - 128) as nat) + pow128(idx as nat + 1) * v) by (nonlinear_arith)
                        requires pow128(idx as nat + 1) == 128 * pow128(idx as nat), b >= 128;
                }
                None => {}
            }
        }
        let p = pow128_exec(idx);
        x = x + p * ((b - 128) as u64);
        idx = idx + 1;
    }
    proof {
        assert(uvarint_decode_from(s.skip(idx as int), idx as nat) is None);
    }
    (0, 0)
}

/// Shifts the result of decoding the tail that starts at `idx`, with `x`
/// the value of the bytes before it.
pub open spec fn lift(r: Option<(nat, nat)>, x: nat, idx: nat) -> Option<(nat, nat)> {
    match r {
        Some((v, n)) => Some((x + pow128(idx) * v, idx + n)),
        None => None,
    }
}

proof fn lemma_pow128_9()
    ensures
        pow128(9) == 0x8000_0000_0000_0000,
        pow128(8) == 0x0100_0000_0000_0000,
{
    reveal_with_fuel(pow128, 10);
}

proof fn lemma_pow128_mono(a: nat, b: nat)
    requires
        a <= b,
    ensures
        pow128(a) <= pow128(b),
        pow128(a) >= 1,
    decreases b,
{
    if b > a {
        lemma_pow128_mono(a, (b - 1) as nat);
    } else if a > 0 {
        lemma_pow128_mono((a - 1) as nat, (a - 1) as nat);
    }
}

fn pow128_exec(i: usize) -> (p: u64)
    requires
        i <= 9,
    ensures
        p == pow128(i as nat),
{
    let mut p: u64 = 1;
    let mut j: usize = 0;
    proof {
        lemma_pow128_9();
    }
    while j < i
        invariant
            j <= i <= 9,
            p == pow128(j as nat),
            pow128(9) == 0x8000_0000_0000_0000,
        decreases i - j,
    {
        proof {
            lemma_pow128_mono(j as nat + 1, 9);
        }
        p = p * 128;
        j = j + 1;
    }
    p
}


/// Writes the uvarint encoding of `x` into `buf` from position `pos` on and
/// returns the number of bytes written; the other bytes of `buf` stay.
pub fn binary_put_uvariant_at(buf: &mut [u8], pos: usize, x: u64) -> (n: usize)
    requires
        pos + uvarint_encode(x as nat).len() <= old(buf)@.len(),
    ensures
        n == uvarint_encode(x as nat).len(),
        final(buf)@ == old(buf)@.take(pos as int) + uvarint_encode(x as nat) + old(buf)@.skip(
            pos + n,
        ),
{
    let enc = binary_uvarint_allocate(x);
    let mut i: usize = 0;
    while i < enc.len()
        invariant
            enc@ == uvarint_encode(x as nat),
            pos + enc@.len() <= buf@.len(),
            buf@.len() == old(buf)@.len(),
            i <= enc@.len(),
            buf@ =~= old(buf)@.take(pos as int) + enc@.take(i as int) + old(buf)@.skip(pos + i),
        decreases enc@.len() - i,
    {
        assert(pos + i < buf@.len());
        assert(buf@.len() == buf.len());
        buf[pos + i] = enc[i];
        i = i + 1;
        proof {
            assert(buf@ =~= old(buf)@.take(pos as int) + enc@.take(i as int) + old(buf)@.skip(pos + i));
        }
    }
    proof {
        assert(enc@.take(i as int) =~= enc@);
    }
    enc.len()
}

} // verus!
