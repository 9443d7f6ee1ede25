//! Byte-string helpers shared by the key and value encodings: big-endian
//! integers, lexicographic order and equality of byte strings.
use vstd::prelude::*;
use core::cmp::Ordering;

verus! {

/// `256^n`.
pub open spec fn pow256(n: nat) -> nat
    decreases n,
{
    if n == 0 {
        1
    } else {
        256 * pow256((n - 1) as nat)
    }
}

/// The number whose big-endian digits in base 256 are `s`.
pub open spec fn be_value(s: Seq<u8>) -> nat
    decreases s.len(),
{
    if s.len() == 0 {
        0
    } else {
        be_value(s.drop_last()) * 256 + s.last() as nat
    }
}

/// The low `n` base-256 digits of `v`, most significant first.
pub open spec fn be_bytes(v: nat, n: nat) -> Seq<u8>
    decreases n,
{
    if n == 0 {
        Seq::empty()
    } else {
        be_bytes(v / 256, (n - 1) as nat).push((v % 256) as u8)
    }
}

/// The lexicographic order of two byte strings as a sign: `-1` when `a`
/// sorts first, `1` when `b` does, `0` when they are equal. A proper prefix
/// sorts first.
pub open spec fn lex_sign(a: Seq<u8>, b: Seq<u8>) -> int
    decreases a.len(),
{
    if a.len() == 0 {
        if b.len() == 0 {
            0
        } else {
            -1
        }
    } else if b.len() == 0 {
        1
    } else if a[0] < b[0] {
        -1
    } else if a[0] > b[0] {
        1
    } else {
        lex_sign(a.drop_first(), b.drop_first())
    }
}

/// The order of two numbers as a sign.
pub open spec fn num_sign(a: nat, b: nat) -> int {
    if a < b {
        -1
    } else if a > b {
        1
    } else {
        0
    }
}

/// The `Ordering` that a sign stands for.
pub open spec fn ordering_of(sign: int) -> Ordering {
    if sign < 0 {
        Ordering::Less
    } else if sign > 0 {
        Ordering::Greater
    } else {
        Ordering::Equal
    }
}

/// Eight bytes span 2^64 values.
pub proof fn lemma_pow256_8()
    ensures
        pow256(8) == 0x1_0000_0000_0000_0000,
{
    reveal_with_fuel(pow256, 9);
}

/// The big-endian encoding in `n` bytes has `n` bytes.
pub proof fn lemma_be_bytes_len(v: nat, n: nat)
    ensures
        be_bytes(v, n).len() == n,
    decreases n,
{
    if n > 0 {
        lemma_be_bytes_len(v / 256, (n - 1) as nat);
    }
}

/// Reading back the `n` digits of a number below `256^n` gives the number.
pub proof fn lemma_be_roundtrip(v: nat, n: nat)
    requires
        v < pow256(n),
    ensures
        be_value(be_bytes(v, n)) == v,
    decreases n,
{
    if n > 0 {
        assert(v / 256 < pow256((n - 1) as nat)) by (nonlinear_arith)
            requires
                v < 256 * pow256((n - 1) as nat),
        ;
        lemma_be_roundtrip(v / 256, (n - 1) as nat);
        let s = be_bytes(v, n);
        assert(s.drop_last() =~= be_bytes(v / 256, (n - 1) as nat));
    } else {
        assert(v == 0);
    }
}

/// The value of `n` digits is below `256^n`.
pub proof fn lemma_be_value_bound(s: Seq<u8>)
    ensures
        be_value(s) < pow256(s.len()),
    decreases s.len(),
{
    if s.len() > 0 {
        lemma_be_value_bound(s.drop_last());
        let p = pow256((s.len() - 1) as nat);
        assert(be_value(s.drop_last()) * 256 + (s.last() as nat) < 256 * p) by (nonlinear_arith)
            requires
                be_value(s.drop_last()) < p,
                s.last() < 256,
        ;
    }
}

proof fn lemma_lex_push(a: Seq<u8>, b: Seq<u8>, x: u8, y: u8)
    requires
        a.len() == b.len(),
    ensures
        lex_sign(a.push(x), b.push(y)) == (if lex_sign(a, b) != 0 {
            lex_sign(a, b)
        } else {
            num_sign(x as nat, y as nat)
        }),
    decreases a.len(),
{
    let ax = a.push(x);
    let by = b.push(y);
    if a.len() > 0 {
        assert(ax[0] == a[0]);
        assert(by[0] == b[0]);
        assert(ax.drop_first() =~= a.drop_first().push(x));
        assert(by.drop_first() =~= b.drop_first().push(y));
        lemma_lex_push(a.drop_first(), b.drop_first(), x, y);
    } else {
        assert(ax[0] == x);
        assert(by[0] == y);
        assert(ax.drop_first() =~= Seq::<u8>::empty());
        assert(by.drop_first() =~= Seq::<u8>::empty());
        assert(lex_sign(Seq::<u8>::empty(), Seq::<u8>::empty()) == 0);
        assert(lex_sign(a, b) == 0);
    }
}

/// Digit strings of the same length sort as the numbers they stand for.
pub proof fn lemma_be_order(v: nat, w: nat, n: nat)
    requires
        v < pow256(n),
        w < pow256(n),
    ensures
        lex_sign(be_bytes(v, n), be_bytes(w, n)) == num_sign(v, w),
    decreases n,
{
    if n == 0 {
        assert(v == 0 && w == 0);
    } else {
        let p = pow256((n - 1) as nat);
        assert(v / 256 < p && w / 256 < p) by (nonlinear_arith)
            requires
                v < 256 * p,
                w < 256 * p,
        ;
        lemma_be_order(v / 256, w / 256, (n - 1) as nat);
        lemma_be_bytes_len(v / 256, (n - 1) as nat);
        lemma_be_bytes_len(w / 256, (n - 1) as nat);
        lemma_lex_push(
            be_bytes(v / 256, (n - 1) as nat),
            be_bytes(w / 256, (n - 1) as nat),
            (v % 256) as u8,
            (w % 256) as u8,
        );
        assert(v == (v / 256) * 256 + v % 256);
        assert(w == (w / 256) * 256 + w % 256);
        assert(v / 256 < w / 256 ==> v < w) by (nonlinear_arith)
            requires
                v == (v / 256) * 256 + v % 256,
                w == (w / 256) * 256 + w % 256,
                v % 256 < 256,
                w % 256 >= 0,
        ;
        assert(v / 256 > w / 256 ==> v > w) by (nonlinear_arith)
            requires
                v == (v / 256) * 256 + v % 256,
                w == (w / 256) * 256 + w % 256,
                w % 256 < 256,
                v % 256 >= 0,
        ;
    }
}

/// The lexicographic order is transitive, strictly when one step is
/// strict.
pub proof fn lemma_lex_trans(a: Seq<u8>, b: Seq<u8>, c: Seq<u8>)
    requires
        lex_sign(a, b) <= 0,
        lex_sign(b, c) <= 0,
    ensures
        lex_sign(a, c) <= 0,
        (lex_sign(a, b) < 0 || lex_sign(b, c) < 0) ==> lex_sign(a, c) < 0,
    decreases a.len(),
{
    if a.len() > 0 && b.len() > 0 && c.len() > 0 && a[0] == b[0] && b[0] == c[0] {
        lemma_lex_trans(a.drop_first(), b.drop_first(), c.drop_first());
    }
}

/// Byte strings compare equal exactly when they are equal, and swapping
/// them flips the comparison.
pub proof fn lemma_lex_antisym(a: Seq<u8>, b: Seq<u8>)
    ensures
        lex_sign(a, b) == 0 <==> a == b,
        lex_sign(a, b) == -lex_sign(b, a),
        -1 <= lex_sign(a, b) <= 1,
    decreases a.len(),
{
    if a.len() > 0 && b.len() > 0 {
        lemma_lex_antisym(a.drop_first(), b.drop_first());
        if a[0] == b[0] && a.drop_first() == b.drop_first() {
            assert(a =~= seq![a[0]] + a.drop_first());
            assert(b =~= seq![b[0]] + b.drop_first());
        }
    } else if a.len() == 0 && b.len() == 0 {
        assert(a =~= b);
    }
}

/// The big-endian 8-byte representation of `v`.
pub fn u64_to_be_bytes(v: u64) -> (r: Vec<u8>)
    ensures
        r@ == be_bytes(v as nat, 8),
        r@.len() == 8,
{
    proof {
        lemma_be_bytes_len(v as nat, 8);
    }
    be_bytes_exec(v, 8)
}

fn be_bytes_exec(v: u64, n: usize) -> (r: Vec<u8>)
    ensures
        r@ == be_bytes(v as nat, n as nat),
    decreases n,
{
    if n == 0 {
        Vec::new()
    } else {
        let mut r = be_bytes_exec(v / 256, n - 1);
        r.push((v % 256) as u8);
        r
    }
}

/// The number whose big-endian representation is the 8 bytes of `s`.
pub fn u64_big_endian(s: &[u8]) -> (r: u64)
    requires
        s@.len() == 8,
    ensures
        r as nat == be_value(s@),
{
    let mut x: u64 = 0;
    let mut i: usize = 0;
    proof {
        lemma_pow256_8();
        assert(s@.take(0) =~= Seq::<u8>::empty());
    }
    while i < 8
        invariant
            i <= 8,
            s@.len() == 8,
            x as nat == be_value(s@.take(i as int)),
            pow256(8) == 0x1_0000_0000_0000_0000,
        decreases 8 - i,
    {
        proof {
            lemma_be_value_bound(s@.take(i as int + 1));
            lemma_pow256_mono(i as nat + 1, 8);
            assert(s@.take(i as int + 1).drop_last() =~= s@.take(i as int));
        }
        x = x * 256 + s[i] as u64;
        i = i + 1;
    }
    proof {
        assert(s@.take(8) =~= s@);
    }
    x
}

/// More bytes span more values.
pub proof fn lemma_pow256_mono(a: nat, b: nat)
    requires
        a <= b,
    ensures
        pow256(a) <= pow256(b),
    decreases b,
{
    if a < b {
        lemma_pow256_mono(a, (b - 1) as nat);
    }
}

/// The lexicographic order of `a` and `b`.
pub fn compare_bytes(a: &[u8], b: &[u8]) -> (r: Ordering)
    ensures
        r == ordering_of(lex_sign(a@, b@)),
{
    let s = lex_sign_exec(a, b);
    if s < 0 {
        Ordering::Less
    } else if s > 0 {
        Ordering::Greater
    } else {
        Ordering::Equal
    }
}

/// The lexicographic order of `a` and `b` as a sign.
pub fn lex_sign_exec(a: &[u8], b: &[u8]) -> (r: i8)
    ensures
        r as int == lex_sign(a@, b@),
{
    let mut i: usize = 0;
    proof {
        assert(a@.skip(0) =~= a@);
        assert(b@.skip(0) =~= b@);
    }
    while i < a.len() && i < b.len()
        invariant
            i <= a@.len(),
            i <= b@.len(),
            lex_sign(a@, b@) == lex_sign(a@.skip(i as int), b@.skip(i as int)),
        decreases a@.len() - i,
    {
        if a[i] < b[i] {
            return -1;
        }
        if a[i] > b[i] {
            return 1;
        }
        proof {
            assert(a@.skip(i as int).drop_first() =~= a@.skip(i as int + 1));
            assert(b@.skip(i as int).drop_first() =~= b@.skip(i as int + 1));
        }
        i = i + 1;
    }
    if i < a.len() {
        1
    } else if i < b.len() {
        -1
    } else {
        0
    }
}

/// Whether `s` starts with `prefix`.
pub fn has_prefix(s: &[u8], prefix: &[u8]) -> (r: bool)
    ensures
        r == (prefix@.len() <= s@.len() && s@.take(prefix@.len() as int) == prefix@),
{
    if prefix.len() > s.len() {
        return false;
    }
    let head = vstd::slice::slice_subrange(s, 0, prefix.len());
    proof {
        assert(head@ =~= s@.take(prefix@.len() as int));
    }
    bytes_equal(head, prefix)
}

/// Whether `a` and `b` hold the same bytes.
pub fn bytes_equal(a: &[u8], b: &[u8]) -> (r: bool)
    ensures
        r == (a@ == b@),
{
    if a.len() != b.len() {
        return false;
    }
    let mut i: usize = 0;
    while i < a.len()
        invariant
            i <= a@.len(),
            a@.len() == b@.len(),
            a@.take(i as int) == b@.take(i as int),
        decreases a@.len() - i,
    {
        if a[i] != b[i] {
            return false;
        }
        proof {
            assert(a@.take(i as int + 1) =~= a@.take(i as int).push(a@[i as int]));
            assert(b@.take(i as int + 1) =~= b@.take(i as int).push(b@[i as int]));
        }
        i = i + 1;
    }
    proof {
        assert(a@.take(i as int) =~= a@);
        assert(b@.take(i as int) =~= b@);
    }
    true
}

} // verus!
