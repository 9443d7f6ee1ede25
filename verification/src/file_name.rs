//! The file names of tables: the id in at least six decimal digits and the
//! `sst` extension, and reading the id back out of such a name.
use vstd::prelude::*;
use vstd::string::{StrSliceExecFns, StringExecFns};

verus! {

/// The decimal digit character of `d`.
pub open spec fn digit_char(d: nat) -> char {
    (48 + d) as char
}

/// The decimal digits of `v`, most significant first, without leading
/// zeros (a single `0` for zero).
pub open spec fn dec_digits(v: nat) -> Seq<char>
    decreases v,
{
    if v < 10 {
        seq![digit_char(v)]
    } else {
        dec_digits(v / 10).push(digit_char(v % 10))
    }
}

/// `s` after enough `0` characters to make it at least six long.
pub open spec fn pad6(s: Seq<char>) -> Seq<char> {
    if s.len() < 6 {
        Seq::new((6 - s.len()) as nat, |i: int| '0') + s
    } else {
        s
    }
}

/// The file name of table `id`: its decimal digits padded with zeros to
/// six, then `.sst`.
pub open spec fn table_file_name(id: u64) -> Seq<char> {
    pad6(dec_digits(id as nat)) + seq!['.', 's', 's', 't']
}

/// Whether every character is an ASCII decimal digit.
pub open spec fn all_digits(s: Seq<char>) -> bool {
    forall|i: int| 0 <= i < s.len() ==> '0' <= #[trigger] s[i] <= '9'
}

/// The number that decimal digits stand for.
pub open spec fn digits_value(s: Seq<char>) -> nat
    decreases s.len(),
{
    if s.len() == 0 {
        0
    } else {
        digits_value(s.drop_last()) * 10 + ((s.last() as nat) - 48) as nat
    }
}

/// What parsing `s` as a `u64` gives: an optional `+`, then at least one
/// decimal digit, standing for a number that fits.
pub open spec fn parse_u64_spec(s: Seq<char>) -> Option<u64> {
    let d = if s.len() > 0 && s[0] == '+' { s.skip(1) } else { s };
    if d.len() == 0 || !all_digits(d) || digits_value(d) > u64::MAX {
        None
    } else {
        Some(digits_value(d) as u64)
    }
}

/// Where the last `.` of `s` is, `-1` when there is none.
pub open spec fn last_dot(s: Seq<char>) -> int
    decreases s.len(),
{
    if s.len() == 0 {
        -1
    } else if s.last() == '.' {
        s.len() - 1
    } else {
        last_dot(s.drop_last())
    }
}

/// The id a file name stands for, and whether it names a table: the name
/// has an extension (after its last `.`, which does not start it), the
/// extension is `sst`, and the part before it parses as a `u64`.
pub open spec fn file_id_of(name: Seq<char>) -> (u64, bool) {
    let i = last_dot(name);
    if i <= 0 || name.skip(i + 1) != seq!['s', 's', 't'] {
        (0, false)
    } else {
        match parse_u64_spec(name.take(i)) {
            Some(v) => (v, true),
            None => (0, false),
        }
    }
}

proof fn lemma_dec_digits(v: nat)
    ensures
        dec_digits(v).len() >= 1,
        all_digits(dec_digits(v)),
        digits_value(dec_digits(v)) == v,
        dec_digits(v)[0] != '0' || v == 0,
    decreases v,
{
    let c = digit_char(v % 10);
    assert((c as nat) - 48 == v % 10);
    if v >= 10 {
        lemma_dec_digits(v / 10);
        let s = dec_digits(v);
        assert(s.drop_last() =~= dec_digits(v / 10));
        assert(s.last() == c);
        assert(v == (v / 10) * 10 + v % 10);
        assert(digits_value(s) == digits_value(s.drop_last()) * 10 + ((s.last() as nat) - 48) as nat);
        assert forall|i: int| 0 <= i < s.len() implies '0' <= #[trigger] s[i] <= '9' by {
            if i < s.len() - 1 {
                assert(s[i] == dec_digits(v / 10)[i]);
            }
        }
    } else {
        let s = dec_digits(v);
        assert(s.drop_last() =~= Seq::<char>::empty());
        assert(s.last() == c);
        assert(digits_value(s.drop_last()) == 0);
        assert(digits_value(s) == digits_value(s.drop_last()) * 10 + ((s.last() as nat) - 48) as nat);
    }
}

proof fn lemma_leading_zeros(k: nat, s: Seq<char>)
    ensures
        digits_value(Seq::new(k, |i: int| '0') + s) == digits_value(s),
    decreases s.len(),
{
    let z = Seq::new(k, |i: int| '0');
    if s.len() == 0 {
        assert(z + s =~= z);
        lemma_zeros_value(k);
    } else {
        lemma_leading_zeros(k, s.drop_last());
        assert((z + s).drop_last() =~= z + s.drop_last());
        assert((z + s).last() == s.last());
    }
}

proof fn lemma_zeros_value(k: nat)
    ensures
        digits_value(Seq::new(k, |i: int| '0')) == 0,
    decreases k,
{
    if k > 0 {
        let z = Seq::new(k, |i: int| '0');
        assert(z.drop_last() =~= Seq::new((k - 1) as nat, |i: int| '0'));
        lemma_zeros_value((k - 1) as nat);
        assert(((z.last() as nat) - 48) as nat == 0);
    }
}

/// The file name of a table gives its id back, as the name of a table.
pub proof fn lemma_file_name_roundtrip(id: u64)
    ensures
        file_id_of(table_file_name(id)) == (id, true),
{
    let dd = dec_digits(id as nat);
    lemma_dec_digits(id as nat);
    let p = pad6(dd);
    let name = table_file_name(id);
    assert(all_digits(p) && digits_value(p) == id as nat && p.len() >= 6) by {
        if dd.len() < 6 {
            let z = Seq::new((6 - dd.len()) as nat, |i: int| '0');
            lemma_leading_zeros((6 - dd.len()) as nat, dd);
            assert forall|i: int| 0 <= i < p.len() implies '0' <= #[trigger] p[i] <= '9' by {
                if i >= z.len() {
                    assert(p[i] == dd[i - z.len()]);
                }
            }
        }
    }
    let i = name.len() - 4;
    assert(name[i] == '.');
    assert forall|j: int| i < j < name.len() implies name[j] != '.' by {}
    lemma_last_dot_is(name, i);
    assert(name.skip(i + 1) =~= seq!['s', 's', 't']);
    assert(name.take(i) =~= p);
    assert(p[0] != '+');
}

/// The character of a decimal digit, as a one-character string.
fn digit_str(d: u64) -> (r: &'static str)
    requires
        d < 10,
    ensures
        r@ == seq![digit_char(d as nat)],
{
    match d {
        0 => { proof { reveal_strlit("0"); } "0" },
        1 => { proof { reveal_strlit("1"); } "1" },
        2 => { proof { reveal_strlit("2"); } "2" },
        3 => { proof { reveal_strlit("3"); } "3" },
        4 => { proof { reveal_strlit("4"); } "4" },
        5 => { proof { reveal_strlit("5"); } "5" },
        6 => { proof { reveal_strlit("6"); } "6" },
        7 => { proof { reveal_strlit("7"); } "7" },
        8 => { proof { reveal_strlit("8"); } "8" },
        _ => { proof { reveal_strlit("9"); } "9" },
    }
}

/// The file name of table `id`: its id in at least six digits, then
/// `.sst`.
pub fn id_to_filename(id: u64) -> (r: String)
    ensures
        r@ == table_file_name(id),
{
    let mut rev: Vec<u64> = Vec::new();
    let mut v: u64 = id;
    while v >= 10
        invariant
            dec_digits(id as nat) == dec_digits(v as nat) + rev@.map_values(|d: u64| digit_char(d as nat)).reverse(),
            forall|i: int| 0 <= i < rev@.len() ==> #[trigger] rev@[i] < 10,
        decreases v,
    {
        let ghost old_rev = rev@;
        let d: u64 = v % 10;
        rev.push(d);
        proof {
            let f = |d: u64| digit_char(d as nat);
            assert(rev@.map_values(f).reverse() =~= seq![digit_char(d as nat)] + old_rev.map_values(f).reverse());
            assert(dec_digits(v as nat) == dec_digits((v / 10) as nat).push(digit_char((v % 10) as nat)));
            assert(dec_digits((v / 10) as nat).push(digit_char(d as nat)) + old_rev.map_values(f).reverse()
                =~= dec_digits((v / 10) as nat) + (seq![digit_char(d as nat)] + old_rev.map_values(f).reverse()));
        }
        v = v / 10;
    }
    rev.push(v);
    proof {
        let f = |d: u64| digit_char(d as nat);
        assert(rev@.map_values(f).reverse() =~= dec_digits(id as nat));
    }
    let ghost digits = dec_digits(id as nat);
    let n = rev.len();
    let mut out = String::new();
    let mut k = n;
    while k < 6
        invariant
            n <= k,
            k <= 6 || k == n,
            out@ == Seq::new((k - n) as nat, |i: int| '0'),
        decreases 6 - k,
    {
        out.append("0");
        proof {
            reveal_strlit("0");
            assert(out@ =~= Seq::new((k + 1 - n) as nat, |i: int| '0'));
        }
        k = k + 1;
    }
    let ghost pad = out@;
    let mut i = n;
    while i > 0
        invariant
            i <= n,
            n == rev@.len(),
            forall|j: int| 0 <= j < rev@.len() ==> #[trigger] rev@[j] < 10,
            rev@.map_values(|d: u64| digit_char(d as nat)).reverse() == digits,
            out@ == pad + digits.take((n - i) as int),
        decreases i,
    {
        out.append(digit_str(rev[i - 1]));
        proof {
            assert(digits[(n - i) as int] == digit_char(rev@[i - 1] as nat));
            assert(digits.take((n - i + 1) as int) =~= digits.take((n - i) as int).push(digits[(n - i) as int]));
        }
        i = i - 1;
    }
    out.append(".sst");
    proof {
        reveal_strlit(".sst");
        assert(digits.take(n as int) =~= digits);
        if n < 6 {
            assert(pad =~= Seq::new((6 - digits.len()) as nat, |i: int| '0'));
        } else {
            assert(pad =~= Seq::<char>::empty());
        }
        assert(out@ =~= table_file_name(id));
    }
    out
}

/// The id that the file name of a table stands for, and whether it is
/// the name of a table: the part before the last `.` parsed as a `u64`
/// when the extension after it is `sst`.
pub fn parse_file_id(name: &str) -> (r: (u64, bool))
    ensures
        r == file_id_of(name@),
{
    let len = name.unicode_len();
    let ghost s = name@;
    let mut i = len;
    let mut found = false;
    while i > 0 && !found
        invariant
            i <= len,
            len == s.len(),
            name@ == s,
            found ==> i > 0 && s[i - 1] == '.',
            forall|j: int| i <= j < s.len() ==> s[j] != '.',
        decreases i, (if found { 0int } else { 1int }),
    {
        if name.get_char(i - 1) == '.' {
            found = true;
        } else {
            i = i - 1;
        }
    }
    proof {
        lemma_last_dot_is(s, i as int - 1);
    }
    if i <= 1 {
        return (0, false);
    }
    let dot = i - 1;
    if len - i != 3 || name.get_char(i) != 's' || name.get_char(i + 1) != 's' || name.get_char(i + 2) != 't' {
        proof {
            assert(s.skip(dot + 1).len() == len - i);
            if s.skip(dot + 1) == seq!['s', 's', 't'] {
                assert(s.skip(dot + 1)[0] == s[i as int]);
                assert(s.skip(dot + 1)[1] == s[i + 1]);
                assert(s.skip(dot + 1)[2] == s[i + 2]);
            }
        }
        return (0, false);
    }
    proof {
        assert(s.skip(dot + 1) =~= seq!['s', 's', 't']);
    }
    match parse_u64_prefix(name, dot) {
        Some(v) => (v, true),
        None => (0, false),
    }
}

proof fn lemma_last_dot_is(s: Seq<char>, i: int)
    requires
        -1 <= i < s.len(),
        i >= 0 ==> s[i] == '.',
        forall|j: int| i < j < s.len() ==> s[j] != '.',
    ensures
        last_dot(s) == i,
    decreases s.len(),
{
    if s.len() > 0 && s.last() != '.' {
        lemma_last_dot_is(s.drop_last(), i);
    }
}

proof fn lemma_digits_value_step(d: Seq<char>, k: int)
    requires
        0 <= k < d.len(),
    ensures
        digits_value(d.take(k + 1)) == digits_value(d.take(k)) * 10 + ((d[k] as nat) - 48) as nat,
{
    assert(d.take(k + 1).drop_last() =~= d.take(k));
}

/// Parses the first `n` characters of `s` as a `u64`.
fn parse_u64_prefix(s: &str, n: usize) -> (r: Option<u64>)
    requires
        n <= s@.len(),
    ensures
        r == parse_u64_spec(s@.take(n as int)),
{
    let ghost t = s@.take(n as int);
    let mut start: usize = 0;
    if n > 0 && s.get_char(0) == '+' {
        start = 1;
    }
    let ghost d = if t.len() > 0 && t[0] == '+' { t.skip(1) } else { t };
    proof {
        assert(d =~= s@.subrange(start as int, n as int));
    }
    if start == n {
        return None;
    }
    let mut v: u64 = 0;
    let mut over = false;
    let mut k = start;
    while k < n
        invariant
            start <= k <= n,
            n <= s@.len(),
            d =~= s@.subrange(start as int, n as int),
            t == s@.take(n as int),
            d == (if t.len() > 0 && t[0] == '+' { t.skip(1) } else { t }),
            all_digits(d.take(k - start)),
            !over ==> v == digits_value(d.take(k - start)),
            over ==> digits_value(d.take(k - start)) > u64::MAX,
        decreases n - k,
    {
        let c = s.get_char(k);
        if c < '0' || c > '9' {
            proof {
                assert(d[k - start] == c);
                assert(!('0' <= d[k - start] <= '9'));
                assert(!all_digits(d));
            }
            return None;
        }
        proof {
            lemma_digits_value_step(d, k - start);
            assert(d[k - start] == c);
            assert(d.take(k - start + 1) =~= d.take(k - start).push(c));
        }
        let digit = (c as u32 - 48) as u64;
        if !over {
            if v > (u64::MAX - digit) / 10 {
                over = true;
            } else {
                v = v * 10 + digit;
            }
        }
        k = k + 1;
    }
    proof {
        assert(d.take(n - start) =~= d);
    }
    if over {
        None
    } else {
        Some(v)
    }
}

} // verus!
