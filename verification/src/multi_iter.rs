//! Iterating over several tables: one after the other, in the direction of
//! the flag.
use vstd::prelude::*;
use crate::iterator::BableIterator;
use crate::key::{key_sign, key_sign_exec, KeyExt, KeyRef};
use crate::sst::RawTable;
use crate::table_iter::{lemma_lex_measure, lemma_step_progresses, position_bound, Flag, UniTableIterator};
use crate::value::{value_decoding, ValueRef};

verus! {

/// The number of entries of the tables, as their indexes count them.
pub open spec fn total_entries(tables: Seq<RawTable>) -> int
    decreases tables.len(),
{
    if tables.len() == 0 {
        0
    } else {
        total_entries(tables.drop_last()) + tables.last().index_view().key_count
    }
}

/// The number of entries of tables is never negative.
pub proof fn lemma_total_entries_nonneg(tables: Seq<RawTable>)
    ensures
        total_entries(tables) >= 0,
    decreases tables.len(),
{
    if tables.len() > 0 {
        lemma_total_entries_nonneg(tables.drop_last());
    }
}

proof fn lemma_total_entries_prefix(tables: Seq<RawTable>, i: int)
    requires
        0 <= i <= tables.len(),
    ensures
        0 <= total_entries(tables.take(i)) <= total_entries(tables),
    decreases tables.len(),
{
    if i == tables.len() {
        assert(tables.take(i) =~= tables);
        if tables.len() > 0 {
            lemma_total_entries_prefix(tables.drop_last(), tables.len() - 1);
            assert(tables.drop_last().take(tables.len() - 1) =~= tables.drop_last());
        }
    } else {
        lemma_total_entries_prefix(tables.drop_last(), i);
        assert(tables.drop_last().take(i) =~= tables.take(i));
    }
}

/// Whether position `j` comes after position `c` in the direction of
/// iteration.
pub open spec fn after(c: int, j: int, reversed: bool) -> bool {
    if reversed {
        j < c
    } else {
        c < j
    }
}

/// An iterator over tables one after the other: forward from the first, or
/// in reverse from the last; a table without entries is passed over.
pub struct ConcatTableIterator<'a> {
    idx: isize,
    cur: Option<usize>,
    iters: Vec<UniTableIterator<'a>>,
    tables: &'a [RawTable],
    num_entries: usize,
    opt: Flag,
}

impl<'a> ConcatTableIterator<'a> {
    /// The iterators over the tables.
    pub closed spec fn iters_view(&self) -> Seq<UniTableIterator<'a>> {
        self.iters@
    }

    /// The table iterated over now, if any.
    pub closed spec fn cur_view(&self) -> Option<usize> {
        self.cur
    }

    /// The position among the tables.
    pub closed spec fn idx_view(&self) -> isize {
        self.idx
    }

    /// The tables.
    pub closed spec fn tables_view(&self) -> Seq<RawTable> {
        self.tables@
    }

    /// The flag of the iterator.
    pub closed spec fn flag(&self) -> Flag {
        self.opt
    }

    /// There is an iterator per table, over it and with the flag; the
    /// position lies among the tables, and the current table is the one at
    /// the position.
    pub closed spec fn wf(&self) -> bool {
        &&& self.iters@.len() == self.tables@.len()
        &&& self.tables@.len() < isize::MAX
        &&& forall|i: int| 0 <= i < self.iters@.len() ==> {
            &&& (#[trigger] self.iters@[i]).iter_wf()
            &&& self.iters@[i].table_view() == self.tables@[i].table_data()
            &&& self.iters@[i].flag() == self.opt
        }
        &&& self.tables@.len() == 0 ==> self.idx == 0
        &&& self.tables@.len() > 0 ==> 0 <= self.idx < self.tables@.len()
        &&& (self.cur matches Some(c) ==> c == self.idx && c < self.tables@.len())
        &&& self.num_entries == total_entries(self.tables@)
    }

    /// Whether the iterator over table `j` was rewound from `o` and holds
    /// no entry.
    pub open spec fn passed(&self, o: Self, j: int) -> bool {
        &&& o.iters_view()[j].rewind_result(self.iters_view()[j])
        &&& self.iters_view()[j].error() is Some
    }

    /// What moving forward from `self` gives `f`: the iterator over the
    /// table at the position moves; when it runs out, the iterators over the
    /// following tables are rewound in turn until one holds an entry.
    pub open spec fn next_result(&self, f: Self) -> bool {
        let c = self.idx_view() as int;
        let rev = self.flag().is_reversed_spec();
        let n = self.iters_view().len() as int;
        &&& f.tables_view() == self.tables_view()
        &&& f.flag() == self.flag()
        &&& f.iters_view().len() == n
        &&& self.iters_view()[c].step_result(f.iters_view()[c])
        &&& if f.iters_view()[c].error() is None {
            &&& f.idx_view() == self.idx_view()
            &&& f.cur_view() == self.cur_view()
            &&& forall|j: int| 0 <= j < n && j != c ==> f.iters_view()[j] == self.iters_view()[j]
        } else {
            &&& forall|j: int| 0 <= j < n && j != c && !after(c, j, rev) ==> f.iters_view()[j] == self.iters_view()[j]
            &&& match f.cur_view() {
                Some(k) => {
                    &&& after(c, k as int, rev)
                    &&& f.idx_view() == k
                    &&& self.iters_view()[k as int].rewind_result(f.iters_view()[k as int])
                    &&& f.iters_view()[k as int].error() is None
                    &&& forall|j: int| 0 <= j < n && after(c, j, rev) && after(j, k as int, rev) ==> f.passed(*self, j)
                    &&& forall|j: int| 0 <= j < n && after(k as int, j, rev) ==> f.iters_view()[j] == self.iters_view()[j]
                },
                None => {
                    &&& f.idx_view() == (if rev { 0 } else { n - 1 })
                    &&& forall|j: int| 0 <= j < n && after(c, j, rev) ==> f.passed(*self, j)
                },
            }
        }
    }

    /// What rewinding `self` gives `f`: the position moves to the first
    /// table in the direction of the flag, whose iterator is rewound.
    pub open spec fn rewind_result(&self, f: Self) -> bool {
        let n = self.iters_view().len() as int;
        let first: int = if self.flag().is_reversed_spec() { n - 1 } else { 0 };
        &&& f.tables_view() == self.tables_view()
        &&& f.flag() == self.flag()
        &&& f.iters_view().len() == n
        &&& n == 0 ==> f == *self
        &&& n > 0 ==> {
            &&& f.idx_view() == first
            &&& f.cur_view() == Some(first as usize)
            &&& self.iters_view()[first].rewind_result(f.iters_view()[first])
            &&& forall|j: int| 0 <= j < n && j != first ==> f.iters_view()[j] == self.iters_view()[j]
        }
    }

    /// Whether `p` is where a seek for `key` goes among the tables, as a
    /// binary search finds it: forward, the first table whose biggest key
    /// is at least `key`; in reverse, the last table whose smallest key is
    /// at most `key`.
    pub open spec fn seek_position(&self, key: Seq<u8>, p: int) -> bool {
        let t = self.tables_view();
        let n = t.len() as int;
        if !self.flag().is_reversed_spec() {
            &&& 0 <= p <= n
            &&& p < n ==> key_sign(t[p].biggest_view(), key) >= 0
            &&& p > 0 ==> key_sign(t[p - 1].biggest_view(), key) < 0
        } else {
            &&& -1 <= p < n
            &&& p >= 0 ==> key_sign(t[p].smallest_view(), key) <= 0
            &&& p + 1 < n ==> key_sign(t[p + 1].smallest_view(), key) > 0
        }
    }

    /// What seeking `key` from `self` gives `f`: the table a binary search
    /// picks becomes current and its iterator seeks `key`; when no table
    /// fits, none is current.
    pub open spec fn seek_result(&self, f: Self, key: Seq<u8>) -> bool {
        let n = self.iters_view().len() as int;
        &&& f.tables_view() == self.tables_view()
        &&& f.flag() == self.flag()
        &&& f.iters_view().len() == n
        &&& exists|p: int| {
            &&& #[trigger] self.seek_position(key, p)
            &&& (p < 0 || p >= n) ==> {
                &&& f.cur_view() is None
                &&& f.idx_view() == self.idx_view()
                &&& f.iters_view() == self.iters_view()
            }
            &&& (0 <= p < n) ==> {
                &&& f.idx_view() == p
                &&& f.cur_view() == Some(p as usize)
                &&& self.iters_view()[p].seek_dir_result(f.iters_view()[p], key)
                &&& forall|j: int| 0 <= j < n && j != p ==> f.iters_view()[j] == self.iters_view()[j]
            }
        }
    }

    /// An iterator over `tables`, before the first entry in the direction of
    /// `opt`.
    pub fn new(tables: &'a [RawTable], opt: Flag) -> (r: Self)
        requires
            forall|i: int| 0 <= i < tables@.len() ==> (#[trigger] tables@[i]).wf(),
            tables@.len() < isize::MAX,
            total_entries(tables@) <= usize::MAX,
            opt.is_reversed_spec() ==> tables@.len() > 0,
        ensures
            r.wf(),
            r.tables_view() == tables@,
            r.flag() == opt,
            r.cur_view() is None,
            r.idx_view() == (if opt.is_reversed_spec() { tables@.len() - 1 } else { 0 }),
            forall|i: int| 0 <= i < tables@.len() ==> {
                &&& (#[trigger] r.iters_view()[i]).block_pos() == -1
                &&& r.iters_view()[i].block_iter() is None
                &&& r.iters_view()[i].error() is None
            },
    {
        let mut num_entries: usize = 0;
        let mut iters: Vec<UniTableIterator<'a>> = Vec::new();
        let mut i: usize = 0;
        while i < tables.len()
            invariant
                i <= tables@.len(),
                tables@.len() < isize::MAX,
                total_entries(tables@) <= usize::MAX,
                forall|j: int| 0 <= j < tables@.len() ==> (#[trigger] tables@[j]).wf(),
                num_entries == total_entries(tables@.take(i as int)),
                iters@.len() == i,
                forall|j: int| 0 <= j < i ==> {
                    &&& (#[trigger] iters@[j]).iter_wf()
                    &&& iters@[j].table_view() == tables@[j].table_data()
                    &&& iters@[j].flag() == opt
                    &&& iters@[j].block_pos() == -1
                    &&& iters@[j].block_iter() is None
                    &&& iters@[j].error() is None
                },
            decreases tables@.len() - i,
        {
            proof {
                lemma_total_entries_prefix(tables@, i + 1);
                assert(tables@.take(i + 1).drop_last() =~= tables@.take(i as int));
            }
            num_entries = num_entries + tables[i].num_entries();
            iters.push(tables[i].iter(opt));
            i = i + 1;
        }
        proof {
            assert(tables@.take(i as int) =~= tables@);
        }
        let idx: isize = if !opt.is_reversed() {
            0
        } else {
            (tables.len() - 1) as isize
        };
        ConcatTableIterator { idx, cur: None, iters, tables, num_entries, opt }
    }

    /// Makes table `idx` current when there is one; otherwise none is, and
    /// the position stays.
    fn set_idx(&mut self, idx: isize)
        requires
            old(self).wf(),
        ensures
            final(self).wf(),
            final(self).iters == old(self).iters,
            final(self).tables == old(self).tables,
            final(self).opt == old(self).opt,
            (idx < 0 || idx >= old(self).iters@.len()) ==> final(self).cur is None && final(self).idx == old(self).idx,
            (0 <= idx < old(self).iters@.len()) ==> final(self).cur == Some(idx as usize) && final(self).idx == idx,
    {
        if idx < 0 || idx >= self.iters.len() as isize {
            self.cur = None;
            return;
        }
        self.idx = idx;
        self.cur = Some(idx as usize);
    }

    /// Makes the first table in the direction of the flag current.
    fn rewind_in(&mut self)
        requires
            old(self).wf(),
        ensures
            final(self).wf(),
            final(self).iters == old(self).iters,
            final(self).tables == old(self).tables,
            final(self).opt == old(self).opt,
            old(self).iters@.len() == 0 ==> *final(self) == *old(self),
            old(self).iters@.len() > 0 ==> {
                let first: int = if old(self).opt.is_reversed_spec() { old(self).iters@.len() - 1 } else { 0 };
                &&& final(self).idx == first
                &&& final(self).cur == Some(first as usize)
            },
    {
        if self.iters.len() == 0 {
            return;
        }
        if !self.opt.is_reversed() {
            self.set_idx(0);
        } else {
            let last = (self.iters.len() - 1) as isize;
            self.set_idx(last);
        }
    }

    /// Where a seek for `key` goes among the tables, by a binary search.
    fn get_seek_position(&self, key: &[u8]) -> (r: isize)
        requires
            self.wf(),
        ensures
            self.seek_position(key@, r as int),
    {
        let n = self.iters.len() as isize;
        let mut lo: isize = 0;
        let mut hi: isize = n;
        if !self.opt.is_reversed() {
            while lo < hi
                invariant
                    n == self.tables@.len(),
                    0 <= lo <= hi <= n,
                    lo > 0 ==> key_sign(self.tables@[lo - 1].biggest_view(), key@) < 0,
                    hi < n ==> key_sign(self.tables@[hi as int].biggest_view(), key@) >= 0,
                decreases hi - lo,
            {
                let mid = lo + (hi - lo) / 2;
                if key_sign_exec(self.tables[mid as usize].biggest().as_bytes(), key) >= 0 {
                    hi = mid;
                } else {
                    lo = mid + 1;
                }
            }
            lo
        } else {
            while lo < hi
                invariant
                    n == self.tables@.len(),
                    0 <= lo <= hi <= n,
                    lo > 0 ==> key_sign(self.tables@[n - lo].smallest_view(), key@) > 0,
                    hi < n ==> key_sign(self.tables@[n - 1 - hi].smallest_view(), key@) <= 0,
                decreases hi - lo,
            {
                let mid = lo + (hi - lo) / 2;
                if key_sign_exec(self.tables[(n - 1 - mid) as usize].smallest().as_bytes(), key) <= 0 {
                    hi = mid;
                } else {
                    lo = mid + 1;
                }
            }
            n - 1 - lo
        }
    }
}

/// A bound above the measure of progress of an iterator over any table.
pub open spec fn table_progress_bound() -> nat {
    (isize::MAX as nat + 3) * position_bound()
}

impl<'a> ConcatTableIterator<'a> {
    /// Whether the iterators over the tables are all positioned.
    pub open spec fn all_positioned(&self) -> bool {
        forall|i: int| 0 <= i < self.iters_view().len() ==> (#[trigger] self.iters_view()[i]).positioned()
    }

    /// Whether a table is current and its iterator is at an entry.
    pub open spec fn valid_view(&self) -> bool {
        self.cur_view() matches Some(c) && self.iters_view()[c as int].error() is None
    }

    /// How far the iterator is from its end: tables to go, then the
    /// progress within the table at the position.
    pub open spec fn progress(&self) -> nat {
        let n = self.iters_view().len() as int;
        let c = self.idx_view() as int;
        let p = self.iters_view()[c].progress() as int;
        let b = table_progress_bound() as int;
        if !self.flag().is_reversed_spec() {
            ((n - c) * b + p) as nat
        } else {
            ((c + 1) * b + p) as nat
        }
    }

    /// The measure of progress of the iterator over a table stays below the
    /// bound.
    proof fn lemma_table_progress_bounded(&self, i: int)
        requires
            self.wf(),
            0 <= i < self.iters_view().len(),
        ensures
            self.iters_view()[i].progress() < table_progress_bound(),
    {
        let it = self.iters_view()[i];
        assert(it.iter_wf());
        it.lemma_progress_bounded();
        let n = it.table_view().block_offsets@.len() as int;
        assert((n + 3) * position_bound() <= (isize::MAX as nat + 3) * position_bound()) by (nonlinear_arith)
            requires n < isize::MAX;
    }

    /// Moving forward from an entry keeps the iterators positioned.
    #[verifier::spinoff_prover]
    #[verifier::rlimit(40)]
    pub proof fn lemma_next_keeps_positioned(&self, f: Self)
        requires
            self.wf(),
            f.wf(),
            self.all_positioned(),
            self.valid_view(),
            self.next_result(f),
        ensures
            f.all_positioned(),
    {
        let n = self.iters_view().len() as int;
        let c = self.idx_view() as int;
        let o_it = self.iters_view()[c];
        let f_it = f.iters_view()[c];
        assert(o_it.step_result(f_it) && o_it.error() is None);
        o_it.lemma_positioned_kept(f_it, Seq::empty());
        assert forall|j: int| 0 <= j < n implies (#[trigger] f.iters_view()[j]).positioned() by {
            if j != c && f.iters_view()[j] != self.iters_view()[j] {
                assert(self.iters_view()[j].rewind_result(f.iters_view()[j]));
                self.iters_view()[j].lemma_positioned_kept(f.iters_view()[j], Seq::empty());
            }
        }
    }

    /// Moving forward from an entry to an entry brings the iterator closer
    /// to its end.
    #[verifier::spinoff_prover]
    #[verifier::rlimit(40)]
    pub proof fn lemma_next_progresses(&self, f: Self)
        requires
            self.wf(),
            f.wf(),
            self.all_positioned(),
            self.valid_view(),
            self.next_result(f),
            f.valid_view(),
        ensures
            f.progress() < self.progress(),
    {
        let n = self.iters_view().len() as int;
        let c = self.idx_view() as int;
        let rev = self.flag().is_reversed_spec();
        let b = table_progress_bound() as int;
        let o_it = self.iters_view()[c];
        let f_it = f.iters_view()[c];
        self.lemma_table_progress_bounded(c);
        f.lemma_table_progress_bounded(f.idx_view() as int);
        if f_it.error() is None {
            assert(o_it.iter_wf() && f_it.iter_wf() && o_it.positioned());
            lemma_step_progresses(o_it, f_it);
            let a = if !rev { n - c } else { c + 1 };
            lemma_lex_measure(a, f_it.progress() as int, a, o_it.progress() as int, b);
        } else {
            let k = f.idx_view() as int;
            let fa = if !rev { n - k } else { k + 1 };
            let oa = if !rev { n - c } else { c + 1 };
            lemma_lex_measure(fa, f.iters_view()[k].progress() as int, oa, o_it.progress() as int, b);
        }
    }

    /// Rewinding and seeking keep the iterators positioned.
    pub proof fn lemma_positioned_kept(&self, f: Self, key: Seq<u8>)
        requires
            self.wf(),
            self.all_positioned(),
            self.rewind_result(f) || self.seek_result(f, key),
        ensures
            f.all_positioned(),
    {
        let n = self.iters_view().len() as int;
        assert forall|j: int| 0 <= j < n implies (#[trigger] f.iters_view()[j]).positioned() by {
            if f.iters_view()[j] != self.iters_view()[j] {
                self.iters_view()[j].lemma_positioned_kept(f.iters_view()[j], key);
            }
        }
    }
}

impl<'a> BableIterator for ConcatTableIterator<'a> {
    open spec fn iter_wf(&self) -> bool {
        self.wf()
    }

    open spec fn value_readable(&self) -> bool {
        self.cur_view() matches Some(c) ==> self.iters_view()[c as int].value_readable()
    }

    open spec fn steppable(&self) -> bool {
        self.iters_view().len() > 0
    }

    open spec fn entry_bound(&self) -> Option<usize> {
        Some(total_entries(self.tables_view()) as usize)
    }

    /// Moves the iterator over the table at the position forward; when it
    /// runs out, rewinds the following tables in turn until one holds an
    /// entry.
    fn next(&mut self)
        ensures
            old(self).next_result(*final(self)),
    {
        let ghost o = *self;
        let idx = self.idx as usize;
        self.iters[idx].next();
        if self.iters[idx].valid() {
            return;
        }
        let ghost c = idx as int;
        let ghost rev = self.opt.is_reversed_spec();
        let ghost n = self.iters@.len() as int;
        let ghost stepped = self.iters@[c];
        loop
            invariant
                self.wf(),
                n == self.iters@.len(),
                n == o.iters@.len(),
                self.tables == o.tables,
                self.opt == o.opt,
                rev == self.opt.is_reversed_spec(),
                0 <= c < n,
                o == *old(self),
                o.idx == c,
                self.iters@[c] == stepped,
                o.iters@[c].step_result(stepped),
                stepped.error() is Some,
                self.idx == c || after(c, self.idx as int, rev),
                forall|j: int| 0 <= j < n && after(c, j, rev) && (j == self.idx || after(j, self.idx as int, rev))
                    ==> #[trigger] self.passed(o, j),
                forall|j: int| 0 <= j < n && j != c && !(after(c, j, rev) && (j == self.idx || after(j, self.idx as int, rev)))
                    ==> #[trigger] self.iters@[j] == o.iters@[j],
            decreases (if rev { self.idx as int } else { n - self.idx }),
        {
            let next_idx = if !self.opt.is_reversed() {
                self.idx + 1
            } else {
                self.idx - 1
            };
            let ghost before = *self;
            self.set_idx(next_idx);
            match self.cur {
                None => {
                    proof {
                        assert forall|j: int| 0 <= j < n && after(c, j, rev) implies self.passed(o, j) by {
                            assert(before.passed(o, j));
                        }
                    }
                    return;
                },
                Some(cur) => {
                    self.iters[cur].rewind();
                    proof {
                        assert forall|j: int| 0 <= j < n && after(c, j, rev) && after(j, cur as int, rev) implies self.passed(o, j) by {
                            assert(before.passed(o, j));
                        }
                    }
                    if self.iters[cur].valid() {
                        return;
                    }
                },
            }
        }
    }

    /// Makes the first table in the direction of the flag current and
    /// rewinds its iterator.
    fn rewind(&mut self)
        ensures
            old(self).rewind_result(*final(self)),
    {
        self.rewind_in();
        match self.cur {
            None => {},
            Some(cur) => self.iters[cur].rewind(),
        }
    }

    /// Makes the table a binary search picks for `key` current and seeks
    /// `key` in it: forward the first entry at least `key`, in reverse the
    /// last at most `key`.
    fn seek(&mut self, key: &[u8])
        ensures
            old(self).seek_result(*final(self), key@),
    {
        let idx = self.get_seek_position(key);
        let len = self.iters.len() as isize;
        if idx >= len || idx < 0 {
            self.set_idx(-1);
            return;
        }
        self.set_idx(idx);
        match self.cur {
            None => {},
            Some(cur) => self.iters[cur].seek(key),
        }
    }

    /// The key and the value at the current position.
    fn entry(&self) -> (r: Option<(KeyRef, ValueRef)>)
        ensures
            self.cur_view() is None ==> r is None,
            self.cur_view() matches Some(c) ==> (self.iters_view()[c as int].block_iter() matches Some(b) ==> (r matches Some(e)
                && e.0@ == b.key_view() && e.1@ == value_decoding(b.val_view()))),
            self.cur_view() matches Some(c) ==> (self.iters_view()[c as int].block_iter() is None ==> r is None),
    {
        match self.cur {
            None => None,
            Some(cur) => self.iters[cur].entry(),
        }
    }

    /// The key at the current position.
    fn key(&self) -> (r: Option<KeyRef>)
        ensures
            self.cur_view() is None ==> r is None,
            self.cur_view() matches Some(c) ==> (self.iters_view()[c as int].block_iter() matches Some(b) ==> (r matches Some(k)
                && k@ == b.key_view())),
            self.cur_view() matches Some(c) ==> (self.iters_view()[c as int].block_iter() is None ==> r is None),
    {
        match self.cur {
            None => None,
            Some(cur) => self.iters[cur].key(),
        }
    }

    /// The value at the current position.
    fn val(&self) -> (r: Option<ValueRef>)
        ensures
            self.cur_view() is None ==> r is None,
            self.cur_view() matches Some(c) ==> (self.iters_view()[c as int].block_iter() matches Some(b) ==> (r matches Some(v)
                && v@ == value_decoding(b.val_view()))),
            self.cur_view() matches Some(c) ==> (self.iters_view()[c as int].block_iter() is None ==> r is None),
    {
        match self.cur {
            None => None,
            Some(cur) => self.iters[cur].val(),
        }
    }

    /// Whether there is a current table whose iterator holds an entry.
    fn valid(&self) -> (r: bool)
        ensures
            self.cur_view() is None ==> !r,
            self.cur_view() matches Some(c) ==> r == (self.iters_view()[c as int].error() is None),
    {
        match self.cur {
            None => false,
            Some(cur) => self.iters[cur].valid(),
        }
    }

    /// The bounds of the number of entries: none to all of the tables'.
    fn size_hint(&self) -> (r: (usize, Option<usize>))
        ensures
            r == (0usize, Some(total_entries(self.tables_view()) as usize)),
    {
        (0, Some(self.num_entries))
    }

    /// The number of entries of the tables.
    fn count(&self) -> (r: usize)
        ensures
            r == total_entries(self.tables_view()),
    {
        self.num_entries
    }
}

} // verus!
