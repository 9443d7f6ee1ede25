//! Any of the table iterators behind one type, and the iterator that merges
//! two of them in key order: forward the smaller key comes first, in
//! reverse the bigger; of a key both hold, the left one's entry is kept.
use vstd::prelude::*;
use crate::bytes::{bytes_equal, lemma_lex_antisym, lemma_lex_trans, lex_sign, lex_sign_exec};
use crate::iterator::BableIterator;
use crate::key::{KeyExt, KeyRef};
use crate::multi_iter::{total_entries, ConcatTableIterator};
use crate::table_iter::{lemma_step_progresses, UniTableIterator};
use crate::value::{value_decoding, ValueRef};

verus! {

/// A table iterator of any kind.
pub enum TableIterator<'a> {
    /// Over tables one after the other.
    Concat(ConcatTableIterator<'a>),
    /// Merging two iterators.
    Merge(MergeTableIterator<'a>),
    /// Over one table.
    Uni(UniTableIterator<'a>),
}

/// One side of a merge: its iterator, whether that was at an entry when
/// last looked at, and the key there.
struct Node<'a> {
    valid: bool,
    key: Vec<u8>,
    iter: Box<TableIterator<'a>>,
}

/// An iterator that merges two iterators in key order.
pub struct MergeTableIterator<'a> {
    left: Node<'a>,
    right: Node<'a>,
    /// Whether the left side holds the key to hand out.
    lltr: bool,
    cur_key: Vec<u8>,
    reverse: bool,
    num_entries: usize,
}

/// The larger of two numbers.
pub open spec fn max_nat(a: nat, b: nat) -> nat {
    if a >= b {
        a
    } else {
        b
    }
}

impl<'a> TableIterator<'a> {
    /// Whether the iterator merges two streams, in reverse order exactly when
    /// `reverse` holds.
    pub open spec fn merges_in(&self, reverse: bool) -> bool {
        self matches TableIterator::Merge(m) && m.reverse_view() == reverse
    }

    /// How deep merges nest in the iterator.
    pub closed spec fn height(&self) -> nat
        decreases self,
    {
        match self {
            TableIterator::Merge(m) => 1 + max_nat(m.left.iter.height(), m.right.iter.height()),
            _ => 0,
        }
    }

    /// Whether the iterator is at an entry.
    pub closed spec fn valid_view(&self) -> bool {
        match self {
            TableIterator::Uni(u) => u.error() is None,
            TableIterator::Concat(c) => c.valid_view(),
            TableIterator::Merge(m) => if m.lltr {
                m.left.valid
            } else {
                m.right.valid
            },
        }
    }

    /// The key at the current position, if there is one.
    pub closed spec fn key_view(&self) -> Option<Seq<u8>>
        decreases self,
    {
        match self {
            TableIterator::Uni(u) => match u.block_iter() {
                Some(b) => Some(b.key_view()),
                None => None,
            },
            TableIterator::Concat(c) => match c.cur_view() {
                Some(k) => match c.iters_view()[k as int].block_iter() {
                    Some(b) => Some(b.key_view()),
                    None => None,
                },
                None => None,
            },
            TableIterator::Merge(m) => if m.lltr {
                m.left.iter.key_view()
            } else {
                m.right.iter.key_view()
            },
        }
    }

    /// The encoded value at the current position, if there is one.
    pub closed spec fn val_view(&self) -> Option<Seq<u8>>
        decreases self,
    {
        match self {
            TableIterator::Uni(u) => match u.block_iter() {
                Some(b) => Some(b.val_view()),
                None => None,
            },
            TableIterator::Concat(c) => match c.cur_view() {
                Some(k) => match c.iters_view()[k as int].block_iter() {
                    Some(b) => Some(b.val_view()),
                    None => None,
                },
                None => None,
            },
            TableIterator::Merge(m) => if m.lltr {
                m.left.iter.val_view()
            } else {
                m.right.iter.val_view()
            },
        }
    }

    /// The key at the current position, or no bytes.
    pub open spec fn key_or_empty(&self) -> Seq<u8> {
        match self.key_view() {
            Some(k) => k,
            None => Seq::empty(),
        }
    }

    /// Whether the value at the current position can be decoded.
    pub closed spec fn value_readable_view(&self) -> bool
        decreases self,
    {
        match self {
            TableIterator::Uni(u) => u.value_readable(),
            TableIterator::Concat(c) => c.value_readable(),
            TableIterator::Merge(m) => if m.lltr {
                m.left.iter.value_readable_view()
            } else {
                m.right.iter.value_readable_view()
            },
        }
    }

    /// What moving to the next entry gives `f`: over one table or over
    /// tables in turn, the step in the direction of the flag; for a merge,
    /// the key it stops at remembered and, from an entry, nearer its end.
    pub closed spec fn stepped(&self, f: Self) -> bool {
        match self {
            TableIterator::Uni(o) => match f {
                TableIterator::Uni(n) => o.step_result(n),
                _ => false,
            },
            TableIterator::Concat(o) => match f {
                TableIterator::Concat(n) => o.next_result(n),
                _ => false,
            },
            TableIterator::Merge(o) => match f {
                TableIterator::Merge(n) => {
                    &&& n.cur_key_view() == n.smaller_key_view()
                    &&& o.smaller_valid_view() ==> f.progress() < self.progress()
                },
                _ => false,
            },
        }
    }

    /// What moving to the first entry gives `f`: over one table or over
    /// tables in turn, the first entry in the direction of the flag; for a
    /// merge, both sides moved so and looked at, the side whose key comes
    /// first picked, and the key it holds remembered.
    pub closed spec fn rewound(&self, f: Self) -> bool
        decreases self,
    {
        match self {
            TableIterator::Uni(o) => match f {
                TableIterator::Uni(n) => o.rewind_result(n),
                _ => false,
            },
            TableIterator::Concat(o) => match f {
                TableIterator::Concat(n) => o.rewind_result(n),
                _ => false,
            },
            TableIterator::Merge(o) => match f {
                TableIterator::Merge(n) => {
                    &&& n.cur_key_view() == n.smaller_key_view()
                    &&& exists|mid: MergeTableIterator<'a>| {
                        &&& o.left.iter.rewound(*mid.left.iter)
                        &&& o.right.iter.rewound(*mid.right.iter)
                        &&& mid.sides_looked_at()
                        &&& #[trigger] mid.picks(n)
                    }
                },
                _ => false,
            },
        }
    }

    /// What seeking `key` gives `f`: over one table, the entry the seek in
    /// the direction of the flag lands on; over tables in turn, that entry
    /// in the table a binary search picks; for a merge, both sides sought
    /// and looked at, the side whose key comes first picked, and the key it
    /// holds remembered.
    pub closed spec fn sought(&self, f: Self, key: Seq<u8>) -> bool
        decreases self,
    {
        match self {
            TableIterator::Uni(o) => match f {
                TableIterator::Uni(n) => o.seek_dir_result(n, key),
                _ => false,
            },
            TableIterator::Concat(o) => match f {
                TableIterator::Concat(n) => o.seek_result(n, key),
                _ => false,
            },
            TableIterator::Merge(o) => match f {
                TableIterator::Merge(n) => {
                    &&& n.cur_key_view() == n.smaller_key_view()
                    &&& exists|mid: MergeTableIterator<'a>| {
                        &&& o.left.iter.sought(*mid.left.iter, key)
                        &&& o.right.iter.sought(*mid.right.iter, key)
                        &&& mid.sides_looked_at()
                        &&& #[trigger] mid.picks(n)
                    }
                },
                _ => false,
            },
        }
    }

    /// The number of entries the iterator counts.
    pub closed spec fn count_view(&self) -> int {
        match self {
            TableIterator::Uni(u) => u.table_view().num_entries as int,
            TableIterator::Concat(c) => total_entries(c.tables_view()),
            TableIterator::Merge(m) => m.num_entries as int,
        }
    }

    /// Every iterator inside is well formed, one over tables has at least
    /// one, and a merge agrees with the sides it looked at.
    pub closed spec fn wf(&self) -> bool
        decreases self,
    {
        match self {
            TableIterator::Uni(u) => u.iter_wf(),
            TableIterator::Concat(c) => c.iter_wf() && c.iters_view().len() > 0,
            TableIterator::Merge(m) => {
                &&& m.left.iter.wf()
                &&& m.right.iter.wf()
                &&& m.left.valid ==> m.left.synced()
                &&& m.right.valid ==> m.right.synced()
                &&& m.cur_key@ == (if m.lltr {
                    m.left.key@
                } else {
                    m.right.key@
                })
            },
        }
    }

    /// Every single-table iterator inside is positioned.
    pub closed spec fn positioned(&self) -> bool
        decreases self,
    {
        match self {
            TableIterator::Uni(u) => u.positioned(),
            TableIterator::Concat(c) => c.all_positioned(),
            TableIterator::Merge(m) => m.left.iter.positioned() && m.right.iter.positioned(),
        }
    }

    /// How far the iterator is from its end: for a merge, the sum over the
    /// sides at an entry.
    pub closed spec fn progress(&self) -> nat
        decreases self,
    {
        match self {
            TableIterator::Uni(u) => u.progress(),
            TableIterator::Concat(c) => c.progress(),
            TableIterator::Merge(m) => (if m.left.iter.valid_view() {
                m.left.iter.progress() + 1
            } else {
                0
            }) + (if m.right.iter.valid_view() {
                m.right.iter.progress() + 1
            } else {
                0
            }),
        }
    }

    /// Moves to the next entry. From an entry, the iterators inside stay
    /// positioned, and when it reaches an entry it is closer to its end.
    pub fn next(&mut self)
        requires
            old(self).wf(),
            old(self).positioned(),
        ensures
            final(self).wf(),
            final(self).height() == old(self).height(),
            old(self).valid_view() ==> final(self).positioned(),
            old(self).valid_view() && final(self).valid_view() ==> final(self).progress() < old(self).progress(),
            final(self).count_view() == old(self).count_view(),
            old(self).stepped(*final(self)),
        decreases 4 * old(self).height() + 3,
    {
        match self {
            TableIterator::Uni(it) => {
                let ghost o = *it;
                it.next();
                proof {
                    if o.error() is None {
                        o.lemma_positioned_kept(*it, Seq::empty());
                        if it.error() is None {
                            lemma_step_progresses(o, *it);
                        }
                    }
                }
            },
            TableIterator::Merge(it) => it.next(),
            TableIterator::Concat(it) => {
                let ghost o = *it;
                it.next();
                proof {
                    if o.valid_view() {
                        o.lemma_next_keeps_positioned(*it);
                        if it.valid_view() {
                            o.lemma_next_progresses(*it);
                        }
                    }
                }
            },
        }
    }

    /// Moves to the first entry.
    pub fn rewind(&mut self)
        requires
            old(self).wf(),
            old(self).positioned(),
        ensures
            final(self).wf(),
            final(self).positioned(),
            final(self).height() == old(self).height(),
            final(self).count_view() == old(self).count_view(),
            old(self).rewound(*final(self)),
            *old(self) matches TableIterator::Uni(o) ==> (*final(self) matches TableIterator::Uni(n) && o.rewind_result(n)),
            *old(self) matches TableIterator::Concat(o) ==> (*final(self) matches TableIterator::Concat(n) && o.rewind_result(n)),
        decreases 4 * old(self).height() + 3,
    {
        match self {
            TableIterator::Uni(it) => {
                let ghost o = *it;
                it.rewind();
                proof {
                    o.lemma_positioned_kept(*it, Seq::empty());
                }
            },
            TableIterator::Merge(it) => it.rewind(),
            TableIterator::Concat(it) => {
                let ghost o = *it;
                it.rewind();
                proof {
                    o.lemma_positioned_kept(*it, Seq::empty());
                }
            },
        }
    }

    /// Seeks `key`: forward the first entry at least `key`, in reverse the
    /// last at most `key`.
    pub fn seek(&mut self, key: &[u8])
        requires
            old(self).wf(),
            old(self).positioned(),
        ensures
            final(self).wf(),
            final(self).positioned(),
            final(self).height() == old(self).height(),
            final(self).count_view() == old(self).count_view(),
            old(self).sought(*final(self), key@),
            *old(self) matches TableIterator::Uni(o) ==> (*final(self) matches TableIterator::Uni(n) && o.seek_dir_result(n, key@)),
            *old(self) matches TableIterator::Concat(o) ==> (*final(self) matches TableIterator::Concat(n) && o.seek_result(n, key@)),
        decreases 4 * old(self).height() + 3,
    {
        match self {
            TableIterator::Uni(it) => {
                let ghost o = *it;
                it.seek(key);
                proof {
                    o.lemma_positioned_kept(*it, key@);
                }
            },
            TableIterator::Merge(it) => it.seek(key),
            TableIterator::Concat(it) => {
                let ghost o = *it;
                it.seek(key);
                proof {
                    o.lemma_positioned_kept(*it, key@);
                }
            },
        }
    }

    /// The key at the current position.
    pub fn key(&self) -> (r: Option<KeyRef>)
        requires
            self.wf(),
        ensures
            match self.key_view() {
                Some(k) => r matches Some(kr) && kr@ == k,
                None => r is None,
            },
        decreases 4 * self.height() + 3,
    {
        match self {
            TableIterator::Uni(it) => it.key(),
            TableIterator::Merge(it) => it.key(),
            TableIterator::Concat(it) => it.key(),
        }
    }

    /// The value at the current position.
    pub fn val(&self) -> (r: Option<ValueRef>)
        requires
            self.wf(),
            self.value_readable_view(),
        ensures
            match self.val_view() {
                Some(v) => r matches Some(vr) && vr@ == value_decoding(v),
                None => r is None,
            },
        decreases 4 * self.height() + 3,
    {
        match self {
            TableIterator::Uni(it) => it.val(),
            TableIterator::Merge(it) => it.val(),
            TableIterator::Concat(it) => it.val(),
        }
    }

    /// The key and the value at the current position.
    pub fn entry(&self) -> (r: Option<(KeyRef, ValueRef)>)
        requires
            self.wf(),
            self.value_readable_view(),
        ensures
            match (self.key_view(), self.val_view()) {
                (Some(k), Some(v)) => r matches Some(e) && e.0@ == k && e.1@ == value_decoding(v),
                _ => r is None,
            },
        decreases 4 * self.height() + 3,
    {
        match self {
            TableIterator::Uni(it) => it.entry(),
            TableIterator::Merge(it) => it.entry(),
            TableIterator::Concat(it) => it.entry(),
        }
    }

    /// Whether the iterator is at an entry.
    pub fn valid(&self) -> (r: bool)
        requires
            self.wf(),
        ensures
            r == self.valid_view(),
    {
        match self {
            TableIterator::Uni(it) => it.valid(),
            TableIterator::Merge(it) => it.valid(),
            TableIterator::Concat(it) => it.valid(),
        }
    }

    /// The number of entries.
    pub fn count(&self) -> (r: usize)
        requires
            self.wf(),
        ensures
            r == self.count_view(),
    {
        match self {
            TableIterator::Concat(it) => it.count(),
            TableIterator::Merge(it) => it.count(),
            TableIterator::Uni(it) => it.count(),
        }
    }

    /// The bounds of the number of entries.
    pub fn size_hint(&self) -> (r: (usize, Option<usize>))
        requires
            self.wf(),
        ensures
            r == (0usize, Some(self.count_view() as usize)),
    {
        match self {
            TableIterator::Concat(it) => it.size_hint(),
            TableIterator::Merge(it) => it.size_hint(),
            TableIterator::Uni(it) => it.size_hint(),
        }
    }
}

impl<'a> Node<'a> {
    /// The node agrees with its iterator: it is at an entry exactly when the
    /// iterator is, and then holds the iterator's key.
    pub closed spec fn synced(&self) -> bool {
        &&& self.valid == self.iter.valid_view()
        &&& self.valid ==> self.key@ == self.iter.key_or_empty()
    }

    /// A side over `iter`, not looked at yet.
    fn new(iter: Box<TableIterator<'a>>) -> (r: Self)
        ensures
            !r.valid,
            r.key@ == Seq::<u8>::empty(),
            *r.iter == *iter,
    {
        Node { valid: false, key: Vec::new(), iter }
    }

    /// Looks at the iterator: whether it is at an entry, and its key there.
    fn set_key(&mut self)
        requires
            old(self).iter.wf(),
        ensures
            final(self).iter == old(self).iter,
            final(self).synced(),
    {
        self.valid = self.iter.valid();
        if self.valid {
            self.key = match self.iter.key() {
                Some(k) => vstd::slice::slice_to_vec(k.as_slice()),
                None => Vec::new(),
            };
        }
    }

    /// Moves the iterator to its next entry and looks at it.
    fn next(&mut self)
        requires
            old(self).iter.wf(),
            old(self).iter.positioned(),
            old(self).iter.valid_view(),
        ensures
            final(self).iter.wf(),
            final(self).iter.positioned(),
            final(self).iter.height() == old(self).iter.height(),
            final(self).iter.count_view() == old(self).iter.count_view(),
            final(self).synced(),
            final(self).iter.valid_view() ==> final(self).iter.progress() < old(self).iter.progress(),
            old(self).iter.stepped(*final(self).iter),
        decreases 4 * old(self).iter.height() + 4,
    {
        (&mut *self.iter).next();
        self.set_key();
    }

    /// Moves the iterator to its first entry and looks at it.
    fn rewind(&mut self)
        requires
            old(self).iter.wf(),
            old(self).iter.positioned(),
        ensures
            final(self).iter.wf(),
            final(self).iter.positioned(),
            final(self).iter.height() == old(self).iter.height(),
            final(self).iter.count_view() == old(self).iter.count_view(),
            final(self).synced(),
            old(self).iter.rewound(*final(self).iter),
        decreases 4 * old(self).iter.height() + 4,
    {
        (&mut *self.iter).rewind();
        self.set_key();
    }

    /// Seeks `key` with the iterator and looks at it.
    fn seek(&mut self, key: &[u8])
        requires
            old(self).iter.wf(),
            old(self).iter.positioned(),
        ensures
            final(self).iter.wf(),
            final(self).iter.positioned(),
            final(self).iter.height() == old(self).iter.height(),
            final(self).iter.count_view() == old(self).iter.count_view(),
            final(self).synced(),
            old(self).iter.sought(*final(self).iter, key@),
        decreases 4 * old(self).iter.height() + 4,
    {
        (&mut *self.iter).seek(key);
        self.set_key();
    }
}

/// Whether key `a` comes before key `b` in the direction: forward, in
/// byte order; in reverse, the other way.
pub open spec fn key_before(a: Seq<u8>, b: Seq<u8>, rev: bool) -> bool {
    if rev {
        lex_sign(a, b) > 0
    } else {
        lex_sign(a, b) < 0
    }
}

/// Whether `path` is a walk of one iterator: each state is what moving to
/// the next entry gives from the one before.
pub open spec fn walk<'a>(path: Seq<TableIterator<'a>>) -> bool {
    forall|i: int| #![trigger path[i]] 0 <= i < path.len() - 1 ==> path[i].stepped(path[i + 1])
}

/// Whether the iterator walks in key order from where it is: every entry
/// that a walk from it reaches comes after its current entry.
pub open spec fn sorted_from<'a>(a: TableIterator<'a>, rev: bool) -> bool {
    forall|path: Seq<TableIterator<'a>>, i: int| #![trigger walk(path), path[i]]
        walk(path) && path.len() >= 1 && path[0] == a && 0 < i < path.len()
            && a.valid_view() && path[i].valid_view()
            ==> key_before(a.key_or_empty(), path[i].key_or_empty(), rev)
}

proof fn lemma_key_before_trans(a: Seq<u8>, b: Seq<u8>, c: Seq<u8>, rev: bool)
    requires
        !key_before(b, a, rev),
        key_before(b, c, rev),
    ensures
        key_before(a, c, rev),
{
    lemma_lex_antisym(a, b);
    lemma_lex_antisym(b, c);
    lemma_lex_antisym(a, c);
    if rev {
        lemma_lex_antisym(c, b);
        lemma_lex_trans(c, b, a);
        lemma_lex_antisym(c, a);
    } else {
        lemma_lex_trans(a, b, c);
    }
}

proof fn lemma_key_before_neq(a: Seq<u8>, b: Seq<u8>, rev: bool)
    requires
        !key_before(b, a, rev),
        a != b,
    ensures
        key_before(a, b, rev),
{
    lemma_lex_antisym(a, b);
    lemma_lex_antisym(b, a);
}

proof fn lemma_steps_along_walk<'a>(path: Seq<TableIterator<'a>>, k1: Seq<u8>, k2: Seq<u8>)
    requires
        steps_along(path, k1, k2),
    ensures
        walk(path),
{
}

/// Whether `path` is a walk of one iterator, each step taken from an entry
/// whose key is `k1` or `k2`.
pub open spec fn steps_along<'a>(path: Seq<TableIterator<'a>>, k1: Seq<u8>, k2: Seq<u8>) -> bool {
    &&& path.len() >= 1
    &&& forall|i: int| #![trigger path[i]] 0 <= i < path.len() - 1 ==> {
        &&& path[i].valid_view()
        &&& (path[i].key_or_empty() == k1 || path[i].key_or_empty() == k2)
        &&& path[i].stepped(path[i + 1])
    }
}

proof fn lemma_steps_along_push<'a>(path: Seq<TableIterator<'a>>, c: TableIterator<'a>, k1: Seq<u8>, k2: Seq<u8>)
    requires
        steps_along(path, k1, k2),
        path.last().valid_view(),
        path.last().key_or_empty() == k1 || path.last().key_or_empty() == k2,
        path.last().stepped(c),
    ensures
        steps_along(path.push(c), k1, k2),
        path.push(c)[0] == path[0],
        path.push(c).last() == c,
{
    let p = path.push(c);
    assert forall|i: int| #![trigger p[i]] 0 <= i < p.len() - 1 implies {
        &&& p[i].valid_view()
        &&& (p[i].key_or_empty() == k1 || p[i].key_or_empty() == k2)
        &&& p[i].stepped(p[i + 1])
    } by {
        if i < path.len() - 1 {
            assert(p[i] == path[i] && p[i + 1] == path[i + 1]);
        } else {
            assert(p[i] == path.last() && p[i + 1] == c);
        }
    }
}

proof fn lemma_steps_along_rekey<'a>(path: Seq<TableIterator<'a>>, k1: Seq<u8>, k2: Seq<u8>, k2p: Seq<u8>)
    requires
        steps_along(path, k1, k2),
        k2 == k1,
    ensures
        steps_along(path, k1, k2p),
{
}

/// The number of entries the iterators count, together.
pub open spec fn counts_sum(s: Seq<Box<TableIterator>>) -> int
    decreases s.len(),
{
    if s.len() == 0 {
        0
    } else {
        counts_sum(s.drop_last()) + s.last().count_view()
    }
}

proof fn lemma_counts_sum_split(s: Seq<Box<TableIterator>>, k: int)
    requires
        0 <= k <= s.len(),
    ensures
        counts_sum(s) == counts_sum(s.subrange(0, k)) + counts_sum(s.subrange(k, s.len() as int)),
    decreases s.len(),
{
    if k == s.len() {
        assert(s.subrange(0, k) =~= s);
        assert(s.subrange(k, s.len() as int) =~= Seq::<Box<TableIterator>>::empty());
    } else {
        lemma_counts_sum_split(s.drop_last(), k);
        assert(s.drop_last().subrange(0, k) =~= s.subrange(0, k));
        assert(s.subrange(k, s.len() as int).drop_last() =~= s.drop_last().subrange(k, s.len() - 1));
    }
}

impl<'a> MergeTableIterator<'a> {
    /// The sides are well formed and agree with what they looked at.
    pub closed spec fn sides_ok(&self) -> bool {
        &&& self.left.iter.wf()
        &&& self.right.iter.wf()
        &&& self.left.valid ==> self.left.synced()
        &&& self.right.valid ==> self.right.synced()
    }

    /// A well formed merge has well formed sides.
    pub proof fn lemma_wf_sides(&self)
        requires
            self.as_iter().wf(),
        ensures
            self.sides_ok(),
    {
    }

    /// What picking the side to hand out from `self` gives `f` (the key last
    /// handed out aside): with the other side not at an entry, nothing
    /// changes; with only the other side at one, it is picked; with both,
    /// the one whose key comes first in the direction is picked, and of
    /// equal keys the left one, after the right one moved past its key.
    pub closed spec fn picks(&self, f: Self) -> bool {
        &&& f.reverse == self.reverse
        &&& f.num_entries == self.num_entries
        &&& !self.bigger_valid_view() ==> f.lltr == self.lltr && f.left == self.left && f.right == self.right
        &&& self.bigger_valid_view() && !self.smaller_valid_view() ==> {
            &&& f.lltr == !self.lltr
            &&& f.left == self.left
            &&& f.right == self.right
        }
        &&& self.bigger_valid_view() && self.smaller_valid_view() ==> ({
            let c = lex_sign(self.smaller_key_view(), self.bigger_key_view());
            &&& c < 0 ==> f.left == self.left && f.right == self.right && f.lltr == (self.lltr != self.reverse)
            &&& c == 0 ==> f.left == self.left && f.lltr && f.right.synced()
                && f.right.iter.height() == self.right.iter.height()
            &&& c > 0 ==> f.left == self.left && f.right == self.right && f.lltr == (self.lltr == self.reverse)
        })
    }

    /// Whether `f` comes of moving both sides to their first entries,
    /// looking at them and picking the side whose key comes first.
    pub closed spec fn rewound_to(&self, f: Self) -> bool {
        exists|mid: Self| {
            &&& self.left.iter.rewound(*mid.left.iter)
            &&& self.right.iter.rewound(*mid.right.iter)
            &&& mid.sides_looked_at()
            &&& #[trigger] mid.picks(f)
        }
    }

    /// Whether `f` comes of seeking `key` with both sides, looking at them
    /// and picking the side whose key comes first.
    pub closed spec fn sought_to(&self, f: Self, key: Seq<u8>) -> bool {
        exists|mid: Self| {
            &&& self.left.iter.sought(*mid.left.iter, key)
            &&& self.right.iter.sought(*mid.right.iter, key)
            &&& mid.sides_looked_at()
            &&& #[trigger] mid.picks(f)
        }
    }

    /// Both sides agree with their iterators.
    pub closed spec fn sides_looked_at(&self) -> bool {
        self.left.synced() && self.right.synced()
    }

    /// The iterators of both sides are positioned.
    pub closed spec fn sides_positioned(&self) -> bool {
        self.left.iter.positioned() && self.right.iter.positioned()
    }

    /// `self` has the shape of `o`: sides as deep, the same direction, the
    /// same count.
    pub closed spec fn same_shape(&self, o: Self) -> bool {
        &&& self.left.iter.height() == o.left.iter.height()
        &&& self.right.iter.height() == o.right.iter.height()
        &&& self.reverse == o.reverse
        &&& self.num_entries == o.num_entries
    }

    /// The merge as a table iterator.
    pub open spec fn as_iter(&self) -> TableIterator<'a> {
        TableIterator::Merge(*self)
    }

    /// Whether the side holding the key to hand out is at an entry.
    pub closed spec fn smaller_valid_view(&self) -> bool {
        if self.lltr {
            self.left.valid
        } else {
            self.right.valid
        }
    }

    /// The key the side holding the key to hand out looked at.
    pub closed spec fn smaller_key_view(&self) -> Seq<u8> {
        if self.lltr {
            self.left.key@
        } else {
            self.right.key@
        }
    }

    /// The key the other side looked at.
    pub closed spec fn bigger_key_view(&self) -> Seq<u8> {
        if self.lltr {
            self.right.key@
        } else {
            self.left.key@
        }
    }

    /// Whether the other side is at an entry.
    pub closed spec fn bigger_valid_view(&self) -> bool {
        if self.lltr {
            self.right.valid
        } else {
            self.left.valid
        }
    }

    /// The key last handed out.
    pub closed spec fn cur_key_view(&self) -> Seq<u8> {
        self.cur_key@
    }

    /// Whether the merge runs in reverse.
    pub closed spec fn reverse_view(&self) -> bool {
        self.reverse
    }

    fn smaller_valid(&self) -> (r: bool)
        ensures
            r == self.smaller_valid_view(),
    {
        if self.lltr {
            self.left.valid
        } else {
            self.right.valid
        }
    }

    fn bigger_valid(&self) -> (r: bool)
        ensures
            r == self.bigger_valid_view(),
    {
        if self.lltr {
            self.right.valid
        } else {
            self.left.valid
        }
    }

    fn smaller_key(&self) -> (r: &[u8])
        ensures
            r@ == self.smaller_key_view(),
    {
        if self.lltr {
            self.left.key.as_slice()
        } else {
            self.right.key.as_slice()
        }
    }

    fn bigger_key(&self) -> (r: &[u8])
        ensures
            r@ == self.bigger_key_view(),
    {
        if self.lltr {
            self.right.key.as_slice()
        } else {
            self.left.key.as_slice()
        }
    }

    /// The other side now holds the key to hand out.
    fn swap_small(&mut self)
        ensures
            final(self).lltr == !old(self).lltr,
            final(self).left == old(self).left,
            final(self).right == old(self).right,
            final(self).cur_key == old(self).cur_key,
            final(self).reverse == old(self).reverse,
            final(self).num_entries == old(self).num_entries,
    {
        self.lltr = !self.lltr;
    }

    /// Remembers the key to hand out.
    fn set_current(&mut self)
        ensures
            final(self).cur_key@ == old(self).smaller_key_view(),
            final(self).lltr == old(self).lltr,
            final(self).left == old(self).left,
            final(self).right == old(self).right,
            final(self).reverse == old(self).reverse,
            final(self).num_entries == old(self).num_entries,
    {
        let k = if self.lltr {
            vstd::slice::slice_to_vec(self.left.key.as_slice())
        } else {
            vstd::slice::slice_to_vec(self.right.key.as_slice())
        };
        self.cur_key = k;
    }

    /// Makes the side with the key to hand out the one whose key comes
    /// first: with only one side at an entry, that one; with both at the
    /// same key, the left one, after moving the right one past it.
    fn fix(&mut self)
        requires
            old(self).sides_ok(),
            old(self).sides_positioned(),
        ensures
            final(self).sides_ok(),
            final(self).sides_positioned(),
            final(self).same_shape(*old(self)),
            final(self).cur_key == old(self).cur_key,
            final(self).as_iter().progress() <= old(self).as_iter().progress(),
            final(self).bigger_valid_view() ==> final(self).smaller_valid_view(),
            old(self).picks(*final(self)),
            final(self).left == old(self).left,
            final(self).right == old(self).right || {
                &&& old(self).right.iter.valid_view()
                &&& old(self).left.valid
                &&& old(self).right.iter.key_or_empty() == old(self).left.iter.key_or_empty()
                &&& old(self).right.iter.stepped(*final(self).right.iter)
            },
        decreases 4 * old(self).as_iter().height() + 1,
    {
        if !self.bigger_valid() {
            return;
        }
        if !self.smaller_valid() {
            self.swap_small();
            return;
        }
        let c = lex_sign_exec(self.smaller_key(), self.bigger_key());
        if c < 0 {
            if self.reverse {
                self.swap_small();
            }
        } else if c == 0 {
            proof {
                lemma_lex_antisym(self.smaller_key_view(), self.bigger_key_view());
            }
            self.right.next();
            if !self.lltr {
                self.swap_small();
            }
        } else {
            if !self.reverse {
                self.swap_small();
            }
        }
    }

    /// Moves past every entry at the key last handed out, and remembers the
    /// key it stops at: from an entry it moves at least once, so when it
    /// stops at an entry its key differs from the last one.
    pub fn next(&mut self)
        requires
            old(self).as_iter().wf(),
            old(self).sides_positioned(),
        ensures
            final(self).as_iter().wf(),
            final(self).sides_positioned(),
            final(self).same_shape(*old(self)),
            old(self).smaller_valid_view() ==> final(self).as_iter().progress() < old(self).as_iter().progress(),
            final(self).smaller_valid_view() ==> final(self).cur_key_view() != old(self).cur_key_view(),
            final(self).cur_key_view() == final(self).smaller_key_view(),
            old(self).moved_past_key(*final(self)),
        decreases 4 * old(self).as_iter().height() + 2,
    {
        let ghost o = *self;
        let ghost mut stepped: bool = false;
        let ghost ck = o.cur_key@;
        let ghost mut pl: Seq<TableIterator<'a>> = seq![*o.left.iter];
        let ghost mut pr: Seq<TableIterator<'a>> = seq![*o.right.iter];
        loop
            invariant
                self.sides_ok(),
                self.sides_positioned(),
                self.same_shape(o),
                self.cur_key == o.cur_key,
                o == *old(self),
                o.as_iter().wf(),
                ck == o.cur_key@,
                !stepped ==> *self == o,
                stepped ==> self.as_iter().progress() < o.as_iter().progress(),
                pl[0] == *o.left.iter,
                pl.last() == *self.left.iter,
                steps_along(pl, ck, ck),
                pr[0] == *o.right.iter,
                pr.last() == *self.right.iter,
                steps_along(pr, ck, self.left.iter.key_or_empty()),
            ensures
                self.sides_ok(),
                self.sides_positioned(),
                self.same_shape(o),
                self.cur_key == o.cur_key,
                !stepped ==> *self == o,
                stepped ==> self.as_iter().progress() < o.as_iter().progress(),
                !self.smaller_valid_view() || self.smaller_key_view() != o.cur_key@,
                pl[0] == *o.left.iter,
                pl.last() == *self.left.iter,
                steps_along(pl, ck, ck),
                pr[0] == *o.right.iter,
                pr.last() == *self.right.iter,
                steps_along(pr, ck, self.left.iter.key_or_empty()),
            decreases self.as_iter().progress(),
        {
            if !self.smaller_valid() {
                break;
            }
            if !bytes_equal(self.smaller_key(), self.cur_key.as_slice()) {
                break;
            }
            let ghost before = *self;
            if self.lltr {
                self.left.next();
                proof {
                    lemma_steps_along_push(pl, *self.left.iter, ck, ck);
                    pl = pl.push(*self.left.iter);
                    lemma_steps_along_rekey(pr, ck, before.left.iter.key_or_empty(), self.left.iter.key_or_empty());
                }
            } else {
                self.right.next();
                proof {
                    lemma_steps_along_push(pr, *self.right.iter, ck, self.left.iter.key_or_empty());
                    pr = pr.push(*self.right.iter);
                }
            }
            let ghost mid = *self;
            self.fix();
            proof {
                if self.right != mid.right {
                    lemma_steps_along_push(pr, *self.right.iter, ck, self.left.iter.key_or_empty());
                    pr = pr.push(*self.right.iter);
                }
                stepped = true;
            }
        }
        self.set_current();
        proof {
            assert(steps_along(pl, ck, ck) && steps_along(pr, ck, self.left.iter.key_or_empty()));
        }
    }

    /// Whether the merge stands where it hands out the key that comes
    /// first: both sides looked at, the side holding the key at an entry,
    /// that key the one last handed out, and the other side's key, if any,
    /// not before it.
    pub closed spec fn ordered(&self) -> bool {
        &&& self.sides_looked_at()
        &&& self.smaller_valid_view()
        &&& self.cur_key@ == self.smaller_key_view()
        &&& self.bigger_valid_view() ==> !key_before(self.bigger_key_view(), self.smaller_key_view(), self.reverse)
    }

    /// Whether each side walks in key order from where it is.
    pub closed spec fn sides_sorted(&self) -> bool {
        &&& sorted_from(*self.left.iter, self.reverse)
        &&& sorted_from(*self.right.iter, self.reverse)
    }

    /// Merging hands out keys in order: from where the merge hands out the
    /// key that comes first, with sides that walk in key order, moving past
    /// the key last handed out lands on a key that comes after it.
    pub proof fn lemma_next_hands_out_later_key(o: Self, f: Self)
        requires
            o.as_iter().wf(),
            o.ordered(),
            o.sides_sorted(),
            o.moved_past_key(f),
            f.as_iter().wf(),
            f.reverse_view() == o.reverse_view(),
            f.cur_key_view() == f.smaller_key_view(),
            f.smaller_valid_view() ==> f.cur_key_view() != o.cur_key_view(),
        ensures
            f.smaller_valid_view() ==> key_before(o.cur_key_view(), f.cur_key_view(), o.reverse_view()),
    {
        if f.smaller_valid_view() {
            let ck = o.cur_key@;
            let rev = o.reverse;
            let (pl, pr) = choose|pl: Seq<TableIterator<'a>>, pr: Seq<TableIterator<'a>>| {
                &&& pl[0] == *o.left.iter
                &&& pl.last() == *f.left.iter
                &&& #[trigger] steps_along(pl, o.cur_key@, o.cur_key@)
                &&& pr[0] == *o.right.iter
                &&& pr.last() == *f.right.iter
                &&& #[trigger] steps_along(pr, o.cur_key@, f.left.iter.key_or_empty())
            };
            lemma_steps_along_walk(pl, ck, ck);
            lemma_steps_along_walk(pr, ck, f.left.iter.key_or_empty());
            // the sides of `o` hold keys not before the one handed out
            assert(o.left.valid ==> !key_before(o.left.key@, ck, rev)) by {
                lemma_lex_antisym(ck, ck);
            }
            assert(o.right.valid ==> !key_before(o.right.key@, ck, rev)) by {
                lemma_lex_antisym(ck, ck);
            }
            if f.lltr {
                let k = f.left.key@;
                if pl.len() > 1 {
                    assert(pl[0].valid_view() && pl[0].key_or_empty() == ck);
                    assert(walk(pl) && pl[pl.len() - 1] == *f.left.iter);
                    assert(key_before(ck, k, rev));
                } else {
                    assert(pl[0] == pl.last());
                    lemma_key_before_neq(ck, k, rev);
                }
            } else {
                let k = f.right.key@;
                let l = f.left.iter.key_or_empty();
                if pr.len() > 1 {
                    assert(pr[0].valid_view());
                    assert(walk(pr) && pr[pr.len() - 1] == *f.right.iter);
                    assert(key_before(pr[0].key_or_empty(), k, rev));
                    if pr[0].key_or_empty() != ck {
                        lemma_key_before_trans(ck, o.right.key@, k, rev);
                    }
                } else {
                    assert(pr[0] == pr.last());
                    lemma_key_before_neq(ck, k, rev);
                }
            }
        }
    }

    /// Whether `f` comes of moving past every entry at the key last handed
    /// out: the left side moved only past entries at that key, the right
    /// side only past entries at that key or at the key the left side stops
    /// at (of equal keys the left one is kept).
    pub closed spec fn moved_past_key(&self, f: Self) -> bool {
        exists|pl: Seq<TableIterator<'a>>, pr: Seq<TableIterator<'a>>| {
            &&& pl[0] == *self.left.iter
            &&& pl.last() == *f.left.iter
            &&& #[trigger] steps_along(pl, self.cur_key@, self.cur_key@)
            &&& pr[0] == *self.right.iter
            &&& pr.last() == *f.right.iter
            &&& #[trigger] steps_along(pr, self.cur_key@, f.left.iter.key_or_empty())
        }
    }

    /// Moves both sides to their first entries and picks the side whose key
    /// comes first.
    pub fn rewind(&mut self)
        requires
            old(self).sides_ok(),
            old(self).sides_positioned(),
        ensures
            final(self).as_iter().wf(),
            final(self).sides_positioned(),
            final(self).same_shape(*old(self)),
            final(self).bigger_valid_view() ==> final(self).smaller_valid_view(),
            exists|mid: Self| mid.sides_looked_at() && #[trigger] mid.picks(*final(self)),
            final(self).cur_key_view() == final(self).smaller_key_view(),
            old(self).rewound_to(*final(self)),
        decreases 4 * old(self).as_iter().height() + 2,
    {
        self.left.rewind();
        self.right.rewind();
        let ghost mid = *self;
        self.fix();
        self.set_current();
        proof {
            assert(mid.picks(*self));
        }
    }

    /// Seeks `key` with both sides and picks the side whose key comes
    /// first.
    pub fn seek(&mut self, key: &[u8])
        requires
            old(self).sides_ok(),
            old(self).sides_positioned(),
        ensures
            final(self).as_iter().wf(),
            final(self).sides_positioned(),
            final(self).same_shape(*old(self)),
            final(self).bigger_valid_view() ==> final(self).smaller_valid_view(),
            exists|mid: Self| mid.sides_looked_at() && #[trigger] mid.picks(*final(self)),
            final(self).cur_key_view() == final(self).smaller_key_view(),
            old(self).sought_to(*final(self), key@),
        decreases 4 * old(self).as_iter().height() + 2,
    {
        self.left.seek(key);
        self.right.seek(key);
        let ghost mid = *self;
        self.fix();
        self.set_current();
        proof {
            assert(mid.picks(*self));
        }
    }

    /// The key of the side holding the key to hand out.
    pub fn key(&self) -> (r: Option<KeyRef>)
        requires
            self.as_iter().wf(),
        ensures
            match self.as_iter().key_view() {
                Some(k) => r matches Some(kr) && kr@ == k,
                None => r is None,
            },
        decreases 4 * self.as_iter().height() + 2,
    {
        if self.lltr {
            self.left.iter.key()
        } else {
            self.right.iter.key()
        }
    }

    /// The value of the side holding the key to hand out.
    pub fn val(&self) -> (r: Option<ValueRef>)
        requires
            self.as_iter().wf(),
            self.as_iter().value_readable_view(),
        ensures
            match self.as_iter().val_view() {
                Some(v) => r matches Some(vr) && vr@ == value_decoding(v),
                None => r is None,
            },
        decreases 4 * self.as_iter().height() + 2,
    {
        if self.lltr {
            self.left.iter.val()
        } else {
            self.right.iter.val()
        }
    }

    /// The entry of the side holding the key to hand out.
    pub fn entry(&self) -> (r: Option<(KeyRef, ValueRef)>)
        requires
            self.as_iter().wf(),
            self.as_iter().value_readable_view(),
        ensures
            match (self.as_iter().key_view(), self.as_iter().val_view()) {
                (Some(k), Some(v)) => r matches Some(e) && e.0@ == k && e.1@ == value_decoding(v),
                _ => r is None,
            },
        decreases 4 * self.as_iter().height() + 2,
    {
        if self.lltr {
            self.left.iter.entry()
        } else {
            self.right.iter.entry()
        }
    }

    /// Whether the side holding the key to hand out is at an entry.
    pub fn valid(&self) -> (r: bool)
        ensures
            r == self.smaller_valid_view(),
    {
        self.smaller_valid()
    }

    /// The number of entries of both sides.
    pub fn count(&self) -> (r: usize)
        ensures
            r == self.as_iter().count_view(),
    {
        self.num_entries
    }

    /// The bounds of the number of entries.
    pub fn size_hint(&self) -> (r: (usize, Option<usize>))
        ensures
            r == (0usize, Some(self.as_iter().count_view() as usize)),
    {
        (0, Some(self.num_entries))
    }

    /// Merges the iterators: none gives none, one gives it back, more are
    /// split in two halves merged in turn.
    pub fn new(iters: Vec<Box<TableIterator<'a>>>, reverse: bool) -> (r: Option<Box<TableIterator<'a>>>)
        requires
            forall|i: int| 0 <= i < iters@.len() ==> (#[trigger] iters@[i]).wf() && iters@[i].positioned(),
            counts_sum(iters@) <= usize::MAX,
        ensures
            r is None <==> iters@.len() == 0,
            r matches Some(t) ==> t.wf() && t.positioned() && t.count_view() == counts_sum(iters@),
            iters@.len() == 1 ==> r == Some(iters@[0]),
            iters@.len() >= 2 ==> (r matches Some(t) && t.merges_in(reverse)),
        decreases iters@.len(),
    {
        let mut iters = iters;
        let ghost all = iters@;
        let mut num_entries: usize = 0;
        let mut i: usize = 0;
        while i < iters.len()
            invariant
                iters@ == all,
                i <= all.len(),
                counts_sum(all) <= usize::MAX,
                forall|j: int| 0 <= j < all.len() ==> (#[trigger] all[j]).wf(),
                num_entries == counts_sum(all.subrange(0, i as int)),
            decreases all.len() - i,
        {
            proof {
                lemma_counts_sum_split(all, i + 1);
                assert(all.subrange(0, i + 1).drop_last() =~= all.subrange(0, i as int));
                assert(all.subrange(0, i + 1).last() == all[i as int]);
                lemma_counts_nonneg(all.subrange(i + 1, all.len() as int));
            }
            num_entries = num_entries + iters[i].count();
            i = i + 1;
        }
        proof {
            assert(all.subrange(0, all.len() as int) =~= all);
        }
        let n = iters.len();
        if n == 0 {
            None
        } else if n == 1 {
            proof {
                assert(all.drop_last() =~= Seq::<Box<TableIterator>>::empty());
                assert(counts_sum(all.drop_last()) == 0);
                assert(counts_sum(all) == all[0].count_view());
            }
            let r = iters.pop();
            proof {
                assert(r == Some(all[0]));
                assert(all[0].wf() && all[0].positioned());
            }
            r
        } else if n == 2 {
            let right = iters.pop().unwrap();
            let left = iters.pop().unwrap();
            let m = MergeTableIterator {
                reverse,
                left: Node::new(left),
                right: Node::new(right),
                lltr: true,
                cur_key: Vec::new(),
                num_entries,
            };
            proof {
                assert(m.as_iter().wf());
                assert(m.as_iter().positioned());
                assert(m.as_iter().count_view() == counts_sum(all));
            }
            Some(Box::new(TableIterator::Merge(m)))
        } else {
            let mid = n / 2;
            let right = iters.split_off(mid);
            proof {
                lemma_counts_sum_split(all, mid as int);
                lemma_counts_nonneg(all.subrange(0, mid as int));
                lemma_counts_nonneg(all.subrange(mid as int, all.len() as int));
            }
            let l = Self::new(iters, reverse).unwrap();
            let r = Self::new(right, reverse).unwrap();
            let m = MergeTableIterator {
                left: Node::new(l),
                right: Node::new(r),
                lltr: true,
                cur_key: Vec::new(),
                reverse,
                num_entries,
            };
            Some(Box::new(TableIterator::Merge(m)))
        }
    }
}

impl<'a> BableIterator for MergeTableIterator<'a> {
    open spec fn iter_wf(&self) -> bool {
        self.as_iter().wf() && self.sides_positioned()
    }

    open spec fn value_readable(&self) -> bool {
        self.as_iter().value_readable_view()
    }

    open spec fn steppable(&self) -> bool {
        true
    }

    open spec fn entry_bound(&self) -> Option<usize> {
        Some(self.as_iter().count_view() as usize)
    }

    /// Moves past every entry at the key last handed out.
    fn next(&mut self)
        ensures
            old(self).smaller_valid_view() ==> final(self).as_iter().progress() < old(self).as_iter().progress(),
            final(self).smaller_valid_view() ==> final(self).cur_key_view() != old(self).cur_key_view(),
            old(self).moved_past_key(*final(self)),
    {
        MergeTableIterator::next(self)
    }

    /// Moves both sides to their first entries.
    fn rewind(&mut self)
        ensures
            final(self).bigger_valid_view() ==> final(self).smaller_valid_view(),
    {
        proof {
            self.lemma_wf_sides();
        }
        MergeTableIterator::rewind(self)
    }

    /// Seeks `key` with both sides.
    fn seek(&mut self, key: &[u8])
        ensures
            final(self).bigger_valid_view() ==> final(self).smaller_valid_view(),
    {
        proof {
            self.lemma_wf_sides();
        }
        MergeTableIterator::seek(self, key)
    }

    /// The entry of the side holding the key to hand out.
    fn entry(&self) -> (r: Option<(KeyRef, ValueRef)>)
        ensures
            match (self.as_iter().key_view(), self.as_iter().val_view()) {
                (Some(k), Some(v)) => r matches Some(e) && e.0@ == k && e.1@ == value_decoding(v),
                _ => r is None,
            },
    {
        MergeTableIterator::entry(self)
    }

    /// The key of the side holding the key to hand out.
    fn key(&self) -> (r: Option<KeyRef>)
        ensures
            match self.as_iter().key_view() {
                Some(k) => r matches Some(kr) && kr@ == k,
                None => r is None,
            },
    {
        MergeTableIterator::key(self)
    }

    /// The value of the side holding the key to hand out.
    fn val(&self) -> (r: Option<ValueRef>)
        ensures
            match self.as_iter().val_view() {
                Some(v) => r matches Some(vr) && vr@ == value_decoding(v),
                None => r is None,
            },
    {
        MergeTableIterator::val(self)
    }

    /// Whether the side holding the key to hand out is at an entry.
    fn valid(&self) -> (r: bool)
        ensures
            r == self.smaller_valid_view(),
    {
        MergeTableIterator::valid(self)
    }

    /// The bounds of the number of entries.
    fn size_hint(&self) -> (r: (usize, Option<usize>))
        ensures
            r == (0usize, Some(self.as_iter().count_view() as usize)),
    {
        MergeTableIterator::size_hint(self)
    }

    /// The number of entries of both sides.
    fn count(&self) -> (r: usize)
        ensures
            r == self.as_iter().count_view(),
    {
        MergeTableIterator::count(self)
    }
}

/// The counts of iterators are never negative.
proof fn lemma_counts_nonneg(s: Seq<Box<TableIterator>>)
    ensures
        counts_sum(s) >= 0,
    decreases s.len(),
{
    if s.len() > 0 {
        lemma_counts_nonneg(s.drop_last());
        s.last().lemma_count_nonneg();
    }
}

impl<'a> TableIterator<'a> {
    /// A count is never negative.
    proof fn lemma_count_nonneg(&self)
        ensures
            self.count_view() >= 0,
    {
        match self {
            TableIterator::Concat(c) => crate::multi_iter::lemma_total_entries_nonneg(c.tables_view()),
            _ => {},
        }
    }
}

} // verus!
