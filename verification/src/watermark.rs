//! The decisions of a watermark: which indices are pending, and how far
//! every index is done. An index is done once `done` has been marked for
//! it as many times as `begin`, and a positive number of times; the
//! watermark (`done_until`) is the largest index up to which every index
//! begun is done, and it never moves back. Marks arrive in order; the
//! caller delivers them and wakes the waiters whose indices the watermark
//! passes.
use vstd::prelude::*;

verus! {

/// Whether the indices of the entries strictly ascend.
pub open spec fn ascending(p: Seq<(u64, i64)>) -> bool {
    forall|i: int, j: int| 0 <= i < j < p.len() ==> #[trigger] p[i].0 < #[trigger] p[j].0
}

/// The pending entries after a mark of `idx` with count change `delta`:
/// the count of `idx` changes, or `idx` joins with that count, in order.
pub open spec fn marked(p: Seq<(u64, i64)>, idx: u64, delta: int) -> Seq<(u64, i64)>
    decreases p.len(),
{
    if p.len() == 0 {
        seq![(idx, delta as i64)]
    } else if p[0].0 == idx {
        seq![(idx, (p[0].1 + delta) as i64)] + p.drop_first()
    } else if idx < p[0].0 {
        seq![(idx, delta as i64)] + p
    } else {
        seq![p[0]] + marked(p.drop_first(), idx, delta)
    }
}

/// Settles the pending entries: the leading ones whose count is not
/// positive are done and leave, and the watermark moves to the last of
/// them.
pub open spec fn settle(p: Seq<(u64, i64)>, done_until: u64) -> (u64, Seq<(u64, i64)>)
    decreases p.len(),
{
    if p.len() == 0 || p[0].1 > 0 {
        (done_until, p)
    } else {
        settle(p.drop_first(), p[0].0)
    }
}

/// The state of a watermark: how far every index is done, and the counts
/// of the indices still pending, in ascending order.
pub struct WatermarkState {
    done_until: u64,
    pending: Vec<(u64, i64)>,
}

impl WatermarkState {
    /// The watermark.
    pub closed spec fn done_until_view(&self) -> u64 {
        self.done_until
    }

    /// The pending indices with their counts, in ascending order.
    pub closed spec fn pending(&self) -> Seq<(u64, i64)> {
        self.pending@
    }

    /// The pending indices ascend and none is below the watermark.
    pub open spec fn wf(&self) -> bool {
        &&& ascending(self.pending())
        &&& forall|i: int| 0 <= i < self.pending().len() ==> #[trigger] self.pending()[i].0 >= self.done_until_view()
    }

    /// A watermark at zero with nothing pending.
    pub fn new() -> (r: Self)
        ensures
            r.wf(),
            r.done_until_view() == 0,
            r.pending().len() == 0,
    {
        WatermarkState { done_until: 0, pending: Vec::new() }
    }

    /// The watermark.
    pub fn done_until(&self) -> (r: u64)
        ensures
            r == self.done_until_view(),
    {
        self.done_until
    }

    /// Sets the watermark, for indices marked done outside the marks.
    pub fn set_done_until(&mut self, val: u64)
        requires
            forall|i: int| 0 <= i < old(self).pending().len() ==> #[trigger] old(self).pending()[i].0 >= val,
            ascending(old(self).pending()),
        ensures
            final(self).wf(),
            final(self).done_until_view() == val,
            final(self).pending() == old(self).pending(),
    {
        self.done_until = val;
    }

    /// Whether a wait for `index` must wait: the watermark is below it.
    pub fn should_wait(&self, index: u64) -> (r: bool)
        ensures
            r == (self.done_until_view() < index),
    {
        self.done_until < index
    }

    /// Changes the count of `idx` by `delta` (-1 for `done`, 1 for
    /// `begin`), adding it when it is not pending.
    fn mark(&mut self, idx: u64, done: bool)
        requires
            old(self).wf(),
            old(self).done_until_view() <= idx,
            forall|i: int| 0 <= i < old(self).pending().len() ==> i64::MIN < #[trigger] old(self).pending()[i].1 < i64::MAX,
        ensures
            final(self).pending() == marked(old(self).pending(), idx, if done { -1int } else { 1int }),
            final(self).done_until_view() == old(self).done_until_view(),
            ascending(final(self).pending()),
            forall|i: int| 0 <= i < final(self).pending().len() ==> #[trigger] final(self).pending()[i].0 >= final(self).done_until_view(),
    {
        let ghost delta: int = if done { -1int } else { 1int };
        let ghost old_pending = self.pending@;
        let n = self.pending.len();
        let mut i: usize = 0;
        while i < n && self.pending[i].0 < idx
            invariant
                i <= n,
                n == self.pending@.len(),
                self.pending@ == old_pending,
                forall|j: int| 0 <= j < i ==> #[trigger] old_pending[j].0 < idx,
            decreases n - i,
        {
            i = i + 1;
        }
        proof {
            lemma_marked_split(old_pending, idx, delta, i as int);
            lemma_marked_props(old_pending, idx, delta, self.done_until);
        }
        if i < n && self.pending[i].0 == idx {
            let (k, c) = self.pending[i];
            let nc = if done { c - 1 } else { c + 1 };
            self.pending.set(i, (k, nc));
            proof {
                assert(self.pending@ =~= old_pending.take(i as int) + (seq![(idx, (old_pending[i as int].1 + delta) as i64)] + old_pending.skip(i + 1)));
            }
        } else {
            let c: i64 = if done { -1 } else { 1 };
            self.pending.insert(i, (idx, c));
            proof {
                assert(self.pending@ =~= old_pending.take(i as int) + (seq![(idx, delta as i64)] + old_pending.skip(i as int)));
            }
        }
    }

    /// Removes the leading pending indices whose count is not positive and
    /// moves the watermark to the last of them.
    fn settle_pending(&mut self)
        requires
            ascending(old(self).pending()),
            forall|i: int| 0 <= i < old(self).pending().len() ==> #[trigger] old(self).pending()[i].0 >= old(self).done_until_view(),
        ensures
            final(self).wf(),
            (final(self).done_until_view(), final(self).pending()) == settle(old(self).pending(), old(self).done_until_view()),
            old(self).done_until_view() <= final(self).done_until_view(),
            final(self).pending().len() > 0 ==> final(self).pending()[0].1 > 0,
    {
        let ghost mp = self.pending@;
        let old_done_until = self.done_until;
        let m = self.pending.len();
        let mut k: usize = 0;
        let mut until = self.done_until;
        proof {
            assert(mp.skip(0) =~= mp);
        }
        while k < m && self.pending[k].1 <= 0
            invariant
                k <= m,
                m == mp.len(),
                self.pending@ == mp,
                settle(mp, old_done_until) == settle(mp.skip(k as int), until),
                old_done_until <= until,
                ascending(mp),
                forall|j: int| 0 <= j < mp.len() ==> #[trigger] mp[j].0 >= old_done_until,
                k > 0 ==> until == mp[k - 1].0,
            decreases m - k,
        {
            proof {
                assert(mp.skip(k as int).drop_first() =~= mp.skip(k + 1));
            }
            until = self.pending[k].0;
            k = k + 1;
        }
        let rest = self.pending.split_off(k);
        self.pending = rest;
        self.done_until = until;
        proof {
            assert(self.pending@ =~= mp.skip(k as int));
            lemma_settle_stops(mp.skip(k as int), until);
            assert forall|i: int| 0 <= i < self.pending@.len() implies #[trigger] self.pending@[i].0 >= until by {
                if k > 0 {
                    assert(mp[k - 1].0 < mp[k + i].0);
                }
                assert(self.pending@[i] == mp[k + i]);
            }
            assert forall|a: int, b: int| 0 <= a < b < self.pending@.len() implies #[trigger] self.pending@[a].0 < #[trigger] self.pending@[b].0 by {
                assert(self.pending@[a] == mp[k + a]);
                assert(self.pending@[b] == mp[k + b]);
            }
        }
    }

    /// Applies a mark of `idx`, `begin` (`done` false) or `done`, and
    /// settles: returns the watermark before and after. The indices above
    /// the first and up to the second are the ones whose waiters wake.
    pub fn process_one(&mut self, idx: u64, done: bool) -> (r: (u64, u64))
        requires
            old(self).wf(),
            old(self).done_until_view() <= idx,
            forall|i: int| 0 <= i < old(self).pending().len() ==> i64::MIN < #[trigger] old(self).pending()[i].1 < i64::MAX,
        ensures
            final(self).wf(),
            (final(self).done_until_view(), final(self).pending()) == settle(
                marked(old(self).pending(), idx, if done { -1int } else { 1int }),
                old(self).done_until_view(),
            ),
            r == (old(self).done_until_view(), final(self).done_until_view()),
            old(self).done_until_view() <= final(self).done_until_view(),
            final(self).pending().len() > 0 ==> final(self).pending()[0].1 > 0,
    {
        let before = self.done_until;
        self.mark(idx, done);
        self.settle_pending();
        (before, self.done_until)
    }
}

proof fn lemma_marked_split(p: Seq<(u64, i64)>, idx: u64, delta: int, i: int)
    requires
        ascending(p),
        0 <= i <= p.len(),
        forall|j: int| 0 <= j < i ==> #[trigger] p[j].0 < idx,
        i < p.len() ==> p[i].0 >= idx,
    ensures
        i < p.len() && p[i].0 == idx ==> marked(p, idx, delta) == p.take(i) + (seq![(idx, (p[i].1 + delta) as i64)] + p.skip(i + 1)),
        !(i < p.len() && p[i].0 == idx) ==> marked(p, idx, delta) == p.take(i) + (seq![(idx, delta as i64)] + p.skip(i)),
    decreases i,
{
    if i > 0 {
        let q = p.drop_first();
        assert forall|a: int, b: int| 0 <= a < b < q.len() implies #[trigger] q[a].0 < #[trigger] q[b].0 by {
            assert(q[a] == p[a + 1] && q[b] == p[b + 1]);
        }
        assert forall|j: int| 0 <= j < i - 1 implies #[trigger] q[j].0 < idx by {
            assert(q[j] == p[j + 1]);
        }
        lemma_marked_split(q, idx, delta, i - 1);
        assert(p.take(i) =~= seq![p[0]] + q.take(i - 1));
        assert(p.skip(i) =~= q.skip(i - 1));
        if i < p.len() {
            assert(p.skip(i + 1) =~= q.skip(i));
        }
    } else {
        assert(p.take(0) =~= Seq::<(u64, i64)>::empty());
        assert(p.skip(0) =~= p);
        if p.len() > 0 && p[0].0 == idx {
            assert(p.skip(1) =~= p.drop_first());
        }
    }
}

proof fn lemma_marked_props(p: Seq<(u64, i64)>, idx: u64, delta: int, d: u64)
    requires
        ascending(p),
        forall|i: int| 0 <= i < p.len() ==> #[trigger] p[i].0 >= d,
        d <= idx,
    ensures
        ascending(marked(p, idx, delta)),
        forall|i: int| 0 <= i < marked(p, idx, delta).len() ==> #[trigger] marked(p, idx, delta)[i].0 >= d,
        forall|i: int| 0 <= i < marked(p, idx, delta).len() ==> (#[trigger] marked(p, idx, delta)[i].0 == idx || exists|j: int| 0 <= j < p.len() && p[j].0 == marked(p, idx, delta)[i].0),
    decreases p.len(),
{
    if p.len() > 0 && p[0].0 != idx && idx >= p[0].0 {
        let q = p.drop_first();
        assert forall|a: int, b: int| 0 <= a < b < q.len() implies #[trigger] q[a].0 < #[trigger] q[b].0 by {
            assert(q[a] == p[a + 1] && q[b] == p[b + 1]);
        }
        assert forall|i: int| 0 <= i < q.len() implies #[trigger] q[i].0 >= d by {
            assert(q[i] == p[i + 1]);
        }
        lemma_marked_props(q, idx, delta, d);
        let mq = marked(q, idx, delta);
        let m = marked(p, idx, delta);
        assert(m == seq![p[0]] + mq);
        assert forall|i: int| 0 <= i < mq.len() implies #[trigger] mq[i].0 > p[0].0 by {
            if mq[i].0 != idx {
                let j = choose|j: int| 0 <= j < q.len() && q[j].0 == mq[i].0;
                assert(q[j] == p[j + 1]);
            }
        }
        assert forall|a: int, b: int| 0 <= a < b < m.len() implies #[trigger] m[a].0 < #[trigger] m[b].0 by {
            if a == 0 {
                assert(m[b] == mq[b - 1]);
            } else {
                assert(m[a] == mq[a - 1] && m[b] == mq[b - 1]);
            }
        }
        assert forall|i: int| 0 <= i < m.len() implies (#[trigger] m[i].0 == idx || exists|j: int| 0 <= j < p.len() && p[j].0 == m[i].0) by {
            if i > 0 && m[i].0 != idx {
                assert(m[i] == mq[i - 1]);
                let j = choose|j: int| 0 <= j < q.len() && q[j].0 == mq[i - 1].0;
                assert(p[j + 1] == q[j]);
            } else if i == 0 {
                assert(p[0].0 == m[0].0);
            }
        }
    } else if p.len() > 0 && p[0].0 == idx {
        let m = marked(p, idx, delta);
        assert forall|i: int| 0 <= i < m.len() implies (#[trigger] m[i].0 == idx || exists|j: int| 0 <= j < p.len() && p[j].0 == m[i].0) by {
            if i > 0 {
                assert(m[i] == p[i]);
            }
        }
        assert forall|a: int, b: int| 0 <= a < b < m.len() implies #[trigger] m[a].0 < #[trigger] m[b].0 by {
            if a > 0 {
                assert(m[a] == p[a]);
            }
            assert(m[b] == p[b]);
        }
    } else if p.len() > 0 {
        let m = marked(p, idx, delta);
        assert forall|i: int| 0 <= i < m.len() implies (#[trigger] m[i].0 == idx || exists|j: int| 0 <= j < p.len() && p[j].0 == m[i].0) by {
            if i > 0 {
                assert(m[i] == p[i - 1]);
            }
        }
        assert forall|a: int, b: int| 0 <= a < b < m.len() implies #[trigger] m[a].0 < #[trigger] m[b].0 by {
            if a > 0 {
                assert(m[a] == p[a - 1]);
            }
            assert(m[b] == p[b - 1]);
        }
    }
}

proof fn lemma_settle_stops(p: Seq<(u64, i64)>, d: u64)
    requires
        p.len() == 0 || p[0].1 > 0,
    ensures
        settle(p, d) == (d, p),
{
}

} // verus!
