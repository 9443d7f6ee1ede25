//! Ranges of keys, used to describe what a table or a compaction covers.
use vstd::prelude::*;
use crate::key::{compare_key_in, key_sign, lemma_key_order_antisym, lemma_key_sign_trans, KeyExt};
use core::cmp::Ordering;

verus! {

/// A range of keys from `left` to `right`, possibly unbounded (`inf`), with
/// a size used for key splits.
pub struct KeyRange<L, R> {
    left: L,
    right: R,
    inf: bool,
    size: u64,
}

/// Whether a range with these bounds is empty: both bounds empty and not
/// unbounded.
pub open spec fn range_empty(left: Seq<u8>, right: Seq<u8>, inf: bool) -> bool {
    left.len() == 0 && right.len() == 0 && !inf
}

/// Whether the range `(sl, sr, sinf)` overlaps the range `(ol, or, oinf)`:
/// an empty range overlaps everything, nothing overlaps an empty range, an
/// unbounded range overlaps every non-empty range, and otherwise the ranges
/// overlap unless one lies wholly after the other.
pub open spec fn ranges_overlap(
    sl: Seq<u8>,
    sr: Seq<u8>,
    sinf: bool,
    ol: Seq<u8>,
    or: Seq<u8>,
    oinf: bool,
) -> bool {
    if range_empty(sl, sr, sinf) {
        true
    } else if range_empty(ol, or, oinf) {
        false
    } else if sinf || oinf {
        true
    } else {
        !(key_sign(sl, or) > 0) && !(key_sign(sr, ol) < 0)
    }
}

impl<L, R> KeyRange<L, R> {
    /// The left bound.
    pub closed spec fn left_bound(&self) -> L {
        self.left
    }

    /// The right bound.
    pub closed spec fn right_bound(&self) -> R {
        self.right
    }

    /// Whether the range is unbounded.
    pub closed spec fn is_inf(&self) -> bool {
        self.inf
    }

    /// The size used for key splits.
    pub closed spec fn size_of(&self) -> u64 {
        self.size
    }

    /// Returns a bounded range.
    pub fn new(left: L, right: R, size: u64) -> (r: Self)
        ensures
            r.left_bound() == left,
            r.right_bound() == right,
            !r.is_inf(),
            r.size_of() == size,
    {
        Self { left, right, inf: false, size }
    }

    /// The left bound.
    pub fn start(&self) -> (r: &L)
        ensures
            *r == self.left_bound(),
    {
        &self.left
    }

    /// The right bound.
    pub fn end(&self) -> (r: &R)
        ensures
            *r == self.right_bound(),
    {
        &self.right
    }

    /// The size used for key splits.
    pub fn get_size(&self) -> (r: u64)
        ensures
            r == self.size_of(),
    {
        self.size
    }

    /// Adds to the size.
    pub fn incr_size(&mut self, size: u64)
        requires
            old(self).size_of() + size <= u64::MAX,
        ensures
            final(self).size_of() == old(self).size_of() + size,
            final(self).left_bound() == old(self).left_bound(),
            final(self).right_bound() == old(self).right_bound(),
            final(self).is_inf() == old(self).is_inf(),
    {
        self.size = self.size + size;
    }

    /// Subtracts from the size.
    pub fn decr_size(&mut self, size: u64)
        requires
            old(self).size_of() >= size,
        ensures
            final(self).size_of() == old(self).size_of() - size,
            final(self).left_bound() == old(self).left_bound(),
            final(self).right_bound() == old(self).right_bound(),
            final(self).is_inf() == old(self).is_inf(),
    {
        self.size = self.size - size;
    }

    /// Sets the size.
    pub fn set_size(&mut self, size: u64)
        ensures
            final(self).size_of() == size,
            final(self).left_bound() == old(self).left_bound(),
            final(self).right_bound() == old(self).right_bound(),
            final(self).is_inf() == old(self).is_inf(),
    {
        self.size = size;
    }
}

fn key_less(a: &[u8], b: &[u8]) -> (r: bool)
    ensures
        r == (key_sign(a@, b@) < 0),
{
    match compare_key_in(a, b) {
        Ordering::Less => true,
        _ => false,
    }
}

fn key_greater(a: &[u8], b: &[u8]) -> (r: bool)
    ensures
        r == (key_sign(a@, b@) > 0),
{
    match compare_key_in(a, b) {
        Ordering::Greater => true,
        _ => false,
    }
}

impl<L: KeyExt, R: KeyExt> KeyRange<L, R> {
    /// Whether the range is empty: both bounds empty and not unbounded.
    pub open spec fn empty_spec(&self) -> bool {
        range_empty(self.left_bound().key_view(), self.right_bound().key_view(), self.is_inf())
    }

    /// Returns the key range is empty or not.
    pub fn is_empty(&self) -> (r: bool)
        ensures
            r == self.empty_spec(),
    {
        self.left.as_key_ref().is_empty() && self.right.as_key_ref().is_empty() && !self.inf
    }

    /// Extends the range by `kr`: an empty `kr` changes nothing, an empty
    /// range becomes `kr`; otherwise the left bound becomes `kr`'s when that
    /// sorts first (or the own one is empty), the right bound likewise when
    /// `kr`'s sorts last, and the range becomes unbounded when `kr` is.
    pub fn extend(&mut self, kr: KeyRange<L, R>)
        ensures
            kr.empty_spec() ==> *final(self) == *old(self),
            !kr.empty_spec() && old(self).empty_spec() ==> *final(self) == kr,
            !kr.empty_spec() && !old(self).empty_spec() ==> {
                &&& final(self).left_bound() == (if old(self).left_bound().key_view().len() == 0
                    || key_sign(kr.left_bound().key_view(), old(self).left_bound().key_view()) < 0 {
                    kr.left_bound()
                } else {
                    old(self).left_bound()
                })
                &&& final(self).right_bound() == (if old(self).right_bound().key_view().len() == 0
                    || key_sign(kr.right_bound().key_view(), old(self).right_bound().key_view()) > 0 {
                    kr.right_bound()
                } else {
                    old(self).right_bound()
                })
                &&& final(self).is_inf() == (old(self).is_inf() || kr.is_inf())
                &&& final(self).size_of() == old(self).size_of()
            },
    {
        if kr.is_empty() {
            return;
        }
        if self.is_empty() {
            *self = kr;
            return;
        }
        let take_left = self.left.as_bytes().len() == 0 || key_less(kr.left.as_bytes(), self.left.as_bytes());
        let take_right = self.right.as_bytes().len() == 0 || key_greater(kr.right.as_bytes(), self.right.as_bytes());
        let KeyRange { left, right, inf, size: _ } = kr;
        if take_left {
            self.left = left;
        }
        if take_right {
            self.right = right;
        }
        if inf {
            self.inf = true;
        }
    }

    /// Returns whether the range overlaps the other key range.
    pub fn overlaps_with<OL: KeyExt, OR: KeyExt>(&self, other: &KeyRange<OL, OR>) -> (r: bool)
        ensures
            r == ranges_overlap(
                self.left_bound().key_view(),
                self.right_bound().key_view(),
                self.is_inf(),
                other.left_bound().key_view(),
                other.right_bound().key_view(),
                other.is_inf(),
            ),
    {
        // Empty keyRange always overlaps.
        if self.is_empty() {
            return true;
        }
        // Empty dst doesn't overlap with anything.
        if other.is_empty() {
            return false;
        }
        if self.inf || other.inf {
            return true;
        }
        // If my left is greater than other right, we have no overlap.
        if key_greater(self.left.as_bytes(), other.right.as_bytes()) {
            return false;
        }
        // If my right is less than dst left, we have no overlap.
        if key_less(self.right.as_bytes(), other.left.as_bytes()) {
            return false;
        }
        true
    }
}

/// Overlap is symmetric between non-empty ranges.
pub proof fn lemma_overlap_symmetric(
    sl: Seq<u8>,
    sr: Seq<u8>,
    sinf: bool,
    ol: Seq<u8>,
    or: Seq<u8>,
    oinf: bool,
)
    requires
        !range_empty(sl, sr, sinf),
        !range_empty(ol, or, oinf),
    ensures
        ranges_overlap(sl, sr, sinf, ol, or, oinf) == ranges_overlap(ol, or, oinf, sl, sr, sinf),
{
    lemma_key_order_antisym(sl, or);
    lemma_key_order_antisym(sr, ol);
}

/// Whether key `k` lies within the bounds `l` and `r`, both included.
pub open spec fn key_within(k: Seq<u8>, l: Seq<u8>, r: Seq<u8>) -> bool {
    key_sign(l, k) <= 0 && key_sign(k, r) <= 0
}

/// Bounds are included: two bounded, non-empty ranges that share a key
/// overlap, so a range that ends where another starts overlaps it.
pub proof fn lemma_shared_key_overlaps(sl: Seq<u8>, sr: Seq<u8>, ol: Seq<u8>, or: Seq<u8>, k: Seq<u8>)
    requires
        !range_empty(sl, sr, false),
        !range_empty(ol, or, false),
        key_within(k, sl, sr),
        key_within(k, ol, or),
    ensures
        ranges_overlap(sl, sr, false, ol, or, false),
        ranges_overlap(ol, or, false, sl, sr, false),
{
    lemma_key_sign_trans(sl, k, or);
    lemma_key_sign_trans(ol, k, sr);
    lemma_key_order_antisym(sr, ol);
    lemma_key_order_antisym(or, sl);
}

/// Two bounded, non-empty ranges overlap exactly when neither lies wholly
/// after the other: the left bound of each is at most the right bound of
/// the other.
pub proof fn lemma_overlap_bounds(sl: Seq<u8>, sr: Seq<u8>, ol: Seq<u8>, or: Seq<u8>)
    requires
        !range_empty(sl, sr, false),
        !range_empty(ol, or, false),
    ensures
        ranges_overlap(sl, sr, false, ol, or, false) <==> (key_sign(sl, or) <= 0 && key_sign(ol, sr) <= 0),
{
    lemma_key_order_antisym(sr, ol);
}

/// A non-empty range whose left bound is at most its right bound overlaps
/// itself, and an unbounded non-empty range overlaps itself.
pub proof fn lemma_overlaps_itself(l: Seq<u8>, r: Seq<u8>, inf: bool)
    requires
        !range_empty(l, r, inf),
        inf || key_sign(l, r) <= 0,
    ensures
        ranges_overlap(l, r, inf, l, r, inf),
{
    lemma_key_order_antisym(l, r);
}

/// Two bounded, non-empty ranges whose bounds are in order overlap only
/// when they share a key: the later of their left bounds lies in both.
pub proof fn lemma_overlap_shares_key(sl: Seq<u8>, sr: Seq<u8>, ol: Seq<u8>, or: Seq<u8>)
    requires
        !range_empty(sl, sr, false),
        !range_empty(ol, or, false),
        key_sign(sl, sr) <= 0,
        key_sign(ol, or) <= 0,
        ranges_overlap(sl, sr, false, ol, or, false),
    ensures
        exists|k: Seq<u8>| #[trigger] key_within(k, sl, sr) && key_within(k, ol, or),
{
    lemma_key_order_antisym(sr, ol);
    lemma_key_order_antisym(sl, ol);
    lemma_key_order_antisym(sl, sl);
    lemma_key_order_antisym(ol, ol);
    if key_sign(sl, ol) <= 0 {
        assert(key_within(ol, sl, sr) && key_within(ol, ol, or));
    } else {
        assert(key_within(sl, sl, sr) && key_within(sl, ol, or));
    }
}

} // verus!
