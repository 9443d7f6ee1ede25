//! Binary search in the style of Go's `sort.Search`, and the sorting
//! interface that goes with it.
use vstd::prelude::*;

verus! {

/// Finds the smallest index in `[0, target)` at which `op` holds, or
/// `target` when there is none, for an `op` that is false and then true
/// over the range. A `target` of zero or less gives zero. `op` was seen to
/// hold at the result (when it is below `target`) and to fail just before
/// it (when it is above zero).
pub fn binary_search<F: Fn(isize) -> bool>(target: isize, op: F) -> (r: isize)
    requires
        forall|h: isize| 0 <= h < target ==> #[trigger] op.requires((h,)),
        forall|a: isize, b: isize, ra: bool, rb: bool|
            0 <= a <= b < target && op.ensures((a,), ra) && op.ensures((b,), rb) && ra ==> rb,
    ensures
        target <= 0 ==> r == 0,
        target > 0 ==> 0 <= r <= target,
        forall|h: isize, v: bool| 0 <= h < r && #[trigger] op.ensures((h,), v) ==> !v,
        forall|h: isize, v: bool| r <= h < target && #[trigger] op.ensures((h,), v) ==> v,
        0 <= r < target ==> op.ensures((r,), true),
        0 < r <= target ==> op.ensures(((r - 1) as isize,), false),
{
    if target <= 0 {
        return 0;
    }
    let mut i: isize = 0;
    let mut j: isize = target;
    while i < j
        invariant
            0 <= i <= j <= target,
            forall|h: isize| 0 <= h < target ==> #[trigger] op.requires((h,)),
            forall|a: isize, b: isize, ra: bool, rb: bool|
                0 <= a <= b < target && op.ensures((a,), ra) && op.ensures((b,), rb) && ra ==> rb,
            forall|h: isize, v: bool| 0 <= h < i && #[trigger] op.ensures((h,), v) ==> !v,
            forall|h: isize, v: bool| j <= h < target && #[trigger] op.ensures((h,), v) ==> v,
            j < target ==> op.ensures((j,), true),
            i > 0 ==> op.ensures(((i - 1) as isize,), false),
        decreases j - i,
    {
        let h = i + (j - i) / 2;
        let t = op(h);
        if !t {
            i = h + 1;
        } else {
            j = h;
        }
    }
    i
}

/// Finds the smallest index in `[0, n)` at which `f` holds, or `n` when
/// there is none, for an `f` that is false and then true over the range.
pub fn binary_search_by_usize<F: Fn(usize) -> bool>(n: usize, f: F) -> (r: usize)
    requires
        forall|h: usize| h < n ==> #[trigger] f.requires((h,)),
        forall|a: usize, b: usize, ra: bool, rb: bool|
            a <= b < n && f.ensures((a,), ra) && f.ensures((b,), rb) && ra ==> rb,
    ensures
        r <= n,
        forall|h: usize, v: bool| h < r && #[trigger] f.ensures((h,), v) ==> !v,
        forall|h: usize, v: bool| r <= h < n && #[trigger] f.ensures((h,), v) ==> v,
        r < n ==> f.ensures((r,), true),
        r > 0 ==> f.ensures(((r - 1) as usize,), false),
{
    let mut i: usize = 0;
    let mut j: usize = n;
    while i < j
        invariant
            i <= j <= n,
            forall|h: usize| h < n ==> #[trigger] f.requires((h,)),
            forall|a: usize, b: usize, ra: bool, rb: bool|
                a <= b < n && f.ensures((a,), ra) && f.ensures((b,), rb) && ra ==> rb,
            forall|h: usize, v: bool| h < i && #[trigger] f.ensures((h,), v) ==> !v,
            forall|h: usize, v: bool| j <= h < n && #[trigger] f.ensures((h,), v) ==> v,
            j < n ==> f.ensures((j,), true),
            i > 0 ==> f.ensures(((i - 1) as usize,), false),
        decreases j - i,
    {
        let h = i + (j - i) / 2;
        let t = f(h);
        if !t {
            i = h + 1;
        } else {
            j = h;
        }
    }
    i
}

/// A collection that can be sorted by the indexes of its elements.
pub trait GoSort {
    /// The number of elements in the collection.
    fn len(&self) -> usize;

    /// Whether the element with index i must sort before the element with
    /// index j. It must describe a transitive ordering.
    fn less(&mut self, i: usize, j: usize) -> bool;

    /// Swaps the elements with indexes i and j.
    fn swap(&mut self, i: usize, j: usize);
}

} // verus!
