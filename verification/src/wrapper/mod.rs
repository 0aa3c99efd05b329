//! Adapters that pair items with an external source of sizes.

use vstd::prelude::*;

use crate::Bin;
use crate::SizedItem;
use crate::model::items_of;
use crate::model::pair_sized;

verus! {

/// This struct wraps an item with a function that returns the size of the
/// item.
///
/// This is an alternative to implementing the [`crate::Pack`] trait on the
/// type: pair each value with the function that measures it.  Both fields
/// are public, so the wrapped item can be read and changed directly, and
/// [`SizedWrapper::take`] unwraps it again.  The wrapper adds no memory
/// overhead beyond what the function itself captures.
pub struct SizedWrapper<SizeFunc, T> where SizeFunc: Fn(&T) -> usize {
    /// The function that reports the wrapped item's size.
    pub key_func: SizeFunc,
    /// The wrapped item.
    pub item: T,
}

impl<SizeFunc, T> SizedWrapper<SizeFunc, T> where SizeFunc: Fn(&T) -> usize {
    /// Pair an item with its size function.
    pub fn new(key_func: SizeFunc, item: T) -> (r: Self)
        ensures
            r.key_func == key_func,
            r.item == item,
    {
        Self { key_func, item }
    }

    /// Unwrap the item again.
    pub fn take(self) -> (r: T)
        ensures
            r == self.item,
    {
        self.item
    }

    /// The size of the wrapped item, as the stored function reports it.
    pub fn size(&self) -> (r: usize)
        requires
            call_requires(self.key_func, (&self.item,)),
        ensures
            call_ensures(self.key_func, (&self.item,), r),
    {
        (self.key_func)(&self.item)
    }
}

/// Pair every item with the size the key function computes for it, and
/// hand back the computed sizes as a ghost witness.
pub(crate) fn pair_with_sizes<T, SizeFunc: Fn(&T) -> usize>(
    items: Vec<T>,
    key_func: SizeFunc,
) -> (r: (Vec<SizedItem<T>>, Ghost<Seq<usize>>))
    requires
        forall|i: int| 0 <= i < items@.len() ==> call_requires(key_func, (&items@[i],)),
    ensures
        r.1@.len() == items@.len(),
        forall|i: int|
            0 <= i < items@.len() ==> call_ensures(key_func, (&items@[i],), #[trigger] r.1@[i]),
        r.0@ == pair_sized(items@, r.1@),
{
    let ghost all = items@;
    let mut rest = items;
    let mut sized: Vec<SizedItem<T>> = Vec::new();
    let ghost mut szs: Seq<usize> = Seq::empty();
    let ghost mut done: int = 0;
    #[verifier::loop_isolation(false)]
    while rest.len() > 0
        invariant
            0 <= done <= all.len(),
            done + rest@.len() == all.len(),
            rest@ == all.skip(done),
            szs.len() == done,
            sized@.len() == done,
            forall|i: int| 0 <= i < done ==> call_ensures(key_func, (&all[i],), #[trigger] szs[i]),
            forall|i: int|
                0 <= i < done ==> #[trigger] sized@[i] == (SizedItem {
                    item: all[i],
                    size: szs[i],
                }),
        decreases rest@.len(),
    {
        let item = rest.remove(0);
        proof {
            assert(all.skip(done)[0] == all[done]);
            assert(rest@ =~= all.skip(done + 1));
        }
        let s = key_func(&item);
        sized.push(SizedItem { item, size: s });
        proof {
            szs = szs.push(s);
            done = done + 1;
        }
    }
    proof {
        assert(sized@ =~= pair_sized(all, szs));
    }
    (sized, Ghost(szs))
}

/// Strip the explicit sizes off a run's bins, keeping contents order and
/// each bin's remaining capacity.
pub(crate) fn unwrap_bins<T>(bins: Vec<Bin<SizedItem<T>>>) -> (r: Vec<Bin<T>>)
    ensures
        r@.len() == bins@.len(),
        forall|b: int|
            0 <= b < bins@.len() ==> (#[trigger] r@[b])@ == items_of(bins@[b]@)
                && r@[b].spec_remaining() == bins@[b].spec_remaining(),
{
    let ghost all = bins@;
    let mut rest = bins;
    let mut out: Vec<Bin<T>> = Vec::new();
    let ghost mut done: int = 0;
    #[verifier::loop_isolation(false)]
    while rest.len() > 0
        invariant
            0 <= done <= all.len(),
            done + rest@.len() == all.len(),
            rest@ == all.skip(done),
            out@.len() == done,
            forall|b: int|
                0 <= b < done ==> (#[trigger] out@[b])@ == items_of(all[b]@)
                    && out@[b].spec_remaining() == all[b].spec_remaining(),
        decreases rest@.len(),
    {
        let b = rest.remove(0);
        proof {
            assert(all.skip(done)[0] == all[done]);
            assert(rest@ =~= all.skip(done + 1));
        }
        let take_item = |si: SizedItem<T>| -> (r: T)
            ensures
                r == si.item,
            { si.item };
        let unwrapped = b.map(take_item);
        out.push(unwrapped);
        proof {
            assert(unwrapped@ =~= items_of(all[done]@));
            done = done + 1;
        }
    }
    out
}

} // verus!
