//! A small bin-packing library.
//!
//! Items with a non-negative integral size are assigned to bins of a fixed
//! capacity so that no bin's total content size exceeds that capacity.
//! One-shot entry points ([`online::first_fit::first_fit`] and
//! [`offline::first_fit_decreasing::first_fit_decreasing`]) pack a whole
//! collection in one call; the online packer
//! ([`online::next_k_fit::NextKFitPacker`]) accepts items one at a time and
//! closes bins as it runs out of room.
//!
//! Every entry point's contract states the exact packing it returns, as a
//! function in [`model`] of the input alone; the laws the algorithms obey
//! — capacity never exceeded, no item lost or duplicated, deterministic
//! output — are proved there once, about those functions.

use vstd::prelude::*;

pub mod model;
pub mod offline;
pub mod online;
pub mod wrapper;

verus! {

/// Tells the packing algorithms how big an item is.
pub trait Pack {
    /// The size of the item, as seen by the specifications.
    spec fn spec_size(&self) -> usize;

    /// Get the size of the item to pack in bins.
    fn size(&self) -> (r: usize)
        ensures
            r == self.spec_size(),
    ;
}

/// A size query as a value: either an item's own [`Pack`] capability
/// ([`PackSizer`]) or an externally supplied size function ([`FnSizer`]).
///
/// `sized_as` names the input-output pairs the query may produce; a
/// deterministic sizer pins the size down, while one backed by an
/// arbitrary function only relates each item to the sizes that function
/// may return.
pub trait Sizer<Item> {
    /// When the sizer may be asked about an item.
    spec fn callable(&self, item: &Item) -> bool;

    /// Whether `s` is a size this query may report for `item`.
    spec fn sized_as(&self, item: &Item, s: usize) -> bool;

    /// Report the size of `item`.
    fn size_of(&self, item: &Item) -> (r: usize)
        requires
            self.callable(item),
        ensures
            self.sized_as(item, r),
    ;
}

/// Sizes items through their own [`Pack`] capability.
pub struct PackSizer;

impl<Item: Pack> Sizer<Item> for PackSizer {
    open spec fn callable(&self, item: &Item) -> bool {
        true
    }

    open spec fn sized_as(&self, item: &Item, s: usize) -> bool {
        s == item.spec_size()
    }

    fn size_of(&self, item: &Item) -> (r: usize) {
        item.size()
    }
}

/// Sizes items by calling a stored size function.
pub struct FnSizer<F> {
    /// The stored size function.
    pub f: F,
}

impl<Item, F: Fn(&Item) -> usize> Sizer<Item> for FnSizer<F> {
    open spec fn callable(&self, item: &Item) -> bool {
        call_requires(self.f, (item,))
    }

    open spec fn sized_as(&self, item: &Item, s: usize) -> bool {
        call_ensures(self.f, (item,), s)
    }

    fn size_of(&self, item: &Item) -> (r: usize) {
        (self.f)(item)
    }
}

/// Subtraction on integers that floors at zero instead of going negative.
pub open spec fn sat_sub(a: int, b: int) -> int {
    if a >= b {
        a - b
    } else {
        0
    }
}

/// The total size of a sequence of items.
pub open spec fn size_sum<T: Pack>(s: Seq<T>) -> int
    decreases s.len(),
{
    if s.len() == 0 {
        0
    } else {
        size_sum(s.drop_last()) + s.last().spec_size()
    }
}

/// An ordered container of items together with the capacity that is
/// still unused.
///
/// Items are only ever appended; a bin never gives an item back until the
/// whole bin is consumed.
#[derive(Debug)]
pub struct Bin<T> {
    contents: Vec<T>,
    remaining_capacity: usize,
}

impl<T> View for Bin<T> {
    type V = Seq<T>;

    closed spec fn view(&self) -> Seq<T> {
        self.contents@
    }
}

impl<T> Bin<T> {
    /// The capacity that is still unused, as seen by the specifications.
    pub closed spec fn spec_remaining(&self) -> usize {
        self.remaining_capacity
    }

    /// The bookkeeping invariant against a capacity: the remaining capacity
    /// is the capacity less the total content size, floored at zero.
    pub open spec fn wf(&self, cap: usize) -> bool
        where T: Pack
    {
        self.spec_remaining() == sat_sub(cap as int, size_sum(self@))
    }

    /// Create a new empty bin.
    pub(crate) fn with_capacity(capacity: usize) -> (r: Self)
        ensures
            r@ == Seq::<T>::empty(),
            r.spec_remaining() == capacity,
    {
        Self { contents: Vec::new(), remaining_capacity: capacity }
    }

    /// Create a new bin with a single item.
    pub(crate) fn with_item(capacity: usize, item: T) -> (r: Self)
        where T: Pack
        ensures
            r@ =~= seq![item],
            r.spec_remaining() == sat_sub(capacity as int, item.spec_size() as int),
    {
        let size = item.size();
        Self::with_item_and_size(capacity, item, size)
    }

    /// Create a new bin with a single item, given its size.
    pub(crate) fn with_item_and_size(capacity: usize, item: T, size: usize) -> (r: Self)
        ensures
            r@ =~= seq![item],
            r.spec_remaining() == sat_sub(capacity as int, size as int),
    {
        let remaining_capacity = if size <= capacity {
            capacity - size
        } else {
            0
        };
        let mut contents = Vec::new();
        contents.push(item);
        Self { contents, remaining_capacity }
    }

    /// Add an item to this bin, and update the remaining capacity.
    ///
    /// The subtraction saturates: pushing an item bigger than the remaining
    /// capacity leaves the bin with a remaining capacity of zero.
    pub(crate) fn add(&mut self, item: T)
        where T: Pack
        ensures
            final(self)@ == old(self)@.push(item),
            final(self).spec_remaining()
                == sat_sub(old(self).spec_remaining() as int, item.spec_size() as int),
    {
        let size = item.size();
        self.add_with_size(item, size);
    }

    /// Add an item to this bin (given its size) and update the remaining
    /// capacity, saturating at zero.
    pub(crate) fn add_with_size(&mut self, item: T, size: usize)
        ensures
            final(self)@ == old(self)@.push(item),
            final(self).spec_remaining()
                == sat_sub(old(self).spec_remaining() as int, size as int),
    {
        self.remaining_capacity = if size <= self.remaining_capacity {
            self.remaining_capacity - size
        } else {
            0
        };
        self.contents.push(item);
    }

    /// Get the contents of the bin.
    pub fn contents(&self) -> (r: &[T])
        ensures
            r@ == self@,
    {
        self.contents.as_slice()
    }

    /// Get the contents of the bin, consuming it.
    pub fn into_contents(self) -> (r: Vec<T>)
        ensures
            r@ == self@,
    {
        self.contents
    }

    /// Whether the bin holds no items yet.
    pub fn is_empty(&self) -> (r: bool)
        ensures
            r == (self@.len() == 0),
    {
        self.contents.len() == 0
    }

    /// The capacity that is still unused.
    pub fn remaining_capacity(&self) -> (r: usize)
        ensures
            r == self.spec_remaining(),
    {
        self.remaining_capacity
    }

    /// Transform the bin's contents into a different type.
    ///
    /// The remaining capacity is copied verbatim from the old bin to the new
    /// one: this is a relabeling, not a repack, and the result is never
    /// validated against the new type's sizes.
    pub fn map<U, F: Fn(T) -> U>(self, transform_fn: F) -> (r: Bin<U>)
        requires
            forall|i: int| 0 <= i < self@.len() ==> call_requires(transform_fn, (self@[i],)),
        ensures
            r.spec_remaining() == self.spec_remaining(),
            r@.len() == self@.len(),
            forall|i: int| 0 <= i < self@.len()
                ==> call_ensures(transform_fn, (self@[i],), #[trigger] r@[i]),
    {
        let ghost orig = self@;
        proof {
            assert forall|i: int| 0 <= i < orig.len() implies call_requires(
                transform_fn,
                (orig[i],),
            ) by {
                assert(call_requires(transform_fn, (self@[i],)));
            }
        }
        let mut rest = self.contents;
        let mut mapped: Vec<U> = Vec::new();
        while rest.len() > 0
            invariant
                mapped@.len() + rest@.len() == orig.len(),
                rest@ == orig.skip(mapped@.len() as int),
                forall|i: int| 0 <= i < mapped@.len()
                    ==> call_ensures(transform_fn, (orig[i],), #[trigger] mapped@[i]),
                forall|i: int| 0 <= i < orig.len() ==> call_requires(transform_fn, (orig[i],)),
            decreases rest@.len(),
        {
            let x = rest.remove(0);
            mapped.push(transform_fn(x));
        }
        Bin { contents: mapped, remaining_capacity: self.remaining_capacity }
    }
}

/// An item paired with an explicitly stated size.
///
/// This is the simplest way to pack values whose type does not itself
/// implement [`Pack`]: state the size beside the item.  The packing
/// functions that take a size function use it internally, once the size of
/// each item has been computed.
#[derive(Debug, PartialEq, Eq)]
pub struct SizedItem<T> {
    /// The wrapped value.
    pub item: T,
    /// The size the packing algorithms account this value at.
    pub size: usize,
}

impl<T> Pack for SizedItem<T> {
    open spec fn spec_size(&self) -> usize {
        self.size
    }

    fn size(&self) -> (r: usize)
        ensures
            r == self.spec_size(),
    {
        self.size
    }
}

} // verus!
