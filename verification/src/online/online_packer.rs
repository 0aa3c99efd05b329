//! The protocol every online packer follows: items are offered one at a
//! time, each offer may close bins, and a final step drains whatever is
//! still open.

use vstd::prelude::*;

use crate::Bin;
use crate::model::bins_contents;
use crate::model::bins_multiset;

verus! {

/// Error returned when an item cannot be added to an online packer.
#[derive(Debug)]
pub enum OnlinePackerError<T> {
    /// The item is too big to fit into any bin that this packer can make:
    /// for example, the bins are size 10 and the item has size 50.
    ItemTooLarge(T),
}

/// Implemented by online packers.  These algorithms consume items one by
/// one, and at each step they decide whether to close any bins (giving
/// them away for later use) or not.
///
/// The method contracts fix the protocol for every implementation: an
/// accepted item is added to the open bins' contents and nothing else
/// changes hands, a rejected item is handed back untouched with the state
/// unchanged, and every emitted bin is non-empty and within capacity in
/// the sense of [`OnlinePacker::emitted_bin_ok`].  What a concrete packer
/// additionally guarantees is stated by its [`OnlinePacker::try_add_ens`]
/// and [`OnlinePacker::finalize_ens`].
pub trait OnlinePacker<Item>: Sized {
    /// The packer's bookkeeping invariant.
    spec fn wf(&self) -> bool;

    /// The contents of the currently open bins, in slot order.
    spec fn open_contents(&self) -> Seq<Seq<Item>>;

    /// Whether the packer may query the size of `item`.
    spec fn offerable(&self, item: Item) -> bool;

    /// Whether no size this packer may compute for `item` can exceed its
    /// bin capacity, so that offering `item` cannot fail.
    spec fn never_too_large(&self, item: Item) -> bool;

    /// What this packer guarantees of every bin it emits; at least, that
    /// its bookkeeping is consistent and its contents within capacity.
    spec fn emitted_bin_ok(&self, bin: Bin<Item>) -> bool;

    /// Everything `try_add` guarantees beyond the protocol clauses on the
    /// method itself.
    spec fn try_add_ens(
        &self,
        post: Self,
        item: Item,
        r: Result<Vec<Bin<Item>>, OnlinePackerError<Item>>,
    ) -> bool;

    /// Everything `finalize` guarantees beyond the protocol clauses on
    /// the method itself.
    spec fn finalize_ens(&self, closed: Vec<Bin<Item>>) -> bool;

    /// Everything `pack_all` guarantees beyond the protocol clauses on
    /// the method itself: for a concrete packer, which bins come out, in
    /// which order, and on failure the packer's exact state.
    spec fn pack_all_ens(
        &self,
        items: Seq<Item>,
        r: Result<Vec<Bin<Item>>, (OnlinePackerError<Item>, Self, Vec<Item>, Vec<Bin<Item>>)>,
    ) -> bool;

    /// Try adding a new item to the packer.
    ///
    /// If this results in any bins getting closed, they will be returned
    /// in the `Ok` value; if no bins can be closed yet, the list will be
    /// empty.  On failure the item comes back inside the error and the
    /// packer is left exactly as it was.
    fn try_add(&mut self, item: Item) -> (r: Result<Vec<Bin<Item>>, OnlinePackerError<Item>>)
        requires
            old(self).wf(),
            old(self).offerable(item),
        ensures
            final(self).wf(),
            forall|it: Item| old(self).offerable(it) == final(self).offerable(it),
            forall|it: Item| old(self).never_too_large(it) == final(self).never_too_large(it),
            forall|b: Bin<Item>| old(self).emitted_bin_ok(b) == final(self).emitted_bin_ok(b),
            old(self).try_add_ens(*final(self), item, r),
            match r {
                Ok(closed) => {
                    &&& bins_multiset(final(self).open_contents()).add(
                        bins_multiset(bins_contents(closed@)),
                    ) =~= bins_multiset(old(self).open_contents()).insert(item)
                    &&& forall|i: int|
                        0 <= i < closed@.len() ==> old(self).emitted_bin_ok(#[trigger] closed@[i])
                            && closed@[i]@.len() > 0
                },
                Err(e) => {
                    &&& e matches OnlinePackerError::ItemTooLarge(it) && it == item
                    &&& *final(self) == *old(self)
                    &&& !old(self).never_too_large(item)
                },
            },
    ;

    /// Add a new item to the packer.
    ///
    /// Like [`OnlinePacker::try_add`], but only for items that can never
    /// be rejected.
    fn add(&mut self, item: Item) -> (closed: Vec<Bin<Item>>)
        requires
            old(self).wf(),
            old(self).offerable(item),
            old(self).never_too_large(item),
        ensures
            final(self).wf(),
            forall|it: Item| old(self).offerable(it) == final(self).offerable(it),
            forall|it: Item| old(self).never_too_large(it) == final(self).never_too_large(it),
            forall|b: Bin<Item>| old(self).emitted_bin_ok(b) == final(self).emitted_bin_ok(b),
            old(self).try_add_ens(*final(self), item, Ok(closed)),
            bins_multiset(final(self).open_contents()).add(
                bins_multiset(bins_contents(closed@)),
            ) =~= bins_multiset(old(self).open_contents()).insert(item),
            forall|i: int|
                0 <= i < closed@.len() ==> old(self).emitted_bin_ok(#[trigger] closed@[i])
                    && closed@[i]@.len() > 0,
    ;

    /// No new items will be coming in.  If there were any bins still
    /// open, this will close and return them; bins that never received an
    /// item are dropped silently, never emitted as empty.
    fn finalize(self) -> (closed: Vec<Bin<Item>>)
        requires
            self.wf(),
        ensures
            bins_multiset(bins_contents(closed@)) =~= bins_multiset(self.open_contents()),
            forall|i: int|
                0 <= i < closed@.len() ==> self.emitted_bin_ok(#[trigger] closed@[i])
                    && closed@[i]@.len() > 0,
            self.finalize_ens(closed),
    ;

    /// Process an entire sequence of items and return the closed bins in
    /// one go, in emission order: bins closed mid-stream precede bins
    /// emitted by the final drain.
    ///
    /// Items that were already in the packer are included in the result
    /// along with the new ones.  On a too-large failure partway through,
    /// consumption stops immediately and everything needed to resume
    /// comes back: the error carrying the rejected item, the packer as it
    /// stands, the unconsumed remainder of the input (positioned exactly
    /// after the failing item), and all bins closed so far.
    fn pack_all(self, items: Vec<Item>) -> (r: Result<
        Vec<Bin<Item>>,
        (OnlinePackerError<Item>, Self, Vec<Item>, Vec<Bin<Item>>),
    >)
        requires
            self.wf(),
            forall|i: int| 0 <= i < items@.len() ==> self.offerable(#[trigger] items@[i]),
        ensures
            self.pack_all_ens(items@, r),
            match r {
                Ok(closed) => {
                    &&& bins_multiset(bins_contents(closed@)) =~= bins_multiset(
                        self.open_contents(),
                    ).add(items@.to_multiset())
                    &&& forall|i: int|
                        0 <= i < closed@.len() ==> self.emitted_bin_ok(#[trigger] closed@[i])
                            && closed@[i]@.len() > 0
                },
                Err((e, packer, remainder, closed)) => {
                    &&& packer.wf()
                    &&& forall|it: Item| self.offerable(it) == packer.offerable(it)
                    &&& forall|b: Bin<Item>| self.emitted_bin_ok(b) == packer.emitted_bin_ok(b)
                    &&& forall|i: int|
                        0 <= i < closed@.len() ==> self.emitted_bin_ok(#[trigger] closed@[i])
                            && closed@[i]@.len() > 0
                    &&& exists|j: int|
                        {
                            &&& 0 <= j < items@.len()
                            &&& e matches OnlinePackerError::ItemTooLarge(it) && it == items@[j]
                            &&& !self.never_too_large(#[trigger] items@[j])
                            &&& remainder@ == items@.skip(j + 1)
                            &&& bins_multiset(packer.open_contents()).add(
                                bins_multiset(bins_contents(closed@)),
                            ) =~= bins_multiset(self.open_contents()).add(
                                items@.take(j).to_multiset(),
                            )
                        }
                },
            },
    ;
}

} // verus!
