//! The next-K-fit bin packing algorithm.
//!
//! A total of `K` bins are kept open.  When a new item arrives, it is
//! placed into the first open bin with enough room.  If none of the open
//! bins is big enough, the most-filled bin is closed, and a new bin is
//! opened to hold the new item.

use vstd::multiset::Multiset;
use vstd::prelude::*;

use crate::Bin;
use crate::FnSizer;
use crate::Pack;
use crate::PackSizer;
use crate::Sizer;
use crate::model::bin_views;
use crate::model::bins_contents;
use crate::model::bins_multiset;
use crate::model::bins_rems;
use crate::model::fit_index;
use crate::model::lemma_nonempty_bins_views;
use crate::model::lemma_bins_multiset_concat;
use crate::model::lemma_bins_multiset_push;
use crate::model::lemma_bins_multiset_replace;
use crate::model::lemma_bins_multiset_update;
use crate::model::lemma_fit_index_props;
use crate::model::lemma_most_filled_index_props;
use crate::model::lemma_usize_sum_matches_size_sum;
use crate::model::lemma_usize_sum_push;
use crate::model::lemma_usize_sum_singleton;
use crate::model::most_filled_index;
use crate::model::nonempty_bins;
use crate::model::nonempty_pairs;
use crate::model::pairs_of;
use crate::model::usize_sum;
use crate::size_sum;
use crate::online::online_packer::OnlinePacker;
use crate::online::online_packer::OnlinePackerError;

verus! {

/// The bookkeeping of one open bin against the packer's sizer and
/// capacity: `sizes` records what the sizer reported for each item in the
/// bin, in order; their total never exceeds the capacity, and the bin's
/// remaining capacity is exactly the capacity less that total.
pub open spec fn bin_entry_ok<Item, S: Sizer<Item>>(
    sizer: S,
    cap: usize,
    bin: Bin<Item>,
    sizes: Seq<usize>,
) -> bool {
    &&& sizes.len() == bin@.len()
    &&& usize_sum(sizes) <= cap
    &&& bin.spec_remaining() == cap - usize_sum(sizes)
    &&& forall|j: int| 0 <= j < sizes.len() ==> sizer.sized_as(&bin@[j], #[trigger] sizes[j])
}

/// One step of the next-K-fit policy, given the size `s` computed for the
/// item: reject an item bigger than the capacity outright; place a fitting
/// item into the first open bin with room; otherwise close the most-filled
/// bin, emit it, and reopen its slot with the item alone.
pub open spec fn nk_step<Item>(
    pre_contents: Seq<Seq<Item>>,
    pre_rems: Seq<usize>,
    cap: usize,
    item: Item,
    s: usize,
    post_contents: Seq<Seq<Item>>,
    post_rems: Seq<usize>,
    r: Result<Vec<Bin<Item>>, OnlinePackerError<Item>>,
) -> bool {
    if s > cap {
        &&& r matches Err(OnlinePackerError::ItemTooLarge(it)) && it == item
        &&& post_contents == pre_contents
        &&& post_rems == pre_rems
    } else if fit_index(pre_rems, s) < pre_rems.len() {
        let f = fit_index(pre_rems, s);
        &&& r matches Ok(closed) && closed@.len() == 0
        &&& post_contents == pre_contents.update(f, pre_contents[f].push(item))
        &&& post_rems == pre_rems.update(f, (pre_rems[f] - s) as usize)
    } else {
        let m = most_filled_index(pre_rems);
        &&& r matches Ok(closed) && closed@.len() == 1 && closed@[0]@ == pre_contents[m]
            && closed@[0].spec_remaining() == pre_rems[m]
        &&& post_contents == pre_contents.update(m, seq![item])
        &&& post_rems == pre_rems.update(m, (cap - s) as usize)
    }
}

/// One accepted step of the next-K-fit policy as a state transformer,
/// given the size `s` computed for the item (`s` within capacity): the
/// new open contents, the new remaining capacities, and the observable
/// pairs of the bins this step closed, in emission order.
pub open spec fn nk_step_state<Item>(
    contents: Seq<Seq<Item>>,
    rems: Seq<usize>,
    cap: usize,
    item: Item,
    s: usize,
) -> (Seq<Seq<Item>>, Seq<usize>, Seq<(Seq<Item>, usize)>) {
    let f = fit_index(rems, s);
    if f < rems.len() {
        (
            contents.update(f, contents[f].push(item)),
            rems.update(f, (rems[f] - s) as usize),
            Seq::empty(),
        )
    } else {
        let m = most_filled_index(rems);
        (
            contents.update(m, seq![item]),
            rems.update(m, (cap - s) as usize),
            seq![(contents[m], rems[m])],
        )
    }
}

/// A whole accepted run of the next-K-fit policy: fold [`nk_step_state`]
/// over the items with their computed sizes, accumulating the closed
/// bins' observable pairs in emission order.
pub open spec fn nk_run<Item>(
    contents: Seq<Seq<Item>>,
    rems: Seq<usize>,
    cap: usize,
    items: Seq<Item>,
    szs: Seq<usize>,
) -> (Seq<Seq<Item>>, Seq<usize>, Seq<(Seq<Item>, usize)>)
    decreases items.len(),
{
    if items.len() == 0 {
        (contents, rems, Seq::empty())
    } else {
        let prev = nk_run(contents, rems, cap, items.drop_last(), szs.drop_last());
        let step = nk_step_state(prev.0, prev.1, cap, items.last(), szs.last());
        (step.0, step.1, prev.2 + step.2)
    }
}

/// A packer that sizes items by their own [`Pack`] capability never emits
/// a bin filled past its capacity: the total declared size of the bin's
/// contents is at most the capacity, and the bin's remaining-capacity
/// counter accounts for exactly that total.
pub proof fn lemma_emitted_bin_within_capacity<Item: Pack>(
    packer: &NextKFitPacker<Item, PackSizer>,
    bin: Bin<Item>,
)
    requires
        packer.emitted_bin_ok(bin),
    ensures
        size_sum(bin@) <= packer.spec_capacity(),
        bin.spec_remaining() == packer.spec_capacity() - size_sum(bin@),
{
    let sizes = choose|sizes: Seq<usize>|
        bin_entry_ok(packer.spec_sizer(), packer.spec_capacity(), bin, sizes);
    assert forall|j: int| 0 <= j < sizes.len() implies #[trigger] sizes[j]
        == bin@[j].spec_size() by {
        assert(packer.spec_sizer().sized_as(&bin@[j], sizes[j]));
    }
    lemma_usize_sum_matches_size_sum(bin@, sizes);
}

/// With `K = 1` the next-K-fit policy reduces to plain next-fit: an item
/// that fits goes into the single open bin, and otherwise that bin closes
/// and a new bin opens holding just the item.
pub proof fn lemma_next_k_fit_k1_is_next_fit<Item>(
    pre_contents: Seq<Seq<Item>>,
    pre_rems: Seq<usize>,
    cap: usize,
    item: Item,
    s: usize,
    post_contents: Seq<Seq<Item>>,
    post_rems: Seq<usize>,
    r: Result<Vec<Bin<Item>>, OnlinePackerError<Item>>,
)
    requires
        pre_contents.len() == 1,
        pre_rems.len() == 1,
        s <= cap,
        nk_step(pre_contents, pre_rems, cap, item, s, post_contents, post_rems, r),
    ensures
        s <= pre_rems[0] ==> {
            &&& r matches Ok(closed) && closed@.len() == 0
            &&& post_contents == seq![pre_contents[0].push(item)]
            &&& post_rems == seq![(pre_rems[0] - s) as usize]
        },
        s > pre_rems[0] ==> {
            &&& r matches Ok(closed) && closed@.len() == 1 && closed@[0]@ == pre_contents[0]
                && closed@[0].spec_remaining() == pre_rems[0]
            &&& post_contents == seq![seq![item]]
            &&& post_rems == seq![(cap - s) as usize]
        },
{
    lemma_fit_index_props(pre_rems, s);
    lemma_most_filled_index_props(pre_rems);
    if s <= pre_rems[0] {
        assert(fit_index(pre_rems, s) == 0);
        assert(pre_contents.update(0, pre_contents[0].push(item)) =~= seq![
            pre_contents[0].push(item),
        ]);
        assert(pre_rems.update(0, (pre_rems[0] - s) as usize) =~= seq![(pre_rems[0] - s) as usize]);
    } else {
        assert(fit_index(pre_rems, s) == 1);
        assert(most_filled_index(pre_rems) == 0);
        assert(pre_contents.update(0, seq![item]) =~= seq![seq![item]]);
        assert(pre_rems.update(0, (cap - s) as usize) =~= seq![(cap - s) as usize]);
    }
}

/// This implements the next-K-fit bin packing algorithm.
///
/// A total of `K` bins are kept open.  When a new item arrives, we attempt
/// to put it into any one of the open bins.  If none of the open bins is
/// big enough, the most-filled bin is closed, and a new bin is opened to
/// hold the new item.
pub struct NextKFitPacker<Item, S> {
    bins: Vec<Bin<Item>>,
    max_bin_size: usize,
    sizer: S,
    bin_sizes: Ghost<Seq<Seq<usize>>>,
}

impl<Item, S> NextKFitPacker<Item, S> {
    /// The sizer the packer was built with.
    pub closed spec fn spec_sizer(&self) -> S {
        self.sizer
    }

    /// The shared capacity of every bin this packer opens.
    pub closed spec fn spec_capacity(&self) -> usize {
        self.max_bin_size
    }

    /// The open bins, in slot order.
    pub closed spec fn spec_bins(&self) -> Seq<Bin<Item>> {
        self.bins@
    }

    /// The recorded size of every item in every open bin.
    pub closed spec fn spec_bin_sizes(&self) -> Seq<Seq<usize>> {
        self.bin_sizes@
    }

    /// How many bins the packer keeps open.
    pub open spec fn spec_k(&self) -> int {
        self.spec_bins().len() as int
    }

    /// The remaining capacity of every open bin, in slot order.
    pub open spec fn rems(&self) -> Seq<usize> {
        bins_rems(self.spec_bins())
    }
}

impl<Item, S: Sizer<Item>> NextKFitPacker<Item, S> {
    /// Create a packer with `k` empty open bins of capacity `size`; both
    /// must be nonzero, a zero being a configuration error.
    fn make(k: usize, size: usize, sizer: S) -> (r: Self)
        requires
            k >= 1,
            size >= 1,
        ensures
            r.wf(),
            r.spec_sizer() == sizer,
            r.spec_capacity() == size,
            r.spec_k() == k,
            r.open_contents() == Seq::new(k as nat, |i: int| Seq::<Item>::empty()),
            r.rems() == Seq::new(k as nat, |i: int| size),
    {
        let mut bins: Vec<Bin<Item>> = Vec::new();
        let mut i: usize = 0;
        while i < k
            invariant
                0 <= i <= k,
                bins@.len() == i,
                forall|j: int|
                    0 <= j < i ==> (#[trigger] bins@[j])@ == Seq::<Item>::empty()
                        && bins@[j].spec_remaining() == size,
            decreases k - i,
        {
            bins.push(Bin::with_capacity(size));
            i += 1;
        }
        let r = Self {
            bins,
            max_bin_size: size,
            sizer,
            bin_sizes: Ghost(Seq::new(k as nat, |_i: int| Seq::<usize>::empty())),
        };
        proof {
            assert(usize_sum(Seq::<usize>::empty()) == 0);
            assert forall|i: int| 0 <= i < r.spec_bins().len() implies bin_entry_ok(
                r.spec_sizer(),
                r.spec_capacity(),
                #[trigger] r.spec_bins()[i],
                r.spec_bin_sizes()[i],
            ) by {
                assert(r.spec_bins()[i]@.len() == 0);
            }
            assert(r.open_contents() =~= Seq::new(k as nat, |i: int| Seq::<Item>::empty()));
            assert(r.rems() =~= Seq::new(k as nat, |i: int| size));
        }
        r
    }
}

impl<Item, SizeFn: Fn(&Item) -> usize> NextKFitPacker<Item, FnSizer<SizeFn>> {
    /// Create a new `NextKFitPacker`.
    ///
    /// It will keep open `k` bins, each of which will fit a maximum of
    /// `size`; both must be nonzero, a zero being a configuration error.
    /// The size of a single element is determined by the `size_fn`.
    pub fn new_with_key(k: usize, size: usize, size_fn: SizeFn) -> (r: Self)
        requires
            k >= 1,
            size >= 1,
        ensures
            r.wf(),
            r.spec_sizer() == (FnSizer { f: size_fn }),
            r.spec_capacity() == size,
            r.spec_k() == k,
            r.open_contents() == Seq::new(k as nat, |i: int| Seq::<Item>::empty()),
            r.rems() == Seq::new(k as nat, |i: int| size),
            forall|it: Item| #[trigger]
                r.offerable(it) <==> call_requires(size_fn, (&it,)),
            forall|it: Item| #[trigger]
                r.never_too_large(it) <==> (forall|s: usize|
                    call_ensures(size_fn, (&it,), s) ==> s <= size),
    {
        let r = Self::make(k, size, FnSizer { f: size_fn });
        proof {
            assert forall|it: Item| #[trigger]
                r.never_too_large(it) <==> (forall|s: usize|
                    call_ensures(size_fn, (&it,), s) ==> s <= size) by {
                if r.never_too_large(it) {
                    assert forall|s: usize| #[trigger]
                        call_ensures(size_fn, (&it,), s) implies s <= size by {
                        assert(r.spec_sizer().sized_as(&it, s));
                    }
                }
                if forall|s: usize| call_ensures(size_fn, (&it,), s) ==> s <= size {
                    assert forall|s: usize| #[trigger]
                        r.spec_sizer().sized_as(&it, s) implies s <= size by {
                        assert(call_ensures(size_fn, (&it,), s));
                    }
                }
            }
        }
        r
    }
}

impl<Item: Pack> NextKFitPacker<Item, PackSizer> {
    /// Create a new `NextKFitPacker` for items that implement [`Pack`].
    ///
    /// If your type doesn't, consider using
    /// [`new_with_key`](NextKFitPacker::new_with_key).
    pub fn new(k: usize, size: usize) -> (r: Self)
        requires
            k >= 1,
            size >= 1,
        ensures
            r.wf(),
            r.spec_capacity() == size,
            r.spec_k() == k,
            r.open_contents() == Seq::new(k as nat, |i: int| Seq::<Item>::empty()),
            r.rems() == Seq::new(k as nat, |i: int| size),
            forall|it: Item| #[trigger] r.offerable(it),
            forall|it: Item| #[trigger] r.never_too_large(it) <==> it.spec_size() <= size,
    {
        let r = Self::make(k, size, PackSizer);
        proof {
            assert forall|it: Item| #[trigger]
                r.never_too_large(it) <==> it.spec_size() <= size by {
                assert(r.spec_sizer().sized_as(&it, it.spec_size()));
                if it.spec_size() <= size {
                    assert forall|s: usize| #[trigger]
                        r.spec_sizer().sized_as(&it, s) implies s <= size by {}
                }
            }
        }
        r
    }
}

impl<Item, S: Sizer<Item>> OnlinePacker<Item> for NextKFitPacker<Item, S> {
    open spec fn wf(&self) -> bool {
        &&& self.spec_bins().len() >= 1
        &&& self.spec_capacity() >= 1
        &&& self.spec_bin_sizes().len() == self.spec_bins().len()
        &&& forall|i: int|
            0 <= i < self.spec_bins().len() ==> bin_entry_ok(
                self.spec_sizer(),
                self.spec_capacity(),
                #[trigger] self.spec_bins()[i],
                self.spec_bin_sizes()[i],
            )
    }

    open spec fn open_contents(&self) -> Seq<Seq<Item>> {
        bins_contents(self.spec_bins())
    }

    open spec fn offerable(&self, item: Item) -> bool {
        self.spec_sizer().callable(&item)
    }

    open spec fn never_too_large(&self, item: Item) -> bool {
        forall|s: usize| #[trigger]
            self.spec_sizer().sized_as(&item, s) ==> s <= self.spec_capacity()
    }

    open spec fn emitted_bin_ok(&self, bin: Bin<Item>) -> bool {
        exists|sizes: Seq<usize>|
            #[trigger] bin_entry_ok(self.spec_sizer(), self.spec_capacity(), bin, sizes)
    }

    open spec fn try_add_ens(
        &self,
        post: Self,
        item: Item,
        r: Result<Vec<Bin<Item>>, OnlinePackerError<Item>>,
    ) -> bool {
        &&& post.spec_capacity() == self.spec_capacity()
        &&& post.spec_sizer() == self.spec_sizer()
        &&& post.spec_k() == self.spec_k()
        &&& exists|s: usize|
            #[trigger] self.spec_sizer().sized_as(&item, s) && nk_step(
                self.open_contents(),
                self.rems(),
                self.spec_capacity(),
                item,
                s,
                post.open_contents(),
                post.rems(),
                r,
            )
    }

    open spec fn finalize_ens(&self, closed: Vec<Bin<Item>>) -> bool {
        closed@ == nonempty_bins(self.spec_bins())
    }

    open spec fn pack_all_ens(
        &self,
        items: Seq<Item>,
        r: Result<Vec<Bin<Item>>, (OnlinePackerError<Item>, Self, Vec<Item>, Vec<Bin<Item>>)>,
    ) -> bool {
        match r {
            Ok(closed) => exists|szs: Seq<usize>|
                #![trigger nk_run(self.open_contents(), self.rems(), self.spec_capacity(), items, szs)]
                {
                    &&& szs.len() == items.len()
                    &&& (forall|i: int|
                        0 <= i < items.len() ==> self.spec_sizer().sized_as(
                            &items[i],
                            #[trigger] szs[i],
                        ))
                    &&& (forall|i: int|
                        0 <= i < items.len() ==> #[trigger] szs[i] <= self.spec_capacity())
                    &&& ({
                        let run = nk_run(
                            self.open_contents(),
                            self.rems(),
                            self.spec_capacity(),
                            items,
                            szs,
                        );
                        bin_views(closed@) == run.2 + nonempty_pairs(pairs_of(run.0, run.1))
                    })
                },
            Err((e, packer, remainder, closed)) => exists|szs: Seq<usize>, j: int|
                #![trigger nk_run(self.open_contents(), self.rems(), self.spec_capacity(), items.take(j), szs.take(j))]
                {
                    &&& 0 <= j < items.len()
                    &&& szs.len() == j + 1
                    &&& (forall|i: int|
                        0 <= i <= j ==> self.spec_sizer().sized_as(&items[i], #[trigger] szs[i]))
                    &&& (forall|i: int| 0 <= i < j ==> #[trigger] szs[i] <= self.spec_capacity())
                    &&& szs[j] > self.spec_capacity()
                    &&& e matches OnlinePackerError::ItemTooLarge(it) && it == items[j]
                    &&& remainder@ == items.skip(j + 1)
                    &&& packer.spec_capacity() == self.spec_capacity()
                    &&& packer.spec_sizer() == self.spec_sizer()
                    &&& packer.spec_k() == self.spec_k()
                    &&& ({
                        let run = nk_run(
                            self.open_contents(),
                            self.rems(),
                            self.spec_capacity(),
                            items.take(j),
                            szs.take(j),
                        );
                        &&& packer.open_contents() == run.0
                        &&& packer.rems() == run.1
                        &&& bin_views(closed@) == run.2
                    })
                },
        }
    }

    fn try_add(&mut self, item: Item) -> (r: Result<Vec<Bin<Item>>, OnlinePackerError<Item>>) {
        let ghost pre = *self;
        let ghost pre_c = self.open_contents();
        let ghost pre_r = self.rems();
        let ghost pre_sizes = self.bin_sizes@;

        let item_size = self.sizer.size_of(&item);
        let ghost itemg = item;
        if item_size > self.max_bin_size {
            return Err(OnlinePackerError::ItemTooLarge(item));
        }

        let cap = self.max_bin_size;
        let n = self.bins.len();
        let mut most_idx: usize = 0;
        let mut most_cap: usize = usize::MAX;
        let mut bin_idx: usize = 0;
        #[verifier::loop_isolation(false)]
        while bin_idx < n
            invariant
                0 <= bin_idx <= n,
                *self == pre,
                pre.wf(),
                n == pre.spec_bins().len(),
                cap == pre.spec_capacity(),
                pre_r == pre.rems(),
                pre_c == pre.open_contents(),
                pre_sizes == pre.spec_bin_sizes(),
                item == itemg,
                item_size <= cap,
                pre.spec_sizer().sized_as(&itemg, item_size),
                forall|l: int| 0 <= l < bin_idx ==> item_size > #[trigger] pre_r[l],
                (bin_idx == 0 && most_idx == 0 && most_cap == usize::MAX) || (most_idx < bin_idx
                    && most_cap == pre_r[most_idx as int] && (forall|l: int|
                    0 <= l < bin_idx ==> #[trigger] pre_r[l] >= most_cap) && (forall|l: int|
                    0 <= l < most_idx ==> #[trigger] pre_r[l] > most_cap)),
            decreases n - bin_idx,
        {
            let rem = self.bins[bin_idx].remaining_capacity();
            proof {
                assert(rem == pre_r[bin_idx as int]);
            }
            if rem < most_cap {
                most_idx = bin_idx;
                most_cap = rem;
            }
            if item_size <= rem {
                proof {
                    lemma_fit_index_props(pre_r, item_size);
                    assert(fit_index(pre_r, item_size) == bin_idx);
                    lemma_usize_sum_push(pre_sizes[bin_idx as int], item_size);
                }
                let bin = &mut self.bins[bin_idx];
                bin.add_with_size(item, item_size);
                self.bin_sizes = Ghost(
                    pre_sizes.update(bin_idx as int, pre_sizes[bin_idx as int].push(item_size)),
                );
                proof {
                    let f = bin_idx as int;
                    assert(self.spec_bins() =~= pre.spec_bins().update(f, self.spec_bins()[f]));
                    assert(self.spec_bins()[f]@ == pre_c[f].push(itemg));
                    assert(self.open_contents() =~= pre_c.update(f, pre_c[f].push(itemg)));
                    assert(self.rems() =~= pre_r.update(f, (pre_r[f] - item_size) as usize));
                    assert forall|i: int| 0 <= i < self.spec_bins().len() implies bin_entry_ok(
                        self.spec_sizer(),
                        self.spec_capacity(),
                        #[trigger] self.spec_bins()[i],
                        self.spec_bin_sizes()[i],
                    ) by {
                        assert(bin_entry_ok(
                            pre.spec_sizer(),
                            cap,
                            pre.spec_bins()[i],
                            pre_sizes[i],
                        ));
                        if i == f {
                            assert(self.spec_bin_sizes()[i] == pre_sizes[f].push(item_size));
                        }
                    }
                    assert(bins_contents(Seq::<Bin<Item>>::empty()) =~= Seq::<Seq<Item>>::empty());
                    assert(bins_multiset(Seq::<Seq<Item>>::empty()) == Multiset::<Item>::empty());
                    lemma_bins_multiset_update(pre_c, f, itemg);
                }
                let r: Vec<Bin<Item>> = Vec::new();
                proof {
                    assert(r@ =~= Seq::<Bin<Item>>::empty());
                    assert(bins_multiset(self.open_contents()).add(
                        bins_multiset(bins_contents(r@)),
                    ) =~= bins_multiset(pre_c).insert(itemg));
                }
                return Ok(r);
            }
            bin_idx += 1;
        }

        // The item fits in none of the open bins: close the most-filled
        // bin, and reopen its slot with a fresh bin holding the item.
        proof {
            lemma_fit_index_props(pre_r, item_size);
            assert(fit_index(pre_r, item_size) == pre_r.len());
            lemma_most_filled_index_props(pre_r);
            let m = most_filled_index(pre_r);
            assert(most_idx < n);
            if m < most_idx {
                assert(pre_r[m] > most_cap);
                assert(pre_r[m] <= pre_r[most_idx as int]);
                assert(false);
            }
            if m > most_idx {
                assert(pre_r[most_idx as int] > pre_r[m]);
                assert(pre_r[most_idx as int] <= pre_r[m]);
                assert(false);
            }
            assert(m == most_idx);
            lemma_usize_sum_singleton(item_size);
        }
        let new_bin = Bin::with_item_and_size(cap, item, item_size);
        self.bins.push(new_bin);
        let closed_bin = self.bins.swap_remove(most_idx);
        self.bin_sizes = Ghost(pre_sizes.update(most_idx as int, seq![item_size]));
        let mut closed: Vec<Bin<Item>> = Vec::new();
        closed.push(closed_bin);
        proof {
            let m = most_idx as int;
            assert(self.spec_bins() =~= pre.spec_bins().update(m, self.spec_bins()[m]));
            assert(self.spec_bins()[m]@ =~= seq![itemg]);
            assert(self.open_contents() =~= pre_c.update(m, seq![itemg]));
            assert(self.rems() =~= pre_r.update(m, (cap - item_size) as usize));
            assert(closed@[0] == pre.spec_bins()[m]);
            assert(closed@[0]@ == pre_c[m]);
            assert(closed@[0].spec_remaining() == pre_r[m]);
            assert forall|i: int| 0 <= i < self.spec_bins().len() implies bin_entry_ok(
                self.spec_sizer(),
                self.spec_capacity(),
                #[trigger] self.spec_bins()[i],
                self.spec_bin_sizes()[i],
            ) by {
                assert(bin_entry_ok(pre.spec_sizer(), cap, pre.spec_bins()[i], pre_sizes[i]));
                if i == m {
                    assert(self.spec_bin_sizes()[i] == seq![item_size]);
                }
            }
            // The closed bin cannot be empty: an empty bin would still
            // have had room for the item.
            assert(bin_entry_ok(pre.spec_sizer(), cap, pre.spec_bins()[m], pre_sizes[m]));
            if pre_c[m].len() == 0 {
                assert(pre_sizes[m].len() == 0);
                assert(usize_sum(pre_sizes[m]) == 0);
                assert(pre_r[m] == cap);
                assert(item_size > pre_r[m]);
                assert(false);
            }
            assert(pre.emitted_bin_ok(closed@[0])) by {
                assert(bin_entry_ok(
                    pre.spec_sizer(),
                    pre.spec_capacity(),
                    closed@[0],
                    pre_sizes[m],
                ));
            }
            lemma_bins_multiset_replace(pre_c, m, seq![itemg]);
            assert(bins_contents(closed@) =~= seq![pre_c[m]]);
            assert(seq![pre_c[m]].drop_last() =~= Seq::<Seq<Item>>::empty());
            assert(bins_multiset(Seq::<Seq<Item>>::empty()) == Multiset::<Item>::empty());
            assert(bins_multiset(seq![pre_c[m]]) =~= pre_c[m].to_multiset());
            assert(seq![itemg].drop_last() =~= Seq::<Item>::empty());
            assert(seq![itemg] =~= Seq::<Item>::empty().push(itemg));
            broadcast use vstd::seq_lib::group_to_multiset_ensures;
            broadcast use vstd::multiset::group_multiset_axioms;

            assert(Seq::<Item>::empty().to_multiset() =~= Multiset::<Item>::empty());
            assert(seq![itemg].to_multiset() =~= Multiset::<Item>::empty().insert(itemg));
            assert(bins_multiset(self.open_contents()).add(
                bins_multiset(bins_contents(closed@)),
            ) =~= bins_multiset(pre_c).insert(itemg));
        }
        Ok(closed)
    }

    fn add(&mut self, item: Item) -> (closed: Vec<Bin<Item>>) {
        let r = self.try_add(item);
        match r {
            Ok(closed) => closed,
            Err(_) => {
                proof {
                    assert(false);
                }
                Vec::new()
            },
        }
    }

    fn finalize(self) -> (closed: Vec<Bin<Item>>) {
        let ghost pre = self;
        let ghost all = self.bins@;
        let mut rest = self.bins;
        let mut out: Vec<Bin<Item>> = Vec::new();
        let ghost mut done: int = 0;
        proof {
            assert(all.take(0) =~= Seq::<Bin<Item>>::empty());
            assert(bins_contents(out@) =~= Seq::<Seq<Item>>::empty());
            assert(bins_multiset(Seq::<Seq<Item>>::empty()) == Multiset::<Item>::empty());
            assert(bins_contents(all.take(0)) =~= Seq::<Seq<Item>>::empty());
            assert(nonempty_bins(Seq::<Bin<Item>>::empty()) =~= Seq::<Bin<Item>>::empty());
        }
        #[verifier::loop_isolation(false)]
        while rest.len() > 0
            invariant
                0 <= done <= all.len(),
                done + rest@.len() == all.len(),
                rest@ == all.skip(done),
                pre.wf(),
                all == pre.spec_bins(),
                out@ == nonempty_bins(all.take(done)),
                bins_multiset(bins_contents(out@)) =~= bins_multiset(bins_contents(all.take(done))),
                forall|i: int|
                    0 <= i < out@.len() ==> pre.emitted_bin_ok(#[trigger] out@[i])
                        && out@[i]@.len() > 0,
            decreases rest@.len(),
        {
            let ghost prev_out = out@;
            let b = rest.remove(0);
            proof {
                assert(all.skip(done)[0] == all[done]);
                assert(rest@ =~= all.skip(done + 1));
                assert(all.take(done + 1).drop_last() =~= all.take(done));
                assert(all.take(done + 1).last() == all[done]);
                assert(b == all[done]);
                assert(bin_entry_ok(
                    pre.spec_sizer(),
                    pre.spec_capacity(),
                    all[done],
                    pre.spec_bin_sizes()[done],
                ));
            }
            if !b.is_empty() {
                out.push(b);
            }
            proof {
                assert(bins_contents(all.take(done + 1)) =~= bins_contents(all.take(done)).push(
                    all[done]@,
                ));
                lemma_bins_multiset_push(bins_contents(all.take(done)), all[done]@);
                if all[done]@.len() > 0 {
                    assert(out@ =~= prev_out.push(all[done]));
                    assert(bins_contents(out@) =~= bins_contents(prev_out).push(all[done]@));
                    lemma_bins_multiset_push(bins_contents(prev_out), all[done]@);
                } else {
                    assert(all[done]@.to_multiset() =~= Multiset::<Item>::empty()) by {
                        broadcast use vstd::seq_lib::group_to_multiset_ensures;
                        broadcast use vstd::multiset::group_multiset_axioms;

                    }
                    assert(out@ == prev_out);
                }
                assert(nonempty_bins(all.take(done + 1)) == (if all[done]@.len() > 0 {
                    nonempty_bins(all.take(done)).push(all[done])
                } else {
                    nonempty_bins(all.take(done))
                }));
                done = done + 1;
            }
        }
        proof {
            assert(all.take(done) =~= all);
        }
        out
    }

    fn pack_all(self, items: Vec<Item>) -> (r: Result<
        Vec<Bin<Item>>,
        (OnlinePackerError<Item>, Self, Vec<Item>, Vec<Bin<Item>>),
    >) {
        let ghost init = self;
        let ghost all = items@;
        let mut packer = self;
        let mut rest = items;
        let mut closed_bins: Vec<Bin<Item>> = Vec::new();
        let ghost mut done: int = 0;
        let ghost mut szs: Seq<usize> = Seq::empty();
        proof {
            broadcast use vstd::seq_lib::group_to_multiset_ensures;
            broadcast use vstd::multiset::group_multiset_axioms;

            assert(all.take(0) =~= Seq::<Item>::empty());
            assert(Seq::<Item>::empty().to_multiset() =~= Multiset::<Item>::empty());
            assert(bins_contents(closed_bins@) =~= Seq::<Seq<Item>>::empty());
            assert(bins_multiset(Seq::<Seq<Item>>::empty()) == Multiset::<Item>::empty());
            assert(bin_views(closed_bins@) =~= Seq::<(Seq<Item>, usize)>::empty());
            assert(nk_run(init.open_contents(), init.rems(), init.spec_capacity(), all.take(0), szs)
                == (init.open_contents(), init.rems(), Seq::<(Seq<Item>, usize)>::empty()));
        }
        #[verifier::loop_isolation(false)]
        while rest.len() > 0
            invariant
                0 <= done <= all.len(),
                done + rest@.len() == all.len(),
                rest@ == all.skip(done),
                packer.wf(),
                forall|i: int| 0 <= i < all.len() ==> init.offerable(#[trigger] all[i]),
                forall|it: Item| init.offerable(it) == packer.offerable(it),
                forall|it: Item| init.never_too_large(it) == packer.never_too_large(it),
                forall|b: Bin<Item>| init.emitted_bin_ok(b) == packer.emitted_bin_ok(b),
                forall|i: int|
                    0 <= i < closed_bins@.len() ==> init.emitted_bin_ok(#[trigger] closed_bins@[i])
                        && closed_bins@[i]@.len() > 0,
                bins_multiset(packer.open_contents()).add(
                    bins_multiset(bins_contents(closed_bins@)),
                ) =~= bins_multiset(init.open_contents()).add(all.take(done).to_multiset()),
                packer.spec_capacity() == init.spec_capacity(),
                packer.spec_sizer() == init.spec_sizer(),
                packer.spec_k() == init.spec_k(),
                szs.len() == done,
                forall|i: int|
                    0 <= i < done ==> init.spec_sizer().sized_as(&all[i], #[trigger] szs[i]),
                forall|i: int| 0 <= i < done ==> #[trigger] szs[i] <= init.spec_capacity(),
                ({
                    let run = nk_run(
                        init.open_contents(),
                        init.rems(),
                        init.spec_capacity(),
                        all.take(done),
                        szs,
                    );
                    &&& packer.open_contents() == run.0
                    &&& packer.rems() == run.1
                    &&& bin_views(closed_bins@) == run.2
                }),
            decreases rest@.len(),
        {
            broadcast use vstd::seq_lib::group_to_multiset_ensures;
            broadcast use vstd::multiset::group_multiset_axioms;

            let ghost packer0 = packer;
            let ghost prev_closed = closed_bins@;
            let item = rest.remove(0);
            let ghost itemg = item;
            proof {
                assert(all.skip(done)[0] == all[done]);
                assert(rest@ =~= all.skip(done + 1));
                assert(init.offerable(all[done]));
            }
            match packer.try_add(item) {
                Ok(mut newly) => {
                    let ghost newly_full = newly;
                    let ghost newly_seq = newly@;
                    closed_bins.append(&mut newly);
                    proof {
                        assert(closed_bins@ =~= prev_closed + newly_seq);
                        assert(bins_contents(prev_closed + newly_seq) =~= bins_contents(prev_closed)
                            + bins_contents(newly_seq));
                        lemma_bins_multiset_concat(
                            bins_contents(prev_closed),
                            bins_contents(newly_seq),
                        );
                        assert(all.take(done + 1).drop_last() =~= all.take(done));
                        assert(all.take(done + 1) =~= all.take(done).push(all[done]));
                        assert(all.take(done + 1).to_multiset() =~= all.take(
                            done,
                        ).to_multiset().insert(itemg));
                        assert forall|x: Item|
                            bins_multiset(packer.open_contents()).add(
                                bins_multiset(bins_contents(closed_bins@)),
                            ).count(x) == bins_multiset(init.open_contents()).add(
                                all.take(done + 1).to_multiset(),
                            ).count(x) by {
                            assert(bins_multiset(packer.open_contents()).add(
                                bins_multiset(bins_contents(closed_bins@)),
                            ).count(x) == bins_multiset(packer.open_contents()).count(x)
                                + bins_multiset(bins_contents(closed_bins@)).count(x));
                            assert(bins_multiset(bins_contents(closed_bins@)).count(x)
                                == bins_multiset(bins_contents(prev_closed)).add(
                                bins_multiset(bins_contents(newly_seq)),
                            ).count(x));
                            assert(bins_multiset(bins_contents(prev_closed)).add(
                                bins_multiset(bins_contents(newly_seq)),
                            ).count(x) == bins_multiset(bins_contents(prev_closed)).count(x)
                                + bins_multiset(bins_contents(newly_seq)).count(x));
                            assert(bins_multiset(packer.open_contents()).add(
                                bins_multiset(bins_contents(newly_seq)),
                            ).count(x) == bins_multiset(packer0.open_contents()).insert(
                                itemg,
                            ).count(x));
                            assert(bins_multiset(packer.open_contents()).add(
                                bins_multiset(bins_contents(newly_seq)),
                            ).count(x) == bins_multiset(packer.open_contents()).count(x)
                                + bins_multiset(bins_contents(newly_seq)).count(x));
                            assert(bins_multiset(packer0.open_contents()).add(
                                bins_multiset(bins_contents(prev_closed)),
                            ).count(x) == bins_multiset(init.open_contents()).add(
                                all.take(done).to_multiset(),
                            ).count(x));
                            assert(bins_multiset(packer0.open_contents()).add(
                                bins_multiset(bins_contents(prev_closed)),
                            ).count(x) == bins_multiset(packer0.open_contents()).count(x)
                                + bins_multiset(bins_contents(prev_closed)).count(x));
                            assert(bins_multiset(init.open_contents()).add(
                                all.take(done).to_multiset(),
                            ).count(x) == bins_multiset(init.open_contents()).count(x) + all.take(
                                done,
                            ).to_multiset().count(x));
                            assert(bins_multiset(init.open_contents()).add(
                                all.take(done + 1).to_multiset(),
                            ).count(x) == bins_multiset(init.open_contents()).count(x) + all.take(
                                done + 1,
                            ).to_multiset().count(x));
                            assert(all.take(done + 1).to_multiset().count(x) == all.take(
                                done,
                            ).to_multiset().insert(itemg).count(x));
                        }
                        assert(bins_multiset(packer.open_contents()).add(
                            bins_multiset(bins_contents(closed_bins@)),
                        ) =~= bins_multiset(init.open_contents()).add(
                            all.take(done + 1).to_multiset(),
                        ));

                        // Connect this accepted step to the run model.
                        let rv: Result<Vec<Bin<Item>>, OnlinePackerError<Item>> = Ok(newly_full);
                        let s = choose|s: usize|
                            #![auto]
                            packer0.spec_sizer().sized_as(&itemg, s) && nk_step(
                                packer0.open_contents(),
                                packer0.rems(),
                                packer0.spec_capacity(),
                                itemg,
                                s,
                                packer.open_contents(),
                                packer.rems(),
                                rv,
                            );
                        let cap = init.spec_capacity();
                        let run0 = nk_run(
                            init.open_contents(),
                            init.rems(),
                            cap,
                            all.take(done),
                            szs,
                        );
                        let step = nk_step_state(run0.0, run0.1, cap, itemg, s);
                        assert(s <= cap);
                        if fit_index(packer0.rems(), s) < packer0.rems().len() {
                            assert(newly_seq.len() == 0);
                            assert(bin_views(newly_seq) =~= step.2);
                        } else {
                            let m = most_filled_index(packer0.rems());
                            assert(newly_seq.len() == 1);
                            assert(bin_views(newly_seq) =~= seq![
                                (newly_seq[0]@, newly_seq[0].spec_remaining()),
                            ]);
                            assert(bin_views(newly_seq) =~= step.2);
                        }
                        assert(packer.open_contents() == step.0);
                        assert(packer.rems() == step.1);
                        let szs1 = szs.push(s);
                        assert(all.take(done + 1).drop_last() =~= all.take(done));
                        assert(szs1.drop_last() =~= szs);
                        assert(all.take(done + 1).last() == itemg);
                        assert(szs1.last() == s);
                        let run1 = nk_run(
                            init.open_contents(),
                            init.rems(),
                            cap,
                            all.take(done + 1),
                            szs1,
                        );
                        assert(run1.0 == step.0 && run1.1 == step.1 && run1.2 == run0.2 + step.2);
                        assert(bin_views(prev_closed + newly_seq) =~= bin_views(prev_closed)
                            + bin_views(newly_seq));
                        assert(bin_views(closed_bins@) == run1.2);
                        szs = szs1;
                        done = done + 1;
                    }
                },
                Err(e) => {
                    proof {
                        let rv: Result<Vec<Bin<Item>>, OnlinePackerError<Item>> = Err(e);
                        let s = choose|s: usize|
                            #![auto]
                            packer0.spec_sizer().sized_as(&itemg, s) && nk_step(
                                packer0.open_contents(),
                                packer0.rems(),
                                packer0.spec_capacity(),
                                itemg,
                                s,
                                packer.open_contents(),
                                packer.rems(),
                                rv,
                            );
                        let cap = init.spec_capacity();
                        assert(s > cap);
                        let j = done;
                        let w = szs.push(s);
                        assert(w.take(j) =~= szs);
                        assert(w[j] == s);
                        let run = nk_run(
                            init.open_contents(),
                            init.rems(),
                            cap,
                            all.take(j),
                            w.take(j),
                        );
                        assert(run == nk_run(
                            init.open_contents(),
                            init.rems(),
                            cap,
                            all.take(done),
                            szs,
                        ));
                        assert(packer.open_contents() == run.0);
                        assert(packer.rems() == run.1);
                        assert(bin_views(closed_bins@) == run.2);
                        assert(rest@ == all.skip(j + 1));
                        assert forall|i: int| 0 <= i <= j implies init.spec_sizer().sized_as(
                            &all[i],
                            #[trigger] w[i],
                        ) by {
                            if i < j {
                                assert(w[i] == szs[i]);
                            }
                        }
                        assert forall|i: int| 0 <= i < j implies #[trigger] w[i] <= cap by {
                            assert(w[i] == szs[i]);
                        }
                        assert(init.pack_all_ens(all, Err((e, packer, rest, closed_bins))));
                    }
                    return Err((e, packer, rest, closed_bins));
                },
            }
        }
        proof {
            assert(all.take(done) =~= all);
        }
        let ghost packer_last = packer;
        let mut fin = packer.finalize();
        let ghost fin_seq = fin@;
        let ghost closed_before = closed_bins@;
        closed_bins.append(&mut fin);
        proof {
            assert(closed_bins@ =~= closed_before + fin_seq);
            assert(bins_contents(closed_before + fin_seq) =~= bins_contents(closed_before)
                + bins_contents(fin_seq));
            lemma_bins_multiset_concat(bins_contents(closed_before), bins_contents(fin_seq));

            // The final drain matches the run model's leftover open bins.
            let cap = init.spec_capacity();
            let run = nk_run(init.open_contents(), init.rems(), cap, all, szs);
            assert(run == nk_run(init.open_contents(), init.rems(), cap, all.take(done), szs));
            lemma_nonempty_bins_views(packer_last.spec_bins());
            assert(fin_seq == nonempty_bins(packer_last.spec_bins()));
            assert(bins_contents(packer_last.spec_bins()) == run.0);
            assert(bins_rems(packer_last.spec_bins()) == run.1);
            assert(bin_views(fin_seq) == nonempty_pairs(pairs_of(run.0, run.1)));
            assert(bin_views(closed_before + fin_seq) =~= bin_views(closed_before) + bin_views(
                fin_seq,
            ));
            assert(bin_views(closed_bins@) == run.2 + nonempty_pairs(pairs_of(run.0, run.1)));
            assert(init.pack_all_ens(all, Ok(closed_bins)));
        }
        Ok(closed_bins)
    }
}

} // verus!
