//! The first-fit packing algorithm: each item goes into the first open bin
//! with enough room, and a new bin is opened only when none has.

use vstd::prelude::*;

use crate::Bin;
use crate::Pack;
use crate::model::bins_contents;
use crate::model::bins_match;
use crate::model::bins_multiset;
use crate::model::first_fit_index;
use crate::model::first_fit_pack;
use crate::model::first_fit_place;
use crate::model::item_fits;
use crate::model::lemma_first_fit_conserves;
use crate::model::lemma_first_fit_index_props;
use crate::model::lemma_first_fit_within_capacity;
use crate::model::items_of;
use crate::model::lemma_size_sum_push;
use crate::model::lemma_size_sum_singleton;
use crate::model::pair_sized;
use crate::sat_sub;
use crate::size_sum;
use crate::wrapper::pair_with_sizes;
use crate::wrapper::unwrap_bins;

verus! {

/// Pack items in bins using the first-fit bin packing algorithm.
///
/// The result is exactly [`first_fit_pack`] applied to the input, so two
/// runs over equal inputs yield identical bins.  Every input item ends up
/// in exactly one bin, and when every item fits a bin on its own, no bin
/// is filled past `bin_size`.
pub fn first_fit<T: Pack>(bin_size: usize, items: Vec<T>) -> (r: Vec<Bin<T>>)
    requires
        bin_size >= 1,
    ensures
        bins_match(r@, first_fit_pack(bin_size, items@), bin_size),
        bins_multiset(bins_contents(r@)) == items@.to_multiset(),
        (forall|i: int| 0 <= i < items@.len() ==> (#[trigger] items@[i]).spec_size() <= bin_size)
            ==> forall|b: int| 0 <= b < r@.len() ==> size_sum(#[trigger] r@[b]@) <= bin_size,
{
    __internal_first_fit(bin_size, items, 1)
}

/// Pack items in bins using the first-fit bin packing algorithm.
///
/// Unlike [`first_fit`], the items don't have to implement
/// [`Pack`].  Instead, you need to provide a function that returns the
/// size of the item; it is called once per item, up front.  The result is
/// exactly [`first_fit_pack`] over the items paired with the sizes the
/// function returned, with the pairing stripped off again bin for bin.
pub fn first_fit_by_key<T, SizeFunc>(bin_size: usize, items: Vec<T>, key_func: SizeFunc) -> (r:
    Vec<Bin<T>>)
    where
        SizeFunc: Fn(&T) -> usize,
    requires
        bin_size >= 1,
        forall|i: int| 0 <= i < items@.len() ==> call_requires(key_func, (&items@[i],)),
    ensures
        exists|szs: Seq<usize>|
            {
                &&& szs.len() == items@.len()
                &&& (forall|i: int|
                    0 <= i < items@.len() ==> call_ensures(
                        key_func,
                        (&items@[i],),
                        #[trigger] szs[i],
                    ))
                &&& r@.len() == first_fit_pack(bin_size, pair_sized(items@, szs)).len()
                &&& bins_multiset(first_fit_pack(bin_size, pair_sized(items@, szs)))
                    == pair_sized(items@, szs).to_multiset()
                &&& (forall|b: int|
                    0 <= b < r@.len() ==> (#[trigger] r@[b])@ == items_of(
                        first_fit_pack(bin_size, pair_sized(items@, szs))[b],
                    ) && r@[b].spec_remaining() == sat_sub(
                        bin_size as int,
                        size_sum(first_fit_pack(bin_size, pair_sized(items@, szs))[b]),
                    ))
            },
{
    let ghost items_g = items@;
    let (sized, szs) = pair_with_sizes(items, key_func);
    let ghost sized_g = sized@;
    let bins = __internal_first_fit(bin_size, sized, 1);
    let ghost bins_g = bins@;
    let r = unwrap_bins(bins);
    proof {
        let w = szs@;
        let model = first_fit_pack(bin_size, pair_sized(items_g, w));
        assert(sized_g == pair_sized(items_g, w));
        lemma_first_fit_conserves(bin_size, pair_sized(items_g, w));
        assert(r@.len() == model.len());
        assert forall|b: int| 0 <= b < r@.len() implies (#[trigger] r@[b])@ == items_of(model[b])
            && r@[b].spec_remaining() == sat_sub(bin_size as int, size_sum(model[b])) by {
            assert(bins_g[b]@ == model[b]);
            assert(bins_g[b].wf(bin_size));
            assert(r@[b]@ == items_of(bins_g[b]@));
        }
    }
    r
}

/// The shared scan-and-place loop behind the offline entry points.
///
/// `lower_bound` only pre-sizes the growable bin list; it never changes
/// the result.
pub(crate) fn __internal_first_fit<T: Pack>(
    bin_size: usize,
    items: Vec<T>,
    lower_bound: usize,
) -> (r: Vec<Bin<T>>)
    requires
        bin_size >= 1,
    ensures
        bins_match(r@, first_fit_pack(bin_size, items@), bin_size),
        bins_multiset(bins_contents(r@)) == items@.to_multiset(),
        (forall|i: int| 0 <= i < items@.len() ==> (#[trigger] items@[i]).spec_size() <= bin_size)
            ==> forall|b: int| 0 <= b < r@.len() ==> size_sum(#[trigger] r@[b]@) <= bin_size,
{
    let ghost all = items@;
    let mut bins: Vec<Bin<T>> = Vec::with_capacity(lower_bound);
    bins.push(Bin::with_capacity(bin_size));
    proof {
        assert(all.take(0) =~= Seq::<T>::empty());
        assert(size_sum(Seq::<T>::empty()) == 0);
        assert(bins@[0]@ =~= first_fit_pack(bin_size, all.take(0))[0]);
    }
    let mut rest = items;
    let ghost mut done: int = 0;
    while rest.len() > 0
        invariant
            0 <= done <= all.len(),
            done + rest@.len() == all.len(),
            rest@ == all.skip(done),
            bin_size >= 1,
            bins_match(bins@, first_fit_pack(bin_size, all.take(done)), bin_size),
        decreases rest@.len(),
    {
        let ghost model = first_fit_pack(bin_size, all.take(done));
        let item = rest.remove(0);
        let ghost itemg = item;
        proof {
            assert(all.skip(done)[0] == all[done]);
            assert(rest@ =~= all.skip(done + 1));
        }
        let size = item.size();

        let n = bins.len();
        let mut j: usize = 0;
        while j < n && size > bins[j].remaining_capacity()
            invariant
                0 <= j <= n,
                n == bins@.len(),
                size == itemg.spec_size(),
                bin_size >= 1,
                bins_match(bins@, model, bin_size),
                forall|l: int| 0 <= l < j ==> !item_fits(bin_size, #[trigger] model[l], itemg),
            decreases n - j,
        {
            proof {
                assert(bins@[j as int].wf(bin_size));
            }
            j += 1;
        }

        proof {
            lemma_first_fit_index_props(bin_size, model, itemg);
            assert(all.take(done + 1).drop_last() =~= all.take(done));
            assert(all.take(done + 1).last() == all[done]);
        }
        if j < n {
            proof {
                assert(bins@[j as int].wf(bin_size));
                assert(item_fits(bin_size, model[j as int], itemg));
                assert(first_fit_index(bin_size, model, itemg) == j);
                lemma_size_sum_push(model[j as int], itemg);
            }
            let bin = &mut bins[j];
            bin.add_with_size(item, size);
            proof {
                let next = first_fit_pack(bin_size, all.take(done + 1));
                assert(next == first_fit_place(bin_size, model, itemg));
                assert(next == model.update(j as int, model[j as int].push(itemg)));
                assert(bins@[j as int]@ == model[j as int].push(itemg));
                assert(bins_match(bins@, next, bin_size));
            }
        } else {
            proof {
                assert(first_fit_index(bin_size, model, itemg) == model.len());
                lemma_size_sum_singleton(itemg);
            }
            bins.push(Bin::with_item_and_size(bin_size, item, size));
            proof {
                let next = first_fit_pack(bin_size, all.take(done + 1));
                assert(next == first_fit_place(bin_size, model, itemg));
                assert(next == model.push(seq![itemg]));
                assert(bins@[model.len() as int]@ =~= seq![itemg]);
                assert(bins_match(bins@, next, bin_size));
            }
        }
        proof {
            done = done + 1;
        }
    }
    proof {
        assert(all.take(done) =~= all);
        lemma_first_fit_conserves(bin_size, all);
        assert(bins_contents(bins@) =~= first_fit_pack(bin_size, all));
        if forall|i: int| 0 <= i < all.len() ==> (#[trigger] all[i]).spec_size() <= bin_size {
            lemma_first_fit_within_capacity(bin_size, all);
        }
    }
    bins
}

} // verus!
