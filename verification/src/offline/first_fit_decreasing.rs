//! The first-fit-decreasing packing algorithm: sort the items by
//! descending size, stably, then run the first-fit placement over the
//! sorted sequence.  Packing larger items first is what yields materially
//! better bin counts than plain first-fit on the same data.

use vstd::prelude::*;

use crate::Bin;
use crate::Pack;
use crate::model::bins_contents;
use crate::model::bins_match;
use crate::model::bins_multiset;
use crate::model::first_fit_pack;
use crate::model::insert_desc;
use crate::model::insert_desc_index;
use crate::model::items_of;
use crate::model::lemma_first_fit_conserves;
use crate::model::lemma_insert_desc_index_props;
use crate::model::lemma_sort_desc_contains;
use crate::model::lemma_sort_desc_multiset;
use crate::model::pair_sized;
use crate::model::sort_desc;
use crate::online::first_fit::__internal_first_fit;
use crate::sat_sub;
use crate::size_sum;
use crate::wrapper::pair_with_sizes;
use crate::wrapper::unwrap_bins;

verus! {

/// Pack items in bins using the first-fit-decreasing bin packing
/// algorithm.
///
/// The result is exactly [`first_fit_pack`] applied to [`sort_desc`] of
/// the input: the sort is stable, so equal-size items keep their arrival
/// order and two runs over equal inputs yield identical bins.  Every
/// input item ends up in exactly one bin, and when every item fits a bin
/// on its own, no bin is filled past `bin_size`.
pub fn first_fit_decreasing<T: Pack>(bin_size: usize, items: Vec<T>) -> (r: Vec<Bin<T>>)
    requires
        bin_size >= 1,
    ensures
        bins_match(r@, first_fit_pack(bin_size, sort_desc(items@)), bin_size),
        bins_multiset(bins_contents(r@)) == items@.to_multiset(),
        (forall|i: int| 0 <= i < items@.len() ==> (#[trigger] items@[i]).spec_size() <= bin_size)
            ==> forall|b: int| 0 <= b < r@.len() ==> size_sum(#[trigger] r@[b]@) <= bin_size,
{
    let ghost orig = items@;
    let items = sort_decreasing(items);
    let lower_bound = lower_bound_hint(bin_size, &items);
    let r = __internal_first_fit(bin_size, items, lower_bound);
    proof {
        lemma_sort_desc_multiset(orig);
        lemma_sort_desc_contains(orig);
        if forall|i: int| 0 <= i < orig.len() ==> (#[trigger] orig[i]).spec_size() <= bin_size {
            assert forall|i: int|
                0 <= i < sort_desc(orig).len() implies (#[trigger] sort_desc(
                orig,
            )[i]).spec_size() <= bin_size by {
                let j = choose|j: int| 0 <= j < orig.len() && orig[j] == sort_desc(orig)[i];
                assert(orig[j].spec_size() <= bin_size);
            }
        }
    }
    r
}

/// Pack items in bins using the first-fit-decreasing bin packing
/// algorithm.
///
/// Unlike [`first_fit_decreasing`], the items don't have to implement
/// [`Pack`].  Instead, you need to provide a function that returns the
/// size of the item; it is called once per item, up front.  The result is
/// exactly [`first_fit_pack`] over the stable descending sort of the
/// items paired with the sizes the function returned, with the pairing
/// stripped off again bin for bin.
pub fn first_fit_decreasing_by_key<T, SizeFunc>(
    bin_size: usize,
    items: Vec<T>,
    key_func: SizeFunc,
) -> (r: Vec<Bin<T>>)
    where
        SizeFunc: Fn(&T) -> usize,
    requires
        bin_size >= 1,
        forall|i: int| 0 <= i < items@.len() ==> call_requires(key_func, (&items@[i],)),
    ensures
        exists|szs: Seq<usize>|
            {
                &&& szs.len() == items@.len()
                &&& (forall|i: int|
                    0 <= i < items@.len() ==> call_ensures(
                        key_func,
                        (&items@[i],),
                        #[trigger] szs[i],
                    ))
                &&& r@.len() == first_fit_pack(
                    bin_size,
                    sort_desc(pair_sized(items@, szs)),
                ).len()
                &&& bins_multiset(first_fit_pack(bin_size, sort_desc(pair_sized(items@, szs))))
                    == pair_sized(items@, szs).to_multiset()
                &&& (forall|b: int|
                    0 <= b < r@.len() ==> (#[trigger] r@[b])@ == items_of(
                        first_fit_pack(bin_size, sort_desc(pair_sized(items@, szs)))[b],
                    ) && r@[b].spec_remaining() == sat_sub(
                        bin_size as int,
                        size_sum(first_fit_pack(bin_size, sort_desc(pair_sized(items@, szs)))[b]),
                    ))
            },
{
    let ghost items_g = items@;
    let (sized, szs) = pair_with_sizes(items, key_func);
    let ghost sized_g = sized@;
    let bins = first_fit_decreasing(bin_size, sized);
    let ghost bins_g = bins@;
    let r = unwrap_bins(bins);
    proof {
        let w = szs@;
        let model = first_fit_pack(bin_size, sort_desc(pair_sized(items_g, w)));
        assert(sized_g == pair_sized(items_g, w));
        lemma_first_fit_conserves(bin_size, sort_desc(pair_sized(items_g, w)));
        lemma_sort_desc_multiset(pair_sized(items_g, w));
        assert(r@.len() == model.len());
        assert forall|b: int| 0 <= b < r@.len() implies (#[trigger] r@[b])@ == items_of(model[b])
            && r@[b].spec_remaining() == sat_sub(bin_size as int, size_sum(model[b])) by {
            assert(bins_g[b]@ == model[b]);
            assert(bins_g[b].wf(bin_size));
            assert(r@[b]@ == items_of(bins_g[b]@));
        }
    }
    r
}

/// First-fit-decreasing is deterministic: over equal inputs the sorted
/// order, and with it every bin assignment, is a function of the input
/// alone — equal-size ties included, since the sort is stable.
pub proof fn lemma_first_fit_decreasing_deterministic<T: Pack>(
    cap: usize,
    items1: Seq<T>,
    items2: Seq<T>,
)
    requires
        items1 == items2,
    ensures
        first_fit_pack(cap, sort_desc(items1)) == first_fit_pack(cap, sort_desc(items2)),
{
}

/// Stable insertion sort by descending declared size.
///
/// The result is exactly [`sort_desc`] of the input.
fn sort_decreasing<T: Pack>(items: Vec<T>) -> (r: Vec<T>)
    ensures
        r@ == sort_desc(items@),
{
    let ghost all = items@;
    let mut rest = items;
    let mut sorted: Vec<T> = Vec::new();
    let ghost mut done: int = 0;
    proof {
        assert(all.take(0) =~= Seq::<T>::empty());
    }
    while rest.len() > 0
        invariant
            0 <= done <= all.len(),
            done + rest@.len() == all.len(),
            rest@ == all.skip(done),
            sorted@ == sort_desc(all.take(done)),
        decreases rest@.len(),
    {
        let ghost prev = sorted@;
        let item = rest.remove(0);
        let ghost itemg = item;
        proof {
            assert(all.skip(done)[0] == all[done]);
            assert(rest@ =~= all.skip(done + 1));
        }
        let size = item.size();

        let n = sorted.len();
        let mut p: usize = 0;
        while p < n && sorted[p].size() >= size
            invariant
                0 <= p <= n,
                n == sorted@.len(),
                sorted@ == prev,
                size == itemg.spec_size(),
                forall|l: int| 0 <= l < p ==> (#[trigger] prev[l]).spec_size() >= itemg.spec_size(),
            decreases n - p,
        {
            p += 1;
        }
        proof {
            lemma_insert_desc_index_props(prev, itemg);
            assert(insert_desc_index(prev, itemg) == p);
            assert(all.take(done + 1).drop_last() =~= all.take(done));
            assert(all.take(done + 1).last() == all[done]);
        }
        sorted.insert(p, item);
        proof {
            assert(sorted@ == insert_desc(prev, itemg));
            done = done + 1;
        }
    }
    proof {
        assert(all.take(done) =~= all);
    }
    sorted
}

/// `ceil(total_size / bin_size)`: a lower bound on the number of bins the
/// items can need, used only to pre-size storage.  The total saturates
/// rather than overflowing; the hint never changes any result.
fn lower_bound_hint<T: Pack>(bin_size: usize, items: &Vec<T>) -> (r: usize)
    requires
        bin_size >= 1,
{
    let mut total: usize = 0;
    let mut i: usize = 0;
    while i < items.len()
        invariant
            0 <= i <= items@.len(),
        decreases items@.len() - i,
    {
        let s = items[i].size();
        total = if s <= usize::MAX - total {
            total + s
        } else {
            usize::MAX
        };
        i += 1;
    }
    if total == 0 {
        1
    } else {
        1 + (total - 1) / bin_size
    }
}

} // verus!
