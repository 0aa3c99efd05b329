//! The mathematical model of the packing algorithms.
//!
//! The executable entry points promise that their output equals the
//! functions defined here, so everything the library guarantees — the
//! capacity invariant, conservation of items, determinism — is stated and
//! proved once, about these definitions.

use vstd::multiset::Multiset;
use vstd::prelude::*;

use crate::Bin;
use crate::Pack;
use crate::SizedItem;
use crate::sat_sub;
use crate::size_sum;

verus! {

/// Whether an item fits into a bin holding `bin` under capacity `cap`:
/// its size is at most the remaining capacity.
pub open spec fn item_fits<T: Pack>(cap: usize, bin: Seq<T>, item: T) -> bool {
    item.spec_size() <= sat_sub(cap as int, size_sum(bin))
}

/// The index of the first bin that `item` fits into, in scan order,
/// or `bins.len()` when it fits into none.
pub open spec fn first_fit_index<T: Pack>(cap: usize, bins: Seq<Seq<T>>, item: T) -> int
    decreases bins.len(),
{
    if bins.len() == 0 {
        0
    } else if item_fits(cap, bins[0], item) {
        0
    } else {
        1 + first_fit_index(cap, bins.skip(1), item)
    }
}

/// One first-fit placement step: the item goes into the first bin it fits
/// into, or into a brand-new bin appended at the end.
pub open spec fn first_fit_place<T: Pack>(cap: usize, bins: Seq<Seq<T>>, item: T) -> Seq<
    Seq<T>,
> {
    let i = first_fit_index(cap, bins, item);
    if i < bins.len() {
        bins.update(i, bins[i].push(item))
    } else {
        bins.push(seq![item])
    }
}

/// The whole first-fit run: starting from a single empty bin, each item in
/// turn is placed by [`first_fit_place`].
pub open spec fn first_fit_pack<T: Pack>(cap: usize, items: Seq<T>) -> Seq<Seq<T>>
    decreases items.len(),
{
    if items.len() == 0 {
        seq![Seq::<T>::empty()]
    } else {
        first_fit_place(cap, first_fit_pack(cap, items.drop_last()), items.last())
    }
}

/// All items held by a sequence of bins, as a multiset.
pub open spec fn bins_multiset<T>(bins: Seq<Seq<T>>) -> Multiset<T>
    decreases bins.len(),
{
    if bins.len() == 0 {
        Multiset::empty()
    } else {
        bins_multiset(bins.drop_last()).add(bins.last().to_multiset())
    }
}

/// A sequence of executable bins realises a model: contents agree bin for
/// bin, and each bin's remaining-capacity counter obeys its invariant
/// against `cap`.
pub open spec fn bins_match<T: Pack>(bins: Seq<Bin<T>>, model: Seq<Seq<T>>, cap: usize) -> bool {
    &&& bins.len() == model.len()
    &&& forall|i: int| 0 <= i < bins.len() ==> #[trigger] bins[i]@ == model[i]
    &&& forall|i: int| 0 <= i < bins.len() ==> (#[trigger] bins[i]).wf(cap)
}

/// Appending an item adds its size to the total.
pub proof fn lemma_size_sum_push<T: Pack>(s: Seq<T>, x: T)
    ensures
        size_sum(s.push(x)) == size_sum(s) + x.spec_size(),
{
    assert(s.push(x).drop_last() =~= s);
}

/// A one-item sequence weighs exactly that item.
pub proof fn lemma_size_sum_singleton<T: Pack>(x: T)
    ensures
        size_sum(seq![x]) == x.spec_size(),
{
    assert(seq![x].drop_last() =~= Seq::<T>::empty());
    assert(size_sum(Seq::<T>::empty()) == 0);
    assert(seq![x].last() == x);
}

/// What [`first_fit_index`] returns: a position no later than the end, with
/// a fit there if it is a real position, and no fit anywhere before it.
pub proof fn lemma_first_fit_index_props<T: Pack>(cap: usize, bins: Seq<Seq<T>>, item: T)
    ensures
        0 <= first_fit_index(cap, bins, item) <= bins.len(),
        first_fit_index(cap, bins, item) < bins.len() ==> item_fits(
            cap,
            bins[first_fit_index(cap, bins, item)],
            item,
        ),
        forall|j: int|
            0 <= j < first_fit_index(cap, bins, item) ==> !item_fits(cap, #[trigger] bins[j], item),
    decreases bins.len(),
{
    if bins.len() == 0 {
    } else if item_fits(cap, bins[0], item) {
    } else {
        lemma_first_fit_index_props(cap, bins.skip(1), item);
        assert forall|j: int|
            0 <= j < first_fit_index(cap, bins, item) implies !item_fits(
            cap,
            #[trigger] bins[j],
            item,
        ) by {
            if j > 0 {
                assert(bins[j] == bins.skip(1)[j - 1]);
            }
        }
    }
}

/// Where a stable descending insertion puts an item: after every element
/// whose size is at least its own, before the first strictly smaller one.
/// Ties therefore keep their arrival order.
pub open spec fn insert_desc_index<T: Pack>(sorted: Seq<T>, item: T) -> int
    decreases sorted.len(),
{
    if sorted.len() == 0 {
        0
    } else if sorted[0].spec_size() < item.spec_size() {
        0
    } else {
        1 + insert_desc_index(sorted.skip(1), item)
    }
}

/// Insert an item into a descending sequence, keeping it descending and
/// keeping equal-size elements in arrival order.
pub open spec fn insert_desc<T: Pack>(sorted: Seq<T>, item: T) -> Seq<T> {
    sorted.insert(insert_desc_index(sorted, item), item)
}

/// The stable sort by descending size: each item in turn is placed by
/// [`insert_desc`] into the sorted prefix.
pub open spec fn sort_desc<T: Pack>(items: Seq<T>) -> Seq<T>
    decreases items.len(),
{
    if items.len() == 0 {
        Seq::empty()
    } else {
        insert_desc(sort_desc(items.drop_last()), items.last())
    }
}

/// A sequence is ordered by weakly descending size.
pub open spec fn is_desc<T: Pack>(s: Seq<T>) -> bool {
    forall|i: int, j: int| 0 <= i <= j < s.len() ==> s[i].spec_size() >= s[j].spec_size()
}

/// What [`insert_desc_index`] returns: a position no later than the end,
/// everything before it at least as big as the item, and the element at it
/// (when it is a real position) strictly smaller.
pub proof fn lemma_insert_desc_index_props<T: Pack>(sorted: Seq<T>, item: T)
    ensures
        0 <= insert_desc_index(sorted, item) <= sorted.len(),
        forall|l: int|
            0 <= l < insert_desc_index(sorted, item) ==> (#[trigger] sorted[l]).spec_size()
                >= item.spec_size(),
        insert_desc_index(sorted, item) < sorted.len() ==> sorted[insert_desc_index(
            sorted,
            item,
        )].spec_size() < item.spec_size(),
    decreases sorted.len(),
{
    if sorted.len() == 0 {
    } else if sorted[0].spec_size() < item.spec_size() {
    } else {
        lemma_insert_desc_index_props(sorted.skip(1), item);
        assert forall|l: int|
            0 <= l < insert_desc_index(sorted, item) implies (#[trigger] sorted[l]).spec_size()
            >= item.spec_size() by {
            if l > 0 {
                assert(sorted[l] == sorted.skip(1)[l - 1]);
            }
        }
        if insert_desc_index(sorted, item) < sorted.len() {
            assert(sorted[insert_desc_index(sorted, item)] == sorted.skip(1)[insert_desc_index(
                sorted.skip(1),
                item,
            )]);
        }
    }
}

/// Inserting into a descending sequence keeps it descending.
pub proof fn lemma_insert_desc_keeps_desc<T: Pack>(sorted: Seq<T>, item: T)
    requires
        is_desc(sorted),
    ensures
        is_desc(insert_desc(sorted, item)),
{
    lemma_insert_desc_index_props(sorted, item);
    let p = insert_desc_index(sorted, item);
    let r = insert_desc(sorted, item);
    sorted.insert_ensures(p, item);
    assert forall|i: int, j: int| 0 <= i <= j < r.len() implies r[i].spec_size()
        >= r[j].spec_size() by {
        if i < p && j < p {
            assert(r[i] == sorted[i] && r[j] == sorted[j]);
        } else if i < p && j == p {
            assert(r[i] == sorted[i]);
        } else if i < p && j > p {
            assert(r[i] == sorted[i] && r[j] == sorted[j - 1]);
        } else if i == p && j == p {
        } else if i == p && j > p {
            assert(r[j] == sorted[j - 1]);
            assert(p <= j - 1 < sorted.len());
            assert(sorted[p].spec_size() >= sorted[j - 1].spec_size());
        } else {
            assert(r[i] == sorted[i - 1] && r[j] == sorted[j - 1]);
        }
    }
}

/// The sort's output is ordered by weakly descending size.
pub proof fn lemma_sort_desc_is_desc<T: Pack>(items: Seq<T>)
    ensures
        is_desc(sort_desc(items)),
    decreases items.len(),
{
    if items.len() == 0 {
    } else {
        lemma_sort_desc_is_desc(items.drop_last());
        lemma_insert_desc_keeps_desc(sort_desc(items.drop_last()), items.last());
    }
}

/// Inserting an item anywhere adds exactly that item to the multiset.
pub proof fn lemma_seq_insert_multiset<T>(s: Seq<T>, i: int, x: T)
    requires
        0 <= i <= s.len(),
    ensures
        s.insert(i, x).to_multiset() =~= s.to_multiset().insert(x),
{
    broadcast use vstd::seq_lib::group_to_multiset_ensures;
    broadcast use vstd::multiset::group_multiset_axioms;

    let u = s.insert(i, x);
    assert(u.remove(i) =~= s);
    assert(u[i] == x);
    assert(u.remove(i).to_multiset() =~= u.to_multiset().remove(x));
    assert(u.to_multiset().contains(x));
}

/// The sort permutes its input: same items, same number of times.
pub proof fn lemma_sort_desc_multiset<T: Pack>(items: Seq<T>)
    ensures
        sort_desc(items).to_multiset() =~= items.to_multiset(),
    decreases items.len(),
{
    broadcast use vstd::seq_lib::group_to_multiset_ensures;
    broadcast use vstd::multiset::group_multiset_axioms;

    if items.len() == 0 {
        assert(items.to_multiset() =~= Multiset::<T>::empty());
        assert(sort_desc(items).to_multiset() =~= Multiset::<T>::empty());
    } else {
        let prev = sort_desc(items.drop_last());
        lemma_sort_desc_multiset(items.drop_last());
        lemma_insert_desc_index_props(prev, items.last());
        lemma_seq_insert_multiset(prev, insert_desc_index(prev, items.last()), items.last());
        assert(items.drop_last().push(items.last()) =~= items);
    }
}

/// Every element of the sort's output occurs in its input.
pub proof fn lemma_sort_desc_contains<T: Pack>(items: Seq<T>)
    ensures
        forall|i: int|
            0 <= i < sort_desc(items).len() ==> items.contains(#[trigger] sort_desc(items)[i]),
        sort_desc(items).len() == items.len(),
{
    broadcast use vstd::seq_lib::group_to_multiset_ensures;
    broadcast use vstd::multiset::group_multiset_axioms;

    lemma_sort_desc_multiset(items);
    assert forall|i: int| 0 <= i < sort_desc(items).len() implies items.contains(
        #[trigger] sort_desc(items)[i],
    ) by {
        assert(sort_desc(items).contains(sort_desc(items)[i]));
        assert(sort_desc(items).to_multiset().count(sort_desc(items)[i]) > 0);
    }
    assert(sort_desc(items).to_multiset().len() == items.to_multiset().len());
}

/// The contents of a sequence of executable bins, bin for bin.
pub open spec fn bins_contents<T>(bins: Seq<Bin<T>>) -> Seq<Seq<T>> {
    bins.map_values(|b: Bin<T>| b@)
}

/// The total of a sequence of recorded sizes.
pub open spec fn usize_sum(s: Seq<usize>) -> int
    decreases s.len(),
{
    if s.len() == 0 {
        0
    } else {
        usize_sum(s.drop_last()) + s.last()
    }
}

/// Appending a size adds it to the total.
pub proof fn lemma_usize_sum_push(s: Seq<usize>, x: usize)
    ensures
        usize_sum(s.push(x)) == usize_sum(s) + x,
{
    assert(s.push(x).drop_last() =~= s);
}

/// A one-entry sequence totals exactly that entry.
pub proof fn lemma_usize_sum_singleton(x: usize)
    ensures
        usize_sum(seq![x]) == x,
{
    assert(seq![x].drop_last() =~= Seq::<usize>::empty());
    assert(usize_sum(Seq::<usize>::empty()) == 0);
    assert(seq![x].last() == x);
}

/// When every recorded size agrees with the item's own declared size, the
/// totals agree too.
pub proof fn lemma_usize_sum_matches_size_sum<T: Pack>(items: Seq<T>, sizes: Seq<usize>)
    requires
        sizes.len() == items.len(),
        forall|j: int| 0 <= j < sizes.len() ==> #[trigger] sizes[j] == items[j].spec_size(),
    ensures
        usize_sum(sizes) == size_sum(items),
    decreases items.len(),
{
    if items.len() > 0 {
        lemma_usize_sum_matches_size_sum(items.drop_last(), sizes.drop_last());
    }
}

/// The index of the first remaining capacity that a size `s` fits into,
/// or `rems.len()` when it fits nowhere.
pub open spec fn fit_index(rems: Seq<usize>, s: usize) -> int
    decreases rems.len(),
{
    if rems.len() == 0 {
        0
    } else if s <= rems[0] {
        0
    } else {
        1 + fit_index(rems.skip(1), s)
    }
}

/// What [`fit_index`] returns: a position no later than the end, with a
/// fit there if it is a real position, and no fit anywhere before it.
pub proof fn lemma_fit_index_props(rems: Seq<usize>, s: usize)
    ensures
        0 <= fit_index(rems, s) <= rems.len(),
        fit_index(rems, s) < rems.len() ==> s <= rems[fit_index(rems, s)],
        forall|l: int| 0 <= l < fit_index(rems, s) ==> s > rems[l],
    decreases rems.len(),
{
    if rems.len() == 0 {
    } else if s <= rems[0] {
    } else {
        lemma_fit_index_props(rems.skip(1), s);
        assert forall|l: int| 0 <= l < fit_index(rems, s) implies s > rems[l] by {
            if l > 0 {
                assert(rems[l] == rems.skip(1)[l - 1]);
            }
        }
        if fit_index(rems, s) < rems.len() {
            assert(rems[fit_index(rems, s)] == rems.skip(1)[fit_index(rems.skip(1), s)]);
        }
    }
}

/// The position of the bin with the least remaining capacity — the
/// most-filled bin — with ties broken by first occurrence in scan order.
pub open spec fn most_filled_index(rems: Seq<usize>) -> int
    decreases rems.len(),
{
    if rems.len() <= 1 {
        0
    } else {
        let rest = most_filled_index(rems.skip(1));
        if rems[0] <= rems[1 + rest] {
            0
        } else {
            1 + rest
        }
    }
}

/// What [`most_filled_index`] returns: a real position, no remaining
/// capacity anywhere is smaller, and everything before it is strictly
/// bigger.
pub proof fn lemma_most_filled_index_props(rems: Seq<usize>)
    requires
        rems.len() >= 1,
    ensures
        0 <= most_filled_index(rems) < rems.len(),
        forall|l: int| 0 <= l < rems.len() ==> rems[most_filled_index(rems)] <= #[trigger] rems[l],
        forall|l: int| 0 <= l < most_filled_index(rems) ==> #[trigger] rems[l] > rems[
            most_filled_index(rems)
        ],
    decreases rems.len(),
{
    if rems.len() == 1 {
    } else {
        lemma_most_filled_index_props(rems.skip(1));
        let m = most_filled_index(rems);
        assert forall|l: int| 0 <= l < rems.len() implies rems[m] <= #[trigger] rems[l] by {
            if l > 0 {
                assert(rems[l] == rems.skip(1)[l - 1]);
            }
        }
        assert forall|l: int| 0 <= l < m implies #[trigger] rems[l] > rems[m] by {
            if l > 0 {
                assert(rems[l] == rems.skip(1)[l - 1]);
            }
        }
    }
}

/// Appending a bin adds exactly its contents to the bins' multiset.
pub proof fn lemma_bins_multiset_push<T>(bins: Seq<Seq<T>>, b: Seq<T>)
    ensures
        bins_multiset(bins.push(b)) =~= bins_multiset(bins).add(b.to_multiset()),
{
    assert(bins.push(b).drop_last() =~= bins);
    assert(bins.push(b).last() == b);
}

/// Each item paired with the size that was computed for it.
pub open spec fn pair_sized<T>(items: Seq<T>, szs: Seq<usize>) -> Seq<SizedItem<T>> {
    Seq::new(items.len(), |i: int| SizedItem { item: items[i], size: szs[i] })
}

/// The bare items of a sequence of explicitly sized ones.
pub open spec fn items_of<T>(paired: Seq<SizedItem<T>>) -> Seq<T> {
    paired.map_values(|si: SizedItem<T>| si.item)
}

/// The bins that hold at least one item, in their original order.
pub open spec fn nonempty_bins<T>(bins: Seq<Bin<T>>) -> Seq<Bin<T>>
    decreases bins.len(),
{
    if bins.len() == 0 {
        Seq::empty()
    } else if bins.last()@.len() > 0 {
        nonempty_bins(bins.drop_last()).push(bins.last())
    } else {
        nonempty_bins(bins.drop_last())
    }
}

/// The remaining capacity of each bin, slot for slot.
pub open spec fn bins_rems<T>(bins: Seq<Bin<T>>) -> Seq<usize> {
    bins.map_values(|b: Bin<T>| b.spec_remaining())
}

/// Each bin reduced to what a caller can observe of it: its contents and
/// its remaining-capacity counter.
pub open spec fn bin_views<T>(bins: Seq<Bin<T>>) -> Seq<(Seq<T>, usize)> {
    bins.map_values(|b: Bin<T>| (b@, b.spec_remaining()))
}

/// Contents and remaining capacities zipped into pairs, slot for slot.
pub open spec fn pairs_of<T>(contents: Seq<Seq<T>>, rems: Seq<usize>) -> Seq<(Seq<T>, usize)> {
    Seq::new(contents.len(), |i: int| (contents[i], rems[i]))
}

/// The pairs whose contents hold at least one item, in original order.
pub open spec fn nonempty_pairs<T>(pairs: Seq<(Seq<T>, usize)>) -> Seq<(Seq<T>, usize)>
    decreases pairs.len(),
{
    if pairs.len() == 0 {
        Seq::empty()
    } else if pairs.last().0.len() > 0 {
        nonempty_pairs(pairs.drop_last()).push(pairs.last())
    } else {
        nonempty_pairs(pairs.drop_last())
    }
}

/// Dropping empty bins commutes with reducing bins to their observable
/// pairs.
pub proof fn lemma_nonempty_bins_views<T>(bins: Seq<Bin<T>>)
    ensures
        bin_views(nonempty_bins(bins)) == nonempty_pairs(
            pairs_of(bins_contents(bins), bins_rems(bins)),
        ),
    decreases bins.len(),
{
    let pairs = pairs_of(bins_contents(bins), bins_rems(bins));
    if bins.len() == 0 {
        assert(bin_views(nonempty_bins(bins)) =~= Seq::<(Seq<T>, usize)>::empty());
        assert(pairs =~= Seq::<(Seq<T>, usize)>::empty());
        assert(nonempty_pairs(pairs) =~= Seq::<(Seq<T>, usize)>::empty());
    } else {
        let dl = bins.drop_last();
        lemma_nonempty_bins_views(dl);
        assert(pairs.drop_last() =~= pairs_of(bins_contents(dl), bins_rems(dl)));
        assert(pairs.last() == (bins.last()@, bins.last().spec_remaining()));
        if bins.last()@.len() > 0 {
            assert(nonempty_bins(bins) == nonempty_bins(dl).push(bins.last()));
            assert(bin_views(nonempty_bins(dl).push(bins.last())) =~= bin_views(
                nonempty_bins(dl),
            ).push((bins.last()@, bins.last().spec_remaining())));
            assert(nonempty_pairs(pairs) == nonempty_pairs(pairs.drop_last()).push(pairs.last()));
        } else {
            assert(nonempty_bins(bins) == nonempty_bins(dl));
            assert(nonempty_pairs(pairs) == nonempty_pairs(pairs.drop_last()));
        }
    }
}

/// Concatenating bin sequences adds their multisets.
pub proof fn lemma_bins_multiset_concat<T>(a: Seq<Seq<T>>, b: Seq<Seq<T>>)
    ensures
        bins_multiset(a + b) =~= bins_multiset(a).add(bins_multiset(b)),
    decreases b.len(),
{
    broadcast use vstd::multiset::group_multiset_axioms;

    if b.len() == 0 {
        assert(a + b =~= a);
        assert(bins_multiset(b) == Multiset::<T>::empty());
    } else {
        assert((a + b).drop_last() =~= a + b.drop_last());
        assert((a + b).last() =~= b.last());
        lemma_bins_multiset_concat(a, b.drop_last());
        assert((a + b).len() > 0);
        assert(bins_multiset(a + b) == bins_multiset((a + b).drop_last()).add(
            (a + b).last().to_multiset(),
        ));
        assert(bins_multiset(b) == bins_multiset(b.drop_last()).add(b.last().to_multiset()));
    }
}

/// Replacing one bin trades its old contents for the new ones in the
/// bins' multiset.
pub proof fn lemma_bins_multiset_replace<T>(bins: Seq<Seq<T>>, i: int, newb: Seq<T>)
    requires
        0 <= i < bins.len(),
    ensures
        bins_multiset(bins.update(i, newb)).add(bins[i].to_multiset()) =~= bins_multiset(
            bins,
        ).add(newb.to_multiset()),
    decreases bins.len(),
{
    broadcast use vstd::multiset::group_multiset_axioms;

    let u = bins.update(i, newb);
    if i == bins.len() - 1 {
        assert(u.drop_last() =~= bins.drop_last());
        assert(u.last() =~= newb);
        assert(bins[i] =~= bins.last());
        assert(bins_multiset(u) =~= bins_multiset(bins.drop_last()).add(newb.to_multiset()));
        assert(bins_multiset(bins) =~= bins_multiset(bins.drop_last()).add(
            bins.last().to_multiset(),
        ));
        assert(bins_multiset(u).add(bins[i].to_multiset()) =~= bins_multiset(bins).add(
            newb.to_multiset(),
        ));
    } else {
        assert(u.drop_last() =~= bins.drop_last().update(i, newb));
        assert(u.last() =~= bins.last());
        assert(bins.drop_last()[i] =~= bins[i]);
        lemma_bins_multiset_replace(bins.drop_last(), i, newb);
        assert(bins_multiset(u) == bins_multiset(u.drop_last()).add(u.last().to_multiset()));
        assert(bins_multiset(u) == bins_multiset(bins.drop_last().update(i, newb)).add(
            bins.last().to_multiset(),
        ));
        assert(bins_multiset(bins) == bins_multiset(bins.drop_last()).add(
            bins.last().to_multiset(),
        ));
        assert forall|x: T|
            bins_multiset(u).add(bins[i].to_multiset()).count(x) == bins_multiset(bins).add(
                newb.to_multiset(),
            ).count(x) by {
            let dl = bins.drop_last();
            assert(bins_multiset(u).add(bins[i].to_multiset()).count(x) == bins_multiset(
                u,
            ).count(x) + bins[i].to_multiset().count(x));
            assert(bins_multiset(bins).add(newb.to_multiset()).count(x) == bins_multiset(
                bins,
            ).count(x) + newb.to_multiset().count(x));
            assert(bins_multiset(u).count(x) == bins_multiset(dl.update(i, newb)).count(x)
                + bins.last().to_multiset().count(x));
            assert(bins_multiset(bins).count(x) == bins_multiset(dl).count(x)
                + bins.last().to_multiset().count(x));
            assert(bins_multiset(dl.update(i, newb)).add(dl[i].to_multiset()).count(x)
                == bins_multiset(dl).add(newb.to_multiset()).count(x));
            assert(bins_multiset(dl.update(i, newb)).add(dl[i].to_multiset()).count(x)
                == bins_multiset(dl.update(i, newb)).count(x) + dl[i].to_multiset().count(x));
            assert(bins_multiset(dl).add(newb.to_multiset()).count(x) == bins_multiset(dl).count(x)
                + newb.to_multiset().count(x));
        }
        assert(bins_multiset(u).add(bins[i].to_multiset()) =~= bins_multiset(bins).add(
            newb.to_multiset(),
        ));
    }
}

/// Growing one bin by an item grows the bins' multiset by that item.
pub proof fn lemma_bins_multiset_update<T>(bins: Seq<Seq<T>>, i: int, x: T)
    requires
        0 <= i < bins.len(),
    ensures
        bins_multiset(bins.update(i, bins[i].push(x))) =~= bins_multiset(bins).insert(x),
    decreases bins.len(),
{
    broadcast use vstd::seq_lib::group_to_multiset_ensures;

    let u = bins.update(i, bins[i].push(x));
    if i == bins.len() - 1 {
        assert(u.drop_last() =~= bins.drop_last());
        assert(u.last() == bins.last().push(x));
    } else {
        assert(u.drop_last() =~= bins.drop_last().update(i, bins.drop_last()[i].push(x)));
        assert(u.last() == bins.last());
        lemma_bins_multiset_update(bins.drop_last(), i, x);
    }
}

/// A placement step adds exactly the placed item to the bins' multiset.
pub proof fn lemma_first_fit_place_multiset<T: Pack>(cap: usize, bins: Seq<Seq<T>>, item: T)
    ensures
        bins_multiset(first_fit_place(cap, bins, item)) =~= bins_multiset(bins).insert(item),
{
    broadcast use vstd::seq_lib::group_to_multiset_ensures;

    lemma_first_fit_index_props(cap, bins, item);
    let i = first_fit_index(cap, bins, item);
    if i < bins.len() {
        lemma_bins_multiset_update(bins, i, item);
    } else {
        let u = bins.push(seq![item]);
        assert(u.drop_last() =~= bins);
        assert(u.last() == seq![item]);
        assert(seq![item] =~= Seq::<T>::empty().push(item));
        assert(seq![item].to_multiset() =~= Multiset::empty().insert(item));
    }
}

/// Conservation: the bins of a first-fit run hold exactly the input items,
/// no item lost or duplicated.
pub proof fn lemma_first_fit_conserves<T: Pack>(cap: usize, items: Seq<T>)
    ensures
        bins_multiset(first_fit_pack(cap, items)) =~= items.to_multiset(),
    decreases items.len(),
{
    broadcast use vstd::seq_lib::group_to_multiset_ensures;
    broadcast use vstd::multiset::group_multiset_axioms;

    if items.len() == 0 {
        let p = first_fit_pack(cap, items);
        assert(p.drop_last() =~= Seq::<Seq<T>>::empty());
        assert(p.last() =~= Seq::<T>::empty());
        assert(Seq::<T>::empty().to_multiset() =~= Multiset::<T>::empty());
        assert(items.to_multiset() =~= Multiset::<T>::empty());
        assert(bins_multiset(Seq::<Seq<T>>::empty()) == Multiset::<T>::empty());
        assert(bins_multiset(p) =~= Multiset::<T>::empty());
    } else {
        lemma_first_fit_conserves(cap, items.drop_last());
        lemma_first_fit_place_multiset(cap, first_fit_pack(cap, items.drop_last()), items.last());
        assert(items.drop_last().push(items.last()) =~= items);
    }
}

/// The capacity invariant: when every item fits a bin on its own, no bin of
/// a first-fit run is ever filled past the capacity.
pub proof fn lemma_first_fit_within_capacity<T: Pack>(cap: usize, items: Seq<T>)
    requires
        forall|i: int| 0 <= i < items.len() ==> (#[trigger] items[i]).spec_size() <= cap,
    ensures
        forall|b: int|
            0 <= b < first_fit_pack(cap, items).len() ==> size_sum(
                #[trigger] first_fit_pack(cap, items)[b],
            ) <= cap,
    decreases items.len(),
{
    if items.len() == 0 {
        assert(first_fit_pack(cap, items)[0] == Seq::<T>::empty());
        assert(size_sum(Seq::<T>::empty()) == 0);
    } else {
        let prev = first_fit_pack(cap, items.drop_last());
        let item = items.last();
        lemma_first_fit_within_capacity(cap, items.drop_last());
        lemma_first_fit_index_props(cap, prev, item);
        let i = first_fit_index(cap, prev, item);
        assert(item.spec_size() <= cap);
        if i < prev.len() {
            lemma_size_sum_push(prev[i], item);
            assert forall|b: int|
                0 <= b < first_fit_pack(cap, items).len() implies size_sum(
                #[trigger] first_fit_pack(cap, items)[b],
            ) <= cap by {
                if b != i {
                    assert(first_fit_pack(cap, items)[b] == prev[b]);
                }
            }
        } else {
            lemma_size_sum_singleton(item);
            assert forall|b: int|
                0 <= b < first_fit_pack(cap, items).len() implies size_sum(
                #[trigger] first_fit_pack(cap, items)[b],
            ) <= cap by {
                if b < prev.len() {
                    assert(first_fit_pack(cap, items)[b] == prev[b]);
                }
            }
        }
    }
}

} // verus!
