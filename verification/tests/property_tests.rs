use pack_it_up::Bin;
use pack_it_up::SizedItem;
use pack_it_up::offline::first_fit_decreasing::first_fit_decreasing;
use pack_it_up::online::OnlinePacker;
use pack_it_up::online::OnlinePackerError;
use pack_it_up::online::first_fit::first_fit;
use pack_it_up::online::next_k_fit::NextKFitPacker;

fn sized(sizes: &[usize]) -> Vec<SizedItem<usize>> {
    sizes
        .iter()
        .enumerate()
        .map(|(i, s)| SizedItem { item: i, size: *s })
        .collect()
}

/// No bin of any run is ever filled past the capacity when every item
/// fits a bin on its own.
#[test]
fn capacity_never_exceeded() {
    let cap = 20;
    let bins = first_fit(cap, sized(&[1, 1, 1, 1, 3, 4, 10, 10, 10, 19, 19]));
    for bin in &bins {
        let total: usize = bin.contents().iter().map(|si| si.size).sum();
        assert!(total <= cap);
        assert_eq!(bin.remaining_capacity(), cap - total);
    }
    let bins = first_fit_decreasing(cap, sized(&[1, 1, 1, 1, 3, 4, 10, 10, 10, 19, 19]));
    for bin in &bins {
        let total: usize = bin.contents().iter().map(|si| si.size).sum();
        assert!(total <= cap);
    }
}

/// Every input item ends up in exactly one emitted bin: nothing is lost,
/// duplicated, or silently dropped.
#[test]
fn items_are_conserved() {
    let input = sized(&[7, 3, 9, 2, 2, 5, 8, 1]);
    let bins = first_fit_decreasing(10, input);
    let mut seen: Vec<usize> = bins
        .iter()
        .flat_map(|bin| bin.contents().iter().map(|si| si.item))
        .collect();
    seen.sort();
    assert_eq!(seen, vec![0, 1, 2, 3, 4, 5, 6, 7]);

    let packer = NextKFitPacker::new(2, 10);
    let bins = match packer.pack_all(sized(&[7, 3, 9, 2, 2, 5, 8, 1])) {
        Ok(bins) => bins,
        Err(_) => panic!("pack_all failed"),
    };
    let mut seen: Vec<usize> = bins
        .iter()
        .flat_map(|bin| bin.contents().iter().map(|si| si.item))
        .collect();
    seen.sort();
    assert_eq!(seen, vec![0, 1, 2, 3, 4, 5, 6, 7]);
}

/// On the shared dataset, first-fit-decreasing needs no more bins than
/// first-fit.
#[test]
fn decreasing_beats_plain_first_fit_on_dataset_a() {
    let sizes = [1, 1, 1, 1, 3, 4, 10, 10, 10, 19, 19];
    let ff = first_fit(20, sized(&sizes));
    let ffd = first_fit_decreasing(20, sized(&sizes));
    assert_eq!(ff.len(), 5);
    assert_eq!(ffd.len(), 4);
}

/// First-fit-decreasing is deterministic: two runs over the same input
/// produce identical bins, equal-size ties included.
#[test]
fn decreasing_is_deterministic() {
    let sizes = [5, 7, 5, 3, 7, 2, 5, 9];
    let first = first_fit_decreasing(12, sized(&sizes));
    let second = first_fit_decreasing(12, sized(&sizes));
    assert_eq!(first.len(), second.len());
    for (a, b) in first.iter().zip(second.iter()) {
        assert_eq!(a.contents(), b.contents());
        assert_eq!(a.remaining_capacity(), b.remaining_capacity());
    }
    // Equal-size items keep their arrival order.
    let all: Vec<usize> = first
        .iter()
        .flat_map(|bin| bin.contents().iter().map(|si| si.item))
        .collect();
    let fives: Vec<usize> = all
        .iter()
        .copied()
        .filter(|i| sizes[*i] == 5)
        .collect();
    assert_eq!(fives, vec![0, 2, 6]);
}

/// With K = 1 the packer behaves as plain next-fit: an item is placed in
/// the single open bin if it fits, otherwise the open bin closes and a
/// new one opens.
#[test]
fn next_1_fit_is_next_fit() {
    let mut packer = NextKFitPacker::new(1, 10);
    let closed = packer.add(SizedItem { item: 'a', size: 6 });
    assert!(closed.is_empty());
    let closed = packer.add(SizedItem { item: 'b', size: 5 });
    assert_eq!(closed.len(), 1);
    assert_eq!(closed[0].contents(), &[SizedItem { item: 'a', size: 6 }][..]);
    let remaining = packer.finalize();
    assert_eq!(remaining.len(), 1);
    assert_eq!(remaining[0].contents(), &[SizedItem { item: 'b', size: 5 }][..]);
}

/// Relabeling a bin's contents keeps element order and count and leaves
/// the remaining capacity untouched, whatever the new type's sizes are.
#[test]
fn map_relabels_without_repacking() {
    let bins = first_fit(10, sized(&[2, 3]));
    assert_eq!(bins.len(), 1);
    let bin: Bin<SizedItem<usize>> = bins.into_iter().next().unwrap();
    assert_eq!(bin.remaining_capacity(), 5);
    let relabeled: Bin<String> = bin.map(|si| format!("#{}", si.item));
    assert_eq!(relabeled.contents(), &["#0".to_string(), "#1".to_string()][..]);
    assert_eq!(relabeled.remaining_capacity(), 5);
}

/// A too-large item comes back inside the error, with no bins closed and
/// the packer left as it was.
#[test]
fn too_large_item_is_returned() {
    let mut packer = NextKFitPacker::new(1, 20);
    match packer.try_add(SizedItem { item: (), size: 50 }) {
        Ok(_) => panic!("a size-50 item must not fit bins of size 20"),
        Err(OnlinePackerError::ItemTooLarge(item)) => {
            assert_eq!(item, SizedItem { item: (), size: 50 });
        }
    }
    assert!(packer.finalize().is_empty());
}

/// A failed `pack_all` hands back the error, the still-usable packer, the
/// unconsumed remainder, and the bins closed so far.
#[test]
fn pack_all_resumes_after_failure() {
    let packer = NextKFitPacker::new(1, 20);
    let items = vec![
        SizedItem { item: 'a', size: 5 },
        SizedItem { item: 'b', size: 50 },
        SizedItem { item: 'c', size: 7 },
    ];
    match packer.pack_all(items) {
        Ok(_) => panic!("packing must stop at the size-50 item"),
        Err((OnlinePackerError::ItemTooLarge(item), packer, remainder, closed)) => {
            assert_eq!(item, SizedItem { item: 'b', size: 50 });
            assert_eq!(remainder, vec![SizedItem { item: 'c', size: 7 }]);
            assert!(closed.is_empty());
            let still_open = packer.finalize();
            assert_eq!(still_open.len(), 1);
            assert_eq!(still_open[0].contents(), &[SizedItem { item: 'a', size: 5 }][..]);
        }
    }
}

/// Offline packing never rejects an item: one too big for any bin is
/// force-inserted alone, and the bin's remaining capacity floors at zero
/// instead of going negative.
#[test]
fn oversized_item_gets_own_saturated_bin() {
    let bins = first_fit(20, sized(&[30, 5]));
    assert_eq!(bins.len(), 2);
    assert_eq!(bins[0].contents(), &[SizedItem { item: 1, size: 5 }][..]);
    assert_eq!(bins[0].remaining_capacity(), 15);
    assert_eq!(bins[1].contents(), &[SizedItem { item: 0, size: 30 }][..]);
    assert_eq!(bins[1].remaining_capacity(), 0);
}

/// The offline scan starts from one primed empty bin, so an empty input
/// yields that single empty bin at full capacity.
#[test]
fn empty_offline_input_keeps_primed_bin() {
    let bins: Vec<Bin<SizedItem<()>>> = first_fit(20, vec![]);
    assert_eq!(bins.len(), 1);
    assert!(bins[0].contents().is_empty());
    assert_eq!(bins[0].remaining_capacity(), 20);
}

/// Consuming a bin hands ownership of its contents to the caller, in
/// placement order.
#[test]
fn into_contents_hands_over_the_items() {
    let bins = first_fit(10, sized(&[4, 5]));
    assert_eq!(bins.len(), 1);
    let contents = bins.into_iter().next().unwrap().into_contents();
    assert_eq!(
        contents,
        vec![SizedItem { item: 0, size: 4 }, SizedItem { item: 1, size: 5 }]
    );
}

/// An order-dependent dataset: plain first-fit profits from a lucky
/// arrival order that the descending sort destroys.
#[test]
fn sorting_can_cost_bins() {
    let sizes = [4, 3, 3, 4, 3, 3];
    let ff = first_fit(10, sized(&sizes));
    let ffd = first_fit_decreasing(10, sized(&sizes));
    assert_eq!(ff.len(), 2);
    assert_eq!(ffd.len(), 3);
}
