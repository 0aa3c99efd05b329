use pack_it_up::Bin;
use pack_it_up::SizedItem;
use pack_it_up::offline::first_fit_decreasing::first_fit_decreasing;
use pack_it_up::offline::first_fit_decreasing::first_fit_decreasing_by_key;

fn generate_test_set_a() -> (Vec<SizedItem<()>>, usize) {
    let sizes = [1, 1, 1, 1, 3, 4, 10, 10, 10, 19, 19];
    let items = sizes.iter().map(|s| SizedItem { item: (), size: *s }).collect();
    (items, 20)
}

fn assert_bins_match(bins: &[Bin<SizedItem<()>>], bin_size: usize, expected: &[Vec<usize>]) {
    assert_eq!(bins.len(), expected.len());
    for (bin, sizes) in bins.iter().zip(expected.iter()) {
        let expected_items: Vec<SizedItem<()>> =
            sizes.iter().map(|s| SizedItem { item: (), size: *s }).collect();
        assert_eq!(bin.contents(), &expected_items[..]);
        assert_eq!(bin.remaining_capacity(), bin_size - sizes.iter().sum::<usize>());
    }
}

#[test]
fn first_fit_decreasing_it_works() {
    let (test_data, bin_size) = generate_test_set_a();

    let result = first_fit_decreasing(bin_size, test_data);

    // First fit decreasing would result in the optimal solution
    let expected = vec![
        vec![19, 1],          // 20
        vec![19, 1],          // 20
        vec![10, 10],         // 20
        vec![10, 4, 3, 1, 1], // 19
    ];

    assert_bins_match(&result, 20, &expected);
}

#[test]
fn first_fit_decreasing_it_works_by_key() {
    let (test_data, bin_size) = generate_test_set_a();

    let result = first_fit_decreasing_by_key(bin_size, test_data, |item: &SizedItem<()>| item.size);

    // First fit decreasing by key would result in the optimal solution
    let expected = vec![
        vec![19, 1],          // 20
        vec![19, 1],          // 20
        vec![10, 10],         // 20
        vec![10, 4, 3, 1, 1], // 19
    ];

    assert_bins_match(&result, 20, &expected);
}
