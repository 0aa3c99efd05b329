use pack_it_up::Bin;
use pack_it_up::SizedItem;
use pack_it_up::online::OnlinePacker;
use pack_it_up::online::first_fit::first_fit;
use pack_it_up::online::first_fit::first_fit_by_key;
use pack_it_up::online::next_k_fit::NextKFitPacker;

fn generate_test_set_a() -> (Vec<SizedItem<()>>, usize) {
    let sizes = [1, 1, 1, 1, 3, 4, 10, 10, 10, 19, 19];
    let items = sizes.iter().map(|s| SizedItem { item: (), size: *s }).collect();
    (items, 20)
}

fn assert_bins_match(bins: &[Bin<SizedItem<()>>], bin_size: usize, expected: &[Vec<usize>]) {
    assert_eq!(bins.len(), expected.len());
    for (bin, sizes) in bins.iter().zip(expected.iter()) {
        let expected_items: Vec<SizedItem<()>> =
            sizes.iter().map(|s| SizedItem { item: (), size: *s }).collect();
        assert_eq!(bin.contents(), &expected_items[..]);
        assert_eq!(bin.remaining_capacity(), bin_size - sizes.iter().sum::<usize>());
    }
}

#[test]
fn first_fit_it_works() {
    let (test_data, bin_size) = generate_test_set_a();

    let result = first_fit(bin_size, test_data);

    // First fit does not give an optimal solution
    let expected = vec![
        vec![1, 1, 1, 1, 3, 4], // 11
        vec![10, 10],           // 20
        vec![10],               // 10
        vec![19],               // 19
        vec![19],               // 19
    ];

    assert_bins_match(&result, 20, &expected);
}

#[test]
fn first_fit_it_works_by_key() {
    let (test_data, bin_size) = generate_test_set_a();

    let result = first_fit_by_key(bin_size, test_data, |item: &SizedItem<()>| item.size);

    // First fit does not give an optimal solution
    let expected = vec![
        vec![1, 1, 1, 1, 3, 4], // 11
        vec![10, 10],           // 20
        vec![10],               // 10
        vec![19],               // 19
        vec![19],               // 19
    ];

    assert_bins_match(&result, 20, &expected);
}

#[test]
fn empty_input_returns_no_bins() {
    let packer: NextKFitPacker<SizedItem<()>, _> = NextKFitPacker::new(3, 10);
    assert!(packer.finalize().is_empty());

    let packer: NextKFitPacker<SizedItem<()>, _> = NextKFitPacker::new(3, 10);
    let bins = match packer.pack_all(vec![]) {
        Ok(bins) => bins,
        Err(_) => panic!("pack_all failed on empty input"),
    };
    assert!(bins.is_empty());
}

#[test]
fn test_dataset_a_k1() {
    let (test_data, bin_size) = generate_test_set_a();
    let packer = NextKFitPacker::new(1, bin_size);

    let bins = match packer.pack_all(test_data) {
        Ok(bins) => bins,
        Err(_) => panic!("pack_all failed"),
    };

    // With one bin lookahead, NextKFit does not give an optimal solution
    let expected = vec![
        vec![1, 1, 1, 1, 3, 4], // 11
        vec![10, 10],           // 20
        vec![10],               // 10
        vec![19],               // 19
        vec![19],               // 19
    ];

    assert_bins_match(&bins, 20, &expected);
}

#[test]
fn test_dataset_a_k1_seq() {
    let (test_data, bin_size) = generate_test_set_a();
    let mut packer = NextKFitPacker::new(1, bin_size);

    // This contains the expected bin outputs at every step:
    // if None, expecting zero bins,
    // if Some, expecting one bin whose contents have the given sizes.
    let mut expected = [
        None,
        None,
        None,
        None,
        None,
        None,
        Some(vec![1, 1, 1, 1, 3, 4]),
        None,
        Some(vec![10, 10]),
        Some(vec![10]),
        Some(vec![19]),
        // This bin is only produced after finalizing
        Some(vec![19]),
    ]
    .into_iter();

    for item in test_data {
        let produced_bin = packer.add(item).into_iter().next();
        let expected_bin = expected.next().unwrap();
        match (&expected_bin, &produced_bin) {
            (Some(sizes), Some(actual)) => {
                let expected_items: Vec<SizedItem<()>> =
                    sizes.iter().map(|s| SizedItem { item: (), size: *s }).collect();
                assert_eq!(actual.contents(), &expected_items[..]);
                assert_eq!(
                    actual.remaining_capacity(),
                    bin_size - sizes.iter().sum::<usize>()
                );
            }
            (None, None) => (),
            _ => panic!("Expected {:?}, got {:?}", expected_bin, produced_bin),
        }
    }

    let final_bins = packer.finalize();
    for (bin, sizes) in final_bins.iter().zip(expected) {
        let sizes = sizes.unwrap();
        let expected_items: Vec<SizedItem<()>> =
            sizes.iter().map(|s| SizedItem { item: (), size: *s }).collect();
        assert_eq!(bin.contents(), &expected_items[..]);
    }
}

#[test]
fn test_dataset_a_k2() {
    let (test_data, bin_size) = generate_test_set_a();
    let packer = NextKFitPacker::new(2, bin_size);

    let bins = match packer.pack_all(test_data) {
        Ok(bins) => bins,
        Err(_) => panic!("pack_all failed"),
    };

    // With two bin lookahead, NextKFit does not give an optimal solution;
    // however, it emits the same solution as Next1Fit, above,
    // but in a different order.
    let expected = vec![
        vec![10, 10],           // 20
        vec![1, 1, 1, 1, 3, 4], // 11
        vec![19],               // 19
        vec![19],               // 19
        vec![10],               // 10
    ];

    println!("{:#?}", bins);

    assert_bins_match(&bins, 20, &expected);
}
