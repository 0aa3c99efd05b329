use pack_it_up::wrapper::SizedWrapper;

/// Ensure that the wrapper struct does not introduce any memory overhead
/// when the key function is a simple function pointer
/// or a non-capturing closure.
#[test]
fn check_size_eq() {
    let original = vec![1, 2, 3];
    let wrapper = SizedWrapper::new(Vec::len, original.clone());

    assert_eq!(
        std::mem::size_of_val(&original),
        std::mem::size_of_val(&wrapper)
    );

    let wrapper_weird = SizedWrapper::new(|_: &Vec<i32>| 1, original.clone());

    assert_eq!(
        std::mem::size_of_val(&original),
        std::mem::size_of_val(&wrapper_weird)
    );
}

/// Ensure that when the key function captures some data,
/// that the wrapper struct's size is a simple combination of the size of
/// the captured data and whatever it's wrapping.
#[test]
fn check_size_when_combining() {
    let original = vec![1, 2, 3];
    let (sender, _recv) = std::sync::mpsc::channel();
    let sender_size = std::mem::size_of_val(&sender);

    let key_function = move |item: &Vec<i32>| {
        // naughty: we're sending a copy of the vector into the channel
        sender.send(item.to_vec().clone()).unwrap();
        item.iter().map(|v| *v as usize).sum()
    };

    let wrapper = SizedWrapper::new(key_function, original.clone());

    // The sender has some size...
    assert_ne!(sender_size, 0);

    // and the wrapper's size is equal to the size of the sender, and the
    // size of the `original` Vec.  This is because the wrapper does not
    // actually contain the function pointer, it only contains `sender`
    // and `original`; the function pointer is associated with it
    // implicitly by the type system.
    assert_eq!(
        std::mem::size_of_val(&original) + sender_size,
        std::mem::size_of_val(&wrapper)
    );
}

/// The wrapper answers size queries through the stored function.
#[test]
fn wrapper_reports_size_through_function() {
    let wrapper = SizedWrapper::new(|v: &Vec<i32>| v.len() * 10, vec![1, 2, 3]);
    assert_eq!(wrapper.size(), 30);
    assert_eq!(wrapper.take(), vec![1, 2, 3]);
}
