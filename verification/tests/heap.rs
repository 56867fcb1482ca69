use ttl_set::heap::MutHeap;

#[test]
fn heap_smoke_test() {
    let mut heap = MutHeap::default();

    let a = heap.insert(10u64);
    heap.insert(20u64);

    assert_eq!(heap.peek_max(), Some(&20));

    heap.increment(&a, 110).unwrap();
    assert_eq!(heap.peek_max(), Some(&110));

    heap.decrement(&a, 10).unwrap();
    assert_eq!(heap.peek_max(), Some(&20));
}

#[test]
fn stale_handle_is_detected() {
    let mut heap = MutHeap::default();

    let a = heap.insert(10u64);
    assert_eq!(heap.pop_max(), Some(10));
    heap.insert(20u64);

    // The popped item's handle must be reported stale, not resolve to the
    // unrelated entry that now occupies the heap.
    assert!(heap.increment(&a, 100).is_err());
    assert!(heap.decrement(&a, 1).is_err());
    assert_eq!(heap.peek_max(), Some(&20));
}

#[test]
fn pop_returns_items_in_descending_order() {
    let mut heap = MutHeap::default();
    for v in [5u64, 1, 9, 3, 7, 2, 8, 6, 4] {
        heap.insert(v);
    }
    let mut popped = Vec::new();
    while let Some(v) = heap.pop_max() {
        popped.push(v);
    }
    assert_eq!(popped, vec![9, 8, 7, 6, 5, 4, 3, 2, 1]);
}

#[test]
fn handles_follow_their_items_through_swaps() {
    let mut heap = MutHeap::default();
    let mut handles = Vec::new();
    for v in 1u64..=8 {
        handles.push(heap.insert(v));
    }
    // Raise the item that was inserted as 3; only it may change.
    heap.increment(&handles[2], 100).unwrap();
    assert_eq!(heap.peek_max(), Some(&100));
    // Lower it back below everything; the remaining maximum is 8.
    heap.decrement(&handles[2], 0).unwrap();
    assert_eq!(heap.pop_max(), Some(8));
    // The handle of 7 still finds its own item after all the swaps.
    heap.increment(&handles[6], 70).unwrap();
    assert_eq!(heap.pop_max(), Some(70));
}

#[test]
fn increment_ignores_a_lower_value() {
    let mut heap = MutHeap::default();
    let a = heap.insert(50u64);
    // An "increase" to a smaller value leaves the entry as it is, and the
    // symmetric decrease to a larger one does too.
    heap.increment(&a, 10).unwrap();
    assert_eq!(heap.peek_max(), Some(&50));
    heap.decrement(&a, 90).unwrap();
    assert_eq!(heap.peek_max(), Some(&50));
}
