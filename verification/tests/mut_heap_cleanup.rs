use ttl_set::fake_clock::FakeClock;
use ttl_set::mut_heap_cleanup::HeapCleanup;
use ttl_set::Clock;
use ttl_set::TtlSet;

#[test]
fn mut_heap_cleanup_tree_cleanup_smoke_test() {
    let mut m = HeapCleanup::<FakeClock>::default();

    assert!(!m.contains(0));

    m.insert(0, 15_000);
    assert!(m.contains(0));

    m.clock.advance(10_000);
    assert!(m.contains(0));

    m.clock.advance(10_000);
    assert!(!m.contains(0));
}

#[test]
fn mut_heap_cleanup_overwriting_entries_wiped_old_expirations() {
    let mut m = HeapCleanup::<FakeClock>::default();

    assert!(!m.contains(0));

    m.insert(0, 15_000);
    assert!(m.contains(0));

    m.insert(0, 150_000);
    assert!(m.contains(0));

    m.clock.advance(100_000);
    assert!(m.contains(0));
}

#[test]
fn mut_heap_cleanup_keeps_one_record_per_item() {
    let mut m = HeapCleanup::<FakeClock>::default();
    // Refreshing the same id over and over must relocate its one record,
    // never leave a stale duplicate behind.
    for round in 0..100u64 {
        m.insert(7, 10_000 + (round % 5) * 1_000);
    }
    assert_eq!(m.backlog(), 1);
    assert!(m.contains(7));
}

#[test]
fn mut_heap_cleanup_refresh_can_shorten_a_ttl() {
    let mut m = HeapCleanup::<FakeClock>::default();
    m.insert(0, 150_000);
    m.insert(0, 15_000);
    m.clock.advance(20_000);
    assert!(!m.contains(0));
}

#[test]
fn mut_heap_cleanup_converges_after_mass_expiry() {
    let mut m = HeapCleanup::<FakeClock>::default();
    for i in 0..50u64 {
        m.insert(i, (i + 1) * 10);
    }
    assert_eq!(m.backlog(), 50);
    m.clock.advance(1_000_000);
    assert!(!m.contains(0));
    assert_eq!(m.backlog(), 0);
}

#[test]
fn mut_heap_cleanup_refresh_orders_cleanup_correctly() {
    let mut m = HeapCleanup::<FakeClock>::default();
    m.insert(1, 10_000);
    m.insert(2, 20_000);
    m.insert(3, 30_000);
    // Push item 1 past the others; its record must really move in the heap.
    m.insert(1, 40_000);
    m.clock.advance(25_000);
    assert!(m.contains(1));
    assert!(!m.contains(2));
    assert!(m.contains(3));
    m.clock.advance(10_000);
    assert!(m.contains(1));
    assert!(!m.contains(3));
}
