use ttl_set::fake_clock::FakeClock;
use ttl_set::heap_cleanup::HeapCleanup;
use ttl_set::Clock;
use ttl_set::TtlSet;

#[test]
fn heap_cleanup_tree_cleanup_smoke_test() {
    let mut m = HeapCleanup::<FakeClock>::default();

    assert!(!m.contains(0));

    m.insert(0, 15_000);
    assert!(m.contains(0));

    m.clock.advance(10_000);
    assert!(m.contains(0));

    m.clock.advance(10_000);
    assert!(!m.contains(0));
}

#[test]
fn heap_cleanup_overwriting_entries_wiped_old_expirations() {
    let mut m = HeapCleanup::<FakeClock>::default();

    assert!(!m.contains(0));

    m.insert(0, 15_000);
    assert!(m.contains(0));

    m.insert(0, 150_000);
    assert!(m.contains(0));

    m.clock.advance(100_000);
    assert!(m.contains(0));
}

#[test]
fn heap_cleanup_expiry_is_exclusive_at_the_boundary() {
    let mut m = HeapCleanup::<FakeClock>::default();
    // The clock reads 1 for this insert, so the expiry is 1 + 10 = 11.
    m.insert(0, 10);
    // Advance so the next reading is exactly the expiry time: still false,
    // membership holds only strictly before the recorded expiry.
    m.clock.advance(9);
    assert!(!m.contains(0));

    let mut m2 = HeapCleanup::<FakeClock>::default();
    m2.insert(0, 10);
    m2.clock.advance(8);
    // Here the reading is 10, one before the expiry 11.
    assert!(m2.contains(0));
}

#[test]
fn heap_cleanup_converges_after_mass_expiry() {
    let mut m = HeapCleanup::<FakeClock>::default();
    for i in 0..50u64 {
        m.insert(i, (i + 1) * 10);
    }
    assert!(m.backlog() > 0);
    m.clock.advance(1_000_000);
    // One read catches the cleanup up: no expired record lingers.
    assert!(!m.contains(0));
    assert_eq!(m.backlog(), 0);
}

#[test]
fn heap_cleanup_refresh_can_shorten_a_ttl() {
    let mut m = HeapCleanup::<FakeClock>::default();
    m.insert(0, 150_000);
    m.insert(0, 15_000);
    m.clock.advance(20_000);
    assert!(!m.contains(0));
}

#[test]
fn heap_cleanup_reinsert_after_expiry_works() {
    let mut m = HeapCleanup::<FakeClock>::default();
    m.insert(0, 10);
    m.clock.advance(100);
    // Expired but not yet cleaned: a fresh insert must still take effect.
    m.insert(0, 50_000);
    assert!(m.contains(0));
    m.clock.advance(10_000);
    assert!(m.contains(0));
}

#[test]
fn advance_clock_matches_direct_clock_advance() {
    let mut a = HeapCleanup::<FakeClock>::default();
    let mut b = HeapCleanup::<FakeClock>::default();
    a.insert(0, 15_000);
    b.insert(0, 15_000);
    a.clock.advance(10_000);
    b.advance_clock(10_000);
    assert_eq!(a.contains(0), b.contains(0));
    a.clock.advance(10_000);
    b.advance_clock(10_000);
    assert_eq!(a.contains(0), b.contains(0));
    assert!(!b.contains(0));
}
