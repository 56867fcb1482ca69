use ttl_set::fake_clock::FakeClock;
use ttl_set::tree_cleanup::TreeCleanup;
use ttl_set::Clock;
use ttl_set::TtlSet;

#[test]
fn tree_cleanup_tree_cleanup_smoke_test() {
    let mut m = TreeCleanup::<FakeClock>::new();

    assert!(!m.contains(0));

    m.insert(0, 15_000);
    assert!(m.contains(0));

    m.clock.advance(10_000);
    assert!(m.contains(0));

    m.clock.advance(10_000);
    assert!(!m.contains(0));
}

#[test]
fn tree_cleanup_overwriting_entries_wiped_old_expirations() {
    let mut m = TreeCleanup::<FakeClock>::new();

    assert!(!m.contains(0));

    m.insert(0, 15_000);
    assert!(m.contains(0));

    m.insert(0, 150_000);
    assert!(m.contains(0));

    m.clock.advance(100_000);
    assert!(m.contains(0));
}

#[test]
fn tree_cleanup_items_can_share_a_bucket() {
    let mut m = TreeCleanup::<FakeClock>::new();
    // The two reads of the clock differ by one, so these expiries coincide
    // and the two ids land in the same time bucket.
    m.insert(1, 10_000);
    m.insert(2, 9_999);
    assert_eq!(m.backlog(), 1);
    assert!(m.contains(1));
    assert!(m.contains(2));
    m.clock.advance(20_000);
    assert!(!m.contains(1));
    assert!(!m.contains(2));
    assert_eq!(m.backlog(), 0);
}

#[test]
fn tree_cleanup_refresh_moves_between_buckets() {
    let mut m = TreeCleanup::<FakeClock>::new();
    m.insert(1, 10_000);
    m.insert(2, 20_000);
    m.insert(1, 30_000);
    m.clock.advance(15_000);
    assert!(m.contains(1));
    assert!(m.contains(2));
    m.clock.advance(10_000);
    assert!(m.contains(1));
    assert!(!m.contains(2));
}

#[test]
fn tree_cleanup_converges_after_mass_expiry() {
    let mut m = TreeCleanup::<FakeClock>::new();
    for i in 0..50u64 {
        m.insert(i, (i + 1) * 10);
    }
    assert!(m.backlog() > 0);
    m.clock.advance(1_000_000);
    assert!(!m.contains(0));
    assert_eq!(m.backlog(), 0);
}
