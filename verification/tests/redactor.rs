use ttl_set::fake_clock::FakeClock;
use ttl_set::redactor::Redactor;
use ttl_set::Clock;
use ttl_set::TtlSet;

#[test]
fn redactor_smoke_test() {
    let mut m = Redactor::<FakeClock>::new();

    assert!(!m.contains(0));

    m.insert(0, 15_000);
    assert!(m.contains(0));

    m.clock.advance(10_000);
    assert!(m.contains(0));

    m.clock.advance(10_000);
    assert!(!m.contains(0));
}

#[test]
fn redactor_refresh_takes_effect() {
    let mut m = Redactor::<FakeClock>::new();
    m.insert(0, 15_000);
    m.insert(0, 150_000);
    m.clock.advance(100_000);
    assert!(m.contains(0));

    let mut m2 = Redactor::<FakeClock>::new();
    m2.insert(0, 150_000);
    m2.insert(0, 15_000);
    m2.clock.advance(100_000);
    assert!(!m2.contains(0));
}

#[test]
fn fake_clock_quantum_is_configurable() {
    let mut m = Redactor::<FakeClock>::new();
    m.clock = FakeClock::with_quantum(1_000);
    // The insert reads 1_000, recording an expiry of 11_000; each query
    // then advances the clock by a full second.
    m.insert(0, 10_000);
    for _ in 0..9 {
        assert!(m.contains(0));
    }
    assert!(!m.contains(0));
}

#[test]
fn saturating_expiry_never_wraps() {
    assert_eq!(ttl_set::sat_add(2, 3), 5);
    assert_eq!(ttl_set::sat_add(u64::MAX - 1, 5), u64::MAX);
    assert_eq!(ttl_set::sat_add(0, u64::MAX), u64::MAX);

    // A time-to-live near the maximum must not wrap into the past.
    let mut m = Redactor::<FakeClock>::new();
    m.insert(0, u64::MAX);
    m.clock.advance(1_000_000);
    assert!(m.contains(0));
}
