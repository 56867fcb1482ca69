//! The four strategies run one fixed script of inserts, queries and clock
//! advances; at every query they must answer alike.
use ttl_set::fake_clock::FakeClock;
use ttl_set::Clock;
use ttl_set::TtlSet;

enum Step {
    Insert(u64, u64),
    Query(u64),
    Advance(u64),
}

fn script() -> Vec<Step> {
    vec![
        Step::Query(5),
        Step::Insert(1, 10_000),
        Step::Insert(2, 25_000),
        Step::Query(1),
        Step::Query(2),
        Step::Advance(5_000),
        Step::Query(1),
        Step::Insert(1, 1_000),
        Step::Advance(2_000),
        Step::Query(1),
        Step::Query(2),
        Step::Insert(3, 100),
        Step::Advance(50),
        Step::Query(3),
        Step::Advance(100_000),
        Step::Query(1),
        Step::Query(2),
        Step::Query(3),
        Step::Insert(2, 500),
        Step::Query(2),
    ]
}

fn run_redactor() -> Vec<bool> {
    let mut m = ttl_set::redactor::Redactor::<FakeClock>::new();
    let mut answers = Vec::new();
    for step in script() {
        match step {
            Step::Insert(i, d) => m.insert(i, d),
            Step::Query(i) => answers.push(m.contains(i)),
            Step::Advance(d) => m.clock.advance(d),
        }
    }
    answers
}

fn run_heap_cleanup() -> Vec<bool> {
    let mut m = ttl_set::heap_cleanup::HeapCleanup::<FakeClock>::default();
    let mut answers = Vec::new();
    for step in script() {
        match step {
            Step::Insert(i, d) => m.insert(i, d),
            Step::Query(i) => answers.push(m.contains(i)),
            Step::Advance(d) => m.clock.advance(d),
        }
    }
    answers
}

fn run_mut_heap_cleanup() -> Vec<bool> {
    let mut m = ttl_set::mut_heap_cleanup::HeapCleanup::<FakeClock>::default();
    let mut answers = Vec::new();
    for step in script() {
        match step {
            Step::Insert(i, d) => m.insert(i, d),
            Step::Query(i) => answers.push(m.contains(i)),
            Step::Advance(d) => m.clock.advance(d),
        }
    }
    answers
}

fn run_tree_cleanup() -> Vec<bool> {
    let mut m = ttl_set::tree_cleanup::TreeCleanup::<FakeClock>::new();
    let mut answers = Vec::new();
    for step in script() {
        match step {
            Step::Insert(i, d) => m.insert(i, d),
            Step::Query(i) => answers.push(m.contains(i)),
            Step::Advance(d) => m.clock.advance(d),
        }
    }
    answers
}

#[test]
fn strategies_answer_identically() {
    let baseline = run_redactor();
    assert_eq!(baseline, run_heap_cleanup());
    assert_eq!(baseline, run_mut_heap_cleanup());
    assert_eq!(baseline, run_tree_cleanup());
}

#[test]
fn expected_answers_of_the_script() {
    // Every clock reading advances the fake clock by one, starting at 1, so
    // the expected truth of each query can be worked out by hand.
    let expected = vec![
        false, // 5 was never inserted
        true,  // 1 expires at 10_002, queried at 4
        true,  // 2 expires at 25_003, queried at 5
        true,  // 1 queried at 5_006, still before 10_002
        false, // 1 was refreshed to expire at 6_007, queried at 7_008
        true,  // 2 queried at 7_009
        true,  // 3 expires at 7_110, queried at 7_061
        false, // 1 queried far past 6_007
        false, // 2 queried far past 25_003
        false, // 3 queried far past 7_110
        true,  // 2 re-inserted, expires well after the final query
    ];
    assert_eq!(run_redactor(), expected);
}
