use reliable_provider::clock::{to_reading, Clock};

#[test]
fn reading_saturates_at_the_largest_reading() {
    assert_eq!(to_reading(0), 0);
    assert_eq!(to_reading(1_234), 1_234);
    assert_eq!(to_reading(u64::MAX as u128), u64::MAX);
    assert_eq!(to_reading(u64::MAX as u128 + 1), u64::MAX);
    assert_eq!(to_reading(u128::MAX), u64::MAX);
}

#[test]
fn clock_counts_up_from_its_start() {
    let clock = Clock::start();
    let first = clock.now();
    assert!(first < 60_000);
    // Read until the clock has moved on by a few milliseconds.
    let mut latest = first;
    let mut reads: u64 = 0;
    while latest < first + 5 && reads < 4_000_000_000 {
        let reading = clock.now();
        assert!(reading >= latest);
        latest = reading;
        reads += 1;
    }
    assert!(latest >= first + 5);
    assert!(latest < first + 60_000);
}
