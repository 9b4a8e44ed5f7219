use spine_ui::clock::{now_unix_timestamp_ms, timestamp_of};

#[test]
fn timestamps_stay_in_range() {
    assert_eq!(timestamp_of(None), 0);
    assert_eq!(timestamp_of(Some(0)), 0);
    assert_eq!(timestamp_of(Some(1_700_000_000_123)), 1_700_000_000_123);
    assert_eq!(timestamp_of(Some(i64::MAX as u128)), i64::MAX);
    assert_eq!(timestamp_of(Some(i64::MAX as u128 + 1)), i64::MAX);
    assert_eq!(timestamp_of(Some(u128::MAX)), i64::MAX);
}

#[test]
fn the_clock_counts_milliseconds_since_the_epoch() {
    let now = now_unix_timestamp_ms();
    assert!(now > 1_600_000_000_000);
    assert!(now < 10_000_000_000_000);
}
