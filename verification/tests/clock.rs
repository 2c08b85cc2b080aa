use ring_wallet::clock::{moment, now};

#[test]
fn a_moment_is_seconds_since_the_epoch() {
    assert_eq!(moment(Some(0)), 0);
    assert_eq!(moment(Some(1_700_000_000)), 1_700_000_000);
    assert_eq!(moment(None), 0);
    assert_eq!(moment(Some(i64::MAX as u64)), i64::MAX);
    assert_eq!(moment(Some(i64::MAX as u64 + 1)), i64::MIN);
    assert_eq!(moment(Some(u64::MAX)), -1);
}

#[test]
fn the_clock_is_past_the_epoch() {
    assert!(now() > 1_600_000_000);
}
