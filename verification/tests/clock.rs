use soymilk_curry::clock::{epoch_stamp, unix_time_ms};
use std::time::{SystemTime, UNIX_EPOCH};

#[test]
fn tells_the_milliseconds_since_the_epoch() {
    let millis = || SystemTime::now().duration_since(UNIX_EPOCH).unwrap().as_millis() as u64;
    let before = millis();
    let now = unix_time_ms();
    let after = millis();
    assert!(before <= now && now <= after);
}

#[test]
fn stamps_are_the_low_bits() {
    assert_eq!(epoch_stamp(Some(0)), 0);
    assert_eq!(epoch_stamp(Some(1_700_000_000_123)), 1_700_000_000_123);
    assert_eq!(epoch_stamp(Some((1u128 << 64) + 5)), 5);
    assert_eq!(epoch_stamp(Some(u128::MAX)), u64::MAX);
}

#[test]
fn a_clock_before_the_epoch_reads_zero() {
    assert_eq!(epoch_stamp(None), 0);
}
