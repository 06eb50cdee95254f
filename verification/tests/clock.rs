use std::time::{SystemTime, UNIX_EPOCH};
use up4::clock::{delta_us, monotonic_us, now_us, wall_us};

#[test]
fn wall_clock_is_after_2020() {
    let since = SystemTime::now()
        .duration_since(UNIX_EPOCH)
        .ok()
        .map(|d| (d.as_secs(), d.subsec_nanos()));
    assert!(
        wall_us(since) > 1_577_836_800_000_000,
        "2020-01-01 in microseconds"
    );
}

#[test]
fn a_clock_before_the_epoch_reads_zero() {
    assert_eq!(wall_us(None), 0);
    assert_eq!(wall_us(Some((1, 999_999_999))), 1_999_999);
    assert_eq!(wall_us(Some((u64::MAX, 0))), (u64::MAX as u128 * 1_000_000) as u64);
}

#[test]
fn delta_survives_the_wrap() {
    assert_eq!(delta_us(5, 3), 2);
    assert_eq!(delta_us(1, u32::MAX), 2);
    assert_eq!(delta_us(u32::MAX, 1), -2);
}

#[test]
fn timestamps_are_the_low_half_of_a_monotonic_reading() {
    assert_eq!(monotonic_us(5000, 7_999), 5_000_000_007);
    assert_eq!(now_us(5_000_000_007), 705_032_711);
    assert_eq!(delta_us(now_us(4_294_967_300), now_us(4_294_967_290)), 10);
}
