use osu_mania::time::{millis_from_parts, AsMillis};
use std::time::Duration;

#[test]
fn millis_from_whole_seconds_and_nanos() {
    assert_eq!(millis_from_parts(3, 250_000_000), 3250);
    assert_eq!(millis_from_parts(0, 999_999_999), 999);
    assert_eq!(millis_from_parts(0, 0), 0);
}

#[test]
fn millis_wrap_like_a_machine_word() {
    let secs = u64::MAX / 1000 + 1;
    let expected = ((secs as u128 * 1000) % (1u128 << 64)) as u64;
    assert_eq!(millis_from_parts(secs, 0), expected);
}

#[test]
fn duration_as_millis() {
    let d = Duration::new(12, 345_678_901);
    assert_eq!(AsMillis::as_millis(&d), 12_345);
    let d = Duration::from_millis(42);
    assert_eq!(AsMillis::as_millis(&d), 42);
}

#[test]
fn large_duration_as_millis_is_exact() {
    let d = Duration::new(1_000_000_000_000, 999_000_000);
    assert_eq!(AsMillis::as_millis(&d), 1_000_000_000_000_999);
}
