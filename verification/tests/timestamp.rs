use agave_events::timestamp::{timestamp_ns, NANOS_PER_SEC};

#[test]
fn timestamp_adds_seconds_and_nanoseconds() {
    assert_eq!(timestamp_ns(0, 0), Some(0));
    assert_eq!(timestamp_ns(1, 5), Some(1_000_000_005));
    assert_eq!(timestamp_ns(3, 999_999_999), Some(3_999_999_999));
    assert_eq!(NANOS_PER_SEC, 1_000_000_000);
}

#[test]
fn timestamp_refuses_what_does_not_fit() {
    let max_secs = u64::MAX / NANOS_PER_SEC;
    let rest = (u64::MAX % NANOS_PER_SEC) as u32;
    assert_eq!(timestamp_ns(max_secs, rest), Some(u64::MAX));
    assert_eq!(timestamp_ns(max_secs, rest + 1), None);
    assert_eq!(timestamp_ns(max_secs + 1, 0), None);
    assert_eq!(timestamp_ns(u64::MAX, u32::MAX), None);
}
