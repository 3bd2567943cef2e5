use termpaper::clock::{Duration, Instant};

#[test]
fn durations_count_nanoseconds() {
    assert_eq!(Duration::from_secs(12).nanos, 12_000_000_000);
    assert_eq!(Duration::from_millis(250).nanos, 250_000_000);
    assert_eq!(Duration::from_nanos(7).nanos, 7);
}

#[test]
fn elapsed_time_saturates_at_zero() {
    let a = Instant::from_nanos(100);
    let b = a.plus(Duration::from_nanos(50));
    assert_eq!(b.nanos, 150);
    assert_eq!(b.duration_since(a), Duration::from_nanos(50));
    assert_eq!(a.duration_since(b), Duration::from_nanos(0));
}
